//! The command layer: which command a request array asks for, whether its
//! arguments have the right shape, and what the command does to the store.

use crate::backend::{Backend, Store};
use crate::error::{resp_error_text, RespError};
use crate::frame::{
    lemma_models, models, BulkString, Frame, RespArray, RespFrame, RespMap, RespNull,
    SimpleString,
};
use crate::lex::same;
use crate::text::{
    decimal_string, decimal_text, lossy_text, lowered, text_from_utf8, text_lossy, to_lower,
};
use vstd::prelude::*;
use vstd::slice::slice_to_vec;
use vstd::string::*;
use vstd::utf8::*;

verus! {

/// Why a request is no command. The model of [`CommandError`].
pub enum CommandFault {
    InvalidCommand(Seq<char>),
    InvalidArgument(Seq<char>),
    RespError(RespError),
    Utf8Error,
}

/// Why a request is no command.
#[derive(Debug, PartialEq)]
pub enum CommandError {
    /// The request is not an array that begins with a name, or the name is
    /// not the one that was asked for. The text says which.
    InvalidCommand(String),
    /// The command has the wrong number of arguments, or an argument of the
    /// wrong type. The text says which.
    InvalidArgument(String),
    /// The request could not be read.
    RespError(RespError),
    /// A key or a field is not UTF-8.
    Utf8Error,
}

impl View for CommandError {
    type V = CommandFault;

    open spec fn view(&self) -> CommandFault {
        match self {
            CommandError::InvalidCommand(m) => CommandFault::InvalidCommand(m@),
            CommandError::InvalidArgument(m) => CommandFault::InvalidArgument(m@),
            CommandError::RespError(e) => CommandFault::RespError(*e),
            CommandError::Utf8Error => CommandFault::Utf8Error,
        }
    }
}

/// What a client asks for. The model of [`Command`]: keys and fields by
/// their UTF-8 bytes.
pub enum Request {
    Get { key: Seq<u8> },
    SetValue { key: Seq<u8>, value: Frame },
    HGet { key: Seq<u8>, field: Seq<u8> },
    HSet { key: Seq<u8>, field: Seq<u8>, value: Frame },
    HGetAll { key: Seq<u8> },
    Unrecognized,
}

/// `GET key`.
#[derive(Debug)]
pub struct Get {
    pub key: String,
}

/// `SET key value`.
#[derive(Debug)]
pub struct SetValue {
    pub key: String,
    pub value: RespFrame,
}

/// `HGET key field`.
#[derive(Debug)]
pub struct HGet {
    pub key: String,
    pub field: String,
}

/// `HSET key field value`.
#[derive(Debug)]
pub struct HSet {
    pub key: String,
    pub field: String,
    pub value: RespFrame,
}

/// `HGETALL key`. The reply lists the fields in ascending order, whether
/// `sort` asks for it or not.
#[derive(Debug)]
pub struct HGetAll {
    pub key: String,
    pub sort: bool,
}

/// A command of a name that this server does not know.
#[derive(Debug)]
pub struct Unrecognized;

/// A command.
#[derive(Debug)]
pub enum Command {
    Get(Get),
    SetValue(SetValue),
    HGet(HGet),
    HSet(HSet),
    HGetAll(HGetAll),
    Unrecognized(Unrecognized),
}

impl View for Command {
    type V = Request;

    open spec fn view(&self) -> Request {
        match self {
            Command::Get(c) => c.request(),
            Command::SetValue(c) => c.request(),
            Command::HGet(c) => c.request(),
            Command::HSet(c) => c.request(),
            Command::HGetAll(c) => c.request(),
            Command::Unrecognized(c) => c.request(),
        }
    }
}

/// The names of a command, each followed by a blank but for the last.
pub open spec fn joined(names: Seq<Seq<char>>) -> Seq<char>
    decreases names.len(),
{
    if names.len() == 0 {
        Seq::empty()
    } else if names.len() == 1 {
        names[0]
    } else {
        joined(names.drop_last()) + " "@ + names.last()
    }
}

/// What is said of a command with the wrong number of arguments.
pub open spec fn arity_message(names: Seq<Seq<char>>, n_args: nat) -> Seq<char> {
    joined(names) + " command must have exactly "@ + decimal_text(n_args) + " arguments"@
}

/// What is said of a command that is called `got` where `name` was asked
/// for.
pub open spec fn mismatch_message(name: Seq<char>, got: Seq<char>) -> Seq<char> {
    "Invalid command: expected "@ + name + ", got "@ + got
}

/// What is said of a command under another name than `name`: the name it
/// has is shown as text, whatever bytes it holds.
pub open spec fn name_message(name: Seq<char>, got: Seq<u8>) -> Seq<char> {
    mismatch_message(name, lossy_text(got))
}

/// What is wrong with the names at the head of `items` from index `from`
/// on: the first that is no bulk string, or is not, in lower case, the name
/// that `names` has at its place.
pub open spec fn name_fault(items: Seq<Frame>, names: Seq<Seq<char>>, from: int) -> Option<
    CommandFault,
>
    decreases names.len() - from,
{
    if from < 0 || from >= names.len() {
        None
    } else {
        match items[from] {
            Frame::BulkString(b) => if lowered(b) != encode_utf8(names[from]) {
                Some(CommandFault::InvalidCommand(name_message(names[from], b)))
            } else {
                name_fault(items, names, from + 1)
            },
            _ => Some(
                CommandFault::InvalidArgument(
                    "command must have a BulkString as first argument"@,
                ),
            ),
        }
    }
}

/// What is wrong with `items` as a command of the names `names` with
/// `n_args` arguments: the number of items first, then the names.
pub open spec fn validation(items: Seq<Frame>, names: Seq<Seq<char>>, n_args: nat) -> Option<
    CommandFault,
> {
    if items.len() != n_args + 1 {
        Some(CommandFault::InvalidArgument(arity_message(names, n_args)))
    } else {
        name_fault(items, names, 0)
    }
}

/// The texts of `names`.
pub open spec fn name_texts(names: Seq<&'static str>) -> Seq<Seq<char>> {
    Seq::new(names.len(), |i: int| names[i]@)
}

/// The names of a command, each followed by a blank but for the last.
fn join_names(names: &[&'static str]) -> (r: String)
    ensures
        r@ == joined(name_texts(names@)),
{
    let mut out = String::new();
    let mut i: usize = 0;
    let ghost texts = name_texts(names@);
    while i < names.len()
        invariant
            i <= names@.len(),
            texts == name_texts(names@),
            out@ == joined(texts.take(i as int)),
        decreases names@.len() - i,
    {
        proof {
            assert(texts.take(i + 1).drop_last() =~= texts.take(i as int));
            assert(texts.take(i + 1).last() == names@[i as int]@);
        }
        if i > 0 {
            out.append(" ");
        }
        out.append(names[i]);
        proof {
            if i == 0 {
                assert(out@ =~= names@[0]@);
            }
        }
        i = i + 1;
    }
    assert(texts.take(i as int) =~= texts);
    out
}

/// The failure of a command that is called `got` where `name` was asked
/// for.
pub fn name_mismatch(name: &str, got: &str) -> (e: CommandError)
    ensures
        e@ == CommandFault::InvalidCommand(mismatch_message(name@, got@)),
{
    let mut message = String::from_str("Invalid command: expected ");
    message.append(name);
    message.append(", got ");
    message.append(got);
    CommandError::InvalidCommand(message)
}

/// Checks that `value` has `n_args` arguments behind its name and that its
/// leading items are, whatever their case, the names `names`.
pub fn validate_command(value: &RespArray, names: &[&'static str], n_args: usize) -> (r: Result<
    (),
    CommandError,
>)
    requires
        names@.len() <= n_args + 1,
    ensures
        match validation(value@, name_texts(names@), n_args as nat) {
            None => r is Ok,
            Some(fault) => r matches Err(e) && e@ == fault,
        },
{
    let items = value.items();
    proof {
        lemma_models(items@);
    }
    let n: usize = items.len();
    if n_args == usize::MAX || n != n_args + 1 {
        let mut message = join_names(names);
        message.append(" command must have exactly ");
        message.append(decimal_string(n_args as u64).as_str());
        message.append(" arguments");
        return Err(CommandError::InvalidArgument(message));
    }
    let ghost texts = name_texts(names@);
    let mut i: usize = 0;
    while i < names.len()
        invariant
            i <= names@.len() <= items@.len(),
            texts == name_texts(names@),
            models(items@) == value@,
            value@.len() == items@.len() == n_args + 1,
            forall|k: int| 0 <= k < items@.len() ==> (#[trigger] value@[k]) == items@[k]@,
            name_fault(value@, texts, 0) == name_fault(value@, texts, i as int),
        decreases names@.len() - i,
    {
        match &items[i] {
            RespFrame::BulkString(name) => {
                let low = to_lower(name.as_slice());
                if !same(low.as_slice(), names[i].as_bytes()) {
                    let got = text_lossy(name.as_slice());
                    return Err(name_mismatch(names[i], got.as_str()));
                }
            },
            _ => {
                return Err(
                    CommandError::InvalidArgument(
                        String::from_str("command must have a BulkString as first argument"),
                    ),
                );
            },
        }
        i = i + 1;
    }
    Ok(())
}

/// The items of `value` from index `start` on.
pub fn extract_args(value: RespArray, start: usize) -> (r: Result<Vec<RespFrame>, CommandError>)
    ensures
        r matches Ok(args) && models(args@) == if start <= value@.len() {
            value@.subrange(start as int, value@.len() as int)
        } else {
            Seq::empty()
        },
{
    let mut items = value.into_items();
    proof {
        lemma_models(items@);
    }
    if start > items.len() {
        return Ok(Vec::new());
    }
    let args = items.split_off(start);
    proof {
        lemma_models(args@);
        assert(models(args@) =~= value@.subrange(start as int, value@.len() as int));
    }
    Ok(args)
}

/// The reply that tells a client that its command was carried out.
pub open spec fn ok_reply() -> Frame {
    Frame::SimpleString(encode_utf8("OK"@))
}

/// The fields of a hash as a reply lists them: each field as a bulk string
/// with its frame behind it, in the order of the fields.
pub open spec fn flatten(fields: Seq<(Seq<u8>, Frame)>) -> Seq<Frame>
    decreases fields.len(),
{
    if fields.len() == 0 {
        Seq::empty()
    } else {
        flatten(fields.drop_last()).push(Frame::BulkString(fields.last().0)).push(fields.last().1)
    }
}

/// The reply to `request` from a store that holds `store`.
pub open spec fn reply_to(request: Request, store: Store) -> Frame {
    match request {
        Request::Get { key } => match store.get(key) {
            Some(f) => f,
            None => Frame::Null,
        },
        Request::SetValue { key, value } => ok_reply(),
        Request::HGet { key, field } => match store.hget(key, field) {
            Some(f) => f,
            None => Frame::Null,
        },
        Request::HSet { key, field, value } => ok_reply(),
        Request::HGetAll { key } => match store.hgetall(key) {
            Some(fields) => Frame::Array(flatten(fields)),
            None => Frame::Array(Seq::empty()),
        },
        Request::Unrecognized => ok_reply(),
    }
}

/// What a store that holds `store` holds once `request` was carried out.
pub open spec fn effect_of(request: Request, store: Store) -> Store {
    match request {
        Request::SetValue { key, value } => store.set(key, value),
        Request::HSet { key, field, value } => store.hset(key, field, value),
        _ => store,
    }
}

/// A command that can be carried out against the store.
pub trait CommandExecutor: Sized {
    /// What the command asks for.
    spec fn request(&self) -> Request;

    /// Carries the command out and gives the reply.
    fn execute(self, backend: &mut Backend) -> (r: RespFrame)
        ensures
            r@ == reply_to(self.request(), old(backend)@),
            final(backend)@ == effect_of(self.request(), old(backend)@),
    ;
}

/// The frame that tells a client that its command was carried out.
pub fn resp_ok() -> (r: RespFrame)
    ensures
        r@ == ok_reply(),
{
    RespFrame::SimpleString(SimpleString::new("OK"))
}

impl CommandExecutor for Get {
    open spec fn request(&self) -> Request {
        Request::Get { key: encode_utf8(self.key@) }
    }

    fn execute(self, backend: &mut Backend) -> (r: RespFrame) {
        match backend.get(self.key.as_str()) {
            Some(value) => value,
            None => RespFrame::Null(RespNull),
        }
    }
}

impl CommandExecutor for SetValue {
    open spec fn request(&self) -> Request {
        Request::SetValue { key: encode_utf8(self.key@), value: self.value@ }
    }

    fn execute(self, backend: &mut Backend) -> (r: RespFrame) {
        backend.set(self.key, self.value);
        resp_ok()
    }
}

impl CommandExecutor for HGet {
    open spec fn request(&self) -> Request {
        Request::HGet { key: encode_utf8(self.key@), field: encode_utf8(self.field@) }
    }

    fn execute(self, backend: &mut Backend) -> (r: RespFrame) {
        match backend.hget(self.key.as_str(), self.field.as_str()) {
            Some(value) => value,
            None => RespFrame::Null(RespNull),
        }
    }
}

impl CommandExecutor for HSet {
    open spec fn request(&self) -> Request {
        Request::HSet {
            key: encode_utf8(self.key@),
            field: encode_utf8(self.field@),
            value: self.value@,
        }
    }

    fn execute(self, backend: &mut Backend) -> (r: RespFrame) {
        backend.hset(self.key, self.field, self.value);
        resp_ok()
    }
}

/// The fields of `fields` as a reply lists them.
fn list_fields(fields: &RespMap) -> (r: Vec<RespFrame>)
    ensures
        models(r@) == flatten(fields@),
{
    let n: usize = fields.len();
    let mut out: Vec<RespFrame> = Vec::new();
    let mut i: usize = 0;
    while i < n
        invariant
            i <= n == fields@.len(),
            models(out@) == flatten(fields@.take(i as int)),
        decreases n - i,
    {
        let ghost before = out@;
        let key = BulkString::new(slice_to_vec(fields.key_at(i).as_bytes()));
        let value = fields.value_at(i).clone();
        let ghost k = RespFrame::BulkString(key);
        let ghost v = value;
        out.push(RespFrame::BulkString(key));
        out.push(value);
        proof {
            let done = fields@.take(i as int);
            let next = fields@.take(i + 1);
            assert(next.drop_last() =~= done);
            assert(next.last() == fields@[i as int]);
            assert(before.push(k).drop_last() =~= before);
            assert(before.push(k).push(v).drop_last() =~= before.push(k));
            assert(out@ =~= before.push(k).push(v));
            assert(models(before.push(k)) == models(before).push(k@));
            assert(models(out@) == models(before).push(k@).push(v@));
        }
        i = i + 1;
    }
    assert(fields@.take(n as int) =~= fields@);
    out
}

impl CommandExecutor for HGetAll {
    open spec fn request(&self) -> Request {
        Request::HGetAll { key: encode_utf8(self.key@) }
    }

    fn execute(self, backend: &mut Backend) -> (r: RespFrame) {
        match backend.hgetall(self.key.as_str()) {
            Some(fields) => RespFrame::Array(RespArray::new(list_fields(fields))),
            None => {
                let none: Vec<RespFrame> = Vec::new();
                assert(models(none@) =~= Seq::<Frame>::empty());
                RespFrame::Array(RespArray::new(none))
            },
        }
    }
}

impl CommandExecutor for Unrecognized {
    open spec fn request(&self) -> Request {
        Request::Unrecognized
    }

    fn execute(self, backend: &mut Backend) -> (r: RespFrame) {
        resp_ok()
    }
}

impl CommandExecutor for Command {
    open spec fn request(&self) -> Request {
        self@
    }

    fn execute(self, backend: &mut Backend) -> (r: RespFrame) {
        match self {
            Command::Get(c) => c.execute(backend),
            Command::SetValue(c) => c.execute(backend),
            Command::HGet(c) => c.execute(backend),
            Command::HSet(c) => c.execute(backend),
            Command::HGetAll(c) => c.execute(backend),
            Command::Unrecognized(c) => c.execute(backend),
        }
    }
}

/// The request that `items` make as a `GET`.
pub open spec fn get_request(items: Seq<Frame>) -> Result<Request, CommandFault> {
    match validation(items, seq!["get"@], 1) {
        Some(fault) => Err(fault),
        None => match items[1] {
            Frame::BulkString(key) => if valid_utf8(key) {
                Ok(Request::Get { key })
            } else {
                Err(CommandFault::Utf8Error)
            },
            _ => Err(CommandFault::InvalidArgument("Invalid key"@)),
        },
    }
}

/// The request that `items` make as a `SET`.
pub open spec fn set_request(items: Seq<Frame>) -> Result<Request, CommandFault> {
    match validation(items, seq!["set"@], 2) {
        Some(fault) => Err(fault),
        None => match items[1] {
            Frame::BulkString(key) => if valid_utf8(key) {
                Ok(Request::SetValue { key, value: items[2] })
            } else {
                Err(CommandFault::Utf8Error)
            },
            _ => Err(CommandFault::InvalidArgument("Invalid key or value"@)),
        },
    }
}

/// The request that `items` make as an `HGET`.
pub open spec fn hget_request(items: Seq<Frame>) -> Result<Request, CommandFault> {
    match validation(items, seq!["hget"@], 2) {
        Some(fault) => Err(fault),
        None => match (items[1], items[2]) {
            (Frame::BulkString(key), Frame::BulkString(field)) => if valid_utf8(key) && valid_utf8(
                field,
            ) {
                Ok(Request::HGet { key, field })
            } else {
                Err(CommandFault::Utf8Error)
            },
            _ => Err(CommandFault::InvalidArgument("invalid key or field"@)),
        },
    }
}

/// The request that `items` make as an `HSET`.
pub open spec fn hset_request(items: Seq<Frame>) -> Result<Request, CommandFault> {
    match validation(items, seq!["hset"@], 3) {
        Some(fault) => Err(fault),
        None => match (items[1], items[2]) {
            (Frame::BulkString(key), Frame::BulkString(field)) => if valid_utf8(key) && valid_utf8(
                field,
            ) {
                Ok(Request::HSet { key, field, value: items[3] })
            } else {
                Err(CommandFault::Utf8Error)
            },
            _ => Err(CommandFault::InvalidArgument("invalid key or field or value"@)),
        },
    }
}

/// The request that `items` make as an `HGETALL`.
pub open spec fn hgetall_request(items: Seq<Frame>) -> Result<Request, CommandFault> {
    match validation(items, seq!["hgetall"@], 1) {
        Some(fault) => Err(fault),
        None => match items[1] {
            Frame::BulkString(key) => if valid_utf8(key) {
                Ok(Request::HGetAll { key })
            } else {
                Err(CommandFault::Utf8Error)
            },
            _ => Err(CommandFault::InvalidArgument("invalid key"@)),
        },
    }
}

/// The request that the array of `items` makes: chosen by the name in its
/// first item, whatever the case of its letters. A name that is not known
/// is no fault.
pub open spec fn request_of_items(items: Seq<Frame>) -> Result<Request, CommandFault> {
    if items.len() > 0 && items[0] is BulkString {
        let name = lowered(items[0]->BulkString_0);
        if name == encode_utf8("get"@) {
            get_request(items)
        } else if name == encode_utf8("set"@) {
            set_request(items)
        } else if name == encode_utf8("hget"@) {
            hget_request(items)
        } else if name == encode_utf8("hset"@) {
            hset_request(items)
        } else if name == encode_utf8("hgetall"@) {
            hgetall_request(items)
        } else {
            Ok(Request::Unrecognized)
        }
    } else {
        Err(
            CommandFault::InvalidCommand(
                "Command must have a BulkString as the first argument"@,
            ),
        )
    }
}

/// The request that `frame` makes. Only an array makes one.
pub open spec fn request_of(frame: Frame) -> Result<Request, CommandFault> {
    match frame {
        Frame::Array(items) => request_of_items(items),
        _ => Err(CommandFault::InvalidCommand("Command must be an Array"@)),
    }
}

/// Whether the exec result `got` is the command or the failure that
/// `expected` names.
pub open spec fn fulfils<C: CommandExecutor>(
    got: Result<C, CommandError>,
    expected: Result<Request, CommandFault>,
) -> bool {
    match expected {
        Ok(request) => got matches Ok(c) && c.request() == request,
        Err(fault) => got matches Err(e) && e@ == fault,
    }
}

/// The text of a key or a field.
fn bulk_text(bytes: BulkString) -> (r: Result<String, CommandError>)
    ensures
        match r {
            Ok(text) => valid_utf8(bytes@) && encode_utf8(text@) == bytes@,
            Err(e) => !valid_utf8(bytes@) && e@ == CommandFault::Utf8Error,
        },
{
    match text_from_utf8(bytes.into_bytes()) {
        Some(text) => Ok(text),
        None => Err(CommandError::Utf8Error),
    }
}

/// The arguments of `value`, which has `n_args` of them behind its name.
fn arguments(value: RespArray, n_args: usize) -> (args: Vec<RespFrame>)
    requires
        value@.len() == n_args + 1,
    ensures
        args@.len() == n_args,
        forall|i: int| 0 <= i < n_args ==> (#[trigger] args@[i])@ == value@[i + 1],
{
    match extract_args(value, 1) {
        Ok(args) => {
            proof {
                lemma_models(args@);
                assert forall|i: int| 0 <= i < n_args implies (#[trigger] args@[i])@ == value@[i
                    + 1] by {
                    assert(models(args@)[i] == args@[i]@);
                }
            }
            args
        },
        Err(_) => Vec::new(),
    }
}

impl Get {
    /// Reads `value` as a `GET` with one key.
    pub fn try_from(value: RespArray) -> (r: Result<Get, CommandError>)
        ensures
            fulfils(r, get_request(value@)),
    {
        let names: [&'static str; 1] = ["get"];
        assert(name_texts(names@) =~= seq!["get"@]);
        match validate_command(&value, names.as_slice(), 1) {
            Err(e) => {
                return Err(e);
            },
            Ok(_) => {},
        }
        let mut args = arguments(value, 1);
        match args.pop() {
            Some(RespFrame::BulkString(key)) => match bulk_text(key) {
                Ok(key) => Ok(Get { key }),
                Err(e) => Err(e),
            },
            _ => Err(CommandError::InvalidArgument(String::from_str("Invalid key"))),
        }
    }
}

impl SetValue {
    /// Reads `value` as a `SET` with a key and a frame.
    pub fn try_from(value: RespArray) -> (r: Result<SetValue, CommandError>)
        ensures
            fulfils(r, set_request(value@)),
    {
        let names: [&'static str; 1] = ["set"];
        assert(name_texts(names@) =~= seq!["set"@]);
        match validate_command(&value, names.as_slice(), 2) {
            Err(e) => {
                return Err(e);
            },
            Ok(_) => {},
        }
        let mut args = arguments(value, 2);
        let value = args.pop();
        let key = args.pop();
        match (key, value) {
            (Some(RespFrame::BulkString(key)), Some(value)) => match bulk_text(key) {
                Ok(key) => Ok(SetValue { key, value }),
                Err(e) => Err(e),
            },
            _ => Err(CommandError::InvalidArgument(String::from_str("Invalid key or value"))),
        }
    }
}

impl HGet {
    /// Reads `value` as an `HGET` with a key and a field.
    pub fn try_from(value: RespArray) -> (r: Result<HGet, CommandError>)
        ensures
            fulfils(r, hget_request(value@)),
    {
        let names: [&'static str; 1] = ["hget"];
        assert(name_texts(names@) =~= seq!["hget"@]);
        match validate_command(&value, names.as_slice(), 2) {
            Err(e) => {
                return Err(e);
            },
            Ok(_) => {},
        }
        let mut args = arguments(value, 2);
        let field = args.pop();
        let key = args.pop();
        match (key, field) {
            (Some(RespFrame::BulkString(key)), Some(RespFrame::BulkString(field))) => {
                match bulk_text(key) {
                    Ok(key) => match bulk_text(field) {
                        Ok(field) => Ok(HGet { key, field }),
                        Err(e) => Err(e),
                    },
                    Err(e) => Err(e),
                }
            },
            _ => Err(CommandError::InvalidArgument(String::from_str("invalid key or field"))),
        }
    }
}

impl HSet {
    /// Reads `value` as an `HSET` with a key, a field and a frame.
    pub fn try_from(value: RespArray) -> (r: Result<HSet, CommandError>)
        ensures
            fulfils(r, hset_request(value@)),
    {
        let names: [&'static str; 1] = ["hset"];
        assert(name_texts(names@) =~= seq!["hset"@]);
        match validate_command(&value, names.as_slice(), 3) {
            Err(e) => {
                return Err(e);
            },
            Ok(_) => {},
        }
        let mut args = arguments(value, 3);
        let value = args.pop();
        let field = args.pop();
        let key = args.pop();
        match (key, field, value) {
            (
                Some(RespFrame::BulkString(key)),
                Some(RespFrame::BulkString(field)),
                Some(value),
            ) => {
                match bulk_text(key) {
                    Ok(key) => match bulk_text(field) {
                        Ok(field) => Ok(HSet { key, field, value }),
                        Err(e) => Err(e),
                    },
                    Err(e) => Err(e),
                }
            },
            _ => Err(
                CommandError::InvalidArgument(String::from_str("invalid key or field or value")),
            ),
        }
    }
}

impl HGetAll {
    /// Reads `value` as an `HGETALL` with one key.
    pub fn try_from(value: RespArray) -> (r: Result<HGetAll, CommandError>)
        ensures
            fulfils(r, hgetall_request(value@)),
    {
        let names: [&'static str; 1] = ["hgetall"];
        assert(name_texts(names@) =~= seq!["hgetall"@]);
        match validate_command(&value, names.as_slice(), 1) {
            Err(e) => {
                return Err(e);
            },
            Ok(_) => {},
        }
        let mut args = arguments(value, 1);
        match args.pop() {
            Some(RespFrame::BulkString(key)) => match bulk_text(key) {
                Ok(key) => Ok(HGetAll { key, sort: false }),
                Err(e) => Err(e),
            },
            _ => Err(CommandError::InvalidArgument(String::from_str("invalid key"))),
        }
    }
}

/// The known names, numbered; 0 for any other.
fn name_code(name: &[u8]) -> (code: u8)
    ensures
        code == if lowered(name@) == encode_utf8("get"@) {
            1u8
        } else if lowered(name@) == encode_utf8("set"@) {
            2u8
        } else if lowered(name@) == encode_utf8("hget"@) {
            3u8
        } else if lowered(name@) == encode_utf8("hset"@) {
            4u8
        } else if lowered(name@) == encode_utf8("hgetall"@) {
            5u8
        } else {
            0u8
        },
{
    let low = to_lower(name);
    if same(low.as_slice(), "get".as_bytes()) {
        1
    } else if same(low.as_slice(), "set".as_bytes()) {
        2
    } else if same(low.as_slice(), "hget".as_bytes()) {
        3
    } else if same(low.as_slice(), "hset".as_bytes()) {
        4
    } else if same(low.as_slice(), "hgetall".as_bytes()) {
        5
    } else {
        0
    }
}

impl Command {
    /// Reads the request array `value` as the command that its first item
    /// names.
    pub fn from_array(value: RespArray) -> (r: Result<Command, CommandError>)
        ensures
            fulfils(r, request_of_items(value@)),
    {
        let items = value.items();
        proof {
            lemma_models(items@);
        }
        let code: u8 = if items.len() == 0 {
            6
        } else {
            match &items[0] {
                RespFrame::BulkString(name) => name_code(name.as_slice()),
                _ => 6,
            }
        };
        if code == 1 {
            match Get::try_from(value) {
                Ok(c) => Ok(Command::Get(c)),
                Err(e) => Err(e),
            }
        } else if code == 2 {
            match SetValue::try_from(value) {
                Ok(c) => Ok(Command::SetValue(c)),
                Err(e) => Err(e),
            }
        } else if code == 3 {
            match HGet::try_from(value) {
                Ok(c) => Ok(Command::HGet(c)),
                Err(e) => Err(e),
            }
        } else if code == 4 {
            match HSet::try_from(value) {
                Ok(c) => Ok(Command::HSet(c)),
                Err(e) => Err(e),
            }
        } else if code == 5 {
            match HGetAll::try_from(value) {
                Ok(c) => Ok(Command::HGetAll(c)),
                Err(e) => Err(e),
            }
        } else if code == 0 {
            Ok(Command::Unrecognized(Unrecognized))
        } else {
            Err(
                CommandError::InvalidCommand(
                    String::from_str("Command must have a BulkString as the first argument"),
                ),
            )
        }
    }

    /// Reads the frame `value` as a command. Only an array is one.
    pub fn try_from(value: RespFrame) -> (r: Result<Command, CommandError>)
        ensures
            fulfils(r, request_of(value@)),
    {
        match value {
            RespFrame::Array(array) => Command::from_array(array),
            _ => Err(CommandError::InvalidCommand(String::from_str("Command must be an Array"))),
        }
    }
}

/// What is said of the fault `fault`.
pub open spec fn fault_text(fault: CommandFault) -> Seq<char> {
    match fault {
        CommandFault::InvalidCommand(m) => "Invalid command: "@ + m,
        CommandFault::InvalidArgument(m) => "Invalid arguments: "@ + m,
        CommandFault::RespError(e) => resp_error_text(e),
        CommandFault::Utf8Error => "Utf8 error"@,
    }
}

impl CommandError {
    /// What is said of the failure.
    pub fn message(&self) -> (r: String)
        ensures
            r@ == fault_text(self@),
    {
        match self {
            CommandError::InvalidCommand(m) => {
                let mut out = String::from_str("Invalid command: ");
                out.append(m.as_str());
                out
            },
            CommandError::InvalidArgument(m) => {
                let mut out = String::from_str("Invalid arguments: ");
                out.append(m.as_str());
                out
            },
            CommandError::RespError(e) => e.message(),
            CommandError::Utf8Error => String::from_str("Utf8 error"),
        }
    }
}

} // verus!
