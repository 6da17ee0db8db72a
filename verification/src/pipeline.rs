//! The connection pipeline: bytes that arrive are added to the buffer of the
//! connection, the frames that are complete are taken from it one after the
//! other, each is carried out as a command, and the replies are written in
//! the order of the requests.

use crate::backend::{Backend, Store};
use crate::cmd::{effect_of, fault_text, reply_to, request_of, Command, CommandExecutor};
use crate::codec::{buffer_extend, buffer_new, buffered, RespDecode};
use crate::encode::{push_frame, wire};
use crate::error::{resp_error_text, RespError};
use crate::frame::{Frame, RespFrame, SimpleError};
use crate::parse::{parse, residue_of, rest_of};
use bytes::BytesMut;
use vstd::prelude::*;
use vstd::utf8::*;

verus! {

/// The reply to the frame `frame` from a store that holds `store`: the
/// reply of the command that the frame makes, or a simple error that says
/// why it makes none.
pub open spec fn answer(frame: Frame, store: Store) -> Frame {
    match request_of(frame) {
        Ok(request) => reply_to(request, store),
        Err(fault) => Frame::Error(encode_utf8(fault_text(fault))),
    }
}

/// What the store holds once the frame `frame` was handled.
pub open spec fn after(frame: Frame, store: Store) -> Store {
    match request_of(frame) {
        Ok(request) => effect_of(request, store),
        Err(fault) => store,
    }
}

/// What is written to a client whose bytes cannot be read: a simple error
/// that says why.
pub open spec fn refusal(e: RespError) -> Frame {
    Frame::Error(encode_utf8(resp_error_text(e)))
}

/// How a connection stands once the bytes in its buffer were served.
pub struct Served {
    /// What the store holds.
    pub store: Store,
    /// What was written to the client.
    pub output: Seq<u8>,
    /// What stays in the buffer.
    pub rest: Seq<u8>,
    /// Whether the connection is to be closed.
    pub closed: bool,
}

/// Serving the buffer `s` against the store `store`: each frame at the front
/// of the buffer is handled in turn and its reply written. An unfinished
/// frame stays in the buffer. Bytes that are no frame are answered with a
/// simple error, and the connection is closed.
pub open spec fn serve(store: Store, s: Seq<u8>) -> Served
    decreases s.len(),
{
    match parse(s) {
        Ok((frame, next)) => if 0 < next <= s.len() {
            let later = serve(after(frame, store), rest_of(s, next));
            Served {
                store: later.store,
                output: wire(answer(frame, store)) + later.output,
                rest: later.rest,
                closed: later.closed,
            }
        } else {
            Served { store, output: Seq::empty(), rest: s, closed: false }
        },
        Err(e) => if e == RespError::NotComplete {
            Served { store, output: Seq::empty(), rest: s, closed: false }
        } else {
            Served { store, output: wire(refusal(e)), rest: s, closed: true }
        },
    }
}

/// The replies to `frames`, handled one after the other from a store that
/// holds `store` at first, in the order of the frames.
pub open spec fn replies(store: Store, frames: Seq<Frame>) -> Seq<Frame>
    decreases frames.len(),
{
    if frames.len() == 0 {
        Seq::empty()
    } else {
        seq![answer(frames[0], store)] + replies(after(frames[0], store), frames.drop_first())
    }
}

/// What the store holds once `frames` were handled one after the other.
pub open spec fn store_after(store: Store, frames: Seq<Frame>) -> Store
    decreases frames.len(),
{
    if frames.len() == 0 {
        store
    } else {
        store_after(after(frames[0], store), frames.drop_first())
    }
}

/// What is written behind the replies where the bytes that stay in the
/// buffer are no frame: the simple error that says why; else nothing.
pub open spec fn last_words(s: Seq<u8>) -> Seq<u8> {
    match parse(residue_of(s)) {
        Err(e) => if e == RespError::NotComplete {
            Seq::empty()
        } else {
            wire(refusal(e))
        },
        Ok(_) => Seq::empty(),
    }
}

/// What a connection is to do once a chunk of bytes was served.
#[derive(Debug)]
pub struct Step {
    /// The bytes to write to the client: the replies, in the order of the
    /// requests.
    pub output: Vec<u8>,
    /// Whether to close the connection once the bytes are written.
    pub close: bool,
}

/// Handles one request frame: carries out the command that it makes and
/// gives the reply, or gives a simple error that says why it makes none.
pub fn request_handler(frame: RespFrame, backend: &mut Backend) -> (reply: RespFrame)
    ensures
        reply@ == answer(frame@, old(backend)@),
        final(backend)@ == after(frame@, old(backend)@),
{
    match Command::try_from(frame) {
        Ok(command) => command.execute(backend),
        Err(e) => RespFrame::Error(SimpleError::from_string(e.message())),
    }
}

/// The state of one connection: the bytes that arrived and were not yet
/// taken as frames.
pub struct Connection {
    buf: BytesMut,
}

impl View for Connection {
    type V = Seq<u8>;

    closed spec fn view(&self) -> Seq<u8> {
        buffered(self.buf)
    }
}

impl Connection {
    /// A connection on which no bytes have arrived.
    pub fn new() -> (r: Self)
        ensures
            r@ == Seq::<u8>::empty(),
    {
        Connection { buf: buffer_new() }
    }

    /// Serves a chunk of bytes that arrived: adds it to the buffer, handles
    /// every frame that is now complete, and gives the replies in the order
    /// of the requests. Where the step says to close, the connection is to
    /// be given no more bytes.
    pub fn feed(&mut self, chunk: &[u8], backend: &mut Backend) -> (step: Step)
        ensures
            step.output@ == serve(old(backend)@, old(self)@ + chunk@).output,
            step.close == serve(old(backend)@, old(self)@ + chunk@).closed,
            final(backend)@ == serve(old(backend)@, old(self)@ + chunk@).store,
            final(self)@ == serve(old(backend)@, old(self)@ + chunk@).rest,
    {
        buffer_extend(&mut self.buf, chunk);
        let ghost whole = serve(old(backend)@, old(self)@ + chunk@);
        let mut output: Vec<u8> = Vec::new();
        let mut close: bool = false;
        let mut going: bool = true;
        assert(output@ + whole.output =~= whole.output);
        while going
            invariant
                going ==> !close,
                going ==> {
                    let now = serve(backend@, buffered(self.buf));
                    &&& whole.output == output@ + now.output
                    &&& whole.store == now.store
                    &&& whole.rest == now.rest
                    &&& whole.closed == now.closed
                },
                !going ==> {
                    &&& whole.output == output@
                    &&& whole.store == backend@
                    &&& whole.rest == buffered(self.buf)
                    &&& whole.closed == close
                },
            decreases buffered(self.buf).len() + (if going { 1int } else { 0int }),
        {
            let ghost before = output@;
            let ghost store = backend@;
            match RespFrame::decode(&mut self.buf) {
                Ok(frame) => {
                    let reply = request_handler(frame, backend);
                    push_frame(&mut output, &reply);
                    proof {
                        let later = serve(after(frame@, store), buffered(self.buf));
                        assert(before + (wire(reply@) + later.output) =~= (before + wire(reply@))
                            + later.output);
                    }
                },
                Err(e) => {
                    if e != RespError::NotComplete {
                        let reply = RespFrame::Error(SimpleError::from_string(e.message()));
                        push_frame(&mut output, &reply);
                        close = true;
                    } else {
                        assert(before + Seq::<u8>::empty() =~= before);
                    }
                    going = false;
                },
            }
        }
        Step { output, close }
    }
}

} // verus!
