//! The wire form of each frame, and the encoder that writes it.

use crate::frame::{lemma_models, models, well_formed, Frame, RespFrame};
use crate::numeral::{decimal_digits, push_decimal, push_signed, signed_digits};
use vstd::prelude::*;
use vstd::utf8::*;

verus! {

/// The two bytes that end a line: carriage return, line feed.
pub open spec fn crlf() -> Seq<u8> {
    seq![13u8, 10u8]
}

/// The line that opens a counted frame: the tag, the count in decimal, the
/// end of the line.
pub open spec fn header(tag: u8, count: nat) -> Seq<u8> {
    seq![tag] + decimal_digits(count) + crlf()
}

/// The line-terminated form: the tag, the payload, the end of the line.
pub open spec fn line(tag: u8, payload: Seq<u8>) -> Seq<u8> {
    seq![tag] + payload + crlf()
}

/// The bytes that stand for `f` on the wire.
pub open spec fn wire(f: Frame) -> Seq<u8>
    decreases f,
{
    match f {
        Frame::SimpleString(t) => line(43, t),
        Frame::Error(t) => line(45, t),
        Frame::Integer(v) => line(58, signed_digits(v)),
        Frame::BulkString(b) => header(36, b.len()) + b + crlf(),
        Frame::NullBulkString => seq![36u8, 45u8, 49u8, 13u8, 10u8],
        Frame::Array(items) => header(42, items.len()) + wire_all(items),
        Frame::Null => seq![95u8, 13u8, 10u8],
        Frame::NullArray => seq![42u8, 45u8, 49u8, 13u8, 10u8],
        Frame::Boolean(b) => if b {
            seq![35u8, 116u8, 13u8, 10u8]
        } else {
            seq![35u8, 102u8, 13u8, 10u8]
        },
        Frame::Double(t) => line(44, t),
        Frame::Dict(entries) => header(37, entries.len()) + wire_entries(entries),
        Frame::Group(items) => header(126, items.len()) + wire_all(items),
    }
}

/// The wire forms of `items`, one after the other.
pub open spec fn wire_all(items: Seq<Frame>) -> Seq<u8>
    decreases items,
{
    if items.len() == 0 {
        Seq::empty()
    } else {
        wire(items[0]) + wire_all(items.drop_first())
    }
}

/// The wire forms of `entries`, one after the other: each key as a simple
/// string, then its frame.
pub open spec fn wire_entries(entries: Seq<(Seq<u8>, Frame)>) -> Seq<u8>
    decreases entries,
{
    if entries.len() == 0 {
        Seq::empty()
    } else {
        line(43, entries[0].0) + wire(entries[0].1) + wire_entries(entries.drop_first())
    }
}

/// The wire form of a run of frames grows at its end by the wire form of a
/// frame added at the end.
pub proof fn lemma_wire_all_push(items: Seq<Frame>, f: Frame)
    ensures
        wire_all(items.push(f)) == wire_all(items) + wire(f),
    decreases items.len(),
{
    let all = items.push(f);
    if items.len() == 0 {
        assert(all.drop_first() =~= Seq::<Frame>::empty());
        assert(wire_all(all.drop_first()) =~= Seq::<u8>::empty());
        assert(wire_all(all) =~= wire_all(items) + wire(f));
    } else {
        assert(all.drop_first() =~= items.drop_first().push(f));
        lemma_wire_all_push(items.drop_first(), f);
        assert(wire_all(all) =~= wire_all(items) + wire(f));
    }
}

/// The wire form of a run of entries grows at its end by the wire form of an
/// entry added at the end.
pub proof fn lemma_wire_entries_push(entries: Seq<(Seq<u8>, Frame)>, key: Seq<u8>, value: Frame)
    ensures
        wire_entries(entries.push((key, value))) == wire_entries(entries) + line(43, key) + wire(
            value,
        ),
    decreases entries.len(),
{
    let all = entries.push((key, value));
    if entries.len() == 0 {
        assert(all.drop_first() =~= Seq::<(Seq<u8>, Frame)>::empty());
        assert(wire_entries(all.drop_first()) =~= Seq::<u8>::empty());
        assert(wire_entries(all) =~= wire_entries(entries) + line(43, key) + wire(value));
    } else {
        assert(all.drop_first() =~= entries.drop_first().push((key, value)));
        lemma_wire_entries_push(entries.drop_first(), key, value);
        assert(wire_entries(all) =~= wire_entries(entries) + line(43, key) + wire(value));
    }
}

/// Appends a line: the tag, the payload, the end of the line.
fn push_line(out: &mut Vec<u8>, tag: u8, payload: &[u8])
    ensures
        final(out)@ == old(out)@ + line(tag, payload@),
{
    out.push(tag);
    out.extend_from_slice(payload);
    out.push(13u8);
    out.push(10u8);
    assert(out@ =~= old(out)@ + line(tag, payload@));
}

/// Appends the line that opens a counted frame.
fn push_header(out: &mut Vec<u8>, tag: u8, count: usize)
    ensures
        final(out)@ == old(out)@ + header(tag, count as nat),
{
    out.push(tag);
    push_decimal(out, count as u64);
    out.push(13u8);
    out.push(10u8);
    assert(out@ =~= old(out)@ + header(tag, count as nat));
}

/// Appends the wire form of each frame of `items`, in order.
fn push_frames(out: &mut Vec<u8>, items: &Vec<RespFrame>)
    ensures
        final(out)@ == old(out)@ + wire_all(models(items@)),
        forall|i: int| 0 <= i < items@.len() ==> well_formed(#[trigger] models(items@)[i]),
    decreases items,
{
    proof {
        lemma_models(items@);
    }
    let mut i: usize = 0;
    while i < items.len()
        invariant
            i <= items@.len(),
            models(items@).len() == items@.len(),
            forall|k: int| 0 <= k < items@.len() ==> (#[trigger] models(items@)[k]) == items@[k]@,
            out@ == old(out)@ + wire_all(models(items@).take(i as int)),
            forall|k: int| 0 <= k < i ==> well_formed(#[trigger] models(items@)[k]),
        decreases items@.len() - i,
    {
        let ghost before = out@;
        push_frame(out, &items[i]);
        proof {
            let done = models(items@).take(i as int);
            lemma_wire_all_push(done, items@[i as int]@);
            assert(models(items@).take(i + 1) =~= done.push(items@[i as int]@));
            assert(out@ =~= old(out)@ + wire_all(models(items@).take(i + 1)));
        }
        i = i + 1;
    }
    assert(models(items@).take(i as int) =~= models(items@));
}

/// Appends the wire form of `frame`. A frame in memory is always well formed.
pub fn push_frame(out: &mut Vec<u8>, frame: &RespFrame)
    ensures
        final(out)@ == old(out)@ + wire(frame@),
        well_formed(frame@),
    decreases frame,
{
    match frame {
        RespFrame::SimpleString(s) => {
            let text = s.as_str();
            proof {
                encode_utf8_valid_utf8(text@);
            }
            push_line(out, 43u8, text.as_bytes());
        },
        RespFrame::Error(e) => {
            let text = e.as_str();
            proof {
                encode_utf8_valid_utf8(text@);
            }
            push_line(out, 45u8, text.as_bytes());
        },
        RespFrame::Integer(v) => {
            out.push(58u8);
            push_signed(out, *v);
            out.push(13u8);
            out.push(10u8);
            assert(out@ =~= old(out)@ + wire(frame@));
        },
        RespFrame::BulkString(b) => {
            push_header(out, 36u8, b.len());
            out.extend_from_slice(b.as_slice());
            out.push(13u8);
            out.push(10u8);
            assert(out@ =~= old(out)@ + wire(frame@));
        },
        RespFrame::NullBulkString(_) => {
            out.push(36u8);
            out.push(45u8);
            out.push(49u8);
            out.push(13u8);
            out.push(10u8);
            assert(out@ =~= old(out)@ + wire(frame@));
        },
        RespFrame::Array(a) => {
            let items = a.items();
            push_header(out, 42u8, items.len());
            proof {
                lemma_models(items@);
            }
            push_frames(out, items);
            assert(out@ =~= old(out)@ + wire(frame@));
        },
        RespFrame::Null(_) => {
            out.push(95u8);
            out.push(13u8);
            out.push(10u8);
            assert(out@ =~= old(out)@ + wire(frame@));
        },
        RespFrame::NullArray(_) => {
            out.push(42u8);
            out.push(45u8);
            out.push(49u8);
            out.push(13u8);
            out.push(10u8);
            assert(out@ =~= old(out)@ + wire(frame@));
        },
        RespFrame::Boolean(b) => {
            out.push(35u8);
            out.push(if *b { 116u8 } else { 102u8 });
            out.push(13u8);
            out.push(10u8);
            assert(out@ =~= old(out)@ + wire(frame@));
        },
        RespFrame::Double(d) => {
            push_line(out, 44u8, d.as_bytes());
        },
        RespFrame::RespMap(m) => {
            let n: usize = m.len();
            push_header(out, 37u8, n);
            let ghost opened = out@;
            let mut i: usize = 0;
            while i < n
                invariant
                    i <= n == m@.len(),
                    decreases_to!(frame => m),
                    out@ == opened + wire_entries(m@.take(i as int)),
                    forall|k: int|
                        0 <= k < i ==> valid_utf8((#[trigger] m@[k]).0) && well_formed(m@[k].1),
                decreases n - i,
            {
                let key = m.key_at(i);
                let value = m.value_at(i);
                proof {
                    encode_utf8_valid_utf8(key@);
                }
                push_line(out, 43u8, key.as_bytes());
                push_frame(out, value);
                proof {
                    let done = m@.take(i as int);
                    lemma_wire_entries_push(done, m@[i as int].0, m@[i as int].1);
                    assert(m@.take(i + 1) =~= done.push(m@[i as int]));
                    assert(out@ =~= opened + wire_entries(m@.take(i + 1)));
                }
                i = i + 1;
            }
            assert(m@.take(n as int) =~= m@);
            assert(out@ =~= old(out)@ + wire(frame@));
        },
        RespFrame::RespSet(s) => {
            let items = s.items();
            push_header(out, 126u8, items.len());
            proof {
                lemma_models(items@);
            }
            push_frames(out, items);
            assert(out@ =~= old(out)@ + wire(frame@));
        },
    }
}

} // verus!
