//! Reading from a buffer that has not yet received all its bytes: what is
//! read from the beginning of a buffer is what will be read from the whole
//! of it, or is not complete yet.

use crate::error::RespError;
use crate::frame::Frame;
use crate::parse::{
    lemma_line_end, lemma_line_end_is, lemma_line_end_none, line_end, null_bytes, parse,
    parse_array, parse_count, parse_dict, parse_entries, parse_frame, parse_group, parse_items,
    parse_line, parse_literal,
};
use vstd::prelude::*;

verus! {

/// How what is read from the first `cut` bytes of a buffer stands to what is
/// read from all of it: a value that ends within the first `cut` bytes is
/// read the same, one that ends behind them is not complete, and a failure
/// is the same failure or not complete.
pub open spec fn cut_short<T>(
    whole: Result<(T, int), RespError>,
    part: Result<(T, int), RespError>,
    cut: int,
) -> bool {
    match whole {
        Ok((v, next)) => if next <= cut {
            part == whole
        } else {
            part == Err::<(T, int), RespError>(RespError::NotComplete)
        },
        Err(e) => part == whole || part == Err::<(T, int), RespError>(RespError::NotComplete),
    }
}

/// A line end that lies within the first `cut` bytes is found there too; one
/// that does not is not found at all.
pub proof fn lemma_line_end_take(s: Seq<u8>, from: int, cut: int)
    requires
        0 <= from,
        0 <= cut <= s.len(),
    ensures
        line_end(s, from) >= 0 && line_end(s, from) + 2 <= cut ==> line_end(s.take(cut), from)
            == line_end(s, from),
        line_end(s, from) < 0 || cut < line_end(s, from) + 2 ==> line_end(s.take(cut), from) == -1,
{
    let e = line_end(s, from);
    let t = s.take(cut);
    lemma_line_end(s, from);
    if e >= 0 && e + 2 <= cut {
        assert forall|i: int| from <= i < e implies !(#[trigger] t[i] == 13 && t[i + 1] == 10) by {
            assert(t[i] == s[i] && t[i + 1] == s[i + 1]);
        }
        assert(t[e] == s[e] && t[e + 1] == s[e + 1]);
        lemma_line_end_is(t, from, e);
    } else {
        assert forall|i: int| from <= i && i + 1 < t.len() implies !(#[trigger] t[i] == 13 && t[i
            + 1] == 10) by {
            assert(t[i] == s[i] && t[i + 1] == s[i + 1]);
        }
        lemma_line_end_none(t, from);
    }
}

/// A line read from the first `cut` bytes.
pub proof fn lemma_line_take(s: Seq<u8>, at: int, tag: u8, cut: int)
    requires
        0 <= at <= cut <= s.len(),
    ensures
        parse_line(s, at, tag) matches Ok((_, next)) ==> at + 3 <= next <= s.len(),
        cut_short(parse_line(s, at, tag), parse_line(s.take(cut), at, tag), cut),
{
    let t = s.take(cut);
    let e = line_end(s, at + 1);
    lemma_line_end(s, at + 1);
    lemma_line_end_take(s, at + 1, cut);
    if t.len() - at >= 3 {
        assert(t[at] == s[at]);
    }
    if e >= 0 && e + 2 <= cut {
        assert(t.subrange(at + 1, e) =~= s.subrange(at + 1, e));
    }
}

/// Fixed bytes read from the first `cut` bytes: the same where they all lie
/// within them; else not complete.
pub proof fn lemma_literal_take(s: Seq<u8>, at: int, literal: Seq<u8>, cut: int)
    requires
        0 <= at <= cut <= s.len(),
    ensures
        at + literal.len() <= cut ==> parse_literal(s.take(cut), at, literal) == parse_literal(
            s,
            at,
            literal,
        ),
        cut < at + literal.len() ==> parse_literal(s.take(cut), at, literal) == Err::<
            int,
            RespError,
        >(RespError::NotComplete),
{
    let t = s.take(cut);
    if at + literal.len() <= cut {
        assert(t.subrange(at, at + literal.len()) =~= s.subrange(at, at + literal.len()));
    }
}

/// A length line read from the first `cut` bytes.
pub proof fn lemma_count_take(s: Seq<u8>, at: int, tag: u8, cut: int)
    requires
        0 <= at <= cut <= s.len(),
    ensures
        parse_count(s, at, tag) matches Ok((_, next)) ==> at + 3 <= next <= s.len(),
        cut_short(parse_count(s, at, tag), parse_count(s.take(cut), at, tag), cut),
{
    lemma_line_take(s, at, tag, cut);
}

/// A frame read from the first `cut` bytes of a buffer: the frame that is
/// read from all of it, where that ends within them; not complete, where it
/// ends behind them; and where none is read from all of it, the same
/// failure or not complete.
pub proof fn lemma_frame_take(s: Seq<u8>, at: int, cut: int)
    requires
        0 <= at <= cut <= s.len(),
    ensures
        parse_frame(s, at) matches Ok((_, next)) ==> at + 3 <= next <= s.len(),
        cut_short(parse_frame(s, at), parse_frame(s.take(cut), at), cut),
    decreases s.len() - at, 0nat, 1nat,
{
    let t = s.take(cut);
    if t.len() - at >= 3 {
        assert(t[at] == s[at]);
    }
    if s.len() - at < 3 {
    } else {
        let tag = s[at];
        if tag == 43 {
            lemma_line_take(s, at, 43, cut);
        } else if tag == 45 {
            lemma_line_take(s, at, 45, cut);
        } else if tag == 58 {
            lemma_line_take(s, at, 58, cut);
        } else if tag == 44 {
            lemma_line_take(s, at, 44, cut);
        } else if tag == 95 {
            lemma_literal_take(s, at, null_bytes(), cut);
        } else if tag == 35 {
            if at + 4 <= cut {
                assert(t.subrange(at, at + 4) =~= s.subrange(at, at + 4));
            }
        } else if tag == 36 {
            lemma_count_take(s, at, 36, cut);
            if parse_count(s, at, 36) is Ok {
                let (n, body) = parse_count(s, at, 36).unwrap();
                if n >= 0 && body + n + 2 <= cut {
                    assert(t.subrange(body, body + n) =~= s.subrange(body, body + n));
                }
            }
        } else if tag == 42 {
            lemma_count_take(s, at, 42, cut);
            lemma_array_take(s, at, cut);
        } else if tag == 37 {
            lemma_dict_take(s, at, cut);
        } else if tag == 126 {
            lemma_group_take(s, at, cut);
        }
    }
}

/// An array read from the first `cut` bytes.
pub proof fn lemma_array_take(s: Seq<u8>, at: int, cut: int)
    requires
        0 <= at <= cut <= s.len(),
    ensures
        parse_array(s, at) matches Ok((_, next)) ==> at + 3 <= next <= s.len(),
        cut_short(parse_array(s, at), parse_array(s.take(cut), at), cut),
    decreases s.len() - at, 0nat, 0nat,
{
    lemma_count_take(s, at, 42, cut);
    if parse_count(s, at, 42) is Ok {
        let (n, body) = parse_count(s, at, 42).unwrap();
        if n >= 0 {
            if body <= cut {
                lemma_items_take(s, body, n as nat, cut);
            } else {
                lemma_items_take(s, body, n as nat, body);
            }
        }
    }
}

/// A set read from the first `cut` bytes.
pub proof fn lemma_group_take(s: Seq<u8>, at: int, cut: int)
    requires
        0 <= at <= cut <= s.len(),
    ensures
        parse_group(s, at) matches Ok((_, next)) ==> at + 3 <= next <= s.len(),
        cut_short(parse_group(s, at), parse_group(s.take(cut), at), cut),
    decreases s.len() - at, 0nat, 0nat,
{
    lemma_count_take(s, at, 126, cut);
    if parse_count(s, at, 126) is Ok {
        let (n, body) = parse_count(s, at, 126).unwrap();
        if n >= 0 {
            if body <= cut {
                lemma_items_take(s, body, n as nat, cut);
            } else {
                lemma_items_take(s, body, n as nat, body);
            }
        }
    }
}

/// A map read from the first `cut` bytes.
pub proof fn lemma_dict_take(s: Seq<u8>, at: int, cut: int)
    requires
        0 <= at <= cut <= s.len(),
    ensures
        parse_dict(s, at) matches Ok((_, next)) ==> at + 3 <= next <= s.len(),
        cut_short(parse_dict(s, at), parse_dict(s.take(cut), at), cut),
    decreases s.len() - at, 0nat, 0nat,
{
    lemma_count_take(s, at, 37, cut);
    if parse_count(s, at, 37) is Ok {
        let (n, body) = parse_count(s, at, 37).unwrap();
        if n >= 0 {
            if body <= cut {
                lemma_entries_take(s, body, n as nat, cut);
            } else {
                lemma_entries_take(s, body, n as nat, body);
            }
        }
    }
}

/// Frames in a row read from the first `cut` bytes.
pub proof fn lemma_items_take(s: Seq<u8>, at: int, n: nat, cut: int)
    requires
        0 <= at <= cut <= s.len(),
    ensures
        parse_items(s, at, n) matches Ok((_, next)) ==> at <= next <= s.len(),
        cut_short(parse_items(s, at, n), parse_items(s.take(cut), at, n), cut),
    decreases s.len() - at, n, 1nat,
{
    if n > 0 {
        lemma_frame_take(s, at, cut);
        if parse_frame(s, at) is Ok {
            let (first, next) = parse_frame(s, at).unwrap();
            if next <= cut {
                lemma_items_take(s, next, (n - 1) as nat, cut);
            } else {
                lemma_items_take(s, next, (n - 1) as nat, next);
            }
        }
    }
}

/// Entries in a row read from the first `cut` bytes.
pub proof fn lemma_entries_take(s: Seq<u8>, at: int, n: nat, cut: int)
    requires
        0 <= at <= cut <= s.len(),
    ensures
        parse_entries(s, at, n) matches Ok((_, next)) ==> at <= next <= s.len(),
        cut_short(parse_entries(s, at, n), parse_entries(s.take(cut), at, n), cut),
    decreases s.len() - at, n, 1nat,
{
    if n > 0 {
        lemma_line_take(s, at, 43, cut);
        if parse_line(s, at, 43) is Ok {
            let (key, value_at) = parse_line(s, at, 43).unwrap();
            if vstd::utf8::valid_utf8(key) {
                let from = if value_at <= cut { cut } else { value_at };
                lemma_frame_take(s, value_at, from);
                if parse_frame(s, value_at) is Ok {
                    let (value, next) = parse_frame(s, value_at).unwrap();
                    if next <= cut {
                        lemma_entries_take(s, next, (n - 1) as nat, cut);
                    } else {
                        lemma_entries_take(s, next, (n - 1) as nat, next);
                    }
                }
            }
        }
    }
}

/// The frame at the start of a buffer, read from its first `cut` bytes. A
/// frame takes three bytes at least and never more than there are.
pub proof fn lemma_parse_take(s: Seq<u8>, cut: int)
    requires
        0 <= cut <= s.len(),
    ensures
        parse(s) matches Ok((_, next)) ==> 3 <= next <= s.len(),
        cut_short(parse(s), parse(s.take(cut)), cut),
{
    reveal(parse);
    lemma_frame_take(s, 0, cut);
}

} // verus!
