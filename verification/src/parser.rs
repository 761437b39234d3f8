//! The encoded-triple format: one triple per line, three unsigned decimal
//! numbers separated by single spaces. Lines that do not fit are skipped.

use crate::model::types::Triple;
use vstd::prelude::*;
use vstd::slice::slice_index_get;

verus! {

/// The byte that ends a line.
pub const NEWLINE: u8 = 10;

/// The byte that separates the fields of a line.
pub const SPACE: u8 = 32;

/// The first position in `from..limit` that holds `byte`, or `limit` if none does.
pub open spec fn seek(text: Seq<u8>, from: int, limit: int, byte: u8) -> int
    decreases limit - from,
{
    if from >= limit {
        limit
    } else if text[from] == byte {
        from
    } else {
        seek(text, from + 1, limit, byte)
    }
}

/// Whether `b` is one of the bytes `0` to `9`.
pub open spec fn is_digit(b: u8) -> bool {
    48 <= b <= 57
}

/// The number that a sequence of digits writes in base ten.
pub open spec fn decimal(digits: Seq<u8>) -> int
    decreases digits.len(),
{
    if digits.len() == 0 {
        0
    } else {
        decimal(digits.drop_last()) * 10 + (digits.last() - 48)
    }
}

/// A field is a number if it is one digit or more and fits 32 bits.
pub open spec fn number(field: Seq<u8>) -> Option<u32> {
    if field.len() > 0 && (forall|i: int| 0 <= i < field.len() ==> is_digit(#[trigger] field[i]))
        && decimal(field) <= u32::MAX {
        Some(decimal(field) as u32)
    } else {
        None
    }
}

/// The triple that the line `text[from..end]` writes. It needs three fields,
/// each a number; what follows a third space is not read.
pub open spec fn parse_line(text: Seq<u8>, from: int, end: int) -> Option<Triple> {
    let e1 = seek(text, from, end, SPACE);
    let e2 = seek(text, e1 + 1, end, SPACE);
    let e3 = seek(text, e2 + 1, end, SPACE);
    if e1 < end && e2 < end {
        match (
            number(text.subrange(from, e1)),
            number(text.subrange(e1 + 1, e2)),
            number(text.subrange(e2 + 1, e3)),
        ) {
            (Some(s), Some(p), Some(o)) => Some((s, p, o)),
            _ => None,
        }
    } else {
        None
    }
}

/// The triples of the lines that start at `from` or later, in order.
pub open spec fn parse_from(text: Seq<u8>, from: int) -> Seq<Triple>
    decreases text.len() - from,
    via parse_from_decreases
{
    if from < 0 || from >= text.len() {
        Seq::empty()
    } else {
        let end = seek(text, from, text.len() as int, NEWLINE);
        let rest = if end < text.len() {
            parse_from(text, end + 1)
        } else {
            Seq::empty()
        };
        match parse_line(text, from, end) {
            Some(t) => seq![t] + rest,
            None => rest,
        }
    }
}

#[via_fn]
proof fn parse_from_decreases(text: Seq<u8>, from: int) {
    if 0 <= from < text.len() {
        lemma_seek_bounds(text, from, text.len() as int, NEWLINE);
    }
}

/// The triples that a text writes, in line order.
pub open spec fn parse_triples(text: Seq<u8>) -> Seq<Triple> {
    parse_from(text, 0)
}

proof fn lemma_seek_bounds(text: Seq<u8>, from: int, limit: int, byte: u8)
    requires
        0 <= from <= limit <= text.len(),
    ensures
        from <= seek(text, from, limit, byte) <= limit,
    decreases limit - from,
{
    if from < limit && text[from] != byte {
        lemma_seek_bounds(text, from + 1, limit, byte);
    }
}

/// The digits written so far never exceed those written in the end.
proof fn lemma_decimal_prefix(digits: Seq<u8>, n: int)
    requires
        0 <= n <= digits.len(),
        forall|i: int| 0 <= i < digits.len() ==> is_digit(#[trigger] digits[i]),
    ensures
        0 <= decimal(digits.take(n)) <= decimal(digits),
    decreases digits.len() - n,
{
    if n == digits.len() {
        assert(digits.take(n) == digits);
        lemma_decimal_nonnegative(digits);
    } else {
        lemma_decimal_prefix(digits, n + 1);
        let longer = digits.take(n + 1);
        assert(longer.drop_last() == digits.take(n));
        assert(is_digit(digits[n]));
        assert(longer.last() == digits[n]);
        lemma_decimal_nonnegative(digits.take(n));
    }
}

proof fn lemma_decimal_nonnegative(digits: Seq<u8>)
    requires
        forall|i: int| 0 <= i < digits.len() ==> is_digit(#[trigger] digits[i]),
    ensures
        0 <= decimal(digits),
    decreases digits.len(),
{
    if digits.len() > 0 {
        lemma_decimal_nonnegative(digits.drop_last());
        assert(is_digit(digits[digits.len() - 1]));
    }
}

/// The first position in `from..limit` that holds `byte`, or `limit`.
fn find(text: &[u8], from: usize, limit: usize, byte: u8) -> (at: usize)
    requires
        from <= limit <= text@.len(),
    ensures
        at == seek(text@, from as int, limit as int, byte),
        from <= at <= limit,
{
    let mut i = from;
    while i < limit
        invariant
            from <= i <= limit <= text@.len(),
            seek(text@, i as int, limit as int, byte) == seek(text@, from as int, limit as int, byte),
        decreases limit - i,
    {
        if *slice_index_get(text, i) == byte {
            return i;
        }
        i += 1;
    }
    i
}

/// Reads the field `text[from..to]` as a number.
fn read_number(text: &[u8], from: usize, to: usize) -> (r: Option<u32>)
    requires
        from <= to <= text@.len(),
    ensures
        r == number(text@.subrange(from as int, to as int)),
{
    let ghost field = text@.subrange(from as int, to as int);
    if from == to {
        return None;
    }
    let mut acc: u64 = 0;
    let mut i = from;
    while i < to
        invariant
            from <= i <= to <= text@.len(),
            field == text@.subrange(from as int, to as int),
            forall|j: int| 0 <= j < i - from ==> is_digit(#[trigger] field[j]),
            acc == decimal(field.take(i - from)),
            acc <= u32::MAX,
        decreases to - i,
    {
        let b = *slice_index_get(text, i);
        assert(b == field[i - from]);
        if b < 48 || b > 57 {
            return None;
        }
        let ghost longer = field.take(i - from + 1);
        assert(longer.drop_last() == field.take(i - from));
        assert(longer.last() == b);
        acc = acc * 10 + (b - 48) as u64;
        if acc > u32::MAX as u64 {
            proof {
                if forall|j: int| 0 <= j < field.len() ==> is_digit(#[trigger] field[j]) {
                    lemma_decimal_prefix(field, i - from + 1);
                }
            }
            return None;
        }
        i += 1;
    }
    assert(field.take(to - from) == field);
    Some(acc as u32)
}

/// Reads the line `text[from..end]`.
fn read_line(text: &[u8], from: usize, end: usize) -> (r: Option<Triple>)
    requires
        from <= end <= text@.len(),
    ensures
        r == parse_line(text@, from as int, end as int),
{
    let e1 = find(text, from, end, SPACE);
    if e1 >= end {
        return None;
    }
    let e2 = find(text, e1 + 1, end, SPACE);
    if e2 >= end {
        return None;
    }
    let e3 = find(text, e2 + 1, end, SPACE);
    match read_number(text, from, e1) {
        None => None,
        Some(s) => match read_number(text, e1 + 1, e2) {
            None => None,
            Some(p) => match read_number(text, e2 + 1, e3) {
                None => None,
                Some(o) => Some((s, p, o)),
            },
        },
    }
}

/// The triples that a text in the encoded-triple format writes, in line
/// order. A line that is not three numbers is skipped.
pub fn load3enc(text: &[u8]) -> (triples: Vec<Triple>)
    ensures
        triples@ == parse_triples(text@),
{
    let mut triples: Vec<Triple> = Vec::new();
    let mut from: usize = 0;
    let len = text.len();
    while from < len
        invariant
            from <= len,
            len == text@.len(),
            triples@ + parse_from(text@, from as int) == parse_triples(text@),
        decreases len - from,
    {
        let end = find(text, from, len, NEWLINE);
        let ghost before = triples@;
        let ghost rest = if end < len {
            parse_from(text@, end + 1)
        } else {
            Seq::<Triple>::empty()
        };
        match read_line(text, from, end) {
            Some(t) => {
                triples.push(t);
                assert(triples@ + rest == before + (seq![t] + rest));
            },
            None => {},
        }
        if end == len {
            assert(rest == Seq::<Triple>::empty());
            assert(triples@ + rest == triples@);
            assert(triples@ + parse_from(text@, len as int) == triples@);
            from = len;
        } else {
            from = end + 1;
        }
    }
    assert(triples@ + parse_from(text@, from as int) == triples@);
    triples
}

} // verus!
