use vstd::prelude::*;
use vstd::slice::slice_subrange;

use crate::errors::ParseError;
use crate::grammar::{
    all_digits, digits_value, find_byte, is_digit, spec_decimal, spec_number, spec_raw,
    STRING_DELIM,
};

verus! {

/// A numeral's value does not shrink when digits are appended.
pub proof fn lemma_digits_value_prefix(d: Seq<u8>, k: int)
    requires
        0 <= k <= d.len(),
    ensures
        digits_value(d.subrange(0, k)) <= digits_value(d),
    decreases d.len(),
{
    if k == d.len() {
        assert(d.subrange(0, k) =~= d);
    } else {
        lemma_digits_value_prefix(d.drop_last(), k);
        assert(d.drop_last().subrange(0, k) =~= d.subrange(0, k));
    }
}

/// `find_byte` stays between its starting index and the end of the buffer,
/// and no byte before its result is the byte that was looked for.
pub proof fn lemma_find_byte(buf: Seq<u8>, pos: int, b: u8)
    requires
        0 <= pos <= buf.len(),
    ensures
        pos <= find_byte(buf, pos, b) <= buf.len(),
        find_byte(buf, pos, b) < buf.len() ==> buf[find_byte(buf, pos, b)] == b,
        forall|i: int| pos <= i < find_byte(buf, pos, b) ==> buf[i] != b,
    decreases buf.len() - pos,
{
    if pos < buf.len() && buf[pos] != b {
        lemma_find_byte(buf, pos + 1, b);
    }
}

/// Whether `b` is an ASCII digit.
pub fn is_ascii_digit(b: u8) -> (r: bool)
    ensures
        r == is_digit(b),
{
    0x30 <= b && b <= 0x39
}

/// The index of the first `delim` at or after `pos`, or the length of `buf`.
pub fn scan_to(buf: &[u8], pos: usize, delim: u8) -> (end: usize)
    requires
        pos <= buf.len(),
    ensures
        end == find_byte(buf@, pos as int, delim),
        pos <= end <= buf.len(),
{
    let mut i: usize = pos;
    while i < buf.len() && buf[i] != delim
        invariant
            pos <= i <= buf.len(),
            find_byte(buf@, pos as int, delim) == find_byte(buf@, i as int, delim),
        decreases buf.len() - i,
    {
        i = i + 1;
    }
    i
}

/// The value of the decimal numeral in `buf[from..to]`.
pub fn parse_decimal(buf: &[u8], from: usize, to: usize) -> (r: Option<u64>)
    requires
        from <= to <= buf.len(),
    ensures
        r == spec_decimal(buf@.subrange(from as int, to as int)),
{
    let ghost d = buf@.subrange(from as int, to as int);
    if from == to {
        return None;
    }
    let mut acc: u64 = 0;
    let mut i: usize = from;
    while i < to
        invariant
            from <= i <= to <= buf.len(),
            d == buf@.subrange(from as int, to as int),
            all_digits(d.subrange(0, i - from)),
            acc == digits_value(d.subrange(0, i - from)),
        decreases to - i,
    {
        let b = buf[i];
        let ghost before = d.subrange(0, i - from);
        let ghost after = d.subrange(0, i + 1 - from);
        assert(after.drop_last() =~= before);
        assert(after.last() == b);
        if !is_ascii_digit(b) {
            assert(d[i - from] == b);
            return None;
        }
        let digit: u64 = (b - 0x30) as u64;
        if acc > (u64::MAX - digit) / 10 {
            proof {
                assert(digits_value(after) == acc * 10 + digit);
                lemma_digits_value_prefix(d, i + 1 - from);
            }
            return None;
        }
        acc = acc * 10 + digit;
        i = i + 1;
        assert forall|j: int| 0 <= j < after.len() implies is_digit(#[trigger] after[j]) by {
            if j < before.len() {
                assert(after[j] == before[j]);
            }
        }
    }
    assert(d.subrange(0, to - from) =~= d);
    Some(acc)
}

/// Reads the decimal numeral that starts at `pos` and ends before the next
/// `delim`; gives its value and the index after the delimiter.
pub fn read_number(buf: &[u8], pos: usize, delim: u8) -> (r: Result<(u64, usize), ParseError>)
    requires
        pos <= buf.len(),
    ensures
        match spec_number(buf@, pos as int, delim) {
            Ok((n, next)) => r == Ok::<(u64, usize), ParseError>((n, next as usize)) && pos < next
                <= buf.len(),
            Err(e) => r == Err::<(u64, usize), ParseError>(e),
        },
{
    let end = scan_to(buf, pos, delim);
    if end >= buf.len() {
        return Err(ParseError::BadFile);
    }
    match parse_decimal(buf, pos, end) {
        None => Err(ParseError::Int),
        Some(n) => Ok((n, end + 1)),
    }
}

/// Reads the length prefix at `pos` and checks that as many bytes follow;
/// gives the index where they start and the index after them.
pub fn read_raw(buf: &[u8], pos: usize) -> (r: Result<(usize, usize), ParseError>)
    requires
        pos <= buf.len(),
    ensures
        match spec_raw(buf@, pos as int) {
            Ok((start, end)) => r == Ok::<(usize, usize), ParseError>(
                (start as usize, end as usize),
            ) && pos < start <= end <= buf.len(),
            Err(e) => r == Err::<(usize, usize), ParseError>(e),
        },
{
    match read_number(buf, pos, STRING_DELIM) {
        Err(e) => Err(e),
        Ok((n, start)) => {
            if n > (buf.len() - start) as u64 {
                Err(ParseError::BadFile)
            } else {
                Ok((start, start + n as usize))
            }
        },
    }
}

/// The bytes `buf[start..end]`.
pub fn sub_slice(buf: &[u8], start: usize, end: usize) -> (out: &[u8])
    requires
        start <= end <= buf.len(),
    ensures
        out@ == buf@.subrange(start as int, end as int),
{
    slice_subrange(buf, start, end)
}

} // verus!
