//! Byte classes of the assembly grammar and maximal-munch scanning.
//!
//! Identifiers are `[A-Za-z_.$:][A-Za-z0-9_.$:]*`. A mnemonic chunk is
//! the longest run of identifier bytes and the operator bytes
//! `! - + & |`; the lexer and the instruction reader both cut their
//! tokens out of such runs.

use vstd::prelude::*;

verus! {

/// Whether `b` is an ASCII decimal digit.
pub open spec fn is_digit(b: u8) -> bool {
    ('0' as u8) <= b && b <= ('9' as u8)
}

/// Whether `b` may start an identifier: a letter or one of `_ . $ :`.
pub open spec fn is_ident_start(b: u8) -> bool {
    (('A' as u8) <= b && b <= ('Z' as u8)) || (('a' as u8) <= b && b <= ('z' as u8)) || b == (
    '_' as u8) || b == ('.' as u8) || b == ('$' as u8) || b == (':' as u8)
}

/// Whether `b` may continue an identifier.
pub open spec fn is_ident_byte(b: u8) -> bool {
    is_ident_start(b) || is_digit(b)
}

/// Whether `b` belongs to a mnemonic chunk: identifier bytes and the
/// operator bytes of computations.
pub open spec fn is_mnemonic_byte(b: u8) -> bool {
    is_ident_byte(b) || b == ('!' as u8) || b == ('-' as u8) || b == ('+' as u8) || b == (
    '&' as u8) || b == ('|' as u8)
}

/// Whether `b` is whitespace: any byte at or below the ASCII space.
pub open spec fn is_space(b: u8) -> bool {
    b <= 0x20
}

/// Exec check of [`is_digit`].
pub fn digit(b: u8) -> (r: bool)
    ensures
        r == is_digit(b),
{
    ('0' as u8) <= b && b <= ('9' as u8)
}

/// Exec check of [`is_ident_start`].
pub fn ident_start(b: u8) -> (r: bool)
    ensures
        r == is_ident_start(b),
{
    (('A' as u8) <= b && b <= ('Z' as u8)) || (('a' as u8) <= b && b <= ('z' as u8)) || b == (
    '_' as u8) || b == ('.' as u8) || b == ('$' as u8) || b == (':' as u8)
}

/// Exec check of [`is_ident_byte`].
pub fn ident_byte(b: u8) -> (r: bool)
    ensures
        r == is_ident_byte(b),
{
    ident_start(b) || digit(b)
}

/// Exec check of [`is_mnemonic_byte`].
pub fn mnemonic_byte(b: u8) -> (r: bool)
    ensures
        r == is_mnemonic_byte(b),
{
    ident_byte(b) || b == ('!' as u8) || b == ('-' as u8) || b == ('+' as u8) || b == ('&' as u8)
        || b == ('|' as u8)
}

/// Exec check of [`is_space`].
pub fn space(b: u8) -> (r: bool)
    ensures
        r == is_space(b),
{
    b <= 0x20
}

/// The end of the mnemonic chunk that starts at `i`: the first
/// position at or after `i` that holds no mnemonic byte.
pub open spec fn chunk_end(s: Seq<u8>, i: int) -> int
    recommends
        0 <= i <= s.len(),
    decreases s.len() - i,
{
    if i < s.len() && is_mnemonic_byte(s[i]) {
        chunk_end(s, i + 1)
    } else {
        i
    }
}

/// The chunk end never lies before its start nor past the text.
pub proof fn lemma_chunk_end_bounds(s: Seq<u8>, i: int)
    requires
        0 <= i <= s.len(),
    ensures
        i <= chunk_end(s, i) <= s.len(),
    decreases s.len() - i,
{
    if i < s.len() && is_mnemonic_byte(s[i]) {
        lemma_chunk_end_bounds(s, i + 1);
    }
}

/// Scan the mnemonic chunk that starts at `start`.
pub fn read_chunk(buf: &[u8], start: usize) -> (end: usize)
    requires
        start <= buf@.len(),
    ensures
        end == chunk_end(buf@, start as int),
        start <= end <= buf@.len(),
{
    proof {
        lemma_chunk_end_bounds(buf@, start as int);
    }
    let mut i = start;
    while i < buf.len() && mnemonic_byte(buf[i])
        invariant
            start <= i <= buf@.len(),
            chunk_end(buf@, start as int) == chunk_end(buf@, i as int),
        decreases buf@.len() - i,
    {
        i = i + 1;
    }
    i
}

/// Copy the bytes of `buf` between `start` and `end` into a vector.
pub fn chunk_vec(buf: &[u8], start: usize, end: usize) -> (r: Vec<u8>)
    requires
        start <= end <= buf@.len(),
    ensures
        r@ == buf@.subrange(start as int, end as int),
{
    let mut v: Vec<u8> = Vec::new();
    let mut i = start;
    while i < end
        invariant
            start <= i <= end <= buf@.len(),
            v@ == buf@.subrange(start as int, i as int),
        decreases end - i,
    {
        v.push(buf[i]);
        i = i + 1;
        proof {
            assert(v@ =~= buf@.subrange(start as int, i as int));
        }
    }
    v
}

/// The end of the run of decimal digits that starts at `i`.
pub open spec fn digits_end(s: Seq<u8>, i: int) -> int
    recommends
        0 <= i <= s.len(),
    decreases s.len() - i,
{
    if i < s.len() && is_digit(s[i]) {
        digits_end(s, i + 1)
    } else {
        i
    }
}

/// The digit run never ends before its start nor past the text.
pub proof fn lemma_digits_end_bounds(s: Seq<u8>, i: int)
    requires
        0 <= i <= s.len(),
    ensures
        i <= digits_end(s, i) <= s.len(),
        forall|k: int| i <= k < digits_end(s, i) ==> is_digit(s[k]),
    decreases s.len() - i,
{
    if i < s.len() && is_digit(s[i]) {
        lemma_digits_end_bounds(s, i + 1);
    }
}

/// Scan the run of digits that starts at `start`.
pub fn read_digits(buf: &[u8], start: usize) -> (end: usize)
    requires
        start <= buf@.len(),
    ensures
        end == digits_end(buf@, start as int),
        start <= end <= buf@.len(),
{
    proof {
        lemma_digits_end_bounds(buf@, start as int);
    }
    let mut i = start;
    while i < buf.len() && digit(buf[i])
        invariant
            start <= i <= buf@.len(),
            digits_end(buf@, start as int) == digits_end(buf@, i as int),
        decreases buf@.len() - i,
    {
        i = i + 1;
    }
    i
}

/// The end of the run of identifier bytes that starts at `i`.
pub open spec fn ident_end(s: Seq<u8>, i: int) -> int
    recommends
        0 <= i <= s.len(),
    decreases s.len() - i,
{
    if i < s.len() && is_ident_byte(s[i]) {
        ident_end(s, i + 1)
    } else {
        i
    }
}

/// The identifier run never ends before its start nor past the text.
pub proof fn lemma_ident_end_bounds(s: Seq<u8>, i: int)
    requires
        0 <= i <= s.len(),
    ensures
        i <= ident_end(s, i) <= s.len(),
        forall|k: int| i <= k < ident_end(s, i) ==> is_ident_byte(s[k]),
    decreases s.len() - i,
{
    if i < s.len() && is_ident_byte(s[i]) {
        lemma_ident_end_bounds(s, i + 1);
    }
}

/// Scan the run of identifier bytes that starts at `start`.
pub fn read_ident(buf: &[u8], start: usize) -> (end: usize)
    requires
        start <= buf@.len(),
    ensures
        end == ident_end(buf@, start as int),
        start <= end <= buf@.len(),
{
    proof {
        lemma_ident_end_bounds(buf@, start as int);
    }
    let mut i = start;
    while i < buf.len() && ident_byte(buf[i])
        invariant
            start <= i <= buf@.len(),
            ident_end(buf@, start as int) == ident_end(buf@, i as int),
        decreases buf@.len() - i,
    {
        i = i + 1;
    }
    i
}

/// A chunk that starts at a mnemonic byte is not empty.
pub proof fn lemma_chunk_nonempty(s: Seq<u8>, i: int)
    requires
        0 <= i < s.len(),
        is_mnemonic_byte(s[i]),
    ensures
        chunk_end(s, i) > i,
{
    lemma_chunk_end_bounds(s, i + 1);
}

} // verus!
