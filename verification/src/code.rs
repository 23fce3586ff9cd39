//! The two on-disk forms of machine code.
//!
//! **Binary**: each 16-bit word as two bytes, big-endian, no
//! separators; a file's byte count is always even.
//!
//! **Bintext**: each word as sixteen ASCII `'0'`/`'1'` characters, most
//! significant bit first, one word per line. The writer ends every
//! line with `\n`; the reader also accepts `\r\n` and a missing
//! newline on the last line, and rejects blank lines and any other
//! line shape.

use crate::inst::DecodeErr;
use vstd::arithmetic::div_mod::lemma_div_denominator;
use vstd::prelude::*;

verus! {

/// Error decoding machine code from bytes.
#[derive(Debug, Clone, Copy, PartialEq, Eq, Structural)]
pub enum DisErr {
    /// A binary input with an odd byte count.
    TruncatedBinary,
    /// A bintext line (1-based) that is not sixteen bits wide.
    BintextWidth(usize),
    /// A bintext line (1-based) holding a byte that is neither a bit
    /// nor a line ending.
    BintextChar(usize),
    /// A word at or above `0x8000` whose top three bits are not all
    /// set, so it is neither an A- nor a C-instruction.
    InvalidWord(u16),
    /// A C-instruction word with a field that names no mnemonic.
    Decode(DecodeErr),
}

/// The high byte of a word.
pub open spec fn hi_byte(w: u16) -> u8 {
    (w >> 8u16) as u8
}

/// The low byte of a word.
pub open spec fn lo_byte(w: u16) -> u8 {
    (w & 0xffu16) as u8
}

/// The word two big-endian bytes form.
pub open spec fn word_of_pair(hi: u8, lo: u8) -> u16 {
    (((hi as u16) << 8u16) | (lo as u16)) as u16
}

/// A word survives the split into two bytes.
pub proof fn lemma_pair_inverse(w: u16)
    ensures
        word_of_pair(hi_byte(w), lo_byte(w)) == w,
{
    assert((((((w >> 8u16) as u8) as u16) << 8u16) | (((w & 0xffu16) as u8) as u16)) == w)
        by (bit_vector);
}

/// The big-endian bytes of a word sequence.
pub open spec fn bin_of_words(ws: Seq<u16>) -> Seq<u8>
    decreases ws.len(),
{
    if ws.len() == 0 {
        Seq::empty()
    } else {
        seq![hi_byte(ws[0]), lo_byte(ws[0])] + bin_of_words(ws.subrange(1, ws.len() as int))
    }
}

/// The words of a big-endian byte stream; an odd byte count is
/// truncated input.
pub open spec fn words_of_bin(s: Seq<u8>) -> Result<Seq<u16>, DisErr>
    decreases s.len(),
{
    if s.len() == 0 {
        Ok(Seq::empty())
    } else if s.len() == 1 {
        Err(DisErr::TruncatedBinary)
    } else {
        match words_of_bin(s.subrange(2, s.len() as int)) {
            Ok(ws) => Ok(seq![word_of_pair(s[0], s[1])] + ws),
            Err(e) => Err(e),
        }
    }
}

/// A word sequence renders to twice as many bytes.
pub proof fn lemma_bin_len(ws: Seq<u16>)
    ensures
        bin_of_words(ws).len() == 2 * ws.len(),
    decreases ws.len(),
{
    if ws.len() > 0 {
        lemma_bin_len(ws.subrange(1, ws.len() as int));
    }
}

/// Binary rendering distributes over concatenation.
pub proof fn lemma_bin_concat(a: Seq<u16>, b: Seq<u16>)
    ensures
        bin_of_words(a + b) == bin_of_words(a) + bin_of_words(b),
    decreases a.len(),
{
    if a.len() == 0 {
        assert(a + b =~= b);
        assert(bin_of_words(a) + bin_of_words(b) =~= bin_of_words(b));
    } else {
        lemma_bin_concat(a.subrange(1, a.len() as int), b);
        assert((a + b).subrange(1, (a + b).len() as int) =~= a.subrange(1, a.len() as int) + b);
        assert(bin_of_words(a + b) =~= bin_of_words(a) + bin_of_words(b));
    }
}

/// Appending one word appends its two bytes.
pub proof fn lemma_bin_snoc(a: Seq<u16>, w: u16)
    ensures
        bin_of_words(a.push(w)) == bin_of_words(a) + seq![hi_byte(w), lo_byte(w)],
{
    lemma_bin_concat(a, seq![w]);
    assert(a.push(w) =~= a + seq![w]);
    let one = seq![w];
    assert(one.subrange(1, one.len() as int) =~= Seq::<u16>::empty());
    assert(bin_of_words(Seq::<u16>::empty()) =~= Seq::<u8>::empty());
    assert(bin_of_words(one) =~= seq![hi_byte(w), lo_byte(w)] + Seq::<u8>::empty());
    assert(bin_of_words(one) =~= seq![hi_byte(w), lo_byte(w)]);
}

/// Parsing the binary bytes of a word sequence gives it back.
pub proof fn lemma_bin_inverse(ws: Seq<u16>)
    ensures
        words_of_bin(bin_of_words(ws)) == Ok::<Seq<u16>, DisErr>(ws),
    decreases ws.len(),
{
    if ws.len() > 0 {
        let rest = ws.subrange(1, ws.len() as int);
        lemma_bin_inverse(rest);
        lemma_pair_inverse(ws[0]);
        lemma_bin_len(rest);
        let s = bin_of_words(ws);
        assert(s.len() == 2 + 2 * rest.len());
        assert(s[0] == hi_byte(ws[0]) && s[1] == lo_byte(ws[0]));
        assert(s.subrange(2, s.len() as int) =~= bin_of_words(rest));
        assert(words_of_bin(s.subrange(2, s.len() as int)) == Ok::<Seq<u16>, DisErr>(rest));
        assert(words_of_bin(s) == Ok::<Seq<u16>, DisErr>(seq![word_of_pair(s[0], s[1])] + rest));
        assert(seq![word_of_pair(s[0], s[1])] + rest =~= ws);
    } else {
        assert(ws =~= Seq::<u16>::empty());
        assert(bin_of_words(ws) =~= Seq::<u8>::empty());
    }
}

/// Render a word sequence as big-endian bytes.
pub fn words_to_bin(ws: &Vec<u16>) -> (r: Vec<u8>)
    ensures
        r@ == bin_of_words(ws@),
{
    let mut out: Vec<u8> = Vec::new();
    let mut i: usize = 0;
    while i < ws.len()
        invariant
            0 <= i <= ws@.len(),
            out@ == bin_of_words(ws@.subrange(0, i as int)),
        decreases ws@.len() - i,
    {
        let w = ws[i];
        out.push((w >> 8u16) as u8);
        out.push((w & 0xffu16) as u8);
        proof {
            let pre = ws@.subrange(0, i as int);
            lemma_bin_snoc(pre, ws@[i as int]);
            assert(ws@.subrange(0, i + 1) =~= pre.push(ws@[i as int]));
            assert(out@ =~= bin_of_words(ws@.subrange(0, i + 1)));
        }
        i = i + 1;
    }
    proof {
        assert(ws@.subrange(0, ws@.len() as int) =~= ws@);
    }
    out
}

/// Parse big-endian bytes into words.
pub fn bin_to_words(buf: &[u8]) -> (r: Result<Vec<u16>, DisErr>)
    ensures
        match r {
            Ok(v) => words_of_bin(buf@) == Ok::<Seq<u16>, DisErr>(v@),
            Err(e) => words_of_bin(buf@) == Err::<Seq<u16>, DisErr>(e),
        },
{
    let mut out: Vec<u16> = Vec::new();
    let mut i: usize = 0;
    proof {
        assert(buf@.subrange(0, buf@.len() as int) =~= buf@);
    }
    while i < buf.len() && i + 1 < buf.len()
        invariant
            0 <= i <= buf@.len(),
            match words_of_bin(buf@.subrange(i as int, buf@.len() as int)) {
                Ok(ws) => words_of_bin(buf@) == Ok::<Seq<u16>, DisErr>(out@ + ws),
                Err(e) => words_of_bin(buf@) == Err::<Seq<u16>, DisErr>(e),
            },
        decreases buf@.len() - i,
    {
        let w = ((buf[i] as u16) << 8u16) | (buf[i + 1] as u16);
        proof {
            let s = buf@.subrange(i as int, buf@.len() as int);
            assert(s.subrange(2, s.len() as int) =~= buf@.subrange(i + 2, buf@.len() as int));
            assert(s[0] == buf@[i as int] && s[1] == buf@[i + 1]);
            match words_of_bin(buf@.subrange(i + 2, buf@.len() as int)) {
                Ok(ws) => {
                    assert(out@ + (seq![w] + ws) =~= out@.push(w) + ws);
                },
                Err(_) => {},
            }
        }
        out.push(w);
        i = i + 2;
    }
    if i < buf.len() {
        proof {
            let s = buf@.subrange(i as int, buf@.len() as int);
            assert(s.len() == 1);
        }
        return Err(DisErr::TruncatedBinary);
    }
    proof {
        let s = buf@.subrange(i as int, buf@.len() as int);
        assert(s.len() == 0);
        assert(out@ + Seq::<u16>::empty() =~= out@);
    }
    Ok(out)
}

/// Whether a byte is an ASCII bit character.
pub open spec fn is_bit(b: u8) -> bool {
    b == ('0' as u8) || b == ('1' as u8)
}

/// The numeric value of a bit character; any other byte counts as 0.
pub open spec fn bit_of_char(b: u8) -> nat {
    if b == ('1' as u8) {
        1
    } else {
        0
    }
}

/// The value of a string of bit characters, most significant first.
pub open spec fn word_of_bits(s: Seq<u8>) -> nat
    decreases s.len(),
{
    if s.len() == 0 {
        0
    } else {
        word_of_bits(s.drop_last()) * 2 + bit_of_char(s.last())
    }
}

/// Two to the `n`th.
pub open spec fn pow2n(n: nat) -> nat
    decreases n,
{
    if n == 0 {
        1
    } else {
        2 * pow2n((n - 1) as nat)
    }
}

/// Powers of two are positive.
pub proof fn lemma_pow2n_pos(n: nat)
    ensures
        pow2n(n) >= 1,
    decreases n,
{
    if n > 0 {
        lemma_pow2n_pos((n - 1) as nat);
    }
}

/// Powers of two grow with the exponent.
pub proof fn lemma_pow2n_le(a: nat, b: nat)
    requires
        a <= b,
    ensures
        pow2n(a) <= pow2n(b),
    decreases b,
{
    if a < b {
        lemma_pow2n_le(a, (b - 1) as nat);
        lemma_pow2n_pos((b - 1) as nat);
    }
}

/// Sixteen bits name sixty-five thousand five hundred and thirty-six
/// values.
pub proof fn lemma_pow2n_16()
    ensures
        pow2n(16) == 65536,
{
    reveal_with_fuel(pow2n, 17);
}

/// A string of `n` bit characters denotes a value below two to the
/// `n`th.
pub proof fn lemma_word_of_bits_bound(s: Seq<u8>)
    ensures
        word_of_bits(s) < pow2n(s.len()),
    decreases s.len(),
{
    if s.len() > 0 {
        lemma_word_of_bits_bound(s.drop_last());
    }
}

/// The character of the bit of `w` at position `i` from the left.
pub open spec fn bit_char(w: u16, i: int) -> u8 {
    if ((w as nat) / pow2n((15 - i) as nat)) % 2 == 1 {
        '1' as u8
    } else {
        '0' as u8
    }
}

/// The bintext line of a word: sixteen bit characters and a newline.
pub open spec fn line_of_word(w: u16) -> Seq<u8> {
    Seq::new(17, |i: int| if i == 16 {
        '\n' as u8
    } else {
        bit_char(w, i)
    })
}

/// The bintext lines of a word sequence.
pub open spec fn bintext_of_words(ws: Seq<u16>) -> Seq<u8>
    decreases ws.len(),
{
    if ws.len() == 0 {
        Seq::empty()
    } else {
        line_of_word(ws[0]) + bintext_of_words(ws.subrange(1, ws.len() as int))
    }
}

/// A word sequence renders to seventeen bytes per word.
pub proof fn lemma_bintext_len(ws: Seq<u16>)
    ensures
        bintext_of_words(ws).len() == 17 * ws.len(),
    decreases ws.len(),
{
    if ws.len() > 0 {
        lemma_bintext_len(ws.subrange(1, ws.len() as int));
    }
}

/// Bintext rendering distributes over concatenation.
pub proof fn lemma_bintext_concat(a: Seq<u16>, b: Seq<u16>)
    ensures
        bintext_of_words(a + b) == bintext_of_words(a) + bintext_of_words(b),
    decreases a.len(),
{
    if a.len() == 0 {
        assert(a + b =~= b);
        assert(bintext_of_words(a) + bintext_of_words(b) =~= bintext_of_words(b));
    } else {
        lemma_bintext_concat(a.subrange(1, a.len() as int), b);
        assert((a + b).subrange(1, (a + b).len() as int) =~= a.subrange(1, a.len() as int) + b);
        assert(bintext_of_words(a + b) =~= bintext_of_words(a) + bintext_of_words(b));
    }
}

/// Appending one word appends its line.
pub proof fn lemma_bintext_snoc(a: Seq<u16>, w: u16)
    ensures
        bintext_of_words(a.push(w)) == bintext_of_words(a) + line_of_word(w),
{
    lemma_bintext_concat(a, seq![w]);
    assert(a.push(w) =~= a + seq![w]);
    let one = seq![w];
    assert(one.subrange(1, one.len() as int) =~= Seq::<u16>::empty());
    assert(bintext_of_words(Seq::<u16>::empty()) =~= Seq::<u8>::empty());
    assert(bintext_of_words(one) =~= line_of_word(w) + Seq::<u8>::empty());
    assert(bintext_of_words(one) =~= line_of_word(w));
}

/// The first `k` bit characters of the line of `w` denote the value of
/// the top `k` bits of `w`.
proof fn lemma_line_prefix(w: u16, k: int)
    requires
        0 <= k <= 16,
    ensures
        word_of_bits(line_of_word(w).subrange(0, k)) == (w as nat) / pow2n((16 - k) as nat),
    decreases k,
{
    if k == 0 {
        assert(line_of_word(w).subrange(0, 0) =~= Seq::<u8>::empty());
        lemma_pow2n_16();
        assert((w as nat) / 65536 == 0) by {
            assert((w as nat) < 65536);
        };
    } else {
        lemma_line_prefix(w, k - 1);
        let s = line_of_word(w).subrange(0, k);
        assert(s.drop_last() =~= line_of_word(w).subrange(0, k - 1));
        assert(s.last() == bit_char(w, k - 1));
        let p = pow2n((16 - k) as nat);
        let x = w as nat;
        lemma_pow2n_pos((16 - k) as nat);
        assert(pow2n((16 - k + 1) as nat) == 2 * p);
        lemma_div_denominator(x as int, p as int, 2);
        assert(x / (2 * p) == (x / p) / 2) by {
            assert(p * 2 == 2 * p);
        };
        assert(bit_of_char(bit_char(w, k - 1)) == (x / p) % 2);
        assert(((x / p) / 2) * 2 + (x / p) % 2 == x / p);
    }
}

/// The sixteen bit characters of the line of `w` denote `w`.
pub proof fn lemma_line_value(w: u16)
    ensures
        word_of_bits(line_of_word(w).subrange(0, 16)) == w as nat,
{
    lemma_line_prefix(w, 16);
    assert(pow2n(0) == 1);
    assert((w as nat) / 1 == w as nat);
}

/// The end of the run of bit characters that starts at `i`.
pub open spec fn bit_run_end(s: Seq<u8>, i: int) -> int
    recommends
        0 <= i <= s.len(),
    decreases s.len() - i,
{
    if i < s.len() && is_bit(s[i]) {
        bit_run_end(s, i + 1)
    } else {
        i
    }
}

/// The run end is where the bits stop.
pub proof fn lemma_bit_run_char(s: Seq<u8>, i: int, n: int)
    requires
        0 <= i <= n <= s.len(),
        forall|k: int| i <= k < n ==> is_bit(s[k]),
        n == s.len() || !is_bit(s[n]),
    ensures
        bit_run_end(s, i) == n,
    decreases n - i,
{
    if i < n {
        assert(is_bit(s[i]));
        lemma_bit_run_char(s, i + 1, n);
    }
}

/// The outcome of reading one bintext line from the front of a text.
pub enum LineOut {
    /// A word was read; the text resumes at the given index.
    Word(u16, int),
    /// The line is ill-formed.
    Fail(DisErr),
}

/// Read one bintext line from the front of `s` (line number `line`,
/// 1-based, for errors): exactly sixteen bit characters, then the end
/// of the text, `\n`, or `\r\n`. A line of any other width is a width
/// error; a stray byte where a bit or a line ending belongs is a
/// character error.
pub open spec fn bintext_line(s: Seq<u8>, line: int) -> LineOut {
    let e = bit_run_end(s, 0);
    if e != 16 {
        if e < s.len() && s[e] != ('\n' as u8) && s[e] != ('\r' as u8) {
            LineOut::Fail(DisErr::BintextChar(line as usize))
        } else {
            LineOut::Fail(DisErr::BintextWidth(line as usize))
        }
    } else {
        let w = word_of_bits(s.subrange(0, 16)) as u16;
        if s.len() == 16 {
            LineOut::Word(w, 16)
        } else if s[16] == ('\n' as u8) {
            LineOut::Word(w, 17)
        } else if s[16] == ('\r' as u8) && s.len() > 17 && s[17] == ('\n' as u8) {
            LineOut::Word(w, 18)
        } else if s[16] == ('0' as u8) || s[16] == ('1' as u8) {
            LineOut::Fail(DisErr::BintextWidth(line as usize))
        } else {
            LineOut::Fail(DisErr::BintextChar(line as usize))
        }
    }
}

/// The words of a bintext stream, counting error lines from `line`.
/// The width check on the consumed count never fails; it keeps the
/// recursion visibly well-founded.
pub open spec fn words_of_bintext(s: Seq<u8>, line: int) -> Result<Seq<u16>, DisErr>
    decreases s.len(),
{
    if s.len() == 0 {
        Ok(Seq::empty())
    } else {
        match bintext_line(s, line) {
            LineOut::Fail(e) => Err(e),
            LineOut::Word(w, used) => if 16 <= used <= s.len() {
                match words_of_bintext(s.subrange(used, s.len() as int), line + 1) {
                    Ok(ws) => Ok(seq![w] + ws),
                    Err(e) => Err(e),
                }
            } else {
                Err(DisErr::BintextWidth(line as usize))
            },
        }
    }
}

/// A line the writer emits reads back as its word, whatever follows.
proof fn lemma_line_inverse(w: u16, rest: Seq<u8>, line: int)
    ensures
        bintext_line(line_of_word(w) + rest, line) == LineOut::Word(w, 17),
{
    let s = line_of_word(w) + rest;
    assert forall|k: int| 0 <= k < 16 implies is_bit(s[k]) by {
        assert(s[k] == bit_char(w, k));
    }
    assert(s[16] == '\n' as u8);
    lemma_bit_run_char(s, 0, 16);
    assert(s.subrange(0, 16) =~= line_of_word(w).subrange(0, 16));
    lemma_line_value(w);
}

/// Parsing the bintext of a word sequence gives it back, from any
/// starting line count.
pub proof fn lemma_bintext_inverse(ws: Seq<u16>, line: int)
    ensures
        words_of_bintext(bintext_of_words(ws), line) == Ok::<Seq<u16>, DisErr>(ws),
    decreases ws.len(),
{
    if ws.len() > 0 {
        let rest = ws.subrange(1, ws.len() as int);
        let s = bintext_of_words(ws);
        lemma_line_inverse(ws[0], bintext_of_words(rest), line);
        lemma_bintext_len(rest);
        assert(s.len() == 17 + 17 * rest.len());
        assert(s.subrange(17, s.len() as int) =~= bintext_of_words(rest));
        lemma_bintext_inverse(rest, line + 1);
        assert(words_of_bintext(s.subrange(17, s.len() as int), line + 1) == Ok::<
            Seq<u16>,
            DisErr,
        >(rest));
        assert(seq![ws[0]] + rest =~= ws);
    } else {
        assert(ws =~= Seq::<u16>::empty());
        assert(bintext_of_words(ws) =~= Seq::<u8>::empty());
    }
}

/// Append the bintext line of one word.
fn push_line(out: &mut Vec<u8>, w: u16)
    ensures
        final(out)@ == old(out)@ + line_of_word(w),
{
    let ghost base = out@;
    let mut d: u16 = 32768;
    let mut i: usize = 0;
    proof {
        reveal_with_fuel(pow2n, 2);
        assert(pow2n(15) == 32768) by {
            reveal_with_fuel(pow2n, 17);
        };
    }
    while i < 16
        invariant
            0 <= i <= 16,
            out@.len() == base.len() + i,
            forall|k: int| 0 <= k < base.len() ==> out@[k] == base[k],
            forall|k: int| 0 <= k < i ==> out@[base.len() + k] == bit_char(w, k),
            i < 16 ==> d as nat == pow2n((15 - i) as nat),
        decreases 16 - i,
    {
        proof {
            lemma_pow2n_pos((15 - i) as nat);
        }
        let bit = (w / d) % 2;
        out.push(if bit == 1 {
            '1' as u8
        } else {
            '0' as u8
        });
        if i < 15 {
            proof {
                assert(pow2n((15 - i) as nat) == 2 * pow2n((14 - i) as nat));
            }
            d = d / 2;
        }
        i = i + 1;
    }
    out.push('\n' as u8);
    proof {
        assert(out@.len() == base.len() + 17);
        assert forall|k: int| 0 <= k < out@.len() implies out@[k] == (base + line_of_word(w))[k] by {
            if k < base.len() {
            } else if k < base.len() + 16 {
                assert(out@[k] == bit_char(w, k - base.len()));
                assert(line_of_word(w)[k - base.len()] == bit_char(w, k - base.len()));
            } else {
                assert(out@[k] == '\n' as u8);
            }
        }
        assert(out@ =~= base + line_of_word(w));
    }
}

/// Render a word sequence as bintext lines.
pub fn words_to_bintext(ws: &Vec<u16>) -> (r: Vec<u8>)
    ensures
        r@ == bintext_of_words(ws@),
{
    let mut out: Vec<u8> = Vec::new();
    let mut i: usize = 0;
    while i < ws.len()
        invariant
            0 <= i <= ws@.len(),
            out@ == bintext_of_words(ws@.subrange(0, i as int)),
        decreases ws@.len() - i,
    {
        push_line(&mut out, ws[i]);
        proof {
            let pre = ws@.subrange(0, i as int);
            lemma_bintext_snoc(pre, ws@[i as int]);
            assert(ws@.subrange(0, i + 1) =~= pre.push(ws@[i as int]));
            assert(out@ =~= bintext_of_words(ws@.subrange(0, i + 1)));
        }
        i = i + 1;
    }
    proof {
        assert(ws@.subrange(0, ws@.len() as int) =~= ws@);
    }
    out
}

/// Parse bintext lines into words.
pub fn bintext_to_words(buf: &[u8]) -> (r: Result<Vec<u16>, DisErr>)
    ensures
        match r {
            Ok(v) => words_of_bintext(buf@, 1) == Ok::<Seq<u16>, DisErr>(v@),
            Err(e) => words_of_bintext(buf@, 1) == Err::<Seq<u16>, DisErr>(e),
        },
{
    let len = buf.len();
    let mut out: Vec<u16> = Vec::new();
    let mut i: usize = 0;
    let mut line: usize = 1;
    proof {
        assert(buf@.subrange(0, buf@.len() as int) =~= buf@);
    }
    while i < len
        invariant
            len == buf@.len(),
            0 <= i <= len,
            1 <= line,
            16 * (line - 1) <= i,
            match words_of_bintext(buf@.subrange(i as int, len as int), line as int) {
                Ok(ws) => words_of_bintext(buf@, 1) == Ok::<Seq<u16>, DisErr>(out@ + ws),
                Err(e) => words_of_bintext(buf@, 1) == Err::<Seq<u16>, DisErr>(e),
            },
        decreases len - i,
    {
        let ghost s = buf@.subrange(i as int, len as int);
        // scan the run of bit characters
        let mut e = i;
        while e < len && (buf[e] == '0' as u8 || buf[e] == '1' as u8)
            invariant
                len == buf@.len(),
                i <= e <= len,
                forall|k: int| i <= k < e ==> is_bit(buf@[k]),
            decreases len - e,
        {
            e = e + 1;
        }
        proof {
            assert forall|k: int| 0 <= k < e - i implies is_bit(s[k]) by {
                assert(s[k] == buf@[i + k]);
            }
            lemma_bit_run_char(s, 0, e - i);
        }
        if e - i != 16 {
            if e < len && buf[e] != '\n' as u8 && buf[e] != '\r' as u8 {
                return Err(DisErr::BintextChar(line));
            }
            return Err(DisErr::BintextWidth(line));
        }
        // the sixteen bits of the line
        let mut acc: u32 = 0;
        let mut k: usize = 0;
        proof {
            assert(s.subrange(0, 0) =~= Seq::<u8>::empty());
        }
        while k < 16
            invariant
                len == buf@.len(),
                i + 16 <= len,
                e == i + 16,
                0 <= k <= 16,
                s == buf@.subrange(i as int, len as int),
                acc as nat == word_of_bits(s.subrange(0, k as int)),
                forall|j: int| i <= j < e ==> is_bit(buf@[j]),
            decreases 16 - k,
        {
            proof {
                lemma_word_of_bits_bound(s.subrange(0, k as int));
                lemma_pow2n_le(k as nat, 16);
                lemma_pow2n_16();
                assert(s.subrange(0, k + 1).drop_last() =~= s.subrange(0, k as int));
                assert(s.subrange(0, k + 1).last() == buf@[i + k]);
            }
            let b = buf[i + k];
            acc = acc * 2 + (if b == '1' as u8 {
                1
            } else {
                0
            });
            k = k + 1;
        }
        proof {
            lemma_word_of_bits_bound(s.subrange(0, 16));
            lemma_pow2n_16();
        }
        let w = acc as u16;
        // the line ending
        let ni: usize = if e == len {
            e
        } else if buf[e] == '\n' as u8 {
            e + 1
        } else if buf[e] == '\r' as u8 {
            if e + 1 < len && buf[e + 1] == '\n' as u8 {
                e + 2
            } else {
                return Err(DisErr::BintextChar(line));
            }
        } else if buf[e] == '0' as u8 || buf[e] == '1' as u8 {
            return Err(DisErr::BintextWidth(line));
        } else {
            return Err(DisErr::BintextChar(line));
        };
        proof {
            assert(bintext_line(s, line as int) == LineOut::Word(w, ni - i));
            assert(s.subrange(ni - i, s.len() as int) =~= buf@.subrange(ni as int, len as int));
            match words_of_bintext(buf@.subrange(ni as int, len as int), line as int + 1) {
                Ok(ws) => {
                    assert(out@ + (seq![w] + ws) =~= out@.push(w) + ws);
                },
                Err(_) => {},
            }
        }
        out.push(w);
        i = ni;
        line = line + 1;
    }
    proof {
        let s = buf@.subrange(i as int, len as int);
        assert(s.len() == 0);
        assert(out@ + Seq::<u16>::empty() =~= out@);
    }
    Ok(out)
}

} // verus!
