//! The lexer: a one-shot token stream over a byte buffer.
//!
//! Whitespace is any byte at or below the ASCII space; `//` starts a
//! comment that runs to the next newline. Tokens are `@number`,
//! `@name`, `(label)`, `;`, and mnemonic chunks. A chunk followed by
//! `=` must name a destination; a chunk right after a `;` must name a
//! jump; any other chunk must name a computation. The lexer yields at
//! most one error and then ends.

use crate::inst::{comp_of_text, dest_of_text, jump_of_text, Comp, Dest, Jump};
use crate::loc::Loc;
use crate::scan;
use crate::scan::{
    chunk_end, digits_end, ident_end, is_digit, is_ident_start, is_mnemonic_byte, is_space,
};
use crate::text::dec_val;
use vstd::prelude::*;

verus! {

/// A token with the position of its first byte (1-based line, 1-based
/// column once consumed).
#[derive(Debug, Clone, PartialEq, Eq)]
pub enum Tok {
    /// `@` with a decimal address.
    NumAddr(Loc, u16),
    /// `@` with a symbolic name.
    NameAddr(Loc, Vec<u8>),
    /// `(name)`.
    Label(Loc, Vec<u8>),
    /// A destination mnemonic followed by `=`.
    Dest(Loc, Dest),
    /// A computation mnemonic.
    Comp(Loc, Comp),
    /// A jump mnemonic right after a `;`.
    Jump(Loc, Jump),
    /// The `;` separator.
    Semi(Loc),
}

/// A lexing error, pointing at the offending byte.
#[derive(Debug, Clone, PartialEq, Eq)]
pub enum LexErr {
    /// The chunk before `=` names no destination.
    UnknownDest(Loc, Vec<u8>),
    /// The chunk names no computation.
    UnknownComp(Loc, Vec<u8>),
    /// The chunk after `;` names no jump.
    UnknownJump(Loc, Vec<u8>),
    /// A decimal address beyond the 15-bit space; the position is the
    /// number's first digit.
    NumericOverflow(Loc),
    /// A `(` without a well-formed name and closing `)`.
    UnterminatedLabel(Loc),
    /// A byte that can start no token.
    InvalidByte(Loc, u8),
}

/// A token over mathematical sequences.
pub enum GTok {
    /// `@` with a decimal address.
    Num(Loc, u16),
    /// `@` with a symbolic name.
    Name(Loc, Seq<u8>),
    /// `(name)`.
    Label(Loc, Seq<u8>),
    /// A destination mnemonic.
    Dest(Loc, Dest),
    /// A computation mnemonic.
    Comp(Loc, Comp),
    /// A jump mnemonic.
    Jump(Loc, Jump),
    /// The `;` separator.
    Semi(Loc),
}

/// A lexing error over mathematical sequences.
pub enum GLexErr {
    /// The chunk before `=` names no destination.
    UnknownDest(Loc, Seq<u8>),
    /// The chunk names no computation.
    UnknownComp(Loc, Seq<u8>),
    /// The chunk after `;` names no jump.
    UnknownJump(Loc, Seq<u8>),
    /// A decimal address beyond the 15-bit space.
    NumericOverflow(Loc),
    /// A `(` without a well-formed name and closing `)`.
    UnterminatedLabel(Loc),
    /// A byte that can start no token.
    InvalidByte(Loc, u8),
}

/// The view of a token.
pub open spec fn tok_abs(t: Tok) -> GTok {
    match t {
        Tok::NumAddr(p, v) => GTok::Num(p, v),
        Tok::NameAddr(p, n) => GTok::Name(p, n@),
        Tok::Label(p, n) => GTok::Label(p, n@),
        Tok::Dest(p, d) => GTok::Dest(p, d),
        Tok::Comp(p, c) => GTok::Comp(p, c),
        Tok::Jump(p, j) => GTok::Jump(p, j),
        Tok::Semi(p) => GTok::Semi(p),
    }
}

/// The view of a lexing error.
pub open spec fn lex_err_abs(e: LexErr) -> GLexErr {
    match e {
        LexErr::UnknownDest(p, t) => GLexErr::UnknownDest(p, t@),
        LexErr::UnknownComp(p, t) => GLexErr::UnknownComp(p, t@),
        LexErr::UnknownJump(p, t) => GLexErr::UnknownJump(p, t@),
        LexErr::NumericOverflow(p) => GLexErr::NumericOverflow(p),
        LexErr::UnterminatedLabel(p) => GLexErr::UnterminatedLabel(p),
        LexErr::InvalidByte(p, b) => GLexErr::InvalidByte(p, b),
    }
}

/// Whether a position can stand at byte offset `i`: lines are 1-based
/// and a cursor can have moved at most one step per consumed byte.
pub open spec fn loc_wf(loc: Loc, i: int) -> bool {
    1 <= loc.line && loc.line - 1 + loc.col <= i
}

/// The cursor after consuming the bytes of `s` between `a` and `b`.
pub open spec fn loc_after(s: Seq<u8>, a: int, b: int, loc: Loc) -> Loc
    recommends
        0 <= a <= b <= s.len(),
    decreases b - a,
{
    if a >= b {
        loc
    } else {
        loc_after(s, a + 1, b, loc.inc_spec(s[a]))
    }
}

/// Consuming one more byte advances the cursor once more.
pub proof fn lemma_loc_after_snoc(s: Seq<u8>, a: int, b: int, loc: Loc)
    requires
        0 <= a <= b < s.len(),
        s.len() < usize::MAX,
        loc_wf(loc, a),
    ensures
        loc_after(s, a, b + 1, loc) == loc_after(s, a, b, loc).inc_spec(s[b]),
    decreases b - a,
{
    if a < b {
        lemma_loc_after_snoc(s, a + 1, b, loc.inc_spec(s[a]));
    } else {
        reveal_with_fuel(loc_after, 2);
    }
}

/// A cursor stays well-placed while it consumes bytes.
pub proof fn lemma_loc_after_wf(s: Seq<u8>, a: int, b: int, loc: Loc)
    requires
        0 <= a <= b <= s.len(),
        s.len() < usize::MAX,
        loc_wf(loc, a),
    ensures
        loc_wf(loc_after(s, a, b, loc), b),
    decreases b - a,
{
    if a < b {
        lemma_loc_after_wf(s, a + 1, b, loc.inc_spec(s[a]));
    }
}

/// Skip whitespace and comments from `i`: the index and cursor of the
/// first byte of the next token, or the end of the text.
pub open spec fn skip_spec(s: Seq<u8>, i: int, loc: Loc, in_comment: bool) -> (int, Loc)
    recommends
        0 <= i <= s.len(),
    decreases s.len() - i,
{
    if i >= s.len() {
        (i, loc)
    } else if in_comment {
        skip_spec(s, i + 1, loc.inc_spec(s[i]), s[i] != ('\n' as u8))
    } else if is_space(s[i]) {
        skip_spec(s, i + 1, loc.inc_spec(s[i]), false)
    } else if s[i] == ('/' as u8) && i + 1 < s.len() && s[i + 1] == ('/' as u8) {
        skip_spec(s, i + 2, loc.inc_spec(s[i]).inc_spec(s[i + 1]), true)
    } else {
        (i, loc)
    }
}

/// Skipping ends in bounds and keeps the cursor well-placed.
pub proof fn lemma_skip_wf(s: Seq<u8>, i: int, loc: Loc, in_comment: bool)
    requires
        0 <= i <= s.len(),
        s.len() < usize::MAX,
        loc_wf(loc, i),
    ensures
        i <= skip_spec(s, i, loc, in_comment).0 <= s.len(),
        loc_wf(skip_spec(s, i, loc, in_comment).1, skip_spec(s, i, loc, in_comment).0),
    decreases s.len() - i,
{
    if i >= s.len() {
    } else if in_comment {
        lemma_skip_wf(s, i + 1, loc.inc_spec(s[i]), s[i] != ('\n' as u8));
    } else if is_space(s[i]) {
        lemma_skip_wf(s, i + 1, loc.inc_spec(s[i]), false);
    } else if s[i] == ('/' as u8) && i + 1 < s.len() && s[i + 1] == ('/' as u8) {
        lemma_skip_wf(s, i + 2, loc.inc_spec(s[i]).inc_spec(s[i + 1]), true);
    }
}

/// One step of the lexer, over mathematical sequences.
pub enum LexOut {
    /// The text is exhausted; the index and cursor after the final
    /// skip.
    End(int, Loc),
    /// A token, with the index and cursor after it.
    Tok(GTok, int, Loc),
    /// A lexing error; the lexer then ends.
    Fail(GLexErr),
}

/// Read the address token after an `@` at `j` (`pos` is the cursor on
/// the `@`): a decimal number fitting 15 bits, or an identifier.
pub open spec fn lex_addr(s: Seq<u8>, j: int, pos: Loc) -> LexOut
    recommends
        0 <= j < s.len(),
{
    if j + 1 < s.len() && is_digit(s[j + 1]) {
        let e = digits_end(s, j + 1);
        if dec_val(s.subrange(j + 1, e)) <= 32767 {
            LexOut::Tok(
                GTok::Num(pos, dec_val(s.subrange(j + 1, e)) as u16),
                e,
                loc_after(s, j + 1, e, pos),
            )
        } else {
            LexOut::Fail(GLexErr::NumericOverflow(pos.inc_spec(s[j + 1])))
        }
    } else if j + 1 < s.len() && is_ident_start(s[j + 1]) {
        let e = ident_end(s, j + 1);
        LexOut::Tok(GTok::Name(pos, s.subrange(j + 1, e)), e, loc_after(s, j + 1, e, pos))
    } else if j + 1 < s.len() {
        LexOut::Fail(GLexErr::InvalidByte(pos.inc_spec(s[j + 1]), s[j + 1]))
    } else {
        LexOut::Fail(GLexErr::InvalidByte(pos, '@' as u8))
    }
}

/// Read the label token after a `(` at `j`: an identifier closed by
/// `)`. Anything else is an unterminated label, reported at the `(`.
pub open spec fn lex_label(s: Seq<u8>, j: int, pos: Loc) -> LexOut
    recommends
        0 <= j < s.len(),
{
    if j + 1 < s.len() && is_ident_start(s[j + 1]) {
        let e = ident_end(s, j + 1);
        if e < s.len() && s[e] == (')' as u8) {
            LexOut::Tok(GTok::Label(pos, s.subrange(j + 1, e)), e + 1, loc_after(s, j + 1, e + 1, pos))
        } else {
            LexOut::Fail(GLexErr::UnterminatedLabel(pos))
        }
    } else {
        LexOut::Fail(GLexErr::UnterminatedLabel(pos))
    }
}

/// Read the mnemonic chunk at `j` (`l` is the cursor before it) and
/// classify it: a destination when `=` follows, a jump right after a
/// `;`, a computation otherwise.
pub open spec fn lex_mnemonic(s: Seq<u8>, j: int, l: Loc, after_semi: bool) -> LexOut
    recommends
        0 <= j < s.len(),
        is_mnemonic_byte(s[j]),
{
    let e = chunk_end(s, j);
    let chunk = s.subrange(j, e);
    let pos = l.inc_spec(s[j]);
    let le = loc_after(s, j, e, l);
    if e < s.len() && s[e] == ('=' as u8) {
        match dest_of_text(chunk) {
            Some(d) => LexOut::Tok(GTok::Dest(pos, d), e + 1, le.inc_spec('=' as u8)),
            None => LexOut::Fail(GLexErr::UnknownDest(pos, chunk)),
        }
    } else if after_semi {
        match jump_of_text(chunk) {
            Some(jp) => LexOut::Tok(GTok::Jump(pos, jp), e, le),
            None => LexOut::Fail(GLexErr::UnknownJump(pos, chunk)),
        }
    } else {
        match comp_of_text(chunk) {
            Some(c) => LexOut::Tok(GTok::Comp(pos, c), e, le),
            None => LexOut::Fail(GLexErr::UnknownComp(pos, chunk)),
        }
    }
}

/// One step of the lexer from index `i`, cursor `loc`, with
/// `after_semi` telling whether the previous token was a `;`.
pub open spec fn lex_spec(s: Seq<u8>, i: int, loc: Loc, after_semi: bool) -> LexOut
    recommends
        0 <= i <= s.len(),
{
    let (j, l) = skip_spec(s, i, loc, false);
    if j >= s.len() {
        LexOut::End(j, l)
    } else {
        let b = s[j];
        let pos = l.inc_spec(b);
        if b == ('@' as u8) {
            lex_addr(s, j, pos)
        } else if b == ('(' as u8) {
            lex_label(s, j, pos)
        } else if b == (';' as u8) {
            LexOut::Tok(GTok::Semi(pos), j + 1, pos)
        } else if is_mnemonic_byte(b) {
            lex_mnemonic(s, j, l, after_semi)
        } else {
            LexOut::Fail(GLexErr::InvalidByte(pos, b))
        }
    }
}

/// A token step moves forward and keeps the cursor well-placed.
pub proof fn lemma_lex_advances(s: Seq<u8>, i: int, loc: Loc, after_semi: bool)
    requires
        0 <= i <= s.len(),
        s.len() < usize::MAX,
        loc_wf(loc, i),
    ensures
        lex_spec(s, i, loc, after_semi) matches LexOut::Tok(gt, ni, nl) ==> i < ni <= s.len()
            && loc_wf(nl, ni),
        lex_spec(s, i, loc, after_semi) matches LexOut::End(j, l) ==> i <= j <= s.len() && loc_wf(
            l,
            j,
        ),
{
    lemma_skip_wf(s, i, loc, false);
    let (j, l) = skip_spec(s, i, loc, false);
    if j < s.len() {
        let b = s[j];
        let pos = l.inc_spec(b);
        assert(loc_wf(pos, j + 1));
        if b == ('@' as u8) {
            if j + 1 < s.len() && is_digit(s[j + 1]) {
                scan::lemma_digits_end_bounds(s, j + 1);
                lemma_loc_after_wf(s, j + 1, digits_end(s, j + 1), pos);
            } else if j + 1 < s.len() && is_ident_start(s[j + 1]) {
                scan::lemma_ident_end_bounds(s, j + 1);
                lemma_loc_after_wf(s, j + 1, ident_end(s, j + 1), pos);
            }
        } else if b == ('(' as u8) {
            if j + 1 < s.len() && is_ident_start(s[j + 1]) {
                scan::lemma_ident_end_bounds(s, j + 1);
                let e = ident_end(s, j + 1);
                if e < s.len() && s[e] == (')' as u8) {
                    lemma_loc_after_wf(s, j + 1, e + 1, pos);
                }
            }
        } else if b == (';' as u8) {
        } else if is_mnemonic_byte(b) {
            scan::lemma_chunk_nonempty(s, j);
            scan::lemma_chunk_end_bounds(s, j);
            let e = chunk_end(s, j);
            lemma_loc_after_wf(s, j, e, l);
            let le = loc_after(s, j, e, l);
            if e < s.len() && s[e] == ('=' as u8) {
                assert(loc_wf(le.inc_spec('=' as u8), e + 1));
            }
        }
    }
}

/// The lexer: a cursor over an owned byte buffer. After an error it
/// yields nothing more.
#[derive(Debug)]
pub struct Lex {
    /// The input text.
    pub buf: Vec<u8>,
    /// The index of the next unconsumed byte.
    pub i: usize,
    /// The cursor at that byte.
    pub loc: Loc,
    /// Whether the token just produced was a `;`.
    pub after_semi: bool,
    /// Whether an error has been produced.
    pub failed: bool,
}

impl Lex {
    /// Whether the lexer state is consistent with its buffer.
    pub open spec fn wf(self) -> bool {
        self.i <= self.buf@.len() && self.buf@.len() < usize::MAX && loc_wf(self.loc, self.i as int)
    }

    /// A lexer at the start of a buffer.
    pub fn new(buf: Vec<u8>) -> (r: Lex)
        requires
            buf@.len() < usize::MAX,
        ensures
            r.wf(),
            r.buf@ == buf@,
            r.i == 0,
            r.loc == (Loc { line: 1, col: 0 }),
            r.after_semi == false,
            r.failed == false,
    {
        Lex { buf, i: 0, loc: Loc::new(1, 0), after_semi: false, failed: false }
    }

    /// The next token: `None` when the text is exhausted or after an
    /// error, a token or the first error otherwise.
    pub fn next_tok(&mut self) -> (r: Option<Result<Tok, LexErr>>)
        requires
            old(self).wf(),
        ensures
            final(self).wf(),
            final(self).buf@ == old(self).buf@,
            old(self).failed ==> r is None && *final(self) == *old(self),
            !old(self).failed ==> match lex_spec(
                old(self).buf@,
                old(self).i as int,
                old(self).loc,
                old(self).after_semi,
            ) {
                LexOut::End(j, l) => r is None && !final(self).failed && final(self).i == j
                    && final(self).loc == l && final(self).after_semi == old(self).after_semi,
                LexOut::Tok(gt, ni, nl) => (match r {
                    Some(Ok(t)) => tok_abs(t) == gt,
                    _ => false,
                }) && !final(self).failed && final(self).i == ni && final(self).loc == nl
                    && final(self).after_semi == (gt is Semi),
                LexOut::Fail(ge) => (match r {
                    Some(Err(e)) => lex_err_abs(e) == ge,
                    _ => false,
                }) && final(self).failed,
            },
    {
        if self.failed {
            return None;
        }
        let ghost s = self.buf@;
        let ghost i0 = self.i as int;
        let ghost l0 = self.loc;
        let ghost semi0 = self.after_semi;
        proof {
            lemma_skip_wf(s, i0, l0, false);
        }
        // skip whitespace and comments
        let mut cmt = false;
        while skip_step(&self.buf, self.i, cmt)
            invariant
                self.wf(),
                self.buf@ == s,
                self.after_semi == semi0,
                self.failed == false,
                skip_spec(s, i0, l0, false) == skip_spec(s, self.i as int, self.loc, cmt),
            decreases s.len() - self.i,
        {
            let b = self.buf[self.i];
            if cmt {
                self.loc.inc(b);
                self.i = self.i + 1;
                if b == '\n' as u8 {
                    cmt = false;
                }
            } else if b <= 0x20 {
                self.loc.inc(b);
                self.i = self.i + 1;
            } else {
                let b2 = self.buf[self.i + 1];
                self.loc.inc(b);
                self.loc.inc(b2);
                self.i = self.i + 2;
                cmt = true;
            }
        }
        proof {
            assert(skip_spec(s, self.i as int, self.loc, cmt) == (self.i as int, self.loc));
        }
        if self.i >= self.buf.len() {
            return None;
        }
        let j = self.i;
        let ghost l = self.loc;
        let b = self.buf[j];
        self.loc.inc(b);
        self.i = j + 1;
        let pos = self.loc;
        if b == '@' as u8 {
            if j + 1 < self.buf.len() && scan::digit(self.buf[j + 1]) {
                let e = scan::read_digits(self.buf.as_slice(), j + 1);
                let v = self.read_number(j + 1, e);
                if let Some(v) = v {
                    return Some(Ok(Tok::NumAddr(pos, v)));
                }
                let mut dp = pos;
                dp.inc(self.buf[j + 1]);
                self.failed = true;
                return Some(Err(LexErr::NumericOverflow(dp)));
            }
            if j + 1 < self.buf.len() && scan::ident_start(self.buf[j + 1]) {
                let e = scan::read_ident(self.buf.as_slice(), j + 1);
                let name = scan::chunk_vec(self.buf.as_slice(), j + 1, e);
                self.advance_to(j + 1, e);
                self.after_semi = false;
                return Some(Ok(Tok::NameAddr(pos, name)));
            }
            if j + 1 < self.buf.len() {
                let b2 = self.buf[j + 1];
                let mut dp = pos;
                dp.inc(b2);
                self.failed = true;
                return Some(Err(LexErr::InvalidByte(dp, b2)));
            }
            self.failed = true;
            return Some(Err(LexErr::InvalidByte(pos, '@' as u8)));
        }
        if b == '(' as u8 {
            if j + 1 < self.buf.len() && scan::ident_start(self.buf[j + 1]) {
                let e = scan::read_ident(self.buf.as_slice(), j + 1);
                if e < self.buf.len() && self.buf[e] == ')' as u8 {
                    let name = scan::chunk_vec(self.buf.as_slice(), j + 1, e);
                    self.advance_to(j + 1, e + 1);
                    self.after_semi = false;
                    return Some(Ok(Tok::Label(pos, name)));
                }
            }
            self.failed = true;
            return Some(Err(LexErr::UnterminatedLabel(pos)));
        }
        if b == ';' as u8 {
            self.after_semi = true;
            return Some(Ok(Tok::Semi(pos)));
        }
        if scan::mnemonic_byte(b) {
            proof {
                scan::lemma_chunk_nonempty(s, j as int);
            }
            let e = scan::read_chunk(self.buf.as_slice(), j);
            let chunk = scan::chunk_vec(self.buf.as_slice(), j, e);
            self.advance_to(j + 1, e);
            proof {
                assert(loc_after(s, j as int, e as int, l) == loc_after(
                    s,
                    j + 1,
                    e as int,
                    l.inc_spec(s[j as int]),
                ));
            }
            if e < self.buf.len() && self.buf[e] == '=' as u8 {
                match Dest::parse(chunk.as_slice()) {
                    Some(d) => {
                        let eq = self.buf[e];
                        self.loc.inc(eq);
                        self.i = e + 1;
                        self.after_semi = false;
                        return Some(Ok(Tok::Dest(pos, d)));
                    },
                    None => {
                        self.failed = true;
                        return Some(Err(LexErr::UnknownDest(pos, chunk)));
                    },
                }
            }
            if self.after_semi {
                match Jump::parse(chunk.as_slice()) {
                    Some(jp) => {
                        self.after_semi = false;
                        return Some(Ok(Tok::Jump(pos, jp)));
                    },
                    None => {
                        self.failed = true;
                        return Some(Err(LexErr::UnknownJump(pos, chunk)));
                    },
                }
            }
            match Comp::parse(chunk.as_slice()) {
                Some(c) => {
                    self.after_semi = false;
                    return Some(Ok(Tok::Comp(pos, c)));
                },
                None => {
                    self.failed = true;
                    return Some(Err(LexErr::UnknownComp(pos, chunk)));
                },
            }
        }
        self.failed = true;
        Some(Err(LexErr::InvalidByte(pos, b)))
    }

    /// Read the decimal value of the digits between `start` and `end`;
    /// `None` when it exceeds the 15-bit space. Advances the cursor
    /// over the digits on success and on overflow alike.
    fn read_number(&mut self, start: usize, end: usize) -> (r: Option<u16>)
        requires
            old(self).wf(),
            start <= end <= old(self).buf@.len(),
            loc_wf(old(self).loc, start as int),
        ensures
            final(self).wf(),
            final(self).buf@ == old(self).buf@,
            final(self).failed == old(self).failed,
            final(self).i == end,
            final(self).loc == loc_after(old(self).buf@, start as int, end as int, old(self).loc),
            final(self).after_semi == false,
            match r {
                Some(v) => dec_val(old(self).buf@.subrange(start as int, end as int)) <= 32767 && v
                    == dec_val(old(self).buf@.subrange(start as int, end as int)),
                None => dec_val(old(self).buf@.subrange(start as int, end as int)) > 32767,
            },
    {
        let ghost s = self.buf@;
        let ghost l0 = self.loc;
        let mut acc: u32 = 0;
        let mut over = false;
        let mut k = start;
        proof {
            assert(s.subrange(start as int, start as int) =~= Seq::<u8>::empty());
        }
        while k < end
            invariant
                self.buf@ == s,
                s.len() < usize::MAX,
                self.failed == old(self).failed,
                start <= k <= end <= s.len(),
                self.i == old(self).i,
                self.i <= s.len(),
                self.after_semi == old(self).after_semi,
                loc_wf(l0, start as int),
                self.loc == loc_after(s, start as int, k as int, l0),
                !over ==> acc <= 32767 && acc == dec_val(s.subrange(start as int, k as int)),
                over ==> dec_val(s.subrange(start as int, k as int)) > 32767,
            decreases end - k,
        {
            proof {
                lemma_loc_after_wf(s, start as int, k as int, l0);
                lemma_loc_after_snoc(s, start as int, k as int, l0);
                assert(s.subrange(start as int, k + 1).drop_last() =~= s.subrange(
                    start as int,
                    k as int,
                ));
                assert(s.subrange(start as int, k + 1).last() == s[k as int]);
                crate::text::lemma_dec_val_grows(s.subrange(start as int, k as int), s[k as int]);
            }
            let b = self.buf[k];
            self.loc.inc(b);
            if !over {
                let d: u32 = if b >= 48 {
                    (b - 48) as u32
                } else {
                    0
                };
                acc = acc * 10 + d;
                if acc > 32767 {
                    over = true;
                }
            }
            k = k + 1;
        }
        proof {
            lemma_loc_after_wf(s, start as int, end as int, l0);
        }
        self.i = end;
        self.after_semi = false;
        if over {
            None
        } else {
            Some(acc as u16)
        }
    }

    /// Advance the cursor over the bytes between `start` and `end` and
    /// set the index to `end`.
    fn advance_to(&mut self, start: usize, end: usize)
        requires
            old(self).wf(),
            start <= end <= old(self).buf@.len(),
            loc_wf(old(self).loc, start as int),
        ensures
            final(self).wf(),
            final(self).buf@ == old(self).buf@,
            final(self).failed == old(self).failed,
            final(self).after_semi == old(self).after_semi,
            final(self).i == end,
            final(self).loc == loc_after(old(self).buf@, start as int, end as int, old(self).loc),
    {
        let ghost s = self.buf@;
        let ghost l0 = self.loc;
        let mut k = start;
        while k < end
            invariant
                self.buf@ == s,
                self.failed == old(self).failed,
                self.after_semi == old(self).after_semi,
                self.i == old(self).i,
                self.i <= s.len() && s.len() < usize::MAX,
                start <= k <= end <= s.len(),
                loc_wf(l0, start as int),
                self.loc == loc_after(s, start as int, k as int, l0),
            decreases end - k,
        {
            proof {
                lemma_loc_after_wf(s, start as int, k as int, l0);
                lemma_loc_after_snoc(s, start as int, k as int, l0);
            }
            let b = self.buf[k];
            self.loc.inc(b);
            k = k + 1;
        }
        proof {
            lemma_loc_after_wf(s, start as int, end as int, l0);
        }
        self.i = end;
    }
}

/// Whether skipping continues at `i`: inside a comment, on whitespace,
/// or at the start of a comment.
fn skip_step(buf: &Vec<u8>, i: usize, cmt: bool) -> (r: bool)
    requires
        i <= buf@.len(),
    ensures
        r == (i < buf@.len() && (cmt || is_space(buf@[i as int]) || (buf@[i as int] == ('/' as u8)
            && i + 1 < buf@.len() && buf@[i + 1] == ('/' as u8)))),
{
    i < buf.len() && (cmt || buf[i] <= 0x20 || (buf[i] == '/' as u8 && i + 1 < buf.len() && buf[i
        + 1] == '/' as u8))
}

} // verus!
