//! The parser: a one-shot statement stream over the token stream.
//!
//! Numeric and resolvable name addresses become address statements;
//! unknown names stay unresolved for the encoder; label definitions
//! are sunk into the symbol table and bind the current instruction
//! index without advancing it; mnemonic tokens form the three shapes
//! of C-instruction. The parser yields at most one error and then
//! ends.

use crate::inst::{Comp, Dest, Jump};
use crate::lex::{lex_spec, loc_wf, GLexErr, GTok, Lex, LexErr, LexOut, Tok};
use crate::loc::Loc;
use crate::sym::{is_predefined_symbol, predefined_addr, SymInfo, SymTable};
use vstd::prelude::*;

verus! {

/// A statement of a HACK program.
#[derive(Debug, Clone, PartialEq, Eq)]
pub enum Stmt {
    /// A resolved A-instruction.
    Addr(Loc, u16),
    /// An A-instruction naming a symbol not yet in the table.
    UnresolvedAddr(Loc, Vec<u8>),
    /// `dest=comp`.
    Assign(Loc, Dest, Loc, Comp),
    /// `comp;jump`.
    Branch(Loc, Comp, Loc, Jump),
    /// `dest=comp;jump`.
    Inst(Loc, Dest, Loc, Comp, Loc, Jump),
}

/// A parsing error.
#[derive(Debug, Clone, PartialEq, Eq)]
pub enum ParseErr {
    /// The lexer failed.
    Lex(LexErr),
    /// A label was defined twice; the prior binding is carried along.
    DuplicateLabel(Loc, Vec<u8>, SymInfo),
    /// A destination with no computation after its `=`.
    DestWithoutComp(Loc, Dest),
    /// A computation with no jump where one is required.
    CompWithoutJump(Loc, Comp),
    /// A jump mnemonic with no computation before it.
    FreestandingJump(Loc, Jump),
    /// A `;` with no computation before it.
    FreestandingSemicolon(Loc),
    /// The instruction counter left the 16-bit space.
    TooManyInstructions(Loc),
}

/// A statement over mathematical sequences.
pub enum GStmt {
    /// A resolved A-instruction.
    Addr(Loc, u16),
    /// An unresolved A-instruction.
    Unresolved(Loc, Seq<u8>),
    /// `dest=comp`.
    Assign(Loc, Dest, Loc, Comp),
    /// `comp;jump`.
    Branch(Loc, Comp, Loc, Jump),
    /// `dest=comp;jump`.
    Inst(Loc, Dest, Loc, Comp, Loc, Jump),
}

/// A parsing error over mathematical sequences.
pub enum GParseErr {
    /// The lexer failed.
    Lex(GLexErr),
    /// A label was defined twice.
    DuplicateLabel(Loc, Seq<u8>, SymInfo),
    /// A destination with no computation after its `=`.
    DestWithoutComp(Loc, Dest),
    /// A computation with no jump where one is required.
    CompWithoutJump(Loc, Comp),
    /// A jump mnemonic with no computation before it.
    FreestandingJump(Loc, Jump),
    /// A `;` with no computation before it.
    FreestandingSemicolon(Loc),
    /// The instruction counter left the 16-bit space.
    TooManyInstructions(Loc),
}

/// The view of a statement.
pub open spec fn stmt_abs(st: Stmt) -> GStmt {
    match st {
        Stmt::Addr(p, v) => GStmt::Addr(p, v),
        Stmt::UnresolvedAddr(p, n) => GStmt::Unresolved(p, n@),
        Stmt::Assign(dp, d, cp, c) => GStmt::Assign(dp, d, cp, c),
        Stmt::Branch(cp, c, jp, j) => GStmt::Branch(cp, c, jp, j),
        Stmt::Inst(dp, d, cp, c, jp, j) => GStmt::Inst(dp, d, cp, c, jp, j),
    }
}

/// The view of a parsing error.
pub open spec fn perr_abs(e: ParseErr) -> GParseErr {
    match e {
        ParseErr::Lex(le) => GParseErr::Lex(crate::lex::lex_err_abs(le)),
        ParseErr::DuplicateLabel(p, n, i) => GParseErr::DuplicateLabel(p, n@, i),
        ParseErr::DestWithoutComp(p, d) => GParseErr::DestWithoutComp(p, d),
        ParseErr::CompWithoutJump(p, c) => GParseErr::CompWithoutJump(p, c),
        ParseErr::FreestandingJump(p, j) => GParseErr::FreestandingJump(p, j),
        ParseErr::FreestandingSemicolon(p) => GParseErr::FreestandingSemicolon(p),
        ParseErr::TooManyInstructions(p) => GParseErr::TooManyInstructions(p),
    }
}

/// The position of a statement's first token.
pub open spec fn gstmt_pos(gs: GStmt) -> Loc {
    match gs {
        GStmt::Addr(p, _) => p,
        GStmt::Unresolved(p, _) => p,
        GStmt::Assign(p, _, _, _) => p,
        GStmt::Branch(p, _, _, _) => p,
        GStmt::Inst(p, _, _, _, _, _) => p,
    }
}

/// The whole state a parser carries: the lexer cursor, the instruction
/// counter, and the symbol table.
pub struct PState {
    /// The index of the next unconsumed byte.
    pub i: int,
    /// The cursor at that byte.
    pub loc: Loc,
    /// Whether the token just consumed was a `;`.
    pub after_semi: bool,
    /// The running instruction index.
    pub idx: u16,
    /// The symbol table so far.
    pub st: Map<Seq<u8>, SymInfo>,
}

/// Whether a parser state fits its text.
pub open spec fn ps_wf(s: Seq<u8>, ps: PState) -> bool {
    0 <= ps.i <= s.len() && s.len() < usize::MAX && loc_wf(ps.loc, ps.i)
}

/// One step of the parser, over mathematical sequences.
pub enum ParseOut {
    /// The text is exhausted; the final state, labels included.
    End(PState),
    /// A statement, with the state after it.
    Stmt(GStmt, PState),
    /// A parsing error; the parser then ends.
    Fail(GParseErr),
}

/// Emit a statement, advancing the instruction counter; a program of
/// more instructions than the counter can hold is refused.
pub open spec fn emit_spec(gs: GStmt, ps: PState) -> ParseOut {
    if ps.idx == u16::MAX {
        ParseOut::Fail(GParseErr::TooManyInstructions(gstmt_pos(gs)))
    } else {
        ParseOut::Stmt(gs, PState { idx: (ps.idx + 1) as u16, ..ps })
    }
}

/// After `dest= comp ;`: a jump token completes the full instruction;
/// anything else leaves the computation without its jump.
pub open spec fn parse_full_jump(
    s: Seq<u8>,
    ps: PState,
    dpos: Loc,
    d: Dest,
    cpos: Loc,
    c: Comp,
    spos: Loc,
) -> ParseOut {
    match lex_spec(s, ps.i, ps.loc, true) {
        LexOut::End(_, _) => ParseOut::Fail(GParseErr::CompWithoutJump(spos, c)),
        LexOut::Fail(ge) => ParseOut::Fail(GParseErr::Lex(ge)),
        LexOut::Tok(gt, ni, nl) => match gt {
            GTok::Jump(jpos, j) => emit_spec(
                GStmt::Inst(dpos, d, cpos, c, jpos, j),
                PState { i: ni, loc: nl, after_semi: false, ..ps },
            ),
            _ => ParseOut::Fail(GParseErr::CompWithoutJump(spos, c)),
        },
    }
}

/// After `dest= comp`: a `;` leads to the jump; the end of the text or
/// any other token closes the assignment, the other token staying for
/// the next statement.
pub open spec fn parse_assign(
    s: Seq<u8>,
    ps: PState,
    dpos: Loc,
    d: Dest,
    cpos: Loc,
    c: Comp,
) -> ParseOut {
    match lex_spec(s, ps.i, ps.loc, false) {
        LexOut::End(_, _) => emit_spec(GStmt::Assign(dpos, d, cpos, c), ps),
        LexOut::Fail(ge) => ParseOut::Fail(GParseErr::Lex(ge)),
        LexOut::Tok(gt, ni, nl) => match gt {
            GTok::Semi(spos) => parse_full_jump(
                s,
                PState { i: ni, loc: nl, after_semi: true, ..ps },
                dpos,
                d,
                cpos,
                c,
                spos,
            ),
            _ => emit_spec(GStmt::Assign(dpos, d, cpos, c), ps),
        },
    }
}

/// After a destination token: only a computation may follow its `=`.
/// At the end of the text the error points at the `=`.
pub open spec fn parse_dest(s: Seq<u8>, ps: PState, dpos: Loc, d: Dest) -> ParseOut {
    match lex_spec(s, ps.i, ps.loc, false) {
        LexOut::End(_, _) => ParseOut::Fail(GParseErr::DestWithoutComp(ps.loc, d)),
        LexOut::Fail(ge) => ParseOut::Fail(GParseErr::Lex(ge)),
        LexOut::Tok(gt, ni, nl) => match gt {
            GTok::Comp(cpos, c) => parse_assign(
                s,
                PState { i: ni, loc: nl, after_semi: false, ..ps },
                dpos,
                d,
                cpos,
                c,
            ),
            _ => ParseOut::Fail(GParseErr::DestWithoutComp(dpos, d)),
        },
    }
}

/// After a branch's `comp ;`: only a jump may follow.
pub open spec fn parse_branch_jump(
    s: Seq<u8>,
    ps: PState,
    cpos: Loc,
    c: Comp,
    spos: Loc,
) -> ParseOut {
    match lex_spec(s, ps.i, ps.loc, true) {
        LexOut::End(_, _) => ParseOut::Fail(GParseErr::CompWithoutJump(spos, c)),
        LexOut::Fail(ge) => ParseOut::Fail(GParseErr::Lex(ge)),
        LexOut::Tok(gt, ni, nl) => match gt {
            GTok::Jump(jpos, j) => emit_spec(
                GStmt::Branch(cpos, c, jpos, j),
                PState { i: ni, loc: nl, after_semi: false, ..ps },
            ),
            _ => ParseOut::Fail(GParseErr::CompWithoutJump(spos, c)),
        },
    }
}

/// After a bare computation token: only `;jump` may follow.
pub open spec fn parse_comp(s: Seq<u8>, ps: PState, cpos: Loc, c: Comp) -> ParseOut {
    match lex_spec(s, ps.i, ps.loc, false) {
        LexOut::End(_, _) => ParseOut::Fail(GParseErr::CompWithoutJump(cpos, c)),
        LexOut::Fail(ge) => ParseOut::Fail(GParseErr::Lex(ge)),
        LexOut::Tok(gt, ni, nl) => match gt {
            GTok::Semi(spos) => parse_branch_jump(
                s,
                PState { i: ni, loc: nl, after_semi: true, ..ps },
                cpos,
                c,
                spos,
            ),
            _ => ParseOut::Fail(GParseErr::CompWithoutJump(cpos, c)),
        },
    }
}

/// One statement step of the parser. The width check on the label arm
/// never fails; it keeps the recursion visibly well-founded.
pub open spec fn parse_spec(s: Seq<u8>, ps: PState) -> ParseOut
    decreases s.len() - ps.i,
{
    match lex_spec(s, ps.i, ps.loc, ps.after_semi) {
        LexOut::End(j, l) => ParseOut::End(PState { i: j, loc: l, ..ps }),
        LexOut::Fail(ge) => ParseOut::Fail(GParseErr::Lex(ge)),
        LexOut::Tok(gt, ni, nl) => {
            let ps1 = PState { i: ni, loc: nl, after_semi: gt is Semi, ..ps };
            match gt {
                GTok::Num(pos, v) => emit_spec(GStmt::Addr(pos, v), ps1),
                GTok::Name(pos, n) => match predefined_addr(n) {
                    Some(a) => emit_spec(GStmt::Addr(pos, a), ps1),
                    None => if ps.st.contains_key(n) && ps.st[n].addr < 0x8000 {
                        emit_spec(GStmt::Addr(pos, ps.st[n].addr), ps1)
                    } else {
                        emit_spec(GStmt::Unresolved(pos, n), ps1)
                    },
                },
                GTok::Label(pos, n) => if ps.st.contains_key(n) {
                    ParseOut::Fail(GParseErr::DuplicateLabel(pos, n, ps.st[n]))
                } else if ps.i < ni <= s.len() {
                    parse_spec(
                        s,
                        PState { st: ps.st.insert(n, SymInfo { pos, addr: ps.idx }), ..ps1 },
                    )
                } else {
                    ParseOut::End(ps1)
                },
                GTok::Semi(pos) => ParseOut::Fail(GParseErr::FreestandingSemicolon(pos)),
                GTok::Jump(pos, j) => ParseOut::Fail(GParseErr::FreestandingJump(pos, j)),
                GTok::Dest(dpos, d) => parse_dest(s, ps1, dpos, d),
                GTok::Comp(cpos, c) => parse_comp(s, ps1, cpos, c),
            }
        },
    }
}

/// A statement step moves forward and keeps the state well-placed.
pub proof fn lemma_parse_advances(s: Seq<u8>, ps: PState)
    requires
        ps_wf(s, ps),
    ensures
        parse_spec(s, ps) matches ParseOut::Stmt(gs, ps1) ==> ps.i < ps1.i <= s.len() && ps_wf(
            s,
            ps1,
        ),
        parse_spec(s, ps) matches ParseOut::End(psf) ==> ps_wf(s, psf),
    decreases s.len() - ps.i,
{
    crate::lex::lemma_lex_advances(s, ps.i, ps.loc, ps.after_semi);
    match lex_spec(s, ps.i, ps.loc, ps.after_semi) {
        LexOut::End(_, _) => {},
        LexOut::Fail(_) => {},
        LexOut::Tok(gt, ni, nl) => {
            let ps1 = PState { i: ni, loc: nl, after_semi: gt is Semi, ..ps };
            match gt {
                GTok::Label(pos, n) => {
                    if !ps.st.contains_key(n) && ps.i < ni <= s.len() {
                        lemma_parse_advances(
                            s,
                            PState { st: ps.st.insert(n, SymInfo { pos, addr: ps.idx }), ..ps1 },
                        );
                    }
                },
                GTok::Dest(dpos, d) => {
                    crate::lex::lemma_lex_advances(s, ps1.i, ps1.loc, false);
                    match lex_spec(s, ps1.i, ps1.loc, false) {
                        LexOut::Tok(gt2, ni2, nl2) => match gt2 {
                            GTok::Comp(cpos, c) => {
                                let ps2 = PState { i: ni2, loc: nl2, after_semi: false, ..ps1 };
                                crate::lex::lemma_lex_advances(s, ps2.i, ps2.loc, false);
                                match lex_spec(s, ps2.i, ps2.loc, false) {
                                    LexOut::Tok(gt3, ni3, nl3) => match gt3 {
                                        GTok::Semi(spos) => {
                                            let ps3 = PState {
                                                i: ni3,
                                                loc: nl3,
                                                after_semi: true,
                                                ..ps2
                                            };
                                            crate::lex::lemma_lex_advances(s, ps3.i, ps3.loc, true);
                                        },
                                        _ => {},
                                    },
                                    _ => {},
                                }
                            },
                            _ => {},
                        },
                        _ => {},
                    }
                },
                GTok::Comp(cpos, c) => {
                    crate::lex::lemma_lex_advances(s, ps1.i, ps1.loc, false);
                    match lex_spec(s, ps1.i, ps1.loc, false) {
                        LexOut::Tok(gt2, ni2, nl2) => match gt2 {
                            GTok::Semi(spos) => {
                                let ps2 = PState { i: ni2, loc: nl2, after_semi: true, ..ps1 };
                                crate::lex::lemma_lex_advances(s, ps2.i, ps2.loc, true);
                            },
                            _ => {},
                        },
                        _ => {},
                    }
                },
                _ => {},
            }
        },
    }
}

/// The whole statement stream of a text: all statements and the final
/// state, or the first error. The width check on the step never fails;
/// it keeps the recursion visibly well-founded.
pub open spec fn parse_all(s: Seq<u8>, ps: PState) -> Result<(Seq<GStmt>, PState), GParseErr>
    decreases s.len() - ps.i,
{
    match parse_spec(s, ps) {
        ParseOut::End(psf) => Ok((Seq::empty(), psf)),
        ParseOut::Fail(ge) => Err(ge),
        ParseOut::Stmt(gs, ps1) => if ps.i < ps1.i <= s.len() {
            match parse_all(s, ps1) {
                Ok((rest, psf)) => Ok((seq![gs] + rest, psf)),
                Err(e) => Err(e),
            }
        } else {
            Ok((seq![gs], ps1))
        },
    }
}

/// Every resolved address statement fits the 15-bit space.
pub open spec fn gstmt_small(gs: GStmt) -> bool {
    match gs {
        GStmt::Addr(_, v) => v < 0x8000,
        _ => true,
    }
}

/// A predefined address fits the 15-bit space.
pub proof fn lemma_predefined_small(n: Seq<u8>)
    ensures
        predefined_addr(n) matches Some(a) ==> a < 0x8000,
{
}

/// Every statement the parser yields has a small resolved address.
pub proof fn lemma_parse_small(s: Seq<u8>, ps: PState)
    ensures
        parse_spec(s, ps) matches ParseOut::Stmt(gs, ps1) ==> gstmt_small(gs),
    decreases s.len() - ps.i,
{
    match lex_spec(s, ps.i, ps.loc, ps.after_semi) {
        LexOut::End(_, _) => {},
        LexOut::Fail(_) => {},
        LexOut::Tok(gt, ni, nl) => {
            let ps1 = PState { i: ni, loc: nl, after_semi: gt is Semi, ..ps };
            match gt {
                GTok::Name(pos, n) => {
                    lemma_predefined_small(n);
                },
                GTok::Label(pos, n) => {
                    if !ps.st.contains_key(n) && ps.i < ni <= s.len() {
                        lemma_parse_small(
                            s,
                            PState { st: ps.st.insert(n, SymInfo { pos, addr: ps.idx }), ..ps1 },
                        );
                    }
                },
                _ => {},
            }
        },
    }
}

/// Label transparency: a fresh label definition consumes no
/// instruction slot and is invisible to the statement stream except
/// through the symbol table — parsing continues past it with the same
/// instruction index and only the label's binding added.
pub proof fn lemma_label_transparent(
    s: Seq<u8>,
    ps: PState,
    pos: Loc,
    n: Seq<u8>,
    ni: int,
    nl: Loc,
)
    requires
        lex_spec(s, ps.i, ps.loc, ps.after_semi) == LexOut::Tok(GTok::Label(pos, n), ni, nl),
        !ps.st.contains_key(n),
        ps.i < ni <= s.len(),
    ensures
        parse_spec(s, ps) == parse_spec(
            s,
            PState {
                i: ni,
                loc: nl,
                after_semi: false,
                idx: ps.idx,
                st: ps.st.insert(n, SymInfo { pos, addr: ps.idx }),
            },
        ),
{
}

/// The parser: a lexer, the instruction counter, and the symbol table
/// it populates with labels. After an error it yields nothing more.
#[derive(Debug)]
pub struct Parse {
    /// The token stream.
    pub lex: Lex,
    /// The running instruction index.
    pub idx: u16,
    /// The symbol table, populated by label definitions.
    pub st: SymTable,
    /// Whether an error has been produced.
    pub failed: bool,
}

impl Parse {
    /// Whether the parser state is consistent: a parser that has not
    /// failed holds a lexer that has not either.
    pub open spec fn wf(self) -> bool {
        self.lex.wf() && self.st.wf() && (self.failed || !self.lex.failed)
    }

    /// The parser state, viewed mathematically.
    pub open spec fn pstate(self) -> PState {
        PState {
            i: self.lex.i as int,
            loc: self.lex.loc,
            after_semi: self.lex.after_semi,
            idx: self.idx,
            st: self.st@,
        }
    }

    /// A parser at the start of a buffer, over a given symbol table.
    pub fn new(buf: Vec<u8>, st: SymTable) -> (r: Parse)
        requires
            buf@.len() < usize::MAX,
            st.wf(),
        ensures
            r.wf(),
            r.lex.buf@ == buf@,
            r.failed == false,
            r.pstate() == (PState {
                i: 0,
                loc: Loc { line: 1, col: 0 },
                after_semi: false,
                idx: 0,
                st: st@,
            }),
    {
        Parse { lex: Lex::new(buf), idx: 0, st, failed: false }
    }

    /// Emit a statement, advancing the instruction counter.
    fn emit(&mut self, st: Stmt) -> (r: Option<Result<Stmt, ParseErr>>)
        requires
            old(self).wf(),
            !old(self).failed,
        ensures
            final(self).wf(),
            final(self).lex == old(self).lex,
            final(self).st == old(self).st,
            match emit_spec(stmt_abs(st), old(self).pstate()) {
                ParseOut::Stmt(gs, ps1) => (match r {
                    Some(Ok(t)) => stmt_abs(t) == gs,
                    _ => false,
                }) && final(self).pstate() == ps1 && !final(self).failed,
                ParseOut::Fail(ge) => (match r {
                    Some(Err(e)) => perr_abs(e) == ge,
                    _ => false,
                }) && final(self).failed,
                ParseOut::End(_) => false,
            },
    {
        if self.idx == u16::MAX {
            self.failed = true;
            return Some(Err(ParseErr::TooManyInstructions(stmt_loc(&st))));
        }
        self.idx = self.idx + 1;
        Some(Ok(st))
    }

    /// The next statement: `None` when the text is exhausted or after
    /// an error, a statement or the first error otherwise.
    #[verifier::rlimit(50)]
    pub fn next(&mut self) -> (r: Option<Result<Stmt, ParseErr>>)
        requires
            old(self).wf(),
        ensures
            final(self).wf(),
            final(self).lex.buf@ == old(self).lex.buf@,
            old(self).failed ==> r is None && *final(self) == *old(self),
            !old(self).failed ==> match parse_spec(old(self).lex.buf@, old(self).pstate()) {
                ParseOut::End(psf) => r is None && !final(self).failed && final(self).pstate()
                    == psf,
                ParseOut::Stmt(gs, ps1) => (match r {
                    Some(Ok(t)) => stmt_abs(t) == gs,
                    _ => false,
                }) && !final(self).failed && final(self).pstate() == ps1,
                ParseOut::Fail(ge) => (match r {
                    Some(Err(e)) => perr_abs(e) == ge,
                    _ => false,
                }) && final(self).failed,
            },
        decreases old(self).lex.buf@.len() - old(self).lex.i,
    {
        if self.failed {
            return None;
        }
        let ghost s = self.lex.buf@;
        let ghost ps0 = self.pstate();
        let t = match self.lex.next_tok() {
            None => {
                return None;
            },
            Some(Err(e)) => {
                self.failed = true;
                return Some(Err(ParseErr::Lex(e)));
            },
            Some(Ok(t)) => t,
        };
        match t {
            Tok::NumAddr(pos, v) => self.emit(Stmt::Addr(pos, v)),
            Tok::NameAddr(pos, name) => {
                match is_predefined_symbol(name.as_slice()) {
                    Some(a) => self.emit(Stmt::Addr(pos, a)),
                    None => {
                        match self.st.get(name.as_slice()) {
                            Some(info) => {
                                if info.addr < 0x8000 {
                                    self.emit(Stmt::Addr(pos, info.addr))
                                } else {
                                    self.emit(Stmt::UnresolvedAddr(pos, name))
                                }
                            },
                            None => self.emit(Stmt::UnresolvedAddr(pos, name)),
                        }
                    },
                }
            },
            Tok::Label(pos, name) => {
                match self.st.get(name.as_slice()) {
                    Some(prior) => {
                        self.failed = true;
                        Some(Err(ParseErr::DuplicateLabel(pos, name, prior)))
                    },
                    None => {
                        self.st.insert(name, SymInfo::new(pos, self.idx));
                        proof {
                            crate::lex::lemma_lex_advances(s, ps0.i, ps0.loc, ps0.after_semi);
                        }
                        self.next()
                    },
                }
            },
            Tok::Semi(pos) => {
                self.failed = true;
                Some(Err(ParseErr::FreestandingSemicolon(pos)))
            },
            Tok::Jump(pos, j) => {
                self.failed = true;
                Some(Err(ParseErr::FreestandingJump(pos, j)))
            },
            Tok::Dest(dpos, d) => self.next_dest(dpos, d),
            Tok::Comp(cpos, c) => self.next_comp(cpos, c),
        }
    }

    /// Continue after a destination token.
    fn next_dest(&mut self, dpos: Loc, d: Dest) -> (r: Option<Result<Stmt, ParseErr>>)
        requires
            old(self).wf(),
            !old(self).failed,
            !old(self).lex.failed,
            !old(self).lex.after_semi,
        ensures
            final(self).wf(),
            final(self).lex.buf@ == old(self).lex.buf@,
            match parse_dest(old(self).lex.buf@, old(self).pstate(), dpos, d) {
                ParseOut::Stmt(gs, ps1) => (match r {
                    Some(Ok(t)) => stmt_abs(t) == gs,
                    _ => false,
                }) && !final(self).failed && final(self).pstate() == ps1,
                ParseOut::Fail(ge) => (match r {
                    Some(Err(e)) => perr_abs(e) == ge,
                    _ => false,
                }) && final(self).failed,
                ParseOut::End(_) => false,
            },
    {
        let eq_loc = self.lex.loc;
        let t = match self.lex.next_tok() {
            None => {
                self.failed = true;
                return Some(Err(ParseErr::DestWithoutComp(eq_loc, d)));
            },
            Some(Err(e)) => {
                self.failed = true;
                return Some(Err(ParseErr::Lex(e)));
            },
            Some(Ok(t)) => t,
        };
        match t {
            Tok::Comp(cpos, c) => self.next_assign(dpos, d, cpos, c),
            _ => {
                self.failed = true;
                Some(Err(ParseErr::DestWithoutComp(dpos, d)))
            },
        }
    }

    /// Continue after `dest= comp`: a `;` leads to the jump; anything
    /// else closes the assignment and stays for the next statement.
    fn next_assign(&mut self, dpos: Loc, d: Dest, cpos: Loc, c: Comp) -> (r: Option<
        Result<Stmt, ParseErr>,
    >)
        requires
            old(self).wf(),
            !old(self).failed,
            !old(self).lex.failed,
            !old(self).lex.after_semi,
        ensures
            final(self).wf(),
            final(self).lex.buf@ == old(self).lex.buf@,
            match parse_assign(old(self).lex.buf@, old(self).pstate(), dpos, d, cpos, c) {
                ParseOut::Stmt(gs, ps1) => (match r {
                    Some(Ok(t)) => stmt_abs(t) == gs,
                    _ => false,
                }) && !final(self).failed && final(self).pstate() == ps1,
                ParseOut::Fail(ge) => (match r {
                    Some(Err(e)) => perr_abs(e) == ge,
                    _ => false,
                }) && final(self).failed,
                ParseOut::End(_) => false,
            },
    {
        let mark_i = self.lex.i;
        let mark_loc = self.lex.loc;
        let mark_semi = self.lex.after_semi;
        let t = match self.lex.next_tok() {
            None => {
                self.lex.i = mark_i;
                self.lex.loc = mark_loc;
                self.lex.after_semi = mark_semi;
                return self.emit(Stmt::Assign(dpos, d, cpos, c));
            },
            Some(Err(e)) => {
                self.failed = true;
                return Some(Err(ParseErr::Lex(e)));
            },
            Some(Ok(t)) => t,
        };
        match t {
            Tok::Semi(spos) => self.next_full_jump(dpos, d, cpos, c, spos),
            _ => {
                self.lex.i = mark_i;
                self.lex.loc = mark_loc;
                self.lex.after_semi = mark_semi;
                self.emit(Stmt::Assign(dpos, d, cpos, c))
            },
        }
    }

    /// Continue after `dest= comp ;`: only a jump may follow.
    fn next_full_jump(&mut self, dpos: Loc, d: Dest, cpos: Loc, c: Comp, spos: Loc) -> (r: Option<
        Result<Stmt, ParseErr>,
    >)
        requires
            old(self).wf(),
            !old(self).failed,
            !old(self).lex.failed,
            old(self).lex.after_semi,
        ensures
            final(self).wf(),
            final(self).lex.buf@ == old(self).lex.buf@,
            match parse_full_jump(old(self).lex.buf@, old(self).pstate(), dpos, d, cpos, c, spos) {
                ParseOut::Stmt(gs, ps1) => (match r {
                    Some(Ok(t)) => stmt_abs(t) == gs,
                    _ => false,
                }) && !final(self).failed && final(self).pstate() == ps1,
                ParseOut::Fail(ge) => (match r {
                    Some(Err(e)) => perr_abs(e) == ge,
                    _ => false,
                }) && final(self).failed,
                ParseOut::End(_) => false,
            },
    {
        let t = match self.lex.next_tok() {
            None => {
                self.failed = true;
                return Some(Err(ParseErr::CompWithoutJump(spos, c)));
            },
            Some(Err(e)) => {
                self.failed = true;
                return Some(Err(ParseErr::Lex(e)));
            },
            Some(Ok(t)) => t,
        };
        match t {
            Tok::Jump(jpos, j) => self.emit(Stmt::Inst(dpos, d, cpos, c, jpos, j)),
            _ => {
                self.failed = true;
                Some(Err(ParseErr::CompWithoutJump(spos, c)))
            },
        }
    }

    /// Continue after a bare computation token: only `;jump` follows.
    fn next_comp(&mut self, cpos: Loc, c: Comp) -> (r: Option<Result<Stmt, ParseErr>>)
        requires
            old(self).wf(),
            !old(self).failed,
            !old(self).lex.failed,
            !old(self).lex.after_semi,
        ensures
            final(self).wf(),
            final(self).lex.buf@ == old(self).lex.buf@,
            match parse_comp(old(self).lex.buf@, old(self).pstate(), cpos, c) {
                ParseOut::Stmt(gs, ps1) => (match r {
                    Some(Ok(t)) => stmt_abs(t) == gs,
                    _ => false,
                }) && !final(self).failed && final(self).pstate() == ps1,
                ParseOut::Fail(ge) => (match r {
                    Some(Err(e)) => perr_abs(e) == ge,
                    _ => false,
                }) && final(self).failed,
                ParseOut::End(_) => false,
            },
    {
        let t = match self.lex.next_tok() {
            None => {
                self.failed = true;
                return Some(Err(ParseErr::CompWithoutJump(cpos, c)));
            },
            Some(Err(e)) => {
                self.failed = true;
                return Some(Err(ParseErr::Lex(e)));
            },
            Some(Ok(t)) => t,
        };
        match t {
            Tok::Semi(spos) => self.next_branch_jump(cpos, c, spos),
            _ => {
                self.failed = true;
                Some(Err(ParseErr::CompWithoutJump(cpos, c)))
            },
        }
    }

    /// Continue after a branch's `comp ;`: only a jump may follow.
    fn next_branch_jump(&mut self, cpos: Loc, c: Comp, spos: Loc) -> (r: Option<
        Result<Stmt, ParseErr>,
    >)
        requires
            old(self).wf(),
            !old(self).failed,
            !old(self).lex.failed,
            old(self).lex.after_semi,
        ensures
            final(self).wf(),
            final(self).lex.buf@ == old(self).lex.buf@,
            match parse_branch_jump(old(self).lex.buf@, old(self).pstate(), cpos, c, spos) {
                ParseOut::Stmt(gs, ps1) => (match r {
                    Some(Ok(t)) => stmt_abs(t) == gs,
                    _ => false,
                }) && !final(self).failed && final(self).pstate() == ps1,
                ParseOut::Fail(ge) => (match r {
                    Some(Err(e)) => perr_abs(e) == ge,
                    _ => false,
                }) && final(self).failed,
                ParseOut::End(_) => false,
            },
    {
        let t = match self.lex.next_tok() {
            None => {
                self.failed = true;
                return Some(Err(ParseErr::CompWithoutJump(spos, c)));
            },
            Some(Err(e)) => {
                self.failed = true;
                return Some(Err(ParseErr::Lex(e)));
            },
            Some(Ok(t)) => t,
        };
        match t {
            Tok::Jump(jpos, j) => self.emit(Stmt::Branch(cpos, c, jpos, j)),
            _ => {
                self.failed = true;
                Some(Err(ParseErr::CompWithoutJump(spos, c)))
            },
        }
    }
}

/// The position of a statement's first token.
fn stmt_loc(st: &Stmt) -> (r: Loc)
    ensures
        r == gstmt_pos(stmt_abs(*st)),
{
    match st {
        Stmt::Addr(p, _) => *p,
        Stmt::UnresolvedAddr(p, _) => *p,
        Stmt::Assign(p, _, _, _) => *p,
        Stmt::Branch(p, _, _, _) => *p,
        Stmt::Inst(p, _, _, _, _, _) => *p,
    }
}

} // verus!
