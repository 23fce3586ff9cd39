//! A HACK program: the flat list of its A- and C-instructions beside
//! the symbol table, with the second pass that resolves names and
//! encodes machine words, and the decoders that rebuild a program from
//! machine code.

use crate::code::{
    bin_of_words, bin_to_words, bintext_of_words, bintext_to_words, words_of_bin,
    words_of_bintext, words_to_bin, words_to_bintext, DisErr,
};
use crate::inst::{decoded_inst, inst_text, inst_word, Comp, Dest, Inst, Jump};
use crate::parse::{
    lemma_parse_advances, lemma_parse_small, parse_all, perr_abs, ps_wf, stmt_abs, GParseErr,
    GStmt, PState, Parse, ParseErr, Stmt,
};
use crate::loc::Loc;
use crate::sym::{is_predefined_symbol, predefined_addr, SymInfo, SymTable};
use crate::text::{dec_text, u16_text};
use vstd::prelude::*;

verus! {

/// An address reference: already resolved to a 15-bit value, or still
/// a symbol to be looked up or allocated, kept with the position of
/// its first use.
#[derive(Debug, Clone, PartialEq, Eq)]
pub enum Addr {
    /// A numeric address.
    Num(u16),
    /// An unresolved symbol.
    Sym(Loc, Vec<u8>),
}

/// One item of a program.
#[derive(Debug, Clone, PartialEq, Eq)]
pub enum Item {
    /// An A-instruction.
    Addr(Addr),
    /// A C-instruction.
    Inst(Inst),
}

/// An address reference over mathematical sequences.
pub enum GAddr {
    /// A numeric address.
    Num(u16),
    /// An unresolved symbol.
    Sym(Loc, Seq<u8>),
}

/// One program item over mathematical sequences.
pub enum GItem {
    /// An A-instruction.
    Addr(GAddr),
    /// A C-instruction.
    Inst(Inst),
}

/// The view of an item.
pub open spec fn item_abs(it: Item) -> GItem {
    match it {
        Item::Addr(Addr::Num(v)) => GItem::Addr(GAddr::Num(v)),
        Item::Addr(Addr::Sym(pos, name)) => GItem::Addr(GAddr::Sym(pos, name@)),
        Item::Inst(i) => GItem::Inst(i),
    }
}

/// The view of an item list.
pub open spec fn items_abs(s: Seq<Item>) -> Seq<GItem> {
    Seq::new(s.len(), |i: int| item_abs(s[i]))
}

/// Whether an item is an already-resolved address or an instruction.
pub open spec fn item_resolved(it: GItem) -> bool {
    match it {
        GItem::Addr(GAddr::Num(v)) => v < 0x8000,
        GItem::Addr(GAddr::Sym(_, _)) => false,
        GItem::Inst(_) => true,
    }
}

/// Whether an item holds no numeric address outside the 15-bit space.
pub open spec fn item_wf(it: GItem) -> bool {
    match it {
        GItem::Addr(GAddr::Num(v)) => v < 0x8000,
        _ => true,
    }
}

/// Error resolving symbols during encoding.
#[derive(Debug, Clone, Copy, PartialEq, Eq, Structural)]
pub enum EncodeErr {
    /// A name would need an address beyond the 15-bit space; the
    /// position is where the name stands.
    AddressSpaceExhausted(Loc),
}

/// Resolve and encode one item: an instruction packs to its word; a
/// numeric address is its own word; a symbol resolves to a predefined
/// address, to its binding in the table, or to a freshly allocated
/// variable slot at `next`.
pub open spec fn step_word(it: GItem, st: Map<Seq<u8>, SymInfo>, next: u16) -> Result<
    (u16, Map<Seq<u8>, SymInfo>, u16),
    EncodeErr,
> {
    match it {
        GItem::Inst(i) => Ok((inst_word(i), st, next)),
        GItem::Addr(GAddr::Num(v)) => Ok((v, st, next)),
        GItem::Addr(GAddr::Sym(pos, name)) => match predefined_addr(name) {
            Some(a) => Ok((a, st, next)),
            None => if st.contains_key(name) {
                if st[name].addr < 0x8000 {
                    Ok((st[name].addr, st, next))
                } else {
                    Err(EncodeErr::AddressSpaceExhausted(pos))
                }
            } else if next < 0x8000 {
                Ok((next, st.insert(name, SymInfo { pos, addr: next }), (next + 1) as u16))
            } else {
                Err(EncodeErr::AddressSpaceExhausted(pos))
            },
        },
    }
}

/// Resolve and encode a whole item list, threading the symbol table
/// and the next free variable slot.
pub open spec fn resolve_words(
    items: Seq<GItem>,
    st: Map<Seq<u8>, SymInfo>,
    next: u16,
) -> Result<(Seq<u16>, Map<Seq<u8>, SymInfo>, u16), EncodeErr>
    decreases items.len(),
{
    if items.len() == 0 {
        Ok((Seq::empty(), st, next))
    } else {
        match step_word(items[0], st, next) {
            Err(e) => Err(e),
            Ok((w, st1, next1)) => match resolve_words(
                items.subrange(1, items.len() as int),
                st1,
                next1,
            ) {
                Err(e) => Err(e),
                Ok((ws, st2, next2)) => Ok((seq![w] + ws, st2, next2)),
            },
        }
    }
}

/// The item a machine word decodes to: a word below `0x8000` is an
/// A-instruction; otherwise the top three bits must all be set and the
/// fields must name mnemonics.
pub open spec fn item_of_word(w: u16) -> Result<GItem, DisErr> {
    if w < 0x8000 {
        Ok(GItem::Addr(GAddr::Num(w)))
    } else if w >> 13u16 != 0b111 {
        Err(DisErr::InvalidWord(w))
    } else {
        match decoded_inst(w) {
            Ok(i) => Ok(GItem::Inst(i)),
            Err(e) => Err(DisErr::Decode(e)),
        }
    }
}

/// The items of a word sequence.
pub open spec fn items_of_words(ws: Seq<u16>) -> Result<Seq<GItem>, DisErr>
    decreases ws.len(),
{
    if ws.len() == 0 {
        Ok(Seq::empty())
    } else {
        match item_of_word(ws[0]) {
            Err(e) => Err(e),
            Ok(it) => match items_of_words(ws.subrange(1, ws.len() as int)) {
                Err(e) => Err(e),
                Ok(items) => Ok(seq![it] + items),
            },
        }
    }
}

/// The canonical assembly text of one item: `@` and a decimal value or
/// a name, or the text of a C-instruction.
pub open spec fn item_text(it: GItem) -> Seq<u8> {
    match it {
        GItem::Addr(GAddr::Num(v)) => seq!['@' as u8] + dec_text(v as nat),
        GItem::Addr(GAddr::Sym(_, name)) => seq!['@' as u8] + name,
        GItem::Inst(i) => inst_text(i),
    }
}

/// The canonical assembly lines of an item list.
pub open spec fn source_lines(items: Seq<GItem>) -> Seq<Seq<u8>> {
    Seq::new(items.len(), |i: int| item_text(items[i]))
}

/// A HACK assembly program: its items in source order and its symbol
/// table, with the next free variable slot.
#[derive(Debug)]
pub struct Prog {
    symtable: SymTable,
    insts: Vec<Item>,
    var_next: u16,
}

impl Prog {
    /// The items of the program, viewed mathematically.
    pub closed spec fn items(self) -> Seq<GItem> {
        items_abs(self.insts@)
    }

    /// The symbol table of the program, viewed as a map.
    pub closed spec fn table(self) -> Map<Seq<u8>, SymInfo> {
        self.symtable@
    }

    /// The next free variable slot.
    pub closed spec fn next_var(self) -> u16 {
        self.var_next
    }

    /// Whether the program is well-formed: the table binds each name
    /// once, numeric addresses fit in 15 bits, and the variable window
    /// never reaches below 16.
    pub closed spec fn wf(self) -> bool {
        &&& self.symtable.wf()
        &&& forall|i: int| 0 <= i < self.items().len() ==> item_wf(#[trigger] self.items()[i])
        &&& self.var_next >= 16
    }

    /// A program assembled from parts. The item list must hold no
    /// numeric address outside the 15-bit space.
    pub fn from_parts(symtable: SymTable, insts: Vec<Item>, var_next: u16) -> (r: Prog)
        requires
            symtable.wf(),
            forall|i: int| 0 <= i < items_abs(insts@).len() ==> item_wf(
                #[trigger] items_abs(insts@)[i],
            ),
            var_next >= 16,
        ensures
            r.wf(),
            r.items() == items_abs(insts@),
            r.table() == symtable@,
            r.next_var() == var_next,
    {
        Prog { symtable, insts, var_next }
    }

    /// The list of items in the program.
    pub fn insts(&self) -> (r: &Vec<Item>)
        ensures
            items_abs(r@) == self.items(),
    {
        &self.insts
    }

    /// The symbol table of the program.
    pub fn symtable(&self) -> (r: &SymTable)
        requires
            self.wf(),
        ensures
            r@ == self.table(),
            r.wf(),
    {
        &self.symtable
    }

    /// A mutable borrow of the symbol table of the program.
    pub fn symtable_mut(&mut self) -> (r: &mut SymTable)
        requires
            old(self).wf(),
    {
        &mut self.symtable
    }

    /// Resolve every symbol and encode the items as machine words.
    /// Resolution binds fresh variables in the symbol table, so the
    /// table grows as the spec says; the items stay as they are.
    pub fn words(&mut self) -> (r: Result<Vec<u16>, EncodeErr>)
        requires
            old(self).wf(),
        ensures
            final(self).wf(),
            final(self).items() == old(self).items(),
            match r {
                Ok(v) => resolve_words(old(self).items(), old(self).table(), old(self).next_var())
                    == Ok::<_, EncodeErr>((v@, final(self).table(), final(self).next_var())),
                Err(e) => resolve_words(old(self).items(), old(self).table(), old(self).next_var())
                    == Err::<(Seq<u16>, Map<Seq<u8>, SymInfo>, u16), EncodeErr>(e),
            },
    {
        let ghost all = old(self).items();
        let ghost st0 = old(self).table();
        let ghost n0 = old(self).next_var();
        let mut out: Vec<u16> = Vec::new();
        let n = self.insts.len();
        let mut i: usize = 0;
        proof {
            assert(all.subrange(0, all.len() as int) =~= all);
            assert forall|k: int| 0 <= k < all.len() implies item_wf(#[trigger] all[k]) by {
                assert(item_wf(old(self).items()[k]));
            }
        }
        while i < n
            invariant
                n == self.insts@.len(),
                0 <= i <= n,
                self.insts@ == old(self).insts@,
                self.wf(),
                all == items_abs(self.insts@),
                all == old(self).items(),
                st0 == old(self).table(),
                n0 == old(self).next_var(),
                forall|k: int| 0 <= k < all.len() ==> item_wf(#[trigger] all[k]),
                match resolve_words(all.subrange(i as int, all.len() as int), self.symtable@,
                    self.var_next,
                ) {
                    Ok((ws, stf, nf)) => resolve_words(all, st0, n0) == Ok::<_, EncodeErr>((
                        out@ + ws,
                        stf,
                        nf,
                    )),
                    Err(e) => resolve_words(all, st0, n0) == Err::<
                        (Seq<u16>, Map<Seq<u8>, SymInfo>, u16),
                        EncodeErr,
                    >(e),
                },
            decreases n - i,
        {
            let ghost rest = all.subrange(i as int, all.len() as int);
            proof {
                assert(rest[0] == item_abs(self.insts@[i as int]));
                assert(rest.subrange(1, rest.len() as int) =~= all.subrange(
                    i + 1,
                    all.len() as int,
                ));
            }
            let w: u16 = match &self.insts[i] {
                Item::Inst(inst) => inst.code(),
                Item::Addr(Addr::Num(v)) => {
                    proof {
                        assert(item_wf(all[i as int]));
                    }
                    *v
                },
                Item::Addr(Addr::Sym(pos, name)) => {
                    match is_predefined_symbol(name.as_slice()) {
                        Some(a) => a,
                        None => {
                            match self.symtable.get(name.as_slice()) {
                                Some(info) => {
                                    if info.addr < 0x8000 {
                                        info.addr
                                    } else {
                                        proof {
                                            assert(step_word(rest[0], self.symtable@,
                                                self.var_next,
                                            ) == Err::<(u16, Map<Seq<u8>, SymInfo>, u16),
                                                EncodeErr,
                                            >(EncodeErr::AddressSpaceExhausted(*pos)));
                                            assert(resolve_words(rest, self.symtable@,
                                                self.var_next,
                                            ) == Err::<(Seq<u16>, Map<Seq<u8>, SymInfo>, u16),
                                                EncodeErr,
                                            >(EncodeErr::AddressSpaceExhausted(*pos)));
                                        }
                                        return Err(EncodeErr::AddressSpaceExhausted(*pos));
                                    }
                                },
                                None => {
                                    if self.var_next < 0x8000 {
                                        let a = self.var_next;
                                        let name_copy = crate::scan::chunk_vec(
                                            name.as_slice(),
                                            0,
                                            name.len(),
                                        );
                                        proof {
                                            assert(name_copy@ =~= name@);
                                        }
                                        self.symtable.insert(
                                            name_copy,
                                            SymInfo { pos: *pos, addr: a },
                                        );
                                        self.var_next = self.var_next + 1;
                                        a
                                    } else {
                                        proof {
                                            assert(step_word(rest[0], self.symtable@,
                                                self.var_next,
                                            ) == Err::<(u16, Map<Seq<u8>, SymInfo>, u16),
                                                EncodeErr,
                                            >(EncodeErr::AddressSpaceExhausted(*pos)));
                                            assert(resolve_words(rest, self.symtable@,
                                                self.var_next,
                                            ) == Err::<(Seq<u16>, Map<Seq<u8>, SymInfo>, u16),
                                                EncodeErr,
                                            >(EncodeErr::AddressSpaceExhausted(*pos)));
                                        }
                                        return Err(EncodeErr::AddressSpaceExhausted(*pos));
                                    }
                                },
                            }
                        },
                    }
                },
            };
            proof {
                match resolve_words(all.subrange(i + 1, all.len() as int), self.symtable@,
                    self.var_next,
                ) {
                    Ok((ws, stf, nf)) => {
                        assert(out@ + (seq![w] + ws) =~= out@.push(w) + ws);
                    },
                    Err(_) => {},
                }
            }
            out.push(w);
            i = i + 1;
        }
        proof {
            assert(all.subrange(n as int, all.len() as int) =~= Seq::<GItem>::empty());
            assert(out@ + Seq::<u16>::empty() =~= out@);
        }
        Ok(out)
    }

    /// Encode the program as big-endian binary machine code.
    pub fn bin_enc(&mut self) -> (r: Result<Vec<u8>, EncodeErr>)
        requires
            old(self).wf(),
        ensures
            final(self).wf(),
            final(self).items() == old(self).items(),
            match r {
                Ok(v) => match resolve_words(
                    old(self).items(),
                    old(self).table(),
                    old(self).next_var(),
                ) {
                    Ok((ws, stf, nf)) => v@ == bin_of_words(ws) && final(self).table() == stf
                        && final(self).next_var() == nf,
                    Err(_) => false,
                },
                Err(e) => resolve_words(old(self).items(), old(self).table(), old(self).next_var())
                    == Err::<(Seq<u16>, Map<Seq<u8>, SymInfo>, u16), EncodeErr>(e),
            },
    {
        match self.words() {
            Ok(ws) => Ok(words_to_bin(&ws)),
            Err(e) => Err(e),
        }
    }

    /// Encode the program as bintext lines.
    pub fn bintext_enc(&mut self) -> (r: Result<Vec<u8>, EncodeErr>)
        requires
            old(self).wf(),
        ensures
            final(self).wf(),
            final(self).items() == old(self).items(),
            match r {
                Ok(v) => match resolve_words(
                    old(self).items(),
                    old(self).table(),
                    old(self).next_var(),
                ) {
                    Ok((ws, stf, nf)) => v@ == bintext_of_words(ws) && final(self).table() == stf
                        && final(self).next_var() == nf,
                    Err(_) => false,
                },
                Err(e) => resolve_words(old(self).items(), old(self).table(), old(self).next_var())
                    == Err::<(Seq<u16>, Map<Seq<u8>, SymInfo>, u16), EncodeErr>(e),
            },
    {
        match self.words() {
            Ok(ws) => Ok(words_to_bintext(&ws)),
            Err(e) => Err(e),
        }
    }

    /// Build the program a word sequence describes: every word becomes
    /// an item, the symbol table starts empty.
    fn from_words(ws: &Vec<u16>) -> (r: Result<Prog, DisErr>)
        ensures
            match r {
                Ok(p) => items_of_words(ws@) == Ok::<_, DisErr>(p.items()) && p.table()
                    == Map::<Seq<u8>, SymInfo>::empty() && p.next_var() == 16 && p.wf(),
                Err(e) => items_of_words(ws@) == Err::<Seq<GItem>, DisErr>(e),
            },
    {
        let mut items: Vec<Item> = Vec::new();
        let n = ws.len();
        let mut i: usize = 0;
        proof {
            assert(ws@.subrange(0, ws@.len() as int) =~= ws@);
        }
        while i < n
            invariant
                n == ws@.len(),
                0 <= i <= n,
                forall|k: int| 0 <= k < items_abs(items@).len() ==> item_wf(
                    #[trigger] items_abs(items@)[k],
                ),
                match items_of_words(ws@.subrange(i as int, n as int)) {
                    Ok(rest) => items_of_words(ws@) == Ok::<_, DisErr>(items_abs(items@) + rest),
                    Err(e) => items_of_words(ws@) == Err::<Seq<GItem>, DisErr>(e),
                },
            decreases n - i,
        {
            let w = ws[i];
            proof {
                let s = ws@.subrange(i as int, n as int);
                assert(s[0] == ws@[i as int]);
                assert(s.subrange(1, s.len() as int) =~= ws@.subrange(i + 1, n as int));
            }
            let it: Item = if w < 0x8000 {
                Item::Addr(Addr::Num(w))
            } else if (w >> 13u16) != 0b111 {
                return Err(DisErr::InvalidWord(w));
            } else {
                match Inst::decode(w) {
                    Ok(inst) => Item::Inst(inst),
                    Err(e) => {
                        return Err(DisErr::Decode(e));
                    },
                }
            };
            let ghost old_items = items@;
            items.push(it);
            proof {
                assert(items_abs(items@) =~= items_abs(old_items).push(item_abs(it)));
                match items_of_words(ws@.subrange(i + 1, n as int)) {
                    Ok(rest) => {
                        assert(items_abs(old_items) + (seq![item_abs(it)] + rest) =~= items_abs(
                            items@,
                        ) + rest);
                    },
                    Err(_) => {},
                }
            }
            i = i + 1;
        }
        proof {
            assert(ws@.subrange(n as int, n as int) =~= Seq::<u16>::empty());
            assert(items_abs(items@) + Seq::<GItem>::empty() =~= items_abs(items@));
        }
        Ok(Prog { symtable: SymTable::new(), insts: items, var_next: 16 })
    }

    /// Decode a program from big-endian binary machine code.
    pub fn from_bin(buf: &[u8]) -> (r: Result<Prog, DisErr>)
        ensures
            match r {
                Ok(p) => (match words_of_bin(buf@) {
                    Ok(ws) => items_of_words(ws) == Ok::<_, DisErr>(p.items()),
                    Err(_) => false,
                }) && p.table() == Map::<Seq<u8>, SymInfo>::empty() && p.next_var() == 16
                    && p.wf(),
                Err(e) => match words_of_bin(buf@) {
                    Ok(ws) => items_of_words(ws) == Err::<Seq<GItem>, DisErr>(e),
                    Err(e2) => e == e2,
                },
            },
    {
        match bin_to_words(buf) {
            Ok(ws) => Prog::from_words(&ws),
            Err(e) => Err(e),
        }
    }

    /// Decode a program from bintext lines.
    pub fn from_bintext(buf: &[u8]) -> (r: Result<Prog, DisErr>)
        ensures
            match r {
                Ok(p) => (match words_of_bintext(buf@, 1) {
                    Ok(ws) => items_of_words(ws) == Ok::<_, DisErr>(p.items()),
                    Err(_) => false,
                }) && p.table() == Map::<Seq<u8>, SymInfo>::empty() && p.next_var() == 16
                    && p.wf(),
                Err(e) => match words_of_bintext(buf@, 1) {
                    Ok(ws) => items_of_words(ws) == Err::<Seq<GItem>, DisErr>(e),
                    Err(e2) => e == e2,
                },
            },
    {
        match bintext_to_words(buf) {
            Ok(ws) => Prog::from_words(&ws),
            Err(e) => Err(e),
        }
    }

    /// Render the program as canonical assembly, one line per item.
    pub fn to_source(&self) -> (r: Vec<Vec<u8>>)
        ensures
            r@.len() == self.items().len(),
            forall|i: int| 0 <= i < r@.len() ==> r@[i]@ == source_lines(self.items())[i],
    {
        let mut out: Vec<Vec<u8>> = Vec::new();
        let n = self.insts.len();
        let mut i: usize = 0;
        while i < n
            invariant
                n == self.insts@.len(),
                0 <= i <= n,
                out@.len() == i,
                forall|k: int| 0 <= k < i ==> out@[k]@ == item_text(items_abs(self.insts@)[k]),
            decreases n - i,
        {
            let line: Vec<u8> = match &self.insts[i] {
                Item::Addr(Addr::Num(v)) => {
                    let mut l: Vec<u8> = Vec::new();
                    l.push('@' as u8);
                    let mut digits = u16_text(*v);
                    l.append(&mut digits);
                    proof {
                        assert(l@ =~= seq!['@' as u8] + dec_text(*v as nat));
                    }
                    l
                },
                Item::Addr(Addr::Sym(_, name)) => {
                    let mut l: Vec<u8> = Vec::new();
                    l.push('@' as u8);
                    let mut text = crate::scan::chunk_vec(name.as_slice(), 0, name.len());
                    proof {
                        assert(text@ =~= name@);
                    }
                    l.append(&mut text);
                    proof {
                        assert(l@ =~= seq!['@' as u8] + name@);
                    }
                    l
                },
                Item::Inst(inst) => inst.text(),
            };
            out.push(line);
            i = i + 1;
        }
        out
    }
}

/// The program item of a statement: address statements become
/// A-instructions, the three C-shapes pack their fields.
pub open spec fn item_of_stmt(gs: GStmt) -> GItem {
    match gs {
        GStmt::Addr(_, v) => GItem::Addr(GAddr::Num(v)),
        GStmt::Unresolved(pos, n) => GItem::Addr(GAddr::Sym(pos, n)),
        GStmt::Assign(_, d, _, c) => GItem::Inst(Inst { dest: d, comp: c, jump: Jump::Null }),
        GStmt::Branch(_, c, _, j) => GItem::Inst(Inst { dest: Dest::Null, comp: c, jump: j }),
        GStmt::Inst(_, d, _, c, _, j) => GItem::Inst(Inst { dest: d, comp: c, jump: j }),
    }
}

/// The program items of a statement sequence.
pub open spec fn items_of_stmts(ss: Seq<GStmt>) -> Seq<GItem> {
    Seq::new(ss.len(), |k: int| item_of_stmt(ss[k]))
}

/// The state a parser starts from: the top of the text, instruction
/// index 0, an empty symbol table.
pub open spec fn init_pstate() -> PState {
    PState {
        i: 0,
        loc: Loc { line: 1, col: 0 },
        after_semi: false,
        idx: 0,
        st: Map::empty(),
    }
}

impl Prog {
    /// Assemble a program from source text: parse every statement,
    /// sinking labels into the symbol table, and keep the items in
    /// source order. The variable window starts at 16.
    #[verifier::rlimit(100)]
    pub fn from_source(buf: &[u8]) -> (r: Result<Prog, ParseErr>)
        requires
            buf@.len() < usize::MAX,
        ensures
            match r {
                Ok(p) => (match parse_all(buf@, init_pstate()) {
                    Ok((stmts, psf)) => p.items() == items_of_stmts(stmts) && p.table() == psf.st,
                    Err(_) => false,
                }) && p.next_var() == 16 && p.wf(),
                Err(e) => parse_all(buf@, init_pstate()) == Err::<(Seq<GStmt>, PState), GParseErr>(
                    perr_abs(e),
                ),
            },
    {
        let owned = crate::scan::chunk_vec(buf, 0, buf.len());
        let mut parse = Parse::new(owned, SymTable::new());
        let ghost s = buf@;
        proof {
            assert(parse.pstate() == init_pstate());
        }
        let mut items: Vec<Item> = Vec::new();
        let ghost mut gstmts: Seq<GStmt> = Seq::empty();
        let mut finished = false;
        let mut failure: Option<ParseErr> = None;
        while !finished
            invariant
                parse.wf(),
                parse.lex.buf@ == s,
                s.len() < usize::MAX,
                items_abs(items@) == items_of_stmts(gstmts),
                forall|k: int| 0 <= k < items_abs(items@).len() ==> item_wf(
                    #[trigger] items_abs(items@)[k],
                ),
                !finished ==> !parse.failed && failure is None && (match parse_all(
                    s,
                    parse.pstate(),
                ) {
                    Ok((rest, psf)) => parse_all(s, init_pstate()) == Ok::<_, GParseErr>(
                        (gstmts + rest, psf),
                    ),
                    Err(e) => parse_all(s, init_pstate()) == Err::<
                        (Seq<GStmt>, PState),
                        GParseErr,
                    >(e),
                }),
                finished ==> (match failure {
                    Some(e) => parse_all(s, init_pstate()) == Err::<
                        (Seq<GStmt>, PState),
                        GParseErr,
                    >(perr_abs(e)),
                    None => parse_all(s, init_pstate()) == Ok::<_, GParseErr>(
                        (gstmts, parse.pstate()),
                    ),
                }),
            decreases (if finished {
                0int
            } else {
                1int
            }), s.len() - parse.lex.i,
        {
            let ghost cur = parse.pstate();
            proof {
                lemma_parse_advances(s, cur);
                lemma_parse_small(s, cur);
            }
            match parse.next() {
                None => {
                    proof {
                        assert(gstmts + Seq::<GStmt>::empty() =~= gstmts);
                    }
                    finished = true;
                },
                Some(Err(e)) => {
                    failure = Some(e);
                    finished = true;
                },
                Some(Ok(st)) => {
                    let it: Item = match &st {
                        Stmt::Addr(_, v) => Item::Addr(Addr::Num(*v)),
                        Stmt::UnresolvedAddr(pos, name) => {
                            let n = crate::scan::chunk_vec(name.as_slice(), 0, name.len());
                            proof {
                                assert(n@ =~= name@);
                            }
                            Item::Addr(Addr::Sym(*pos, n))
                        },
                        Stmt::Assign(_, d, _, c) => Item::Inst(
                            Inst { dest: *d, comp: *c, jump: Jump::Null },
                        ),
                        Stmt::Branch(_, c, _, j) => Item::Inst(
                            Inst { dest: Dest::Null, comp: *c, jump: *j },
                        ),
                        Stmt::Inst(_, d, _, c, _, j) => Item::Inst(
                            Inst { dest: *d, comp: *c, jump: *j },
                        ),
                    };
                    let ghost old_items = items@;
                    let ghost git = item_abs(it);
                    let ghost gs = stmt_abs(st);
                    proof {
                        assert(git == item_of_stmt(gs));
                        assert(items_abs(old_items) == items_of_stmts(gstmts));
                        assert(items_abs(old_items).len() == old_items.len());
                        assert(items_of_stmts(gstmts).len() == gstmts.len());
                        assert(old_items.len() == gstmts.len());
                        assert(item_wf(git));
                    }
                    items.push(it);
                    proof {
                        let old_gstmts = gstmts;
                        match parse_all(s, parse.pstate()) {
                            Ok((rest, psf)) => {
                                assert((old_gstmts + (seq![gs] + rest)) =~= (old_gstmts.push(gs)
                                    + rest));
                            },
                            Err(_) => {},
                        }
                        gstmts = old_gstmts.push(gs);
                        assert(items@.len() == old_items.len() + 1);
                        assert(item_abs(items@[old_items.len() as int]) == git);
                        assert forall|k: int| 0 <= k < items@.len() implies item_abs(items@[k])
                            == item_of_stmt(gstmts[k]) && item_wf(item_abs(items@[k])) by {
                            if k < old_items.len() {
                                assert(items@[k] == old_items[k]);
                                assert(gstmts[k] == old_gstmts[k]);
                                assert(items_abs(old_items)[k] == item_abs(old_items[k]));
                                assert(items_of_stmts(old_gstmts)[k] == item_of_stmt(
                                    old_gstmts[k],
                                ));
                                assert(items_abs(old_items)[k] == items_of_stmts(old_gstmts)[k]);
                                assert(item_wf(items_abs(old_items)[k]));
                            } else {
                                assert(k == old_items.len());
                                assert(gstmts[k] == gs);
                            }
                        }
                        assert(items_abs(items@) =~= items_of_stmts(gstmts));
                        assert forall|k: int| 0 <= k < items_abs(items@).len() implies item_wf(
                            #[trigger] items_abs(items@)[k],
                        ) by {
                            assert(items_abs(items@)[k] == item_abs(items@[k]));
                        }
                    }
                },
            }
        }
        match failure {
            Some(e) => Err(e),
            None => {
                let Parse { st: table, .. } = parse;
                Ok(Prog::from_parts(table, items, 16))
            },
        }
    }
}

} // verus!
