//! Symbols: the predefined names of the HACK machine, and the symbol
//! table that binds labels and variables to addresses.

use crate::loc::Loc;
use vstd::prelude::*;

verus! {

/// A predefined symbol of the HACK machine: a name with a fixed
/// address that every program may use without declaring it.
///
/// `SP`..`THAT` alias `R0`..`R4`: both names resolve to the same
/// address.
#[derive(Debug, Clone, Copy, PartialEq, Eq, Structural)]
pub enum Symbol {
    /// Stack pointer, address 0.
    SP,
    /// Local segment, address 1.
    LCL,
    /// Argument segment, address 2.
    ARG,
    /// This reference, address 3.
    THIS,
    /// That reference, address 4.
    THAT,
    /// Register 0.
    R0,
    /// Register 1.
    R1,
    /// Register 2.
    R2,
    /// Register 3.
    R3,
    /// Register 4.
    R4,
    /// Register 5.
    R5,
    /// Register 6.
    R6,
    /// Register 7.
    R7,
    /// Register 8.
    R8,
    /// Register 9.
    R9,
    /// Register 10.
    R10,
    /// Register 11.
    R11,
    /// Register 12.
    R12,
    /// Register 13.
    R13,
    /// Register 14.
    R14,
    /// Register 15.
    R15,
    /// Start of the screen buffer, address 16384.
    SCREEN,
    /// Keyboard input, address 24576.
    KBD,
}

/// The fixed address of a predefined symbol.
pub open spec fn symbol_addr(s: Symbol) -> u16 {
    match s {
        Symbol::SP => 0x0000,
        Symbol::LCL => 0x0001,
        Symbol::ARG => 0x0002,
        Symbol::THIS => 0x0003,
        Symbol::THAT => 0x0004,
        Symbol::R0 => 0x0000,
        Symbol::R1 => 0x0001,
        Symbol::R2 => 0x0002,
        Symbol::R3 => 0x0003,
        Symbol::R4 => 0x0004,
        Symbol::R5 => 0x0005,
        Symbol::R6 => 0x0006,
        Symbol::R7 => 0x0007,
        Symbol::R8 => 0x0008,
        Symbol::R9 => 0x0009,
        Symbol::R10 => 0x000A,
        Symbol::R11 => 0x000B,
        Symbol::R12 => 0x000C,
        Symbol::R13 => 0x000D,
        Symbol::R14 => 0x000E,
        Symbol::R15 => 0x000F,
        Symbol::SCREEN => 0x4000,
        Symbol::KBD => 0x6000,
    }
}

/// The name of a predefined symbol, as bytes.
pub open spec fn symbol_text(s: Symbol) -> Seq<u8> {
    match s {
        Symbol::SP => seq!['S' as u8, 'P' as u8],
        Symbol::LCL => seq!['L' as u8, 'C' as u8, 'L' as u8],
        Symbol::ARG => seq!['A' as u8, 'R' as u8, 'G' as u8],
        Symbol::THIS => seq!['T' as u8, 'H' as u8, 'I' as u8, 'S' as u8],
        Symbol::THAT => seq!['T' as u8, 'H' as u8, 'A' as u8, 'T' as u8],
        Symbol::R0 => seq!['R' as u8, '0' as u8],
        Symbol::R1 => seq!['R' as u8, '1' as u8],
        Symbol::R2 => seq!['R' as u8, '2' as u8],
        Symbol::R3 => seq!['R' as u8, '3' as u8],
        Symbol::R4 => seq!['R' as u8, '4' as u8],
        Symbol::R5 => seq!['R' as u8, '5' as u8],
        Symbol::R6 => seq!['R' as u8, '6' as u8],
        Symbol::R7 => seq!['R' as u8, '7' as u8],
        Symbol::R8 => seq!['R' as u8, '8' as u8],
        Symbol::R9 => seq!['R' as u8, '9' as u8],
        Symbol::R10 => seq!['R' as u8, '1' as u8, '0' as u8],
        Symbol::R11 => seq!['R' as u8, '1' as u8, '1' as u8],
        Symbol::R12 => seq!['R' as u8, '1' as u8, '2' as u8],
        Symbol::R13 => seq!['R' as u8, '1' as u8, '3' as u8],
        Symbol::R14 => seq!['R' as u8, '1' as u8, '4' as u8],
        Symbol::R15 => seq!['R' as u8, '1' as u8, '5' as u8],
        Symbol::SCREEN => seq!['S' as u8, 'C' as u8, 'R' as u8, 'E' as u8, 'E' as u8, 'N' as u8],
        Symbol::KBD => seq!['K' as u8, 'B' as u8, 'D' as u8],
    }
}

/// The predefined symbol named by a text, if any.
pub open spec fn symbol_of_text(s: Seq<u8>) -> Option<Symbol> {
    if s =~= symbol_text(Symbol::SP) {
        Some(Symbol::SP)
    } else if s =~= symbol_text(Symbol::LCL) {
        Some(Symbol::LCL)
    } else if s =~= symbol_text(Symbol::ARG) {
        Some(Symbol::ARG)
    } else if s =~= symbol_text(Symbol::THIS) {
        Some(Symbol::THIS)
    } else if s =~= symbol_text(Symbol::THAT) {
        Some(Symbol::THAT)
    } else if s =~= symbol_text(Symbol::R0) {
        Some(Symbol::R0)
    } else if s =~= symbol_text(Symbol::R1) {
        Some(Symbol::R1)
    } else if s =~= symbol_text(Symbol::R2) {
        Some(Symbol::R2)
    } else if s =~= symbol_text(Symbol::R3) {
        Some(Symbol::R3)
    } else if s =~= symbol_text(Symbol::R4) {
        Some(Symbol::R4)
    } else if s =~= symbol_text(Symbol::R5) {
        Some(Symbol::R5)
    } else if s =~= symbol_text(Symbol::R6) {
        Some(Symbol::R6)
    } else if s =~= symbol_text(Symbol::R7) {
        Some(Symbol::R7)
    } else if s =~= symbol_text(Symbol::R8) {
        Some(Symbol::R8)
    } else if s =~= symbol_text(Symbol::R9) {
        Some(Symbol::R9)
    } else if s =~= symbol_text(Symbol::R10) {
        Some(Symbol::R10)
    } else if s =~= symbol_text(Symbol::R11) {
        Some(Symbol::R11)
    } else if s =~= symbol_text(Symbol::R12) {
        Some(Symbol::R12)
    } else if s =~= symbol_text(Symbol::R13) {
        Some(Symbol::R13)
    } else if s =~= symbol_text(Symbol::R14) {
        Some(Symbol::R14)
    } else if s =~= symbol_text(Symbol::R15) {
        Some(Symbol::R15)
    } else if s =~= symbol_text(Symbol::SCREEN) {
        Some(Symbol::SCREEN)
    } else if s =~= symbol_text(Symbol::KBD) {
        Some(Symbol::KBD)
    } else {
        None
    }
}

/// The address of the predefined symbol named by a text, if any.
pub open spec fn predefined_addr(s: Seq<u8>) -> Option<u16> {
    match symbol_of_text(s) {
        Some(y) => Some(symbol_addr(y)),
        None => None,
    }
}

impl Symbol {
    /// The fixed address of the symbol. The value fits in the 15 bits
    /// of an A-instruction.
    pub fn code(self) -> (r: u16)
        ensures
            r == symbol_addr(self),
            r < 0x8000,
    {
        match self {
            Symbol::SP => 0x0000,
            Symbol::LCL => 0x0001,
            Symbol::ARG => 0x0002,
            Symbol::THIS => 0x0003,
            Symbol::THAT => 0x0004,
            Symbol::R0 => 0x0000,
            Symbol::R1 => 0x0001,
            Symbol::R2 => 0x0002,
            Symbol::R3 => 0x0003,
            Symbol::R4 => 0x0004,
            Symbol::R5 => 0x0005,
            Symbol::R6 => 0x0006,
            Symbol::R7 => 0x0007,
            Symbol::R8 => 0x0008,
            Symbol::R9 => 0x0009,
            Symbol::R10 => 0x000A,
            Symbol::R11 => 0x000B,
            Symbol::R12 => 0x000C,
            Symbol::R13 => 0x000D,
            Symbol::R14 => 0x000E,
            Symbol::R15 => 0x000F,
            Symbol::SCREEN => 0x4000,
            Symbol::KBD => 0x6000,
        }
    }

    /// The name of the symbol, as bytes.
    pub fn text(self) -> (r: Vec<u8>)
        ensures
            r@ == symbol_text(self),
    {
        let mut v: Vec<u8> = Vec::new();
        match self {
            Symbol::SP => {
                v.push('S' as u8);
                v.push('P' as u8);
            },
            Symbol::LCL => {
                v.push('L' as u8);
                v.push('C' as u8);
                v.push('L' as u8);
            },
            Symbol::ARG => {
                v.push('A' as u8);
                v.push('R' as u8);
                v.push('G' as u8);
            },
            Symbol::THIS => {
                v.push('T' as u8);
                v.push('H' as u8);
                v.push('I' as u8);
                v.push('S' as u8);
            },
            Symbol::THAT => {
                v.push('T' as u8);
                v.push('H' as u8);
                v.push('A' as u8);
                v.push('T' as u8);
            },
            Symbol::R0 => {
                v.push('R' as u8);
                v.push('0' as u8);
            },
            Symbol::R1 => {
                v.push('R' as u8);
                v.push('1' as u8);
            },
            Symbol::R2 => {
                v.push('R' as u8);
                v.push('2' as u8);
            },
            Symbol::R3 => {
                v.push('R' as u8);
                v.push('3' as u8);
            },
            Symbol::R4 => {
                v.push('R' as u8);
                v.push('4' as u8);
            },
            Symbol::R5 => {
                v.push('R' as u8);
                v.push('5' as u8);
            },
            Symbol::R6 => {
                v.push('R' as u8);
                v.push('6' as u8);
            },
            Symbol::R7 => {
                v.push('R' as u8);
                v.push('7' as u8);
            },
            Symbol::R8 => {
                v.push('R' as u8);
                v.push('8' as u8);
            },
            Symbol::R9 => {
                v.push('R' as u8);
                v.push('9' as u8);
            },
            Symbol::R10 => {
                v.push('R' as u8);
                v.push('1' as u8);
                v.push('0' as u8);
            },
            Symbol::R11 => {
                v.push('R' as u8);
                v.push('1' as u8);
                v.push('1' as u8);
            },
            Symbol::R12 => {
                v.push('R' as u8);
                v.push('1' as u8);
                v.push('2' as u8);
            },
            Symbol::R13 => {
                v.push('R' as u8);
                v.push('1' as u8);
                v.push('3' as u8);
            },
            Symbol::R14 => {
                v.push('R' as u8);
                v.push('1' as u8);
                v.push('4' as u8);
            },
            Symbol::R15 => {
                v.push('R' as u8);
                v.push('1' as u8);
                v.push('5' as u8);
            },
            Symbol::SCREEN => {
                v.push('S' as u8);
                v.push('C' as u8);
                v.push('R' as u8);
                v.push('E' as u8);
                v.push('E' as u8);
                v.push('N' as u8);
            },
            Symbol::KBD => {
                v.push('K' as u8);
                v.push('B' as u8);
                v.push('D' as u8);
            },
        }
        proof {
            assert(v@ =~= symbol_text(self));
        }
        v
    }

    /// The predefined symbol named by a text, if any.
    pub fn try_from(buf: &[u8]) -> (r: Option<Symbol>)
        ensures
            r == symbol_of_text(buf@),
    {
        let n = buf.len();
        let r = if n == 2 {
            if buf[0] == 'S' as u8 && buf[1] == 'P' as u8 {
                Some(Symbol::SP)
            } else if buf[0] == 'R' as u8 && buf[1] == '0' as u8 {
                Some(Symbol::R0)
            } else if buf[0] == 'R' as u8 && buf[1] == '1' as u8 {
                Some(Symbol::R1)
            } else if buf[0] == 'R' as u8 && buf[1] == '2' as u8 {
                Some(Symbol::R2)
            } else if buf[0] == 'R' as u8 && buf[1] == '3' as u8 {
                Some(Symbol::R3)
            } else if buf[0] == 'R' as u8 && buf[1] == '4' as u8 {
                Some(Symbol::R4)
            } else if buf[0] == 'R' as u8 && buf[1] == '5' as u8 {
                Some(Symbol::R5)
            } else if buf[0] == 'R' as u8 && buf[1] == '6' as u8 {
                Some(Symbol::R6)
            } else if buf[0] == 'R' as u8 && buf[1] == '7' as u8 {
                Some(Symbol::R7)
            } else if buf[0] == 'R' as u8 && buf[1] == '8' as u8 {
                Some(Symbol::R8)
            } else if buf[0] == 'R' as u8 && buf[1] == '9' as u8 {
                Some(Symbol::R9)
            } else {
                None
            }
        } else if n == 3 {
            if buf[0] == 'L' as u8 && buf[1] == 'C' as u8 && buf[2] == 'L' as u8 {
                Some(Symbol::LCL)
            } else if buf[0] == 'A' as u8 && buf[1] == 'R' as u8 && buf[2] == 'G' as u8 {
                Some(Symbol::ARG)
            } else if buf[0] == 'K' as u8 && buf[1] == 'B' as u8 && buf[2] == 'D' as u8 {
                Some(Symbol::KBD)
            } else if buf[0] == 'R' as u8 && buf[1] == '1' as u8 && buf[2] == '0' as u8 {
                Some(Symbol::R10)
            } else if buf[0] == 'R' as u8 && buf[1] == '1' as u8 && buf[2] == '1' as u8 {
                Some(Symbol::R11)
            } else if buf[0] == 'R' as u8 && buf[1] == '1' as u8 && buf[2] == '2' as u8 {
                Some(Symbol::R12)
            } else if buf[0] == 'R' as u8 && buf[1] == '1' as u8 && buf[2] == '3' as u8 {
                Some(Symbol::R13)
            } else if buf[0] == 'R' as u8 && buf[1] == '1' as u8 && buf[2] == '4' as u8 {
                Some(Symbol::R14)
            } else if buf[0] == 'R' as u8 && buf[1] == '1' as u8 && buf[2] == '5' as u8 {
                Some(Symbol::R15)
            } else {
                None
            }
        } else if n == 4 {
            if buf[0] == 'T' as u8 && buf[1] == 'H' as u8 && buf[2] == 'I' as u8 && buf[3]
                == 'S' as u8 {
                Some(Symbol::THIS)
            } else if buf[0] == 'T' as u8 && buf[1] == 'H' as u8 && buf[2] == 'A' as u8 && buf[3]
                == 'T' as u8 {
                Some(Symbol::THAT)
            } else {
                None
            }
        } else if n == 6 {
            if buf[0] == 'S' as u8 && buf[1] == 'C' as u8 && buf[2] == 'R' as u8 && buf[3]
                == 'E' as u8 && buf[4] == 'E' as u8 && buf[5] == 'N' as u8 {
                Some(Symbol::SCREEN)
            } else {
                None
            }
        } else {
            None
        };
        r
    }
}

/// The fixed address of the predefined symbol named by a text, if any.
pub fn is_predefined_symbol(s: &[u8]) -> (r: Option<u16>)
    ensures
        r == predefined_addr(s@),
        r matches Some(a) ==> a < 0x8000,
{
    match Symbol::try_from(s) {
        Some(y) => Some(y.code()),
        None => None,
    }
}

/// What the symbol table records of a name: where it was bound and to
/// which address.
#[derive(Debug, Clone, Copy, PartialEq, Eq, Structural)]
pub struct SymInfo {
    /// Where the binding was made: a label's position, or the first
    /// use of a variable.
    pub pos: Loc,
    /// The bound address.
    pub addr: u16,
}

impl SymInfo {
    /// Bundle a position and an address.
    pub fn new(pos: Loc, addr: u16) -> (r: SymInfo)
        ensures
            r == (SymInfo { pos, addr }),
    {
        SymInfo { pos, addr }
    }
}

/// The map bound by a sequence of name/info entries, later entries
/// winning.
pub open spec fn map_of(s: Seq<(Vec<u8>, SymInfo)>) -> Map<Seq<u8>, SymInfo>
    decreases s.len(),
{
    if s.len() == 0 {
        Map::empty()
    } else {
        map_of(s.drop_last()).insert(s.last().0@, s.last().1)
    }
}

/// Whether no two entries bind the same name.
pub open spec fn unique_keys(s: Seq<(Vec<u8>, SymInfo)>) -> bool {
    forall|i: int, j: int| 0 <= i < j < s.len() ==> s[i].0@ != s[j].0@
}

/// A name bound by no entry is not in the map.
proof fn lemma_map_of_absent(s: Seq<(Vec<u8>, SymInfo)>, k: Seq<u8>)
    requires
        forall|i: int| 0 <= i < s.len() ==> s[i].0@ != k,
    ensures
        !map_of(s).contains_key(k),
    decreases s.len(),
{
    if s.len() > 0 {
        lemma_map_of_absent(s.drop_last(), k);
    }
}

/// The entry binding a name gives its value in the map.
proof fn lemma_map_of_get(s: Seq<(Vec<u8>, SymInfo)>, i: int)
    requires
        unique_keys(s),
        0 <= i < s.len(),
    ensures
        map_of(s).contains_key(s[i].0@),
        map_of(s)[s[i].0@] == s[i].1,
    decreases s.len(),
{
    if i == s.len() - 1 {
    } else {
        lemma_map_of_get(s.drop_last(), i);
        assert(s.drop_last()[i] == s[i]);
    }
}

/// With unique names the map holds exactly one binding per entry.
proof fn lemma_map_of_dom_len(s: Seq<(Vec<u8>, SymInfo)>)
    requires
        unique_keys(s),
    ensures
        map_of(s).dom().finite(),
        map_of(s).dom().len() == s.len(),
    decreases s.len(),
{
    if s.len() > 0 {
        lemma_map_of_dom_len(s.drop_last());
        lemma_map_of_absent(s.drop_last(), s.last().0@);
        assert(map_of(s).dom() =~= map_of(s.drop_last()).dom().insert(s.last().0@));
    }
}

/// A symbol table: a mapping from names to [`SymInfo`] entries. Viewed
/// as a [`Map`] from byte sequences to entries.
#[derive(Debug)]
pub struct SymTable {
    entries: Vec<(Vec<u8>, SymInfo)>,
}

impl View for SymTable {
    type V = Map<Seq<u8>, SymInfo>;

    closed spec fn view(&self) -> Map<Seq<u8>, SymInfo> {
        map_of(self.entries@)
    }
}

/// Whether the byte contents of two buffers are equal.
pub fn bytes_eq(a: &[u8], b: &[u8]) -> (r: bool)
    ensures
        r == (a@ == b@),
{
    if a.len() != b.len() {
        proof {
            assert(a@ != b@);
        }
        return false;
    }
    let n = a.len();
    let mut i: usize = 0;
    while i < n
        invariant
            n == a@.len() == b@.len(),
            0 <= i <= n,
            forall|k: int| 0 <= k < i ==> a@[k] == b@[k],
        decreases n - i,
    {
        if a[i] != b[i] {
            return false;
        }
        i = i + 1;
    }
    proof {
        assert(a@ =~= b@);
    }
    true
}

impl SymTable {
    /// Whether no two entries of the table bind the same name.
    pub closed spec fn wf(self) -> bool {
        unique_keys(self.entries@)
    }

    /// An empty table.
    pub fn new() -> (r: SymTable)
        ensures
            r.wf(),
            r@ == Map::<Seq<u8>, SymInfo>::empty(),
    {
        SymTable { entries: Vec::new() }
    }

    /// The number of names bound by the table.
    pub fn len(&self) -> (r: usize)
        requires
            self.wf(),
        ensures
            r == self@.dom().len(),
    {
        proof {
            lemma_map_of_dom_len(self.entries@);
        }
        self.entries.len()
    }

    /// Look a name up.
    pub fn get(&self, name: &[u8]) -> (r: Option<SymInfo>)
        requires
            self.wf(),
        ensures
            match r {
                Some(info) => self@.contains_key(name@) && self@[name@] == info,
                None => !self@.contains_key(name@),
            },
    {
        let n = self.entries.len();
        let mut i: usize = 0;
        while i < n
            invariant
                self.wf(),
                n == self.entries@.len(),
                0 <= i <= n,
                forall|k: int| 0 <= k < i ==> self.entries@[k].0@ != name@,
            decreases n - i,
        {
            if bytes_eq(self.entries[i].0.as_slice(), name) {
                proof {
                    lemma_map_of_get(self.entries@, i as int);
                }
                return Some(self.entries[i].1);
            }
            i = i + 1;
        }
        proof {
            lemma_map_of_absent(self.entries@, name@);
        }
        None
    }

    /// Bind a name, returning what it was bound to before, if
    /// anything.
    pub fn insert(&mut self, name: Vec<u8>, info: SymInfo) -> (prior: Option<SymInfo>)
        requires
            old(self).wf(),
        ensures
            final(self).wf(),
            final(self)@ == old(self)@.insert(name@, info),
            match prior {
                Some(p) => old(self)@.contains_key(name@) && old(self)@[name@] == p,
                None => !old(self)@.contains_key(name@),
            },
    {
        let n = self.entries.len();
        let mut i: usize = 0;
        while i < n
            invariant
                *self == *old(self),
                self.wf(),
                n == self.entries@.len(),
                0 <= i <= n,
                forall|k: int| 0 <= k < i ==> self.entries@[k].0@ != name@,
            decreases n - i,
        {
            if bytes_eq(self.entries[i].0.as_slice(), name.as_slice()) {
                proof {
                    lemma_map_of_get(self.entries@, i as int);
                }
                let prior = self.entries[i].1;
                let ghost old_entries = self.entries@;
                self.entries.set(i, (name, info));
                proof {
                    lemma_map_of_update(old_entries, i as int, self.entries@[i as int]);
                }
                return Some(prior);
            }
            i = i + 1;
        }
        proof {
            lemma_map_of_absent(self.entries@, name@);
        }
        let ghost old_entries = self.entries@;
        let ghost gname = name@;
        self.entries.push((name, info));
        proof {
            assert(self.entries@.drop_last() =~= old_entries);
            assert forall|p: int, q: int|
                0 <= p < q < self.entries@.len() implies self.entries@[p].0@
                != self.entries@[q].0@ by {
                if q < old_entries.len() {
                    assert(old_entries[p].0@ != old_entries[q].0@);
                } else {
                    assert(self.entries@[q].0@ == gname);
                    assert(old_entries[p].0@ != gname);
                }
            }
        }
        None
    }
}

/// Rebinding the entry of a name updates just that name in the map.
proof fn lemma_map_of_update(s: Seq<(Vec<u8>, SymInfo)>, i: int, e: (Vec<u8>, SymInfo))
    requires
        unique_keys(s),
        0 <= i < s.len(),
        e.0@ == s[i].0@,
    ensures
        unique_keys(s.update(i, e)),
        map_of(s.update(i, e)) == map_of(s).insert(e.0@, e.1),
    decreases s.len(),
{
    let t = s.update(i, e);
    assert forall|p: int, q: int| 0 <= p < q < t.len() implies t[p].0@ != t[q].0@ by {
        assert(s[p].0@ != s[q].0@);
    }
    if i == s.len() - 1 {
        assert(t.drop_last() =~= s.drop_last());
        assert(map_of(t) =~= map_of(s).insert(e.0@, e.1));
    } else {
        lemma_map_of_update(s.drop_last(), i, e);
        assert(t.drop_last() =~= s.drop_last().update(i, e));
        assert(t.last() == s.last());
        assert(s.last().0@ != e.0@);
        assert(map_of(t) == map_of(s.drop_last()).insert(e.0@, e.1).insert(s.last().0@, s.last().1));
        assert(map_of(s.drop_last()).insert(e.0@, e.1).insert(s.last().0@, s.last().1) =~= map_of(
            s.drop_last(),
        ).insert(s.last().0@, s.last().1).insert(e.0@, e.1));
    }
}

} // verus!
