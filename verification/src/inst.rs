//! The HACK C-instruction: its three fields (destination, computation,
//! jump), their bit encodings, their mnemonic texts, and the packing of
//! a full instruction into a 16-bit machine word.
//!
//! A C-instruction word lays out as
//! `1 1 1 | a c1..c6 | d1 d2 d3 | j1 j2 j3`: the top three bits are
//! set, the seven computation bits follow, then the three destination
//! bits (`A`, `D`, `M` in that order) and the three jump bits.

use vstd::prelude::*;

verus! {

/// The destination field of a C-instruction.
#[derive(Debug, Clone, Copy, PartialEq, Eq, Structural)]
pub enum Dest {
    /// No destination.
    Null,
    /// Memory at the address register.
    M,
    /// The data register.
    D,
    /// Memory and the data register.
    MD,
    /// The address register.
    A,
    /// The address register and memory.
    AM,
    /// The address and data registers.
    AD,
    /// All three destinations.
    AMD,
}

/// The computation field of a C-instruction.
///
/// The mnemonics over `A` form the `a=0` half of the table; the same
/// computations over `M` form the `a=1` half.
#[derive(Debug, Clone, Copy, PartialEq, Eq, Structural)]
pub enum Comp {
    /// `0`
    Zero,
    /// `1`
    One,
    /// `-1`
    NegOne,
    /// `D`
    D,
    /// `A`
    A,
    /// `!D`
    NotD,
    /// `!A`
    NotA,
    /// `-D`
    NegD,
    /// `-A`
    NegA,
    /// `D+1`
    DPlus1,
    /// `A+1`
    APlus1,
    /// `D-1`
    DMinus1,
    /// `A-1`
    AMinus1,
    /// `D+A`
    DPlusA,
    /// `D-A`
    DMinusA,
    /// `A-D`
    AMinusD,
    /// `D&A`
    DAndA,
    /// `D|A`
    DOrA,
    /// `M`
    M,
    /// `!M`
    NotM,
    /// `-M`
    NegM,
    /// `M+1`
    MPlus1,
    /// `M-1`
    MMinus1,
    /// `D+M`
    DPlusM,
    /// `D-M`
    DMinusM,
    /// `M-D`
    MMinusD,
    /// `D&M`
    DAndM,
    /// `D|M`
    DOrM,
}

/// The jump field of a C-instruction.
#[derive(Debug, Clone, Copy, PartialEq, Eq, Structural)]
pub enum Jump {
    /// No jump.
    Null,
    /// Jump if the computation is positive.
    JGT,
    /// Jump if the computation is zero.
    JEQ,
    /// Jump if the computation is not negative.
    JGE,
    /// Jump if the computation is negative.
    JLT,
    /// Jump if the computation is not zero.
    JNE,
    /// Jump if the computation is not positive.
    JLE,
    /// Jump unconditionally.
    JMP,
}

/// The three destination bits: `A`, `D`, `M` from most to least
/// significant.
pub open spec fn dest_bits(d: Dest) -> u16 {
    match d {
        Dest::Null => 0b000,
        Dest::M => 0b001,
        Dest::D => 0b010,
        Dest::MD => 0b011,
        Dest::A => 0b100,
        Dest::AM => 0b101,
        Dest::AD => 0b110,
        Dest::AMD => 0b111,
    }
}

/// The destination named by three bits.
pub open spec fn dest_of_bits(b: u16) -> Option<Dest> {
    match b {
        0b000 => Some(Dest::Null),
        0b001 => Some(Dest::M),
        0b010 => Some(Dest::D),
        0b011 => Some(Dest::MD),
        0b100 => Some(Dest::A),
        0b101 => Some(Dest::AM),
        0b110 => Some(Dest::AD),
        0b111 => Some(Dest::AMD),
        _ => None,
    }
}

/// The three jump bits.
pub open spec fn jump_bits(j: Jump) -> u16 {
    match j {
        Jump::Null => 0b000,
        Jump::JGT => 0b001,
        Jump::JEQ => 0b010,
        Jump::JGE => 0b011,
        Jump::JLT => 0b100,
        Jump::JNE => 0b101,
        Jump::JLE => 0b110,
        Jump::JMP => 0b111,
    }
}

/// The jump named by three bits.
pub open spec fn jump_of_bits(b: u16) -> Option<Jump> {
    match b {
        0b000 => Some(Jump::Null),
        0b001 => Some(Jump::JGT),
        0b010 => Some(Jump::JEQ),
        0b011 => Some(Jump::JGE),
        0b100 => Some(Jump::JLT),
        0b101 => Some(Jump::JNE),
        0b110 => Some(Jump::JLE),
        0b111 => Some(Jump::JMP),
        _ => None,
    }
}

/// The seven computation bits: the `a` bit followed by `c1..c6`.
pub open spec fn comp_bits(c: Comp) -> u16 {
    match c {
        Comp::Zero => 0b0101010,
        Comp::One => 0b0111111,
        Comp::NegOne => 0b0111010,
        Comp::D => 0b0001100,
        Comp::A => 0b0110000,
        Comp::NotD => 0b0001101,
        Comp::NotA => 0b0110001,
        Comp::NegD => 0b0001111,
        Comp::NegA => 0b0110011,
        Comp::DPlus1 => 0b0011111,
        Comp::APlus1 => 0b0110111,
        Comp::DMinus1 => 0b0001110,
        Comp::AMinus1 => 0b0110010,
        Comp::DPlusA => 0b0000010,
        Comp::DMinusA => 0b0010011,
        Comp::AMinusD => 0b0000111,
        Comp::DAndA => 0b0000000,
        Comp::DOrA => 0b0010101,
        Comp::M => 0b1110000,
        Comp::NotM => 0b1110001,
        Comp::NegM => 0b1110011,
        Comp::MPlus1 => 0b1110111,
        Comp::MMinus1 => 0b1110010,
        Comp::DPlusM => 0b1000010,
        Comp::DMinusM => 0b1010011,
        Comp::MMinusD => 0b1000111,
        Comp::DAndM => 0b1000000,
        Comp::DOrM => 0b1010101,
    }
}

/// The computation named by seven bits, if any.
pub open spec fn comp_of_bits(b: u16) -> Option<Comp> {
    match b {
        0b0101010 => Some(Comp::Zero),
        0b0111111 => Some(Comp::One),
        0b0111010 => Some(Comp::NegOne),
        0b0001100 => Some(Comp::D),
        0b0110000 => Some(Comp::A),
        0b0001101 => Some(Comp::NotD),
        0b0110001 => Some(Comp::NotA),
        0b0001111 => Some(Comp::NegD),
        0b0110011 => Some(Comp::NegA),
        0b0011111 => Some(Comp::DPlus1),
        0b0110111 => Some(Comp::APlus1),
        0b0001110 => Some(Comp::DMinus1),
        0b0110010 => Some(Comp::AMinus1),
        0b0000010 => Some(Comp::DPlusA),
        0b0010011 => Some(Comp::DMinusA),
        0b0000111 => Some(Comp::AMinusD),
        0b0000000 => Some(Comp::DAndA),
        0b0010101 => Some(Comp::DOrA),
        0b1110000 => Some(Comp::M),
        0b1110001 => Some(Comp::NotM),
        0b1110011 => Some(Comp::NegM),
        0b1110111 => Some(Comp::MPlus1),
        0b1110010 => Some(Comp::MMinus1),
        0b1000010 => Some(Comp::DPlusM),
        0b1010011 => Some(Comp::DMinusM),
        0b1000111 => Some(Comp::MMinusD),
        0b1000000 => Some(Comp::DAndM),
        0b1010101 => Some(Comp::DOrM),
        _ => None,
    }
}

impl Dest {
    /// The bit encoding of this destination.
    pub fn code(self) -> (r: u16)
        ensures
            r == dest_bits(self),
    {
        match self {
            Dest::Null => 0b000,
            Dest::M => 0b001,
            Dest::D => 0b010,
            Dest::MD => 0b011,
            Dest::A => 0b100,
            Dest::AM => 0b101,
            Dest::AD => 0b110,
            Dest::AMD => 0b111,
        }
    }

    /// The destination encoded by `b`, if any.
    pub fn decode(b: u16) -> (r: Option<Dest>)
        ensures
            r == dest_of_bits(b),
    {
        match b {
            0b000 => Some(Dest::Null),
            0b001 => Some(Dest::M),
            0b010 => Some(Dest::D),
            0b011 => Some(Dest::MD),
            0b100 => Some(Dest::A),
            0b101 => Some(Dest::AM),
            0b110 => Some(Dest::AD),
            0b111 => Some(Dest::AMD),
            _ => None,
        }
    }

    /// Whether this is the empty destination.
    pub fn is_null(self) -> (r: bool)
        ensures
            r == (self == Dest::Null),
    {
        matches!(self, Dest::Null)
    }
}

impl Jump {
    /// The bit encoding of this jump.
    pub fn code(self) -> (r: u16)
        ensures
            r == jump_bits(self),
    {
        match self {
            Jump::Null => 0b000,
            Jump::JGT => 0b001,
            Jump::JEQ => 0b010,
            Jump::JGE => 0b011,
            Jump::JLT => 0b100,
            Jump::JNE => 0b101,
            Jump::JLE => 0b110,
            Jump::JMP => 0b111,
        }
    }

    /// The jump encoded by `b`, if any.
    pub fn decode(b: u16) -> (r: Option<Jump>)
        ensures
            r == jump_of_bits(b),
    {
        match b {
            0b000 => Some(Jump::Null),
            0b001 => Some(Jump::JGT),
            0b010 => Some(Jump::JEQ),
            0b011 => Some(Jump::JGE),
            0b100 => Some(Jump::JLT),
            0b101 => Some(Jump::JNE),
            0b110 => Some(Jump::JLE),
            0b111 => Some(Jump::JMP),
            _ => None,
        }
    }

    /// Whether this is the empty jump.
    pub fn is_null(self) -> (r: bool)
        ensures
            r == (self == Jump::Null),
    {
        matches!(self, Jump::Null)
    }
}

impl Comp {
    /// The bit encoding of this computation.
    pub fn code(self) -> (r: u16)
        ensures
            r == comp_bits(self),
    {
        match self {
            Comp::Zero => 0b0101010,
            Comp::One => 0b0111111,
            Comp::NegOne => 0b0111010,
            Comp::D => 0b0001100,
            Comp::A => 0b0110000,
            Comp::NotD => 0b0001101,
            Comp::NotA => 0b0110001,
            Comp::NegD => 0b0001111,
            Comp::NegA => 0b0110011,
            Comp::DPlus1 => 0b0011111,
            Comp::APlus1 => 0b0110111,
            Comp::DMinus1 => 0b0001110,
            Comp::AMinus1 => 0b0110010,
            Comp::DPlusA => 0b0000010,
            Comp::DMinusA => 0b0010011,
            Comp::AMinusD => 0b0000111,
            Comp::DAndA => 0b0000000,
            Comp::DOrA => 0b0010101,
            Comp::M => 0b1110000,
            Comp::NotM => 0b1110001,
            Comp::NegM => 0b1110011,
            Comp::MPlus1 => 0b1110111,
            Comp::MMinus1 => 0b1110010,
            Comp::DPlusM => 0b1000010,
            Comp::DMinusM => 0b1010011,
            Comp::MMinusD => 0b1000111,
            Comp::DAndM => 0b1000000,
            Comp::DOrM => 0b1010101,
        }
    }

    /// The computation encoded by `b`, if any.
    pub fn decode(b: u16) -> (r: Option<Comp>)
        ensures
            r == comp_of_bits(b),
    {
        match b {
            0b0101010 => Some(Comp::Zero),
            0b0111111 => Some(Comp::One),
            0b0111010 => Some(Comp::NegOne),
            0b0001100 => Some(Comp::D),
            0b0110000 => Some(Comp::A),
            0b0001101 => Some(Comp::NotD),
            0b0110001 => Some(Comp::NotA),
            0b0001111 => Some(Comp::NegD),
            0b0110011 => Some(Comp::NegA),
            0b0011111 => Some(Comp::DPlus1),
            0b0110111 => Some(Comp::APlus1),
            0b0001110 => Some(Comp::DMinus1),
            0b0110010 => Some(Comp::AMinus1),
            0b0000010 => Some(Comp::DPlusA),
            0b0010011 => Some(Comp::DMinusA),
            0b0000111 => Some(Comp::AMinusD),
            0b0000000 => Some(Comp::DAndA),
            0b0010101 => Some(Comp::DOrA),
            0b1110000 => Some(Comp::M),
            0b1110001 => Some(Comp::NotM),
            0b1110011 => Some(Comp::NegM),
            0b1110111 => Some(Comp::MPlus1),
            0b1110010 => Some(Comp::MMinus1),
            0b1000010 => Some(Comp::DPlusM),
            0b1010011 => Some(Comp::DMinusM),
            0b1000111 => Some(Comp::MMinusD),
            0b1000000 => Some(Comp::DAndM),
            0b1010101 => Some(Comp::DOrM),
            _ => None,
        }
    }
}

/// Decoding a destination's bits gives back the destination.
pub proof fn lemma_dest_bits_inverse(d: Dest)
    ensures
        dest_of_bits(dest_bits(d)) == Some(d),
{
}

/// Decoding a jump's bits gives back the jump.
pub proof fn lemma_jump_bits_inverse(j: Jump)
    ensures
        jump_of_bits(jump_bits(j)) == Some(j),
{
}

/// Decoding a computation's bits gives back the computation.
pub proof fn lemma_comp_bits_inverse(c: Comp)
    ensures
        comp_of_bits(comp_bits(c)) == Some(c),
{
}

/// An instruction as defined by the HACK assembly reference: a
/// destination, a computation and a jump. A meaningful instruction has
/// at least one of destination and jump present; construction through
/// [`Inst::new`] enforces that, while decoding a machine word tolerates
/// the pointless no-op.
#[derive(Debug, Clone, Copy, PartialEq, Eq, Structural)]
pub struct Inst {
    /// The destination field.
    pub dest: Dest,
    /// The computation field.
    pub comp: Comp,
    /// The jump field.
    pub jump: Jump,
}

/// Error creating or reading an instruction.
#[derive(Debug, Clone, PartialEq, Eq)]
pub enum InstErr {
    /// Neither a destination nor a jump was given.
    MissingDestJump,
    /// The text before `=` names no destination.
    UnknownDest(Vec<u8>),
    /// The text names no computation.
    UnknownComp(Vec<u8>),
    /// The text after `;` names no jump.
    UnknownJump(Vec<u8>),
}

/// Error decoding an instruction from a machine word.
#[derive(Debug, Clone, Copy, PartialEq, Eq, Structural)]
pub enum DecodeErr {
    /// The computation bits name no computation.
    InvalidComp(u16),
    /// The destination bits name no destination.
    InvalidDest(u16),
    /// The jump bits name no jump.
    InvalidJump(u16),
}

/// The 16-bit machine word of a C-instruction: the top three bits set,
/// then the computation, destination and jump bits.
pub open spec fn inst_word(i: Inst) -> u16 {
    (0xE000u16 | ((comp_bits(i.comp) << 6u16) | ((dest_bits(i.dest) << 3u16) | jump_bits(
        i.jump,
    )))) as u16
}

/// The computation bits of a machine word.
pub open spec fn comp_field(v: u16) -> u16 {
    (v >> 6u16) & 0x7fu16
}

/// The destination bits of a machine word.
pub open spec fn dest_field(v: u16) -> u16 {
    (v >> 3u16) & 0x7u16
}

/// The jump bits of a machine word.
pub open spec fn jump_field(v: u16) -> u16 {
    v & 0x7u16
}

/// The instruction encoded in the fields of a machine word, if every
/// field names a mnemonic. The top three bits are not read here; the
/// program decoder checks them before extracting the fields.
pub open spec fn decoded_inst(v: u16) -> Result<Inst, DecodeErr> {
    match comp_of_bits(comp_field(v)) {
        None => Err(DecodeErr::InvalidComp(comp_field(v))),
        Some(comp) => match dest_of_bits(dest_field(v)) {
            None => Err(DecodeErr::InvalidDest(dest_field(v))),
            Some(dest) => match jump_of_bits(jump_field(v)) {
                None => Err(DecodeErr::InvalidJump(jump_field(v))),
                Some(jump) => Ok(Inst { dest, comp, jump }),
            },
        },
    }
}

impl Inst {
    /// Whether the instruction is meaningful: a destination or a jump
    /// is present.
    pub open spec fn wf(self) -> bool {
        self.dest != Dest::Null || self.jump != Jump::Null
    }

    /// Create an instruction; an instruction with neither destination
    /// nor jump is rejected.
    pub fn new(dest: Dest, comp: Comp, jump: Jump) -> (r: Result<Inst, InstErr>)
        ensures
            dest == Dest::Null && jump == Jump::Null ==> r == Err::<Inst, InstErr>(
                InstErr::MissingDestJump,
            ),
            !(dest == Dest::Null && jump == Jump::Null) ==> r == Ok::<Inst, InstErr>(
                Inst { dest, comp, jump },
            ),
    {
        if matches!(dest, Dest::Null) && matches!(jump, Jump::Null) {
            return Err(InstErr::MissingDestJump);
        }
        Ok(Inst { dest, comp, jump })
    }

    /// The destination of the instruction.
    pub fn dest(&self) -> (r: Dest)
        ensures
            r == self.dest,
    {
        self.dest
    }

    /// The computation of the instruction.
    pub fn comp(&self) -> (r: Comp)
        ensures
            r == self.comp,
    {
        self.comp
    }

    /// The jump of the instruction.
    pub fn jump(&self) -> (r: Jump)
        ensures
            r == self.jump,
    {
        self.jump
    }

    /// Pack the instruction into its machine word.
    pub fn code(&self) -> (r: u16)
        ensures
            r == inst_word(*self),
    {
        0xE000u16 | ((self.comp.code() << 6u16) | ((self.dest.code() << 3u16) | self.jump.code()))
    }

    /// Unpack an instruction from the fields of a machine word.
    pub fn decode(v: u16) -> (r: Result<Inst, DecodeErr>)
        ensures
            r == decoded_inst(v),
    {
        let comp_v = (v >> 6u16) & 0x7fu16;
        let comp = match Comp::decode(comp_v) {
            Some(c) => c,
            None => {
                return Err(DecodeErr::InvalidComp(comp_v));
            },
        };
        let dest_v = (v >> 3u16) & 0x7u16;
        let dest = match Dest::decode(dest_v) {
            Some(d) => d,
            None => {
                return Err(DecodeErr::InvalidDest(dest_v));
            },
        };
        let jump_v = v & 0x7u16;
        let jump = match Jump::decode(jump_v) {
            Some(j) => j,
            None => {
                return Err(DecodeErr::InvalidJump(jump_v));
            },
        };
        Ok(Inst { dest, comp, jump })
    }
}

/// The machine word of every instruction has its top three bits set,
/// and each field sits at its documented offset: the computation bits
/// at bit 6, the destination bits at bit 3, the jump bits at bit 0.
pub proof fn lemma_word_layout(i: Inst)
    ensures
        inst_word(i) >= 0xE000,
        comp_field(inst_word(i)) == comp_bits(i.comp),
        dest_field(inst_word(i)) == dest_bits(i.dest),
        jump_field(inst_word(i)) == jump_bits(i.jump),
{
    let c = comp_bits(i.comp);
    let d = dest_bits(i.dest);
    let j = jump_bits(i.jump);
    assert(c <= 0x7f && d <= 0x7 && j <= 0x7) by {
        lemma_comp_bits_inverse(i.comp);
    };
    assert((0xE000u16 | ((c << 6u16) | ((d << 3u16) | j))) >= 0xE000) by (bit_vector);
    assert(c <= 0x7f && d <= 0x7 && j <= 0x7 ==> ((0xE000u16 | ((c << 6u16) | ((d << 3u16) | j)))
        >> 6u16) & 0x7fu16 == c) by (bit_vector);
    assert(c <= 0x7f && d <= 0x7 && j <= 0x7 ==> ((0xE000u16 | ((c << 6u16) | ((d << 3u16) | j)))
        >> 3u16) & 0x7u16 == d) by (bit_vector);
    assert(c <= 0x7f && d <= 0x7 && j <= 0x7 ==> (0xE000u16 | ((c << 6u16) | ((d << 3u16) | j)))
        & 0x7u16 == j) by (bit_vector);
}

/// Decoding the machine word of an instruction gives back the
/// instruction.
pub proof fn lemma_word_inverse(i: Inst)
    ensures
        decoded_inst(inst_word(i)) == Ok::<Inst, DecodeErr>(i),
{
    lemma_word_layout(i);
    lemma_comp_bits_inverse(i.comp);
    lemma_dest_bits_inverse(i.dest);
    lemma_jump_bits_inverse(i.jump);
}

/// The mnemonic text of a destination; empty for `Null`.
pub open spec fn dest_text(d: Dest) -> Seq<u8> {
    match d {
        Dest::Null => Seq::empty(),
        Dest::M => seq!['M' as u8],
        Dest::D => seq!['D' as u8],
        Dest::MD => seq!['M' as u8, 'D' as u8],
        Dest::A => seq!['A' as u8],
        Dest::AM => seq!['A' as u8, 'M' as u8],
        Dest::AD => seq!['A' as u8, 'D' as u8],
        Dest::AMD => seq!['A' as u8, 'M' as u8, 'D' as u8],
    }
}

/// The destination named by a text, if any.
pub open spec fn dest_of_text(s: Seq<u8>) -> Option<Dest> {
    if s.len() == 1 {
        if s[0] == 'M' as u8 {
            Some(Dest::M)
        } else if s[0] == 'D' as u8 {
            Some(Dest::D)
        } else if s[0] == 'A' as u8 {
            Some(Dest::A)
        } else {
            None
        }
    } else if s.len() == 2 {
        if s[0] == 'M' as u8 && s[1] == 'D' as u8 {
            Some(Dest::MD)
        } else if s[0] == 'A' as u8 && s[1] == 'M' as u8 {
            Some(Dest::AM)
        } else if s[0] == 'A' as u8 && s[1] == 'D' as u8 {
            Some(Dest::AD)
        } else {
            None
        }
    } else if s.len() == 3 && s[0] == 'A' as u8 && s[1] == 'M' as u8 && s[2] == 'D' as u8 {
        Some(Dest::AMD)
    } else {
        None
    }
}

/// The mnemonic text of a jump; empty for `Null`.
pub open spec fn jump_text(j: Jump) -> Seq<u8> {
    match j {
        Jump::Null => Seq::empty(),
        Jump::JGT => seq!['J' as u8, 'G' as u8, 'T' as u8],
        Jump::JEQ => seq!['J' as u8, 'E' as u8, 'Q' as u8],
        Jump::JGE => seq!['J' as u8, 'G' as u8, 'E' as u8],
        Jump::JLT => seq!['J' as u8, 'L' as u8, 'T' as u8],
        Jump::JNE => seq!['J' as u8, 'N' as u8, 'E' as u8],
        Jump::JLE => seq!['J' as u8, 'L' as u8, 'E' as u8],
        Jump::JMP => seq!['J' as u8, 'M' as u8, 'P' as u8],
    }
}

/// The jump named by a text, if any.
pub open spec fn jump_of_text(s: Seq<u8>) -> Option<Jump> {
    if s.len() == 3 && s[0] == 'J' as u8 {
        if s[1] == 'G' as u8 && s[2] == 'T' as u8 {
            Some(Jump::JGT)
        } else if s[1] == 'E' as u8 && s[2] == 'Q' as u8 {
            Some(Jump::JEQ)
        } else if s[1] == 'G' as u8 && s[2] == 'E' as u8 {
            Some(Jump::JGE)
        } else if s[1] == 'L' as u8 && s[2] == 'T' as u8 {
            Some(Jump::JLT)
        } else if s[1] == 'N' as u8 && s[2] == 'E' as u8 {
            Some(Jump::JNE)
        } else if s[1] == 'L' as u8 && s[2] == 'E' as u8 {
            Some(Jump::JLE)
        } else if s[1] == 'M' as u8 && s[2] == 'P' as u8 {
            Some(Jump::JMP)
        } else {
            None
        }
    } else {
        None
    }
}

/// The mnemonic text of a computation.
pub open spec fn comp_text(c: Comp) -> Seq<u8> {
    match c {
        Comp::Zero => seq!['0' as u8],
        Comp::One => seq!['1' as u8],
        Comp::NegOne => seq!['-' as u8, '1' as u8],
        Comp::D => seq!['D' as u8],
        Comp::A => seq!['A' as u8],
        Comp::NotD => seq!['!' as u8, 'D' as u8],
        Comp::NotA => seq!['!' as u8, 'A' as u8],
        Comp::NegD => seq!['-' as u8, 'D' as u8],
        Comp::NegA => seq!['-' as u8, 'A' as u8],
        Comp::DPlus1 => seq!['D' as u8, '+' as u8, '1' as u8],
        Comp::APlus1 => seq!['A' as u8, '+' as u8, '1' as u8],
        Comp::DMinus1 => seq!['D' as u8, '-' as u8, '1' as u8],
        Comp::AMinus1 => seq!['A' as u8, '-' as u8, '1' as u8],
        Comp::DPlusA => seq!['D' as u8, '+' as u8, 'A' as u8],
        Comp::DMinusA => seq!['D' as u8, '-' as u8, 'A' as u8],
        Comp::AMinusD => seq!['A' as u8, '-' as u8, 'D' as u8],
        Comp::DAndA => seq!['D' as u8, '&' as u8, 'A' as u8],
        Comp::DOrA => seq!['D' as u8, '|' as u8, 'A' as u8],
        Comp::M => seq!['M' as u8],
        Comp::NotM => seq!['!' as u8, 'M' as u8],
        Comp::NegM => seq!['-' as u8, 'M' as u8],
        Comp::MPlus1 => seq!['M' as u8, '+' as u8, '1' as u8],
        Comp::MMinus1 => seq!['M' as u8, '-' as u8, '1' as u8],
        Comp::DPlusM => seq!['D' as u8, '+' as u8, 'M' as u8],
        Comp::DMinusM => seq!['D' as u8, '-' as u8, 'M' as u8],
        Comp::MMinusD => seq!['M' as u8, '-' as u8, 'D' as u8],
        Comp::DAndM => seq!['D' as u8, '&' as u8, 'M' as u8],
        Comp::DOrM => seq!['D' as u8, '|' as u8, 'M' as u8],
    }
}

/// The computation named by a text, if any.
pub open spec fn comp_of_text(s: Seq<u8>) -> Option<Comp> {
    if s.len() == 1 {
        if s[0] == '0' as u8 {
            Some(Comp::Zero)
        } else if s[0] == '1' as u8 {
            Some(Comp::One)
        } else if s[0] == 'D' as u8 {
            Some(Comp::D)
        } else if s[0] == 'A' as u8 {
            Some(Comp::A)
        } else if s[0] == 'M' as u8 {
            Some(Comp::M)
        } else {
            None
        }
    } else if s.len() == 2 {
        if s[0] == '-' as u8 && s[1] == '1' as u8 {
            Some(Comp::NegOne)
        } else if s[0] == '!' as u8 && s[1] == 'D' as u8 {
            Some(Comp::NotD)
        } else if s[0] == '!' as u8 && s[1] == 'A' as u8 {
            Some(Comp::NotA)
        } else if s[0] == '!' as u8 && s[1] == 'M' as u8 {
            Some(Comp::NotM)
        } else if s[0] == '-' as u8 && s[1] == 'D' as u8 {
            Some(Comp::NegD)
        } else if s[0] == '-' as u8 && s[1] == 'A' as u8 {
            Some(Comp::NegA)
        } else if s[0] == '-' as u8 && s[1] == 'M' as u8 {
            Some(Comp::NegM)
        } else {
            None
        }
    } else if s.len() == 3 {
        if s[0] == 'D' as u8 && s[1] == '+' as u8 && s[2] == '1' as u8 {
            Some(Comp::DPlus1)
        } else if s[0] == 'A' as u8 && s[1] == '+' as u8 && s[2] == '1' as u8 {
            Some(Comp::APlus1)
        } else if s[0] == 'M' as u8 && s[1] == '+' as u8 && s[2] == '1' as u8 {
            Some(Comp::MPlus1)
        } else if s[0] == 'D' as u8 && s[1] == '-' as u8 && s[2] == '1' as u8 {
            Some(Comp::DMinus1)
        } else if s[0] == 'A' as u8 && s[1] == '-' as u8 && s[2] == '1' as u8 {
            Some(Comp::AMinus1)
        } else if s[0] == 'M' as u8 && s[1] == '-' as u8 && s[2] == '1' as u8 {
            Some(Comp::MMinus1)
        } else if s[0] == 'D' as u8 && s[1] == '+' as u8 && s[2] == 'A' as u8 {
            Some(Comp::DPlusA)
        } else if s[0] == 'D' as u8 && s[1] == '-' as u8 && s[2] == 'A' as u8 {
            Some(Comp::DMinusA)
        } else if s[0] == 'A' as u8 && s[1] == '-' as u8 && s[2] == 'D' as u8 {
            Some(Comp::AMinusD)
        } else if s[0] == 'D' as u8 && s[1] == '&' as u8 && s[2] == 'A' as u8 {
            Some(Comp::DAndA)
        } else if s[0] == 'D' as u8 && s[1] == '|' as u8 && s[2] == 'A' as u8 {
            Some(Comp::DOrA)
        } else if s[0] == 'D' as u8 && s[1] == '+' as u8 && s[2] == 'M' as u8 {
            Some(Comp::DPlusM)
        } else if s[0] == 'D' as u8 && s[1] == '-' as u8 && s[2] == 'M' as u8 {
            Some(Comp::DMinusM)
        } else if s[0] == 'M' as u8 && s[1] == '-' as u8 && s[2] == 'D' as u8 {
            Some(Comp::MMinusD)
        } else if s[0] == 'D' as u8 && s[1] == '&' as u8 && s[2] == 'M' as u8 {
            Some(Comp::DAndM)
        } else if s[0] == 'D' as u8 && s[1] == '|' as u8 && s[2] == 'M' as u8 {
            Some(Comp::DOrM)
        } else {
            None
        }
    } else {
        None
    }
}

fn vec1(a: u8) -> (r: Vec<u8>)
    ensures
        r@ == seq![a],
{
    let mut v: Vec<u8> = Vec::new();
    v.push(a);
    proof {
        assert(v@ =~= seq![a]);
    }
    v
}

fn vec2(a: u8, b: u8) -> (r: Vec<u8>)
    ensures
        r@ == seq![a, b],
{
    let mut v: Vec<u8> = Vec::new();
    v.push(a);
    v.push(b);
    proof {
        assert(v@ =~= seq![a, b]);
    }
    v
}

fn vec3(a: u8, b: u8, c: u8) -> (r: Vec<u8>)
    ensures
        r@ == seq![a, b, c],
{
    let mut v: Vec<u8> = Vec::new();
    v.push(a);
    v.push(b);
    v.push(c);
    proof {
        assert(v@ =~= seq![a, b, c]);
    }
    v
}

impl Dest {
    /// The mnemonic of this destination, as bytes.
    pub fn text(self) -> (r: Vec<u8>)
        ensures
            r@ == dest_text(self),
    {
        match self {
            Dest::Null => Vec::new(),
            Dest::M => vec1('M' as u8),
            Dest::D => vec1('D' as u8),
            Dest::MD => vec2('M' as u8, 'D' as u8),
            Dest::A => vec1('A' as u8),
            Dest::AM => vec2('A' as u8, 'M' as u8),
            Dest::AD => vec2('A' as u8, 'D' as u8),
            Dest::AMD => vec3('A' as u8, 'M' as u8, 'D' as u8),
        }
    }

    /// The destination named by a text, if any.
    pub fn parse(s: &[u8]) -> (r: Option<Dest>)
        ensures
            r == dest_of_text(s@),
    {
        if s.len() == 1 {
            if s[0] == 'M' as u8 {
                Some(Dest::M)
            } else if s[0] == 'D' as u8 {
                Some(Dest::D)
            } else if s[0] == 'A' as u8 {
                Some(Dest::A)
            } else {
                None
            }
        } else if s.len() == 2 {
            if s[0] == 'M' as u8 && s[1] == 'D' as u8 {
                Some(Dest::MD)
            } else if s[0] == 'A' as u8 && s[1] == 'M' as u8 {
                Some(Dest::AM)
            } else if s[0] == 'A' as u8 && s[1] == 'D' as u8 {
                Some(Dest::AD)
            } else {
                None
            }
        } else if s.len() == 3 && s[0] == 'A' as u8 && s[1] == 'M' as u8 && s[2] == 'D' as u8 {
            Some(Dest::AMD)
        } else {
            None
        }
    }
}

impl Jump {
    /// The mnemonic of this jump, as bytes.
    pub fn text(self) -> (r: Vec<u8>)
        ensures
            r@ == jump_text(self),
    {
        match self {
            Jump::Null => Vec::new(),
            Jump::JGT => vec3('J' as u8, 'G' as u8, 'T' as u8),
            Jump::JEQ => vec3('J' as u8, 'E' as u8, 'Q' as u8),
            Jump::JGE => vec3('J' as u8, 'G' as u8, 'E' as u8),
            Jump::JLT => vec3('J' as u8, 'L' as u8, 'T' as u8),
            Jump::JNE => vec3('J' as u8, 'N' as u8, 'E' as u8),
            Jump::JLE => vec3('J' as u8, 'L' as u8, 'E' as u8),
            Jump::JMP => vec3('J' as u8, 'M' as u8, 'P' as u8),
        }
    }

    /// The jump named by a text, if any.
    pub fn parse(s: &[u8]) -> (r: Option<Jump>)
        ensures
            r == jump_of_text(s@),
    {
        if s.len() == 3 && s[0] == 'J' as u8 {
            if s[1] == 'G' as u8 && s[2] == 'T' as u8 {
                Some(Jump::JGT)
            } else if s[1] == 'E' as u8 && s[2] == 'Q' as u8 {
                Some(Jump::JEQ)
            } else if s[1] == 'G' as u8 && s[2] == 'E' as u8 {
                Some(Jump::JGE)
            } else if s[1] == 'L' as u8 && s[2] == 'T' as u8 {
                Some(Jump::JLT)
            } else if s[1] == 'N' as u8 && s[2] == 'E' as u8 {
                Some(Jump::JNE)
            } else if s[1] == 'L' as u8 && s[2] == 'E' as u8 {
                Some(Jump::JLE)
            } else if s[1] == 'M' as u8 && s[2] == 'P' as u8 {
                Some(Jump::JMP)
            } else {
                None
            }
        } else {
            None
        }
    }
}

impl Comp {
    /// The mnemonic of this computation, as bytes.
    pub fn text(self) -> (r: Vec<u8>)
        ensures
            r@ == comp_text(self),
    {
        match self {
            Comp::Zero => vec1('0' as u8),
            Comp::One => vec1('1' as u8),
            Comp::NegOne => vec2('-' as u8, '1' as u8),
            Comp::D => vec1('D' as u8),
            Comp::A => vec1('A' as u8),
            Comp::NotD => vec2('!' as u8, 'D' as u8),
            Comp::NotA => vec2('!' as u8, 'A' as u8),
            Comp::NegD => vec2('-' as u8, 'D' as u8),
            Comp::NegA => vec2('-' as u8, 'A' as u8),
            Comp::DPlus1 => vec3('D' as u8, '+' as u8, '1' as u8),
            Comp::APlus1 => vec3('A' as u8, '+' as u8, '1' as u8),
            Comp::DMinus1 => vec3('D' as u8, '-' as u8, '1' as u8),
            Comp::AMinus1 => vec3('A' as u8, '-' as u8, '1' as u8),
            Comp::DPlusA => vec3('D' as u8, '+' as u8, 'A' as u8),
            Comp::DMinusA => vec3('D' as u8, '-' as u8, 'A' as u8),
            Comp::AMinusD => vec3('A' as u8, '-' as u8, 'D' as u8),
            Comp::DAndA => vec3('D' as u8, '&' as u8, 'A' as u8),
            Comp::DOrA => vec3('D' as u8, '|' as u8, 'A' as u8),
            Comp::M => vec1('M' as u8),
            Comp::NotM => vec2('!' as u8, 'M' as u8),
            Comp::NegM => vec2('-' as u8, 'M' as u8),
            Comp::MPlus1 => vec3('M' as u8, '+' as u8, '1' as u8),
            Comp::MMinus1 => vec3('M' as u8, '-' as u8, '1' as u8),
            Comp::DPlusM => vec3('D' as u8, '+' as u8, 'M' as u8),
            Comp::DMinusM => vec3('D' as u8, '-' as u8, 'M' as u8),
            Comp::MMinusD => vec3('M' as u8, '-' as u8, 'D' as u8),
            Comp::DAndM => vec3('D' as u8, '&' as u8, 'M' as u8),
            Comp::DOrM => vec3('D' as u8, '|' as u8, 'M' as u8),
        }
    }

    /// The computation named by a text, if any.
    pub fn parse(s: &[u8]) -> (r: Option<Comp>)
        ensures
            r == comp_of_text(s@),
    {
        if s.len() == 1 {
            if s[0] == '0' as u8 {
                Some(Comp::Zero)
            } else if s[0] == '1' as u8 {
                Some(Comp::One)
            } else if s[0] == 'D' as u8 {
                Some(Comp::D)
            } else if s[0] == 'A' as u8 {
                Some(Comp::A)
            } else if s[0] == 'M' as u8 {
                Some(Comp::M)
            } else {
                None
            }
        } else if s.len() == 2 {
            if s[0] == '-' as u8 && s[1] == '1' as u8 {
                Some(Comp::NegOne)
            } else if s[0] == '!' as u8 && s[1] == 'D' as u8 {
                Some(Comp::NotD)
            } else if s[0] == '!' as u8 && s[1] == 'A' as u8 {
                Some(Comp::NotA)
            } else if s[0] == '!' as u8 && s[1] == 'M' as u8 {
                Some(Comp::NotM)
            } else if s[0] == '-' as u8 && s[1] == 'D' as u8 {
                Some(Comp::NegD)
            } else if s[0] == '-' as u8 && s[1] == 'A' as u8 {
                Some(Comp::NegA)
            } else if s[0] == '-' as u8 && s[1] == 'M' as u8 {
                Some(Comp::NegM)
            } else {
                None
            }
        } else if s.len() == 3 {
            if s[0] == 'D' as u8 && s[1] == '+' as u8 && s[2] == '1' as u8 {
                Some(Comp::DPlus1)
            } else if s[0] == 'A' as u8 && s[1] == '+' as u8 && s[2] == '1' as u8 {
                Some(Comp::APlus1)
            } else if s[0] == 'M' as u8 && s[1] == '+' as u8 && s[2] == '1' as u8 {
                Some(Comp::MPlus1)
            } else if s[0] == 'D' as u8 && s[1] == '-' as u8 && s[2] == '1' as u8 {
                Some(Comp::DMinus1)
            } else if s[0] == 'A' as u8 && s[1] == '-' as u8 && s[2] == '1' as u8 {
                Some(Comp::AMinus1)
            } else if s[0] == 'M' as u8 && s[1] == '-' as u8 && s[2] == '1' as u8 {
                Some(Comp::MMinus1)
            } else if s[0] == 'D' as u8 && s[1] == '+' as u8 && s[2] == 'A' as u8 {
                Some(Comp::DPlusA)
            } else if s[0] == 'D' as u8 && s[1] == '-' as u8 && s[2] == 'A' as u8 {
                Some(Comp::DMinusA)
            } else if s[0] == 'A' as u8 && s[1] == '-' as u8 && s[2] == 'D' as u8 {
                Some(Comp::AMinusD)
            } else if s[0] == 'D' as u8 && s[1] == '&' as u8 && s[2] == 'A' as u8 {
                Some(Comp::DAndA)
            } else if s[0] == 'D' as u8 && s[1] == '|' as u8 && s[2] == 'A' as u8 {
                Some(Comp::DOrA)
            } else if s[0] == 'D' as u8 && s[1] == '+' as u8 && s[2] == 'M' as u8 {
                Some(Comp::DPlusM)
            } else if s[0] == 'D' as u8 && s[1] == '-' as u8 && s[2] == 'M' as u8 {
                Some(Comp::DMinusM)
            } else if s[0] == 'M' as u8 && s[1] == '-' as u8 && s[2] == 'D' as u8 {
                Some(Comp::MMinusD)
            } else if s[0] == 'D' as u8 && s[1] == '&' as u8 && s[2] == 'M' as u8 {
                Some(Comp::DAndM)
            } else if s[0] == 'D' as u8 && s[1] == '|' as u8 && s[2] == 'M' as u8 {
                Some(Comp::DOrM)
            } else {
                None
            }
        } else {
            None
        }
    }
}

/// Reading back the mnemonic of a destination names the destination.
pub proof fn lemma_dest_text_inverse(d: Dest)
    ensures
        d != Dest::Null ==> dest_of_text(dest_text(d)) == Some(d),
{
}

/// Reading back the mnemonic of a jump names the jump.
pub proof fn lemma_jump_text_inverse(j: Jump)
    ensures
        j != Jump::Null ==> jump_of_text(jump_text(j)) == Some(j),
{
}

/// Reading back the mnemonic of a computation names the computation.
pub proof fn lemma_comp_text_inverse(c: Comp)
    ensures
        comp_of_text(comp_text(c)) == Some(c),
{
}

/// The canonical text of an instruction: `dest=` when a destination is
/// present, the computation, then `;jump` when a jump is present.
pub open spec fn inst_text(i: Inst) -> Seq<u8> {
    (if i.dest != Dest::Null {
        dest_text(i.dest) + seq!['=' as u8]
    } else {
        Seq::empty()
    }) + comp_text(i.comp) + (if i.jump != Jump::Null {
        seq![';' as u8] + jump_text(i.jump)
    } else {
        Seq::empty()
    })
}

impl Inst {
    /// Render the instruction as canonical assembly text.
    pub fn text(&self) -> (r: Vec<u8>)
        ensures
            r@ == inst_text(*self),
    {
        let mut v: Vec<u8> = Vec::new();
        if !self.dest.is_null() {
            let mut d = self.dest.text();
            v.append(&mut d);
            v.push('=' as u8);
        }
        let mut c = self.comp.text();
        v.append(&mut c);
        if !self.jump.is_null() {
            v.push(';' as u8);
            let mut j = self.jump.text();
            v.append(&mut j);
        }
        proof {
            assert(v@ =~= inst_text(*self));
        }
        v
    }
}

/// The outcome of reading an instruction out of a text, stated over
/// mathematical sequences.
pub enum ReadInst {
    /// An instruction was read, consuming the given number of bytes.
    Read(Inst, int),
    /// The text holds neither a destination nor a jump.
    MissingDestJump,
    /// The text before `=` names no destination.
    UnknownDest(Seq<u8>),
    /// The text names no computation.
    UnknownComp(Seq<u8>),
    /// The text after `;` names no jump.
    UnknownJump(Seq<u8>),
}

/// The view of an exec reading result in [`ReadInst`] terms.
pub open spec fn read_inst_abs(r: Result<(Inst, usize), InstErr>) -> ReadInst {
    match r {
        Ok((i, used)) => ReadInst::Read(i, used as int),
        Err(InstErr::MissingDestJump) => ReadInst::MissingDestJump,
        Err(InstErr::UnknownDest(t)) => ReadInst::UnknownDest(t@),
        Err(InstErr::UnknownComp(t)) => ReadInst::UnknownComp(t@),
        Err(InstErr::UnknownJump(t)) => ReadInst::UnknownJump(t@),
    }
}

/// The instruction or error packed from the three fields once reading
/// is done.
pub open spec fn read_done_spec(dest: Dest, comp: Comp, jump: Jump, used: int) -> ReadInst {
    if dest == Dest::Null && jump == Jump::Null {
        ReadInst::MissingDestJump
    } else {
        ReadInst::Read(Inst { dest, comp, jump }, used)
    }
}

/// Reading the computation and an optional `;jump` from `start`, with
/// the destination already read.
pub open spec fn read_comp_spec(s: Seq<u8>, dest: Dest, start: int) -> ReadInst
    recommends
        0 <= start <= s.len(),
{
    let e2 = crate::scan::chunk_end(s, start);
    match comp_of_text(s.subrange(start, e2)) {
        None => ReadInst::UnknownComp(s.subrange(start, e2)),
        Some(comp) => if e2 < s.len() && s[e2] == ';' as u8 {
            let e3 = crate::scan::chunk_end(s, e2 + 1);
            match jump_of_text(s.subrange(e2 + 1, e3)) {
                None => ReadInst::UnknownJump(s.subrange(e2 + 1, e3)),
                Some(jump) => read_done_spec(dest, comp, jump, e3),
            }
        } else {
            read_done_spec(dest, comp, Jump::Null, e2)
        },
    }
}

/// Reading a full `dest=comp;jump` instruction from the front of a
/// text: a first chunk followed by `=` must name a destination, the
/// next chunk the computation, and a chunk after `;` the jump.
pub open spec fn read_inst_spec(s: Seq<u8>) -> ReadInst {
    let e1 = crate::scan::chunk_end(s, 0);
    if e1 < s.len() && s[e1] == '=' as u8 {
        match dest_of_text(s.subrange(0, e1)) {
            None => ReadInst::UnknownDest(s.subrange(0, e1)),
            Some(d) => read_comp_spec(s, d, e1 + 1),
        }
    } else {
        read_comp_spec(s, Dest::Null, 0)
    }
}

impl Inst {
    /// Read an instruction from the front of a buffer; on success the
    /// number of consumed bytes is returned beside it.
    pub fn read_from(buf: &[u8]) -> (r: Result<(Inst, usize), InstErr>)
        ensures
            read_inst_abs(r) == read_inst_spec(buf@),
    {
        let e1 = crate::scan::read_chunk(buf, 0);
        let (dest, comp_start) = if e1 < buf.len() && buf[e1] == '=' as u8 {
            let t = crate::scan::chunk_vec(buf, 0, e1);
            match Dest::parse(t.as_slice()) {
                Some(d) => (d, e1 + 1),
                None => {
                    return Err(InstErr::UnknownDest(t));
                },
            }
        } else {
            (Dest::Null, 0)
        };
        let e2 = crate::scan::read_chunk(buf, comp_start);
        let ct = crate::scan::chunk_vec(buf, comp_start, e2);
        let comp = match Comp::parse(ct.as_slice()) {
            Some(c) => c,
            None => {
                return Err(InstErr::UnknownComp(ct));
            },
        };
        if e2 < buf.len() && buf[e2] == ';' as u8 {
            let e3 = crate::scan::read_chunk(buf, e2 + 1);
            let jt = crate::scan::chunk_vec(buf, e2 + 1, e3);
            match Jump::parse(jt.as_slice()) {
                Some(j) => match Inst::new(dest, comp, j) {
                    Ok(i) => Ok((i, e3)),
                    Err(e) => Err(e),
                },
                None => Err(InstErr::UnknownJump(jt)),
            }
        } else {
            match Inst::new(dest, comp, Jump::Null) {
                Ok(i) => Ok((i, e2)),
                Err(e) => Err(e),
            }
        }
    }
}


} // verus!
