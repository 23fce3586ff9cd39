use has::code::{bin_to_words, bintext_to_words, words_to_bin, words_to_bintext, DisErr};
use has::inst::{Comp, DecodeErr, Dest, Inst, InstErr, Jump};

#[test]
fn dest_bit_order() {
    // the three destination bits are A, D, M from high to low
    assert_eq!(Dest::Null.code(), 0b000);
    assert_eq!(Dest::M.code(), 0b001);
    assert_eq!(Dest::D.code(), 0b010);
    assert_eq!(Dest::MD.code(), 0b011);
    assert_eq!(Dest::A.code(), 0b100);
    assert_eq!(Dest::AM.code(), 0b101);
    assert_eq!(Dest::AD.code(), 0b110);
    assert_eq!(Dest::AMD.code(), 0b111);
}

#[test]
fn jump_bit_order() {
    assert_eq!(Jump::Null.code(), 0b000);
    assert_eq!(Jump::JGT.code(), 0b001);
    assert_eq!(Jump::JEQ.code(), 0b010);
    assert_eq!(Jump::JGE.code(), 0b011);
    assert_eq!(Jump::JLT.code(), 0b100);
    assert_eq!(Jump::JNE.code(), 0b101);
    assert_eq!(Jump::JLE.code(), 0b110);
    assert_eq!(Jump::JMP.code(), 0b111);
}

#[test]
fn inst_word_layout() {
    let inst = Inst::new(Dest::D, Comp::DPlus1, Jump::Null).unwrap();
    assert_eq!(inst.code(), 0b111_0011111_010_000);
    let inst = Inst::new(Dest::Null, Comp::DPlus1, Jump::JEQ).unwrap();
    assert_eq!(inst.code(), 0b111_0011111_000_010);
    let inst = Inst::new(Dest::D, Comp::DPlus1, Jump::JEQ).unwrap();
    assert_eq!(inst.code(), 0b111_0011111_010_010);
    let inst = Inst::new(Dest::D, Comp::A, Jump::JGT).unwrap();
    assert_eq!(inst.code(), 0b111_0110000_010_001);
    assert_eq!(inst.code(), 0xEC11);
}

#[test]
fn inst_decode_inverse() {
    let inst = Inst::new(Dest::MD, Comp::DPlusA, Jump::JGT).unwrap();
    assert_eq!(Inst::decode(inst.code()), Ok(inst));
    let expected = Inst::new(Dest::D, Comp::DPlus1, Jump::Null).unwrap();
    assert_eq!(Inst::decode(0b111_0011111_010_000), Ok(expected));
}

#[test]
fn inst_decode_bad_comp() {
    assert_eq!(Inst::decode(0b111_1111111_000_000), Err(DecodeErr::InvalidComp(0b1111111)));
}

#[test]
fn inst_new_rejects_noop() {
    assert_eq!(Inst::new(Dest::Null, Comp::Zero, Jump::Null), Err(InstErr::MissingDestJump));
    let inst = Inst::new(Dest::M, Comp::One, Jump::Null).unwrap();
    assert_eq!(inst.dest(), Dest::M);
    assert_eq!(inst.comp(), Comp::One);
    assert_eq!(inst.jump(), Jump::Null);
}

#[test]
fn inst_text_shapes() {
    let inst = Inst::new(Dest::MD, Comp::DPlusA, Jump::JGT).unwrap();
    assert_eq!(inst.text(), b"MD=D+A;JGT".to_vec());
    let inst = Inst::new(Dest::M, Comp::MPlus1, Jump::Null).unwrap();
    assert_eq!(inst.text(), b"M=M+1".to_vec());
    let inst = Inst::new(Dest::Null, Comp::Zero, Jump::JMP).unwrap();
    assert_eq!(inst.text(), b"0;JMP".to_vec());
}

#[test]
fn inst_read_from() {
    let inst = Inst::new(Dest::D, Comp::DPlusA, Jump::JGT).unwrap();
    assert_eq!(Inst::read_from(b"D=D+A;JGT"), Ok((inst, 9)));
    let inst = Inst::new(Dest::Null, Comp::DPlusA, Jump::JGT).unwrap();
    assert_eq!(Inst::read_from(b"D+A;JGT"), Ok((inst, 7)));
    let inst = Inst::new(Dest::D, Comp::DPlusA, Jump::Null).unwrap();
    assert_eq!(Inst::read_from(b"D=D+A"), Ok((inst, 5)));
    assert_eq!(Inst::read_from(b"D|A"), Err(InstErr::MissingDestJump));
    assert_eq!(Inst::read_from(b"D|A;"), Err(InstErr::UnknownJump(b"".to_vec())));
    assert_eq!(Inst::read_from(b"D|A;JJJ"), Err(InstErr::UnknownJump(b"JJJ".to_vec())));
    assert_eq!(Inst::read_from(b""), Err(InstErr::UnknownComp(b"".to_vec())));
}

#[test]
fn mnemonic_round_trips() {
    // every computation reads back from its own text
    let comps = [
        Comp::Zero, Comp::One, Comp::NegOne, Comp::D, Comp::A, Comp::NotD, Comp::NotA,
        Comp::NegD, Comp::NegA, Comp::DPlus1, Comp::APlus1, Comp::DMinus1, Comp::AMinus1,
        Comp::DPlusA, Comp::DMinusA, Comp::AMinusD, Comp::DAndA, Comp::DOrA, Comp::M,
        Comp::NotM, Comp::NegM, Comp::MPlus1, Comp::MMinus1, Comp::DPlusM, Comp::DMinusM,
        Comp::MMinusD, Comp::DAndM, Comp::DOrM,
    ];
    for c in comps {
        assert_eq!(Comp::parse(&c.text()), Some(c));
        assert_eq!(Comp::decode(c.code()), Some(c));
    }
}

#[test]
fn binary_round_trip() {
    let ws = vec![0x0005u16, 0xE3D0, 0xFFFF, 0x0000, 0x8001];
    let bytes = words_to_bin(&ws);
    assert_eq!(bytes, vec![0x00, 0x05, 0xE3, 0xD0, 0xFF, 0xFF, 0x00, 0x00, 0x80, 0x01]);
    assert_eq!(bin_to_words(&bytes), Ok(ws));
}

#[test]
fn binary_truncated() {
    assert_eq!(bin_to_words(&[0x00]), Err(DisErr::TruncatedBinary));
    assert_eq!(bin_to_words(&[0x00, 0x05, 0xE3]), Err(DisErr::TruncatedBinary));
}

#[test]
fn bintext_round_trip() {
    let ws = vec![0x0005u16, 0xE3D0];
    let text = words_to_bintext(&ws);
    assert_eq!(text, b"0000000000000101\n1110001111010000\n".to_vec());
    assert_eq!(bintext_to_words(&text), Ok(ws));
}

#[test]
fn bintext_accepts_crlf_and_missing_final_newline() {
    assert_eq!(bintext_to_words(b"0000000000000101\r\n"), Ok(vec![5u16]));
    assert_eq!(bintext_to_words(b"0000000000000101"), Ok(vec![5u16]));
}

#[test]
fn bintext_width_error() {
    // fifteen characters on the first line
    assert_eq!(bintext_to_words(b"111011000001000\n"), Err(DisErr::BintextWidth(1)));
    // seventeen characters
    assert_eq!(bintext_to_words(b"11101100000100001\n"), Err(DisErr::BintextWidth(1)));
    // a blank line is rejected
    assert_eq!(
        bintext_to_words(b"0000000000000101\n\n0000000000000101\n"),
        Err(DisErr::BintextWidth(2))
    );
}

#[test]
fn bintext_char_error() {
    assert_eq!(bintext_to_words(b"00000000000001x1\n"), Err(DisErr::BintextChar(1)));
    assert_eq!(bintext_to_words(b"0000000000000101x\n"), Err(DisErr::BintextChar(1)));
}
