use has::code::DisErr;
use has::inst::Dest;
use has::parse::ParseErr;
use has::prog::Prog;
use has::sym::{is_predefined_symbol, Symbol};
use has::Loc;

fn lines(prog: &Prog) -> Vec<Vec<u8>> {
    prog.to_source()
}

#[test]
fn at_five_then_assign() {
    let mut prog = Prog::from_source(b"@5\nD=A").unwrap();
    let words = prog.words().unwrap();
    assert_eq!(words, vec![0x0005, 0xEC10]);
}

#[test]
fn forward_label_reference() {
    let mut prog = Prog::from_source(b"@FOO\nD=A;JMP\n(FOO)").unwrap();
    assert_eq!(prog.insts().len(), 2);
    assert_eq!(prog.symtable().len(), 1);
    let info = prog.symtable().get(b"FOO").unwrap();
    assert_eq!(info.addr, 2);
    let words = prog.words().unwrap();
    assert_eq!(words[0], 0x0002);
    assert_eq!(words.len(), 2);
}

#[test]
fn variable_allocation_is_stable() {
    let mut prog = Prog::from_source(b"@i\n@i").unwrap();
    let words = prog.words().unwrap();
    assert_eq!(words, vec![0x0010, 0x0010]);
    let info = prog.symtable().get(b"i").unwrap();
    assert_eq!(info.addr, 16);
}

#[test]
fn assign_with_jump() {
    let mut prog = Prog::from_source(b"D=A;JGT").unwrap();
    let words = prog.words().unwrap();
    assert_eq!(words, vec![0b111_0110000_010_001]);
    assert_eq!(words, vec![0xEC11]);
}

#[test]
fn assemble_then_disassemble_keeps_text() {
    let mut prog = Prog::from_source(b"M=M+1").unwrap();
    let bin = prog.bin_enc().unwrap();
    let back = Prog::from_bin(&bin).unwrap();
    assert_eq!(lines(&back), vec![b"M=M+1".to_vec()]);
}

#[test]
fn dest_without_comp_error() {
    let err = Prog::from_source(b"D=").unwrap_err();
    assert_eq!(err, ParseErr::DestWithoutComp(Loc::new(1, 2), Dest::D));
}

#[test]
fn duplicate_label_error() {
    let err = Prog::from_source(b"(L)\n(L)").unwrap_err();
    match err {
        ParseErr::DuplicateLabel(here, name, prior) => {
            assert_eq!(here, Loc::new(2, 1));
            assert_eq!(name, b"L".to_vec());
            assert_eq!(prior.pos, Loc::new(1, 1));
            assert_eq!(prior.addr, 0);
        },
        other => panic!("unexpected error: {:?}", other),
    }
}

#[test]
fn bintext_width_error_from_prog() {
    let err = Prog::from_bintext(b"111011000001000\n").unwrap_err();
    assert_eq!(err, DisErr::BintextWidth(1));
}

#[test]
fn round_trip_source() {
    // comments and whitespace normalize away; a second pass is identity
    let src = b"// add one\n@7\n  M=0;JGT\nM=D+1;JGT\n";
    let mut prog = Prog::from_source(src).unwrap();
    let once: Vec<Vec<u8>> = lines(&prog);
    let flat: Vec<u8> = once.iter().flat_map(|l| {
        let mut l = l.clone();
        l.push(b'\n');
        l
    }).collect();
    let prog2 = Prog::from_source(&flat).unwrap();
    let twice = lines(&prog2);
    assert_eq!(once, twice);
    assert_eq!(once, vec![b"@7".to_vec(), b"M=0;JGT".to_vec(), b"M=D+1;JGT".to_vec()]);
    let _ = prog.words().unwrap();
}

#[test]
fn bintext_of_binary_matches_direct() {
    let src = b"@5\nD=A;JMP\n@19";
    let mut a = Prog::from_source(src).unwrap();
    let direct = a.bintext_enc().unwrap();
    let mut b = Prog::from_source(src).unwrap();
    let bin = b.bin_enc().unwrap();
    let mut c = Prog::from_bin(&bin).unwrap();
    let via_binary = c.bintext_enc().unwrap();
    assert_eq!(direct, via_binary);
}

#[test]
fn labels_are_transparent_to_instructions() {
    let mut plain = Prog::from_source(b"@5\nD=A\n0;JMP").unwrap();
    let mut labelled = Prog::from_source(b"(BEGIN)\n@5\n(MID)\nD=A\n0;JMP\n(END)").unwrap();
    assert_eq!(plain.insts().len(), labelled.insts().len());
    assert_eq!(plain.words().unwrap(), labelled.words().unwrap());
}

#[test]
fn first_variable_gets_sixteen() {
    let mut prog = Prog::from_source(b"@first\n@second\n@first").unwrap();
    let words = prog.words().unwrap();
    assert_eq!(words, vec![16, 17, 16]);
    assert_eq!(prog.symtable().get(b"first").unwrap().addr, 16);
    assert_eq!(prog.symtable().get(b"second").unwrap().addr, 17);
}

#[test]
fn predefined_symbols_resolve() {
    let mut prog = Prog::from_source(b"@SP\n@R0\n@LCL\n@THIS\n@THAT\n@R15\n@SCREEN\n@KBD").unwrap();
    let words = prog.words().unwrap();
    assert_eq!(words, vec![0, 0, 1, 3, 4, 15, 16384, 24576]);
    // predefined names never enter the symbol table
    assert_eq!(prog.symtable().len(), 0);
}

#[test]
fn disassemble_binary_words() {
    // an A-word and a C-word, big-endian
    let bytes = [0x00, 0x05, 0xEC, 0x10];
    let prog = Prog::from_bin(&bytes).unwrap();
    assert_eq!(lines(&prog), vec![b"@5".to_vec(), b"D=A".to_vec()]);
    assert_eq!(prog.symtable().len(), 0);
}

#[test]
fn disassemble_rejects_bad_words() {
    // top bit set but the tag bits are not all ones
    let bytes = [0x80, 0x00];
    assert_eq!(Prog::from_bin(&bytes).unwrap_err(), DisErr::InvalidWord(0x8000));
    // a C-word whose computation bits name nothing
    let bytes = [0xFF, 0xC0];
    assert!(matches!(Prog::from_bin(&bytes).unwrap_err(), DisErr::Decode(_)));
}

#[test]
fn bintext_end_to_end() {
    let mut prog = Prog::from_source(b"@i\nM=M+1").unwrap();
    let text = prog.bintext_enc().unwrap();
    let back = Prog::from_bintext(&text).unwrap();
    assert_eq!(lines(&back), vec![b"@16".to_vec(), b"M=M+1".to_vec()]);
}

#[test]
fn symbols_by_name() {
    assert_eq!(Symbol::try_from(b""), None);
    assert_eq!(Symbol::try_from(b"Foo"), None);
    assert_eq!(Symbol::try_from(b"SP"), Some(Symbol::SP));
    assert_eq!(Symbol::try_from(b"KBD"), Some(Symbol::KBD));
    assert_eq!(Symbol::SP.code(), 0x0000);
    assert_eq!(Symbol::R0.code(), 0x0000);
    assert_eq!(Symbol::THAT.code(), 0x0004);
    assert_eq!(Symbol::R4.code(), 0x0004);
    assert_eq!(Symbol::SCREEN.code(), 0x4000);
    assert_eq!(Symbol::KBD.code(), 0x6000);
    assert_eq!(Symbol::SCREEN.text(), b"SCREEN".to_vec());
    assert_eq!(is_predefined_symbol(b"R10"), Some(10));
    assert_eq!(is_predefined_symbol(b"r10"), None);
}
