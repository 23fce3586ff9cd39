use has::inst::{Comp, Dest, Jump};
use has::lex::LexErr;
use has::parse::{Parse, ParseErr, Stmt};
use has::sym::{SymInfo, SymTable};
use has::Loc;

fn parser(src: &str) -> Parse {
    Parse::new(src.as_bytes().to_vec(), SymTable::new())
}

#[test]
fn empty() {
    let mut parse = parser("");
    assert_eq!(parse.next(), None);
}

#[test]
fn spaces() {
    let mut parse = parser("  \t\n   \r\n \n");
    assert_eq!(parse.next(), None);
}

#[test]
fn comments() {
    let mut parse = parser("// a comment\n  // another\n//\n");
    assert_eq!(parse.next(), None);
}

#[test]
fn num_address() {
    let mut parse = parser("// n\n\n    @8192\n\n@123\n\n\n\n    @556\n");
    assert_eq!(parse.next(), Some(Ok(Stmt::Addr(Loc::new(3, 5), 8192))));
    assert_eq!(parse.next(), Some(Ok(Stmt::Addr(Loc::new(5, 1), 123))));
    assert_eq!(parse.next(), Some(Ok(Stmt::Addr(Loc::new(9, 5), 556))));
    assert_eq!(parse.next(), None);
}

#[test]
fn name_address() {
    let mut parse = parser("// n\n\n    @FOO\n\n@BAR\n\n\n\n    @ARG\n");
    assert_eq!(
        parse.next(),
        Some(Ok(Stmt::UnresolvedAddr(Loc::new(3, 5), b"FOO".to_vec())))
    );
    assert_eq!(
        parse.next(),
        Some(Ok(Stmt::UnresolvedAddr(Loc::new(5, 1), b"BAR".to_vec())))
    );
    assert_eq!(parse.next(), Some(Ok(Stmt::Addr(Loc::new(9, 5), 2))));
    assert_eq!(parse.next(), None);
}

#[test]
fn labels() {
    let mut parse = parser("// l\n\n    @FOO\n\n(X)\n\n\n\n    @X\n\n@BAR\n\n\n\n@LAB0\n");
    assert_eq!(
        parse.next(),
        Some(Ok(Stmt::UnresolvedAddr(Loc::new(3, 5), b"FOO".to_vec())))
    );
    assert_eq!(parse.next(), Some(Ok(Stmt::Addr(Loc::new(9, 5), 1))));
    assert_eq!(
        parse.next(),
        Some(Ok(Stmt::UnresolvedAddr(Loc::new(11, 1), b"BAR".to_vec())))
    );
    assert_eq!(
        parse.next(),
        Some(Ok(Stmt::UnresolvedAddr(Loc::new(15, 1), b"LAB0".to_vec())))
    );
    assert_eq!(parse.next(), None);
}

#[test]
fn assignments() {
    let mut parse = parser("A=M-1\nAM=D|A\nAMD=A+1\n");
    assert_eq!(
        parse.next(),
        Some(Ok(Stmt::Assign(Loc::new(1, 1), Dest::A, Loc::new(1, 3), Comp::MMinus1)))
    );
    assert_eq!(
        parse.next(),
        Some(Ok(Stmt::Assign(Loc::new(2, 1), Dest::AM, Loc::new(2, 4), Comp::DOrA)))
    );
    assert_eq!(
        parse.next(),
        Some(Ok(Stmt::Assign(Loc::new(3, 1), Dest::AMD, Loc::new(3, 5), Comp::APlus1)))
    );
    assert_eq!(parse.next(), None);
}

#[test]
fn branches() {
    let mut parse = parser("M-1;JEQ\nD|A;JNE\nA+1;JMP\n");
    assert_eq!(
        parse.next(),
        Some(Ok(Stmt::Branch(Loc::new(1, 1), Comp::MMinus1, Loc::new(1, 5), Jump::JEQ)))
    );
    assert_eq!(
        parse.next(),
        Some(Ok(Stmt::Branch(Loc::new(2, 1), Comp::DOrA, Loc::new(2, 5), Jump::JNE)))
    );
    assert_eq!(
        parse.next(),
        Some(Ok(Stmt::Branch(Loc::new(3, 1), Comp::APlus1, Loc::new(3, 5), Jump::JMP)))
    );
    assert_eq!(parse.next(), None);
}

#[test]
fn instructions() {
    let mut parse = parser("A=M-1;JEQ\nAM=D|A;JNE\nAMD=A+1;JMP\n");
    assert_eq!(
        parse.next(),
        Some(Ok(Stmt::Inst(
            Loc::new(1, 1),
            Dest::A,
            Loc::new(1, 3),
            Comp::MMinus1,
            Loc::new(1, 7),
            Jump::JEQ
        )))
    );
    assert_eq!(
        parse.next(),
        Some(Ok(Stmt::Inst(
            Loc::new(2, 1),
            Dest::AM,
            Loc::new(2, 4),
            Comp::DOrA,
            Loc::new(2, 8),
            Jump::JNE
        )))
    );
    assert_eq!(
        parse.next(),
        Some(Ok(Stmt::Inst(
            Loc::new(3, 1),
            Dest::AMD,
            Loc::new(3, 5),
            Comp::APlus1,
            Loc::new(3, 9),
            Jump::JMP
        )))
    );
    assert_eq!(parse.next(), None);
}

#[test]
fn label_table_binding() {
    let mut parse = parser("@1\n(LOOP)\nD=A\n");
    assert_eq!(parse.next(), Some(Ok(Stmt::Addr(Loc::new(1, 1), 1))));
    assert_eq!(
        parse.next(),
        Some(Ok(Stmt::Assign(Loc::new(3, 1), Dest::D, Loc::new(3, 3), Comp::A)))
    );
    assert_eq!(parse.next(), None);
    let info = parse.st.get(b"LOOP").unwrap();
    assert_eq!(info, SymInfo::new(Loc::new(2, 1), 1));
}

#[test]
fn dest_without_comp_at_eof() {
    let mut parse = parser("D=");
    assert_eq!(
        parse.next(),
        Some(Err(ParseErr::DestWithoutComp(Loc::new(1, 2), Dest::D)))
    );
    assert_eq!(parse.next(), None);
}

#[test]
fn duplicate_label() {
    let mut parse = parser("(L)\n(L)");
    assert_eq!(
        parse.next(),
        Some(Err(ParseErr::DuplicateLabel(
            Loc::new(2, 1),
            b"L".to_vec(),
            SymInfo::new(Loc::new(1, 1), 0)
        )))
    );
}

#[test]
fn comp_without_jump() {
    let mut parse = parser("D+1");
    assert!(matches!(
        parse.next(),
        Some(Err(ParseErr::CompWithoutJump(_, Comp::DPlus1)))
    ));
}

#[test]
fn freestanding_semicolon() {
    let mut parse = parser(";JGT");
    assert_eq!(
        parse.next(),
        Some(Err(ParseErr::FreestandingSemicolon(Loc::new(1, 1))))
    );
}

#[test]
fn lex_errors_surface() {
    let mut parse = parser("@32768");
    assert_eq!(
        parse.next(),
        Some(Err(ParseErr::Lex(LexErr::NumericOverflow(Loc::new(1, 2)))))
    );
    let mut parse = parser("(FOO");
    assert_eq!(
        parse.next(),
        Some(Err(ParseErr::Lex(LexErr::UnterminatedLabel(Loc::new(1, 1)))))
    );
    let mut parse = parser("*");
    assert_eq!(
        parse.next(),
        Some(Err(ParseErr::Lex(LexErr::InvalidByte(Loc::new(1, 1), b'*'))))
    );
    let mut parse = parser("XY=1");
    assert_eq!(
        parse.next(),
        Some(Err(ParseErr::Lex(LexErr::UnknownDest(Loc::new(1, 1), b"XY".to_vec()))))
    );
    let mut parse = parser("XYZW");
    assert_eq!(
        parse.next(),
        Some(Err(ParseErr::Lex(LexErr::UnknownComp(Loc::new(1, 1), b"XYZW".to_vec()))))
    );
    let mut parse = parser("D;XXX");
    assert_eq!(
        parse.next(),
        Some(Err(ParseErr::Lex(LexErr::UnknownJump(Loc::new(1, 3), b"XXX".to_vec()))))
    );
}

#[test]
fn max_numeric_address() {
    let mut parse = parser("@32767");
    assert_eq!(parse.next(), Some(Ok(Stmt::Addr(Loc::new(1, 1), 32767))));
    assert_eq!(parse.next(), None);
}
