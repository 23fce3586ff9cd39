use has::Loc;

#[test]
fn with_newline() {
    let mut p = Loc::default();
    p.inc(b'a');
    assert_eq!(p, Loc::new(1, 1));
    p.inc(b'\n');
    assert_eq!(p, Loc::new(2, 0));
    p.inc(b'b');
    assert_eq!(p, Loc::new(2, 1));
    p.inc(b'c');
    assert_eq!(p, Loc::new(2, 2));
}

#[test]
fn without_newline() {
    let mut p = Loc::default();
    p.inc(b'a');
    assert_eq!(p, Loc::new(1, 1));
    p.inc(b'b');
    assert_eq!(p, Loc::new(1, 2));
    p.inc(b'c');
    assert_eq!(p, Loc::new(1, 3));
}
