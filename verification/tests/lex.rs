use libre99::lex::{parse, split_operands};

#[test]
fn fields_and_comments() {
    let l = &parse("START  LIMI 0           ; go")[0];
    assert_eq!(l.label.as_deref(), Some("START"));
    assert_eq!(l.mnemonic.as_deref(), Some("LIMI"));
    assert_eq!(l.operands.as_deref(), Some("0"));

    let l = &parse("       MOVB *R1+,@VDPWA")[0];
    assert_eq!(l.label, None);
    assert_eq!(l.operands.as_deref(), Some("*R1+,@VDPWA"));

    assert!(parse("* a comment")[0].mnemonic.is_none());
    assert_eq!(parse("LABEL:")[0].label.as_deref(), Some("LABEL"));
}

#[test]
fn operand_split_respects_quotes_and_parens() {
    assert_eq!(split_operands(">00,>80"), vec![">00", ">80"]);
    assert_eq!(split_operands("@TAB(R1),R2"), vec!["@TAB(R1)", "R2"]);
    assert_eq!(split_operands("'A',>20"), vec!["'A'", ">20"]);
}

#[test]
fn lines_are_numbered_and_crlf_endings_dropped() {
    let ls = parse("A EQU 1\r\n\r\n   NOP ; x\n");
    assert_eq!(ls.len(), 3);
    assert_eq!(ls[0].num, 1);
    assert_eq!(ls[0].operands.as_deref(), Some("1"));
    assert!(ls[1].mnemonic.is_none());
    assert_eq!(ls[2].num, 3);
    assert_eq!(ls[2].mnemonic.as_deref(), Some("NOP"));
    assert_eq!(ls[2].operands, None);
}

#[test]
fn a_quoted_operand_keeps_its_spaces_and_semicolons() {
    let l = &parse("   TEXT 'A; B' comment")[0];
    assert_eq!(l.operands.as_deref(), Some("'A; B'"));
}
