use libre99::front::{operands, string_operand};
use libre99::lex::parse;

#[test]
fn string_operand_unescapes_doubled_quotes() {
    assert_eq!(string_operand("'HI'").unwrap(), "HI");
    assert_eq!(string_operand("  'A''B'  ").unwrap(), "A'B");
    assert!(string_operand("HI").is_err()); // no quotes
    assert!(string_operand("'un'balanced'").is_err()); // lone inner quote
}

#[test]
fn a_quoted_text_reads_back_as_itself() {
    // Quoting doubles each inner quote; reading it back restores the text.
    assert_eq!(string_operand("'IT''S'").unwrap(), "IT'S");
    assert_eq!(string_operand("''''''").unwrap(), "''");
    assert_eq!(string_operand("''").unwrap(), "");
}

#[test]
fn operands_split_the_operand_field() {
    let l = &parse("   MOV @TAB(R1),R2")[0];
    assert_eq!(operands(l), vec!["@TAB(R1)", "R2"]);
    let l = &parse("   RTWP")[0];
    assert!(operands(l).is_empty());
}
