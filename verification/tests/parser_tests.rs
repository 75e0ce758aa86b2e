use magic::enums::MagicCommand;
use magic::parser::parse_magic_command;

#[test]
fn parses_summon_with_quoted_value() {
    match parse_magic_command("SUMMON wand AS \"oak core\"") {
        MagicCommand::Summon { key, value } => {
            assert_eq!(key, "wand");
            assert_eq!(value, "oak core");
        }
        _ => panic!("expected Summon"),
    }
}

#[test]
fn parses_summon_keyword_case_insensitively() {
    match parse_magic_command("summon wand AS oak") {
        MagicCommand::Summon { key, value } => {
            assert_eq!(key, "wand");
            assert_eq!(value, "oak");
        }
        _ => panic!("expected Summon"),
    }
}

#[test]
fn summon_separator_is_case_insensitive() {
    match parse_magic_command("summon wand as oak") {
        MagicCommand::Summon { key, value } => {
            assert_eq!(key, "wand");
            assert_eq!(value, "oak");
        }
        _ => panic!("expected Summon"),
    }
    match parse_magic_command("SUMMON wand aS oak") {
        MagicCommand::Summon { key, value } => {
            assert_eq!(key, "wand");
            assert_eq!(value, "oak");
        }
        _ => panic!("expected Summon"),
    }
}

#[test]
fn summon_without_separator_is_unknown() {
    assert!(matches!(
        parse_magic_command("SUMMON wand oak"),
        MagicCommand::Unknown
    ));
}

#[test]
fn parses_conjure_and_trims_key() {
    match parse_magic_command("  CONJURE   wand  ") {
        MagicCommand::Conjure { key } => assert_eq!(key, "wand"),
        _ => panic!("expected Conjure"),
    }
}

#[test]
fn parses_dispel() {
    match parse_magic_command("dispel wand") {
        MagicCommand::Dispel { key } => assert_eq!(key, "wand"),
        _ => panic!("expected Dispel"),
    }
}

#[test]
fn empty_and_garbage_lines_are_unknown() {
    assert!(matches!(parse_magic_command(""), MagicCommand::Unknown));
    assert!(matches!(parse_magic_command("   "), MagicCommand::Unknown));
    assert!(matches!(
        parse_magic_command("ABRACADABRA now"),
        MagicCommand::Unknown
    ));
}
