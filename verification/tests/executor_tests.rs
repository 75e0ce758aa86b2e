use magic::enums::MagicCommand;
use magic::executor::{execute_command, executor_command_string_parser};
use magic::store::MagicStore;

#[test]
fn conjure_after_summon_returns_value() {
    let mut store = MagicStore::new();
    let reply = execute_command(
        &mut store,
        MagicCommand::Summon { key: "wand".to_string(), value: "oak".to_string() },
    );
    assert_eq!(reply, "Summoned: oak");
    let reply = execute_command(&mut store, MagicCommand::Conjure { key: "wand".to_string() });
    assert_eq!(reply, "oak");
}

#[test]
fn conjure_after_dispel_is_unknown() {
    let mut store = MagicStore::new();
    execute_command(
        &mut store,
        MagicCommand::Summon { key: "wand".to_string(), value: "oak".to_string() },
    );
    let reply = execute_command(&mut store, MagicCommand::Dispel { key: "wand".to_string() });
    assert_eq!(reply, "Dispelled: wand");
    let reply = execute_command(&mut store, MagicCommand::Conjure { key: "wand".to_string() });
    assert_eq!(reply, "unknown incantation: wand");
}

#[test]
fn conjure_never_summoned_is_unknown() {
    let mut store = MagicStore::new();
    let reply = execute_command(&mut store, MagicCommand::Conjure { key: "ghost".to_string() });
    assert_eq!(reply, "unknown incantation: ghost");
}

#[test]
fn summon_overwrites_previous_value() {
    let mut store = MagicStore::new();
    execute_command(
        &mut store,
        MagicCommand::Summon { key: "k".to_string(), value: "v1".to_string() },
    );
    execute_command(
        &mut store,
        MagicCommand::Summon { key: "k".to_string(), value: "v2".to_string() },
    );
    let reply = execute_command(&mut store, MagicCommand::Conjure { key: "k".to_string() });
    assert_eq!(reply, "v2");
}

#[test]
fn dispel_absent_key_is_no_op() {
    let mut store = MagicStore::new();
    execute_command(
        &mut store,
        MagicCommand::Summon { key: "kept".to_string(), value: "safe".to_string() },
    );
    let reply = execute_command(&mut store, MagicCommand::Dispel { key: "absent".to_string() });
    assert_eq!(reply, "Dispelled: absent");
    let reply = execute_command(&mut store, MagicCommand::Conjure { key: "kept".to_string() });
    assert_eq!(reply, "safe");
}

#[test]
fn disjoint_keys_do_not_interfere() {
    let mut store = MagicStore::new();
    execute_command(
        &mut store,
        MagicCommand::Summon { key: "a".to_string(), value: "1".to_string() },
    );
    execute_command(
        &mut store,
        MagicCommand::Summon { key: "b".to_string(), value: "2".to_string() },
    );
    execute_command(&mut store, MagicCommand::Dispel { key: "a".to_string() });
    assert_eq!(
        execute_command(&mut store, MagicCommand::Conjure { key: "b".to_string() }),
        "2"
    );
    assert_eq!(
        execute_command(&mut store, MagicCommand::Conjure { key: "a".to_string() }),
        "unknown incantation: a"
    );
}

#[test]
fn unknown_command_reply() {
    let mut store = MagicStore::new();
    let reply = execute_command(&mut store, MagicCommand::Unknown);
    assert_eq!(reply, "Unknown command.");
}

#[test]
fn send_to_is_not_an_executor_command() {
    let mut store = MagicStore::new();
    let reply = execute_command(
        &mut store,
        MagicCommand::SendTo { target: "a".to_string(), value: "b".to_string() },
    );
    assert_eq!(reply, "Unknown command.");
}

#[test]
fn token_parser_summon_joins_value_tokens() {
    let mut store = MagicStore::new();
    let reply = executor_command_string_parser(
        &mut store,
        "SUMMON wand AS oak and ash".to_string(),
    );
    assert_eq!(reply, "Summoned: oak and ash");
    let reply = executor_command_string_parser(&mut store, "CONJURE wand".to_string());
    assert_eq!(reply, "oak and ash");
}

#[test]
fn token_parser_keywords_are_case_insensitive() {
    let mut store = MagicStore::new();
    let reply = executor_command_string_parser(&mut store, "summon k as v".to_string());
    assert_eq!(reply, "Summoned: v");
    let reply = executor_command_string_parser(&mut store, "conjure k".to_string());
    assert_eq!(reply, "v");
    let reply = executor_command_string_parser(&mut store, "dispel k".to_string());
    assert_eq!(reply, "Dispelled: k");
    let reply = executor_command_string_parser(&mut store, "conjure k".to_string());
    assert_eq!(reply, "unknown incantation: k");
}

#[test]
fn token_parser_rejects_malformed_lines() {
    let mut store = MagicStore::new();
    assert_eq!(
        executor_command_string_parser(&mut store, "SUMMON wand oak".to_string()),
        "Unknown command."
    );
    assert_eq!(
        executor_command_string_parser(&mut store, "CONJURE".to_string()),
        "Unknown command."
    );
    assert_eq!(
        executor_command_string_parser(&mut store, "".to_string()),
        "Unknown command."
    );
}
