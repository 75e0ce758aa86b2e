//! The command executor: applies a typed command to the shared store and
//! renders the textual reply, plus the whitespace-token command reader used
//! by the direct (non-reflect) service modes.

use vstd::prelude::*;
use crate::enums::{CommandModel, MagicCommand};
use crate::store::MagicStore;
use crate::text::{ci_eq_seq, join_with, join_from, split_tokens, split_ws, str_ci_eq};
use vstd::string::*;

verus! {

/// The store contents after `cmd` is applied.
pub open spec fn store_after(
    m: Map<Seq<char>, Seq<char>>,
    cmd: CommandModel,
) -> Map<Seq<char>, Seq<char>> {
    match cmd {
        CommandModel::Summon { key, value } => m.insert(key, value),
        CommandModel::Dispel { key } => m.remove(key),
        _ => m,
    }
}

/// The reply `cmd` renders against store contents `m`.
pub open spec fn reply_of(m: Map<Seq<char>, Seq<char>>, cmd: CommandModel) -> Seq<char> {
    match cmd {
        CommandModel::Summon { key: _, value } => "Summoned: "@ + value,
        CommandModel::Conjure { key } => if m.contains_key(key) {
            m[key]
        } else {
            "unknown incantation: "@ + key
        },
        CommandModel::Dispel { key } => "Dispelled: "@ + key,
        CommandModel::SendTo { .. } => "Unknown command."@,
        CommandModel::Unknown => "Unknown command."@,
    }
}

/// Apply one typed command to the store and render the reply.  `SendTo`
/// belongs to the reflect controller; the executor answers it as it answers
/// any unrecognised command and touches nothing.
pub fn execute_command(store: &mut MagicStore, cmd: MagicCommand) -> (reply: String)
    requires
        old(store).wf(),
    ensures
        final (store).wf(),
        final (store)@ == store_after(old(store)@, cmd@),
        reply@ == reply_of(old(store)@, cmd@),
{
    match cmd {
        MagicCommand::Summon { key, value } => {
            let mut reply = String::from_str("Summoned: ");
            reply.append(value.as_str());
            store.insert(key, value);
            reply
        },
        MagicCommand::Conjure { key } => match store.get(&key) {
            Some(v) => v.clone(),
            None => {
                let mut reply = String::from_str("unknown incantation: ");
                reply.append(key.as_str());
                reply
            },
        },
        MagicCommand::Dispel { key } => {
            store.remove(&key);
            let mut reply = String::from_str("Dispelled: ");
            reply.append(key.as_str());
            reply
        },
        MagicCommand::SendTo { .. } => String::from_str("Unknown command."),
        MagicCommand::Unknown => String::from_str("Unknown command."),
    }
}

/// The command a whitespace-tokenised line denotes: `SUMMON k AS v...` with
/// the value tokens re-joined by single spaces, `CONJURE k`, `DISPEL k`,
/// anything else `Unknown`.
pub open spec fn tokens_command(line: Seq<char>) -> CommandModel {
    let parts = split_ws(line);
    if parts.len() >= 4 && ci_eq_seq(parts[0], "SUMMON"@) && ci_eq_seq(parts[2], "AS"@) {
        CommandModel::Summon { key: parts[1], value: join_with(parts.skip(3), " "@) }
    } else if parts.len() >= 2 && ci_eq_seq(parts[0], "CONJURE"@) {
        CommandModel::Conjure { key: parts[1] }
    } else if parts.len() >= 2 && ci_eq_seq(parts[0], "DISPEL"@) {
        CommandModel::Dispel { key: parts[1] }
    } else {
        CommandModel::Unknown
    }
}

/// Read `command` by whitespace tokens as the direct service modes do, apply
/// it to the store, and render the reply.
pub fn executor_command_string_parser(store: &mut MagicStore, command: String) -> (reply: String)
    requires
        old(store).wf(),
    ensures
        final (store).wf(),
        final (store)@ == store_after(old(store)@, tokens_command(command@)),
        reply@ == reply_of(old(store)@, tokens_command(command@)),
{
    let parts: Vec<String> = split_tokens(command.as_str());
    let cmd: MagicCommand = if parts.len() >= 4 && str_ci_eq(parts[0].as_str(), "SUMMON")
        && str_ci_eq(parts[2].as_str(), "AS") {
        let key: String = parts[1].clone();
        let value: String = join_from(&parts, 3, " ");
        MagicCommand::Summon { key, value }
    } else if parts.len() >= 2 && str_ci_eq(parts[0].as_str(), "CONJURE") {
        MagicCommand::Conjure { key: parts[1].clone() }
    } else if parts.len() >= 2 && str_ci_eq(parts[0].as_str(), "DISPEL") {
        MagicCommand::Dispel { key: parts[1].clone() }
    } else {
        MagicCommand::Unknown
    };
    proof {
        assert(cmd@ == tokens_command(command@));
    }
    execute_command(store, cmd)
}

/// Conjure after Summon of the same key returns the summoned value.
pub proof fn lemma_conjure_after_summon(
    m: Map<Seq<char>, Seq<char>>,
    key: Seq<char>,
    value: Seq<char>,
)
    ensures
        reply_of(
            store_after(m, CommandModel::Summon { key, value }),
            CommandModel::Conjure { key },
        ) == value,
{
}

/// Conjure after Dispel of the same key reports an unknown incantation.
pub proof fn lemma_conjure_after_dispel(m: Map<Seq<char>, Seq<char>>, key: Seq<char>)
    ensures
        reply_of(store_after(m, CommandModel::Dispel { key }), CommandModel::Conjure { key })
            == "unknown incantation: "@ + key,
{
}

/// Conjure of a never-summoned key reports an unknown incantation.
pub proof fn lemma_conjure_never_summoned(m: Map<Seq<char>, Seq<char>>, key: Seq<char>)
    requires
        !m.contains_key(key),
    ensures
        reply_of(m, CommandModel::Conjure { key }) == "unknown incantation: "@ + key,
{
}

/// Summon and Dispel of one key do not change what Conjure of a different
/// key answers.
pub proof fn lemma_disjoint_keys_untouched(
    m: Map<Seq<char>, Seq<char>>,
    key: Seq<char>,
    other: Seq<char>,
    value: Seq<char>,
)
    requires
        key != other,
    ensures
        reply_of(
            store_after(m, CommandModel::Summon { key: other, value }),
            CommandModel::Conjure { key },
        ) == reply_of(m, CommandModel::Conjure { key }),
        reply_of(
            store_after(m, CommandModel::Dispel { key: other }),
            CommandModel::Conjure { key },
        ) == reply_of(m, CommandModel::Conjure { key }),
{
}

/// Summon overwrites: after summoning `key` twice, Conjure answers the
/// second value, and the store is as if only the second Summon had run.
pub proof fn lemma_summon_overwrites(
    m: Map<Seq<char>, Seq<char>>,
    key: Seq<char>,
    first: Seq<char>,
    second: Seq<char>,
)
    ensures
        store_after(
            store_after(m, CommandModel::Summon { key, value: first }),
            CommandModel::Summon { key, value: second },
        ) == store_after(m, CommandModel::Summon { key, value: second }),
        reply_of(
            store_after(
                store_after(m, CommandModel::Summon { key, value: first }),
                CommandModel::Summon { key, value: second },
            ),
            CommandModel::Conjure { key },
        ) == second,
{
    assert(m.insert(key, first).insert(key, second) =~= m.insert(key, second));
}

/// Dispel of an absent key is a no-op on the store, not an error.
pub proof fn lemma_dispel_absent_noop(m: Map<Seq<char>, Seq<char>>, key: Seq<char>)
    requires
        !m.contains_key(key),
    ensures
        store_after(m, CommandModel::Dispel { key }) == m,
        reply_of(m, CommandModel::Dispel { key }) == "Dispelled: "@ + key,
{
    assert(m.remove(key) =~= m);
}

} // verus!
