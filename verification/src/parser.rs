//! The grammar parser: one text line to one typed command.
//!
//! `SUMMON <key> AS <value...>` stores, `CONJURE <key>` looks up,
//! `DISPEL <key>` removes; anything else is `Unknown`.  Keywords and the
//! ` AS ` separator are matched ASCII case-insensitively; the value loses
//! surrounding whitespace and any surrounding `"` characters.

use vstd::prelude::*;
use crate::enums::{CommandModel, MagicCommand};
use crate::text::{
    ci_find_from, ci_find_in, ci_matches_at, ci_starts_with, lemma_ci_find_from_some,
    str_ci_starts_with, trim_char_spec, trim_matching, trim_spec, trim_str,
};
use vstd::string::*;

verus! {

/// The command a protocol line denotes.
pub open spec fn parse_line(input: Seq<char>) -> CommandModel {
    let t = trim_spec(input);
    if ci_starts_with(t, "SUMMON "@) {
        let rest = trim_spec(t.skip("SUMMON "@.len() as int));
        match ci_find_from(rest, " AS "@, 0) {
            Some(i) => CommandModel::Summon {
                key: trim_spec(rest.take(i)),
                value: trim_char_spec(trim_spec(rest.skip(i + " AS "@.len())), '"'),
            },
            None => CommandModel::Unknown,
        }
    } else if ci_starts_with(t, "CONJURE "@) {
        CommandModel::Conjure { key: trim_spec(t.skip("CONJURE "@.len() as int)) }
    } else if ci_starts_with(t, "DISPEL "@) {
        CommandModel::Dispel { key: trim_spec(t.skip("DISPEL "@.len() as int)) }
    } else {
        CommandModel::Unknown
    }
}

/// Parse one text line into a typed command.
pub fn parse_magic_command(input: &str) -> (cmd: MagicCommand)
    ensures
        cmd@ == parse_line(input@),
{
    let t: &str = trim_str(input);
    let n: usize = t.unicode_len();
    if str_ci_starts_with(t, "SUMMON ") {
        proof {
            reveal_strlit("SUMMON ");
            assert(t@.skip(7) =~= t@.subrange(7, n as int));
        }
        let rest: &str = trim_str(t.substring_char(7, n));
        let m: usize = rest.unicode_len();
        match ci_find_in(rest, " AS ") {
            Some(i) => {
                proof {
                    reveal_strlit(" AS ");
                    lemma_ci_find_from_some(rest@, (" AS ")@, 0);
                    assert(ci_matches_at(rest@, (" AS ")@, i as int));
                    assert(rest@.take(i as int) =~= rest@.subrange(0, i as int));
                    assert(rest@.skip(i as int + 4) =~= rest@.subrange(i as int + 4, m as int));
                }
                let key: String = trim_str(rest.substring_char(0, i)).to_owned();
                let value: String = trim_matching(
                    trim_str(rest.substring_char(i + 4, m)),
                    '"',
                ).to_owned();
                MagicCommand::Summon { key, value }
            },
            None => MagicCommand::Unknown,
        }
    } else if str_ci_starts_with(t, "CONJURE ") {
        proof {
            reveal_strlit("CONJURE ");
            assert(t@.skip(8) =~= t@.subrange(8, n as int));
        }
        let key: String = trim_str(t.substring_char(8, n)).to_owned();
        MagicCommand::Conjure { key }
    } else if str_ci_starts_with(t, "DISPEL ") {
        proof {
            reveal_strlit("DISPEL ");
            assert(t@.skip(7) =~= t@.subrange(7, n as int));
        }
        let key: String = trim_str(t.substring_char(7, n)).to_owned();
        MagicCommand::Dispel { key }
    } else {
        MagicCommand::Unknown
    }
}

} // verus!
