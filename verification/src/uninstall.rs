//! The answer to the uninstall prompt.
use crate::text::{ascii_lower_seq, ascii_lower_vec, chars_of, eq_str, trim, trim_chars};
use vstd::prelude::*;

verus! {

/// What `parse_choice` returns: `1` = everything (binary + config),
/// `2` = only the binary, `None` = not understood.
pub open spec fn choice_of(input: Seq<char>) -> Option<u8> {
    let t = ascii_lower_seq(trim(input));
    if t == ""@ || t == "2"@ || t == "only"@ || t == "binary"@ {
        Some(2u8)
    } else if t == "1"@ || t == "everything"@ || t == "all"@ || t == "full"@ || t == "wipe"@ {
        Some(1u8)
    } else {
        None
    }
}

/// Parse the uninstall choice. `1` = everything (binary + config),
/// `2` = only the binary. Empty input defaults to 2 — config deletion is
/// never implicit.
pub fn parse_choice(input: &str) -> (r: Option<u8>)
    ensures
        r == choice_of(input@),
{
    let cs = chars_of(input);
    let t0 = trim_chars(cs.as_slice());
    let t = ascii_lower_vec(t0.as_slice());
    let t = t.as_slice();
    if eq_str(t, "") || eq_str(t, "2") || eq_str(t, "only") || eq_str(t, "binary") {
        Some(2)
    } else if eq_str(t, "1") || eq_str(t, "everything") || eq_str(t, "all") || eq_str(t, "full")
        || eq_str(t, "wipe") {
        Some(1)
    } else {
        None
    }
}

/// Config deletion is never implicit: blank input keeps the configuration.
pub proof fn law_blank_choice_keeps_config(input: Seq<char>)
    requires
        trim(input).len() == 0,
    ensures
        choice_of(input) == Some(2u8),
{
    reveal_strlit("");
    assert(ascii_lower_seq(trim(input)) =~= ""@);
}

/// Only an explicit answer wipes the configuration: choice 1 comes from one
/// of the words `1`, `everything`, `all`, `full`, `wipe` (any ASCII case,
/// surrounding whitespace ignored) and from nothing else.
pub proof fn law_wipe_needs_explicit_answer(input: Seq<char>)
    ensures
        choice_of(input) == Some(1u8) ==> {
            let t = ascii_lower_seq(trim(input));
            t == "1"@ || t == "everything"@ || t == "all"@ || t == "full"@ || t == "wipe"@
        },
{
}

} // verus!
