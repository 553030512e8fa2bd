//! The decisions of rm(1): when to ask before removing a file, what to ask,
//! and what counts as a yes.
use vstd::prelude::*;

verus! {

/// Whether removing a file asks the user first: only for a read-only file,
/// and never when removal is forced.
pub fn must_confirm(force: bool, readonly: bool) -> (r: bool)
    ensures
        r == (!force && readonly),
{
    !force && readonly
}

/// The question asked before removing the read-only file `name`.
pub fn confirm_prompt(name: &str) -> (r: String)
    ensures
        r@ == "rm: remove readonly file "@ + name@ + "?"@,
{
    let mut msg = String::from_str("rm: remove readonly file ");
    msg.append(name);
    msg.append("?");
    msg
}

/// Whether the reply `resp` to a question is a yes: it starts with `y`.
pub fn is_yes(resp: &str) -> (r: bool)
    ensures
        r == (resp@.len() > 0 && resp@[0] == 'y'),
{
    resp.unicode_len() > 0 && resp.get_char(0) == 'y'
}

} // verus!
