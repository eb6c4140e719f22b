//! Diagnostics: one line of text for each problem found in the source.
use vstd::prelude::*;
use vstd::string::StringExecFns;
use crate::text::{decimal, push_decimal};

verus! {

/// The text of a diagnostic: the line, where on it, and the message.
pub open spec fn diagnostic(line: nat, location: Seq<char>, message: Seq<char>) -> Seq<char> {
    "[line "@ + decimal(line) + "] Error"@ + location + ": "@ + message
}

/// The diagnostic for `message` at `location` on `line`.
pub fn report(line: usize, location: &str, message: &str) -> (r: String)
    ensures
        r@ == diagnostic(line as nat, location@, message@),
{
    let mut r = String::new();
    r.append("[line ");
    push_decimal(&mut r, line);
    r.append("] Error");
    r.append(location);
    r.append(": ");
    r.append(message);
    assert(r@ =~= diagnostic(line as nat, location@, message@));
    r
}

/// The diagnostic for `message` on `line`, with no location.
pub fn error(line: usize, message: String) -> (r: String)
    ensures
        r@ == diagnostic(line as nat, Seq::empty(), message@),
{
    let r = report(line, "", message.as_str());
    proof {
        reveal_strlit("");
        assert(""@ =~= Seq::<char>::empty());
    }
    r
}

} // verus!
