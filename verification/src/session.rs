//! Rendered transcript lines and the text rules used when a session
//! transcript is shown: role coloring and error detection in tool
//! output.

use vstd::prelude::*;

use crate::strutil::{contains_seq, contains_sub, lower_of, lowercase, upper_of, uppercase};

verus! {

/// One displayed line of a session transcript.
#[derive(Debug, Clone)]
pub struct SessionLine {
    pub header: String,
    pub body: String,
    pub is_error: bool,
}

/// The ANSI-colored form of a message role: user is cyan and
/// upper-cased, assistant is green, anything else is left bare.
pub open spec fn color_role_spec(role: Seq<char>) -> Seq<char> {
    if role == "user"@ {
        "\u{1b}[36m"@ + upper_of(role) + "\u{1b}[0m"@
    } else if role == "assistant"@ {
        "\u{1b}[32m"@ + role + "\u{1b}[0m"@
    } else {
        role
    }
}

/// Colors a role name for display.
pub fn color_role(role: &str) -> (r: String)
    ensures
        r@ == color_role_spec(role@),
{
    if crate::strutil::str_eq(role, "user") {
        let mut r = String::new();
        r.append("\u{1b}[36m");
        let up = uppercase(role);
        r.append(up.as_str());
        r.append("\u{1b}[0m");
        proof {
            assert(r@ =~= "\u{1b}[36m"@ + upper_of(role@) + "\u{1b}[0m"@);
        }
        r
    } else if crate::strutil::str_eq(role, "assistant") {
        let mut r = String::new();
        r.append("\u{1b}[32m");
        r.append(role);
        r.append("\u{1b}[0m");
        proof {
            assert(r@ =~= "\u{1b}[32m"@ + role@ + "\u{1b}[0m"@);
        }
        r
    } else {
        role.to_owned()
    }
}

/// Whether a tool result reads as a failure: its lower-cased text
/// holds "error", "failed" or "exception".
pub open spec fn is_error_text(output: Seq<char>) -> bool {
    ||| contains_seq(lower_of(output), "error"@)
    ||| contains_seq(lower_of(output), "failed"@)
    ||| contains_seq(lower_of(output), "exception"@)
}

/// Classifies a tool result's text as an error or not.
pub fn is_error_result(output: &str) -> (r: bool)
    ensures
        r == is_error_text(output@),
{
    let lower = lowercase(output);
    contains_sub(lower.as_str(), "error") || contains_sub(lower.as_str(), "failed")
        || contains_sub(lower.as_str(), "exception")
}

} // verus!
