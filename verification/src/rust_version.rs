//! The compiler versions for which a benchmark expectation holds, as they
//! are written in expectation files: a comparison sign and a version.

use vstd::prelude::*;
use vstd::string::StringExecFns;
use crate::runs_on::trimmed_start;
use crate::text::{
    chars_of, has_prefix, skip_spaces, slice_of, starts_with_text, string_of, trim, trimmed,
};

verus! {

/// How a version is compared.
#[derive(Debug, Clone, Copy, PartialEq, Eq, Structural)]
pub enum Cmp {
    Eq,
    Ne,
    Lt,
    Le,
    Ge,
    Gt,
}

/// A comparison and the version to compare with.
pub type VersionComparator = (Cmp, String);

/// The sign that is written for a comparison.
pub open spec fn sign_of(how: Cmp) -> Seq<char> {
    match how {
        Cmp::Eq => "="@,
        Cmp::Ne => "!="@,
        Cmp::Lt => "<"@,
        Cmp::Le => "<="@,
        Cmp::Ge => ">="@,
        Cmp::Gt => ">"@,
    }
}

/// The comparison that a text starts with and how long its sign is. Of two
/// signs that both fit, the longer one is taken.
pub open spec fn leading_sign(value: Seq<char>) -> Option<(Cmp, int)> {
    if has_prefix(value, ">="@) {
        Some((Cmp::Ge, 2))
    } else if has_prefix(value, ">"@) {
        Some((Cmp::Gt, 1))
    } else if has_prefix(value, "<="@) {
        Some((Cmp::Le, 2))
    } else if has_prefix(value, "<"@) {
        Some((Cmp::Lt, 1))
    } else if has_prefix(value, "="@) {
        Some((Cmp::Eq, 1))
    } else if has_prefix(value, "!="@) {
        Some((Cmp::Ne, 2))
    } else {
        None
    }
}

/// What a text says: a comparison sign after leading white space, then the
/// version without surrounding white space. None where no sign leads.
pub open spec fn comparator_of(text: Seq<char>) -> Option<(Cmp, Seq<char>)> {
    let value = trimmed(text);
    match leading_sign(value) {
        Some((how, n)) => if n <= value.len() {
            Some((how, trimmed_start(value.subrange(n, value.len() as int))))
        } else {
            None
        },
        None => None,
    }
}

/// The two elements that are written for a value: the sign and the version.
/// Nothing is written for no value.
pub fn serialize(input: &Option<VersionComparator>) -> (r: Option<(String, String)>)
    ensures
        match *input {
            Some((how, version)) => r matches Some((sign, name)) && sign@ == sign_of(how) && name@
                == version@,
            None => r.is_none(),
        },
{
    match input {
        Some(value) => {
            let sign = match value.0 {
                Cmp::Eq => "=",
                Cmp::Ne => "!=",
                Cmp::Lt => "<",
                Cmp::Le => "<=",
                Cmp::Ge => ">=",
                Cmp::Gt => ">",
            };
            Some((String::from_str(sign), value.1.clone()))
        },
        None => None,
    }
}

fn read_sign(text: &Vec<char>) -> (r: Option<(Cmp, usize)>)
    ensures
        match r {
            Some((how, n)) => leading_sign(text@) == Some((how, n as int)) && n <= text@.len(),
            None => leading_sign(text@).is_none(),
        },
{
    proof {
        reveal_strlit(">=");
        reveal_strlit(">");
        reveal_strlit("<=");
        reveal_strlit("<");
        reveal_strlit("=");
        reveal_strlit("!=");
    }
    if starts_with_text(text, ">=") {
        Some((Cmp::Ge, 2))
    } else if starts_with_text(text, ">") {
        Some((Cmp::Gt, 1))
    } else if starts_with_text(text, "<=") {
        Some((Cmp::Le, 2))
    } else if starts_with_text(text, "<") {
        Some((Cmp::Lt, 1))
    } else if starts_with_text(text, "=") {
        Some((Cmp::Eq, 1))
    } else if starts_with_text(text, "!=") {
        Some((Cmp::Ne, 2))
    } else {
        None
    }
}

/// Reads a value from its text; a text without a leading comparison sign
/// is rejected.
pub fn deserialize(value: &str) -> (r: Result<Option<VersionComparator>, String>)
    ensures
        match r {
            Ok(Some((how, version))) => comparator_of(value@) == Some((how, version@)),
            Ok(None) => false,
            Err(message) => comparator_of(value@).is_none() && message@ == "invalid input"@,
        },
{
    let chars = chars_of(value);
    let text = trim(&chars);
    match read_sign(&text) {
        Some((how, n)) => {
            let rest = slice_of(&text, n, text.len());
            let start = skip_spaces(&rest, 0);
            let version = slice_of(&rest, start, rest.len());
            Ok(Some((how, string_of(&version))))
        },
        None => Err(String::from_str("invalid input")),
    }
}

} // verus!
