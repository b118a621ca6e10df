//! The target on which a benchmark expectation holds, as it is written in
//! expectation files: `target` or `!target`.

use vstd::prelude::*;
use crate::text::{
    chars_of, first_non_space, has_prefix, skip_spaces, slice_of, string_of, trim, trimmed,
};

verus! {

/// Whether the expectation holds on the target or everywhere but there, and
/// the target.
pub type RunsOn = (bool, String);

/// The text without leading white space.
pub open spec fn trimmed_start(s: Seq<char>) -> Seq<char> {
    s.subrange(first_non_space(s, 0), s.len() as int)
}

/// The mark that stands for `on`: nothing, or `!` for "not on".
pub open spec fn mark_of(on: bool) -> Seq<char> {
    if on {
        Seq::empty()
    } else {
        seq!['!']
    }
}

/// What a text says: `!` after leading white space negates, and the target
/// is what remains without surrounding white space.
pub open spec fn runs_on_of(text: Seq<char>) -> (bool, Seq<char>) {
    let value = trimmed(text);
    if has_prefix(value, seq!['!']) {
        (false, trimmed_start(value.subrange(1, value.len() as int)))
    } else {
        (true, value)
    }
}

/// The two elements that are written for a value: the mark and the target.
/// Nothing is written for no value.
pub fn serialize(input: &Option<RunsOn>) -> (r: Option<(String, String)>)
    ensures
        match *input {
            Some((on, target)) => r matches Some((mark, name)) && mark@ == mark_of(on) && name@
                == target@,
            None => r.is_none(),
        },
{
    match input {
        Some(value) => {
            let mark: Vec<char> = if value.0 {
                Vec::new()
            } else {
                vec!['!']
            };
            assert(mark@ =~= mark_of(value.0));
            Some((string_of(&mark), value.1.clone()))
        },
        None => None,
    }
}

/// Reads a value from its text.
pub fn deserialize(value: &str) -> (r: Option<RunsOn>)
    ensures
        r matches Some((on, target)) && (on, target@) == runs_on_of(value@),
{
    let chars = chars_of(value);
    let text = trim(&chars);
    if text.len() > 0 && text[0] == '!' {
        assert(text@.subrange(0, 1) =~= seq!['!']);
        let rest = slice_of(&text, 1, text.len());
        let start = skip_spaces(&rest, 0);
        let target = slice_of(&rest, start, rest.len());
        Some((false, string_of(&target)))
    } else {
        assert(!has_prefix(text@, seq!['!'])) by {
            if has_prefix(text@, seq!['!']) {
                assert(text@.subrange(0, 1)[0] == text@[0]);
            }
        }
        Some((true, string_of(&text)))
    }
}

} // verus!
