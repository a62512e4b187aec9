//! The todo list that drives the implementation loop.

use crate::text::{contains, contains_text, to_chars};
use vstd::prelude::*;

verus! {

/// Whether a todo list is worked off: it holds a checked box, `- [x]` or
/// `- [X]`, and no unchecked box, `- [ ]`.
pub open spec fn is_complete(content: Seq<char>) -> bool {
    &&& !contains(content, "- [ ]"@)
    &&& (contains(content, "- [x]"@) || contains(content, "- [X]"@))
}

/// Whether every item of the todo list in `content` is checked and there is
/// at least one.
pub fn all_todos_complete(content: &str) -> (complete: bool)
    ensures
        complete == is_complete(content@),
{
    let chars = to_chars(content);
    if contains_text(&chars, &to_chars("- [ ]")) {
        return false;
    }
    contains_text(&chars, &to_chars("- [x]")) || contains_text(&chars, &to_chars("- [X]"))
}

} // verus!
