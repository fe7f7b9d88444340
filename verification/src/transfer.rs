//! The textual transfer wrapping of an image: an optional metadata prefix that
//! ends at the first comma, then the payload.

use vstd::prelude::*;
use vstd::std_specs::iter::IteratorSpec;

verus! {

/// Whether `at` is the position of the first comma in `text`.
pub open spec fn is_first_comma(text: Seq<char>, at: int) -> bool {
    &&& 0 <= at < text.len()
    &&& text[at] == ','
    &&& forall|j: int| 0 <= j < at ==> text[j] != ','
}

/// The payload of a transfer text: what follows the first comma if there is a
/// comma, else the whole text.
pub open spec fn payload_of(text: Seq<char>) -> Seq<char> {
    if exists|at: int| is_first_comma(text, at) {
        text.subrange((choose|at: int| is_first_comma(text, at)) + 1, text.len() as int)
    } else {
        text
    }
}

/// Finds the first comma of `text`, counting in characters.
pub fn find_comma(text: &str) -> (found: Option<usize>)
    ensures
        found matches Some(at) ==> is_first_comma(text@, at as int),
        found is None ==> forall|j: int| 0 <= j < text@.len() ==> text@[j] != ',',
{
    let len: usize = text.unicode_len();
    let mut chars = text.chars();
    let mut at: usize = 0;
    loop
        invariant
            at <= text@.len(),
            len == text@.len(),
            chars.remaining() == text@.skip(at as int),
            forall|j: int| 0 <= j < at ==> text@[j] != ',',
        decreases text@.len() - at,
    {
        match chars.next() {
            None => {
                return None;
            },
            Some(c) => {
                if c == ',' {
                    return Some(at);
                }
                assert(text@.skip(at as int).drop_first() =~= text@.skip(at + 1));
                at = at + 1;
            },
        }
    }
}

/// Takes the payload out of a transfer text.
pub fn strip_prefix(text: &str) -> (payload: &str)
    ensures
        payload@ == payload_of(text@),
{
    match find_comma(text) {
        None => {
            assert forall|at: int| !is_first_comma(text@, at) by {}
            text
        },
        Some(at) => {
            let len: usize = text.unicode_len();
            proof {
                let chosen = choose|k: int| is_first_comma(text@, k);
                assert(is_first_comma(text@, at as int));
                assert(chosen == at) by {
                    if chosen < at {
                    } else if at < chosen {
                    }
                }
            }
            text.substring_char(at + 1, len)
        },
    }
}

} // verus!
