//! Small text utilities that the JSON tools share.

use vstd::prelude::*;
use vstd::std_specs::iter::IteratorSpec;
use vstd::string::StringExecFns;
use crate::casing::{char_is_whitespace, is_whitespace};

verus! {

/// `text` with every match of `pattern` replaced by `with`.
pub uninterp spec fn replaced(text: Seq<char>, pattern: Seq<char>, with: Seq<char>) -> Seq<char>;

/// Calls `str::replace`. Trusted: the result depends on the three texts
/// alone, and `replaced` names it.
#[verifier::external_body]
pub(crate) fn replace_all(text: &str, pattern: &str, with: &str) -> (out: String)
    ensures
        out@ == replaced(text@, pattern@, with@),
{
    text.replace(pattern, with)
}

/// A text of white space only; the empty text is blank.
pub open spec fn blank(text: Seq<char>) -> bool {
    forall|i: int| 0 <= i < text.len() ==> is_whitespace(#[trigger] text[i])
}

/// How an operation on text ends.
pub ghost enum TextOutcome {
    /// It succeeds with this text.
    Done(Seq<char>),
    /// It fails with this message.
    Refused(Seq<char>),
}

/// Whether `result` is what `outcome` says.
pub open spec fn tells(result: Result<String, String>, outcome: TextOutcome) -> bool {
    match outcome {
        TextOutcome::Done(text) => result matches Ok(t) && t@ == text,
        TextOutcome::Refused(message) => result matches Err(e) && e@ == message,
    }
}

/// Decides whether `text` is blank.
pub fn is_blank(text: &str) -> (b: bool)
    ensures
        b == blank(text@),
{
    let mut chars = text.chars();
    let ghost mut i: int = 0;
    loop
        invariant
            0 <= i <= text@.len(),
            chars.remaining() == text@.skip(i),
            forall|j: int| 0 <= j < i ==> is_whitespace(#[trigger] text@[j]),
        decreases text@.len() - i,
    {
        match chars.next() {
            None => {
                return true;
            },
            Some(c) => {
                assert(text@.skip(i).drop_first() =~= text@.skip(i + 1));
                if !char_is_whitespace(c) {
                    assert(!is_whitespace(text@[i]));
                    return false;
                }
                proof {
                    i = i + 1;
                }
            },
        }
    }
}

/// Puts the words that name a failed stage in front of its diagnostic.
pub fn failure(stage: &str, detail: &str) -> (message: String)
    ensures
        message@ == stage@ + detail@,
{
    String::from_str(stage).concat(detail)
}

/// Whether two texts are the same.
pub fn same_text(a: &str, b: &str) -> (same: bool)
    ensures
        same == (a@ == b@),
{
    let mut left = a.chars();
    let mut right = b.chars();
    let ghost mut i: int = 0;
    loop
        invariant
            0 <= i <= a@.len(),
            i <= b@.len(),
            left.remaining() == a@.skip(i),
            right.remaining() == b@.skip(i),
            a@.take(i) == b@.take(i),
        decreases a@.len() - i,
    {
        let x: Option<char> = left.next();
        let y: Option<char> = right.next();
        match (x, y) {
            (None, None) => {
                assert(a@.take(i) =~= a@);
                assert(b@.take(i) =~= b@);
                return true;
            },
            (Some(c), Some(d)) => {
                assert(a@.skip(i).drop_first() =~= a@.skip(i + 1));
                assert(b@.skip(i).drop_first() =~= b@.skip(i + 1));
                if c != d {
                    assert(a@[i] != b@[i]);
                    return false;
                }
                assert(a@.take(i + 1) =~= a@.take(i).push(a@[i]));
                assert(b@.take(i + 1) =~= b@.take(i).push(b@[i]));
                proof {
                    i = i + 1;
                }
            },
            _ => {
                assert(a@.len() != b@.len());
                return false;
            },
        }
    }
}

/// The decimal digit for a value below ten.
pub open spec fn digit(d: int) -> char {
    if d == 0 {
        '0'
    } else if d == 1 {
        '1'
    } else if d == 2 {
        '2'
    } else if d == 3 {
        '3'
    } else if d == 4 {
        '4'
    } else if d == 5 {
        '5'
    } else if d == 6 {
        '6'
    } else if d == 7 {
        '7'
    } else if d == 8 {
        '8'
    } else {
        '9'
    }
}

/// The decimal numeral of `n`, without leading zeros.
pub open spec fn decimal(n: nat) -> Seq<char>
    decreases n,
{
    if n < 10 {
        seq![digit(n as int)]
    } else {
        decimal(n / 10).push(digit((n % 10) as int))
    }
}

/// The digit character of a value below ten.
fn digit_char(d: u64) -> (c: char)
    requires
        d < 10,
    ensures
        c == digit(d as int),
{
    if d == 0 {
        '0'
    } else if d == 1 {
        '1'
    } else if d == 2 {
        '2'
    } else if d == 3 {
        '3'
    } else if d == 4 {
        '4'
    } else if d == 5 {
        '5'
    } else if d == 6 {
        '6'
    } else if d == 7 {
        '7'
    } else if d == 8 {
        '8'
    } else {
        '9'
    }
}

/// Appends the decimal numeral of `n` to `out`.
pub fn push_decimal(out: &mut String, n: u64)
    ensures
        final(out)@ == old(out)@ + decimal(n as nat),
    decreases n,
{
    if n < 10 {
        out.push(digit_char(n));
        assert(old(out)@.push(digit(n as int)) =~= old(out)@ + decimal(n as nat));
    } else {
        push_decimal(out, n / 10);
        out.push(digit_char(n % 10));
        assert((old(out)@ + decimal((n / 10) as nat)).push(digit((n % 10) as int)) =~= old(out)@
            + decimal(n as nat));
    }
}

} // verus!
