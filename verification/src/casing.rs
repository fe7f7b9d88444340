//! Identifier casing: snake_case, PascalCase and camelCase forms of a name.

use vstd::prelude::*;
use vstd::std_specs::iter::IteratorSpec;

verus! {

/// Whether `c` has the Unicode property `Uppercase`.
pub uninterp spec fn is_uppercase(c: char) -> bool;

/// Whether `c` has the Unicode property `White_Space`.
pub uninterp spec fn is_whitespace(c: char) -> bool;

/// The lowercase mapping of `c`, one character or more.
pub uninterp spec fn lowercase_of(c: char) -> Seq<char>;

/// The uppercase mapping of `c`, one character or more.
pub uninterp spec fn uppercase_of(c: char) -> Seq<char>;

/// The lowercase form of a text. It is not the characters' lowercase mappings
/// in a row: a capital sigma at the end of a word has a form of its own.
pub uninterp spec fn lowercase_text(text: Seq<char>) -> Seq<char>;

/// Calls `str::to_lowercase`. Trusted: the result depends on the text alone,
/// and `lowercase_text` names it.
#[verifier::external_body]
pub(crate) fn text_to_lowercase(text: &str) -> (lower: String)
    ensures
        lower@ == lowercase_text(text@),
{
    text.to_lowercase()
}

/// Calls `char::is_uppercase`. Trusted: the answer depends on the character
/// alone, and `is_uppercase` names it.
#[verifier::external_body]
pub(crate) fn char_is_uppercase(c: char) -> (upper: bool)
    ensures
        upper == is_uppercase(c),
{
    c.is_uppercase()
}

/// Calls `char::is_whitespace`. Trusted: the answer depends on the character
/// alone, and `is_whitespace` names it.
#[verifier::external_body]
pub(crate) fn char_is_whitespace(c: char) -> (space: bool)
    ensures
        space == is_whitespace(c),
{
    c.is_whitespace()
}

/// Calls `char::to_lowercase` and collects what it yields. Trusted: the
/// mapping depends on the character alone, `lowercase_of` names it, and it
/// has at least one character.
#[verifier::external_body]
pub(crate) fn char_to_lowercase(c: char) -> (lower: Vec<char>)
    ensures
        lower@ == lowercase_of(c),
        lower@.len() >= 1,
{
    c.to_lowercase().collect()
}

/// Calls `char::to_uppercase` and collects what it yields. Trusted: the
/// mapping depends on the character alone, `uppercase_of` names it, and it
/// has at least one character.
#[verifier::external_body]
pub(crate) fn char_to_uppercase(c: char) -> (upper: Vec<char>)
    ensures
        upper@ == uppercase_of(c),
        upper@.len() >= 1,
{
    c.to_uppercase().collect()
}

/// `String::push` appends one character.
pub assume_specification[ String::push ](text: &mut String, ch: char)
    ensures
        final(text)@ == old(text)@.push(ch),
;

/// Appends the characters of `chars` to `text`.
pub fn push_all(text: &mut String, chars: &Vec<char>)
    ensures
        final(text)@ == old(text)@ + chars@,
{
    let mut i: usize = 0;
    while i < chars.len()
        invariant
            i <= chars@.len(),
            text@ == old(text)@ + chars@.take(i as int),
        decreases chars@.len() - i,
    {
        text.push(chars[i]);
        assert(chars@.take(i + 1) =~= chars@.take(i as int).push(chars@[i as int]));
        i = i + 1;
    }
    assert(chars@.take(chars@.len() as int) =~= chars@);
}

/// What the character at `i` contributes to the snake_case form: an
/// uppercase character gives the first character of its lowercase mapping,
/// after an underscore where it follows a character that is not uppercase; any
/// other character gives itself.
pub open spec fn snake_piece(name: Seq<char>, i: int) -> Seq<char> {
    if is_uppercase(name[i]) {
        if i > 0 && !is_uppercase(name[i - 1]) {
            seq!['_', lowercase_of(name[i])[0]]
        } else {
            seq![lowercase_of(name[i])[0]]
        }
    } else {
        seq![name[i]]
    }
}

/// The snake_case form of the first `n` characters of `name`.
pub open spec fn snake_prefix(name: Seq<char>, n: int) -> Seq<char>
    decreases n,
{
    if n <= 0 {
        Seq::empty()
    } else {
        snake_prefix(name, n - 1) + snake_piece(name, n - 1)
    }
}

/// The snake_case form of `name`.
pub open spec fn snake_case(name: Seq<char>) -> Seq<char> {
    snake_prefix(name, name.len() as int)
}

/// A character that separates words: an underscore or white space.
pub open spec fn is_separator(c: char) -> bool {
    c == '_' || is_whitespace(c)
}

/// What the character at `i` contributes to the PascalCase form: a
/// separator gives nothing, the first character of a word gives its uppercase
/// mapping, any other character gives itself.
pub open spec fn pascal_piece(name: Seq<char>, i: int) -> Seq<char> {
    if is_separator(name[i]) {
        Seq::empty()
    } else if i == 0 || is_separator(name[i - 1]) {
        uppercase_of(name[i])
    } else {
        seq![name[i]]
    }
}

/// The PascalCase form of the first `n` characters of `name`.
pub open spec fn pascal_prefix(name: Seq<char>, n: int) -> Seq<char>
    decreases n,
{
    if n <= 0 {
        Seq::empty()
    } else {
        pascal_prefix(name, n - 1) + pascal_piece(name, n - 1)
    }
}

/// The PascalCase form of `name`: its words, each with its first character in
/// uppercase, without what separated them.
pub open spec fn pascal_case(name: Seq<char>) -> Seq<char> {
    pascal_prefix(name, name.len() as int)
}

/// The camelCase form of `name`: the PascalCase form with the lowercase
/// mapping in place of its first character.
pub open spec fn camel_case(name: Seq<char>) -> Seq<char> {
    let pascal = pascal_case(name);
    if pascal.len() == 0 {
        pascal
    } else {
        lowercase_of(pascal[0]) + pascal.subrange(1, pascal.len() as int)
    }
}

/// Converts `s` to snake_case.
pub fn to_snake_case(s: &str) -> (out: String)
    ensures
        out@ == snake_case(s@),
{
    let mut result = String::new();
    let mut prev_is_upper = false;
    let mut at_start = true;
    let mut chars = s.chars();
    let ghost mut i: int = 0;
    loop
        invariant
            0 <= i <= s@.len(),
            chars.remaining() == s@.skip(i),
            result@ == snake_prefix(s@, i),
            at_start == (i == 0),
            i > 0 ==> prev_is_upper == is_uppercase(s@[i - 1]),
        ensures
            result@ == snake_case(s@),
        decreases s@.len() - i,
    {
        match chars.next() {
            None => {
                break ;
            },
            Some(c) => {
                assert(s@.skip(i).drop_first() =~= s@.skip(i + 1));
                let ghost before = result@;
                if char_is_uppercase(c) {
                    if !at_start && !prev_is_upper {
                        result.push('_');
                    }
                    let lower: Vec<char> = char_to_lowercase(c);
                    result.push(lower[0]);
                    prev_is_upper = true;
                } else {
                    result.push(c);
                    prev_is_upper = false;
                }
                at_start = false;
                assert(result@ =~= before + snake_piece(s@, i));
                proof {
                    i = i + 1;
                }
            },
        }
    }
    result
}

/// Converts `s` to PascalCase.
pub fn to_pascal_case(s: &str) -> (out: String)
    ensures
        out@ == pascal_case(s@),
{
    let mut result = String::new();
    let mut word_starts = true;
    let mut chars = s.chars();
    let ghost mut i: int = 0;
    loop
        invariant
            0 <= i <= s@.len(),
            chars.remaining() == s@.skip(i),
            result@ == pascal_prefix(s@, i),
            word_starts == (i == 0 || is_separator(s@[i - 1])),
        ensures
            result@ == pascal_case(s@),
        decreases s@.len() - i,
    {
        match chars.next() {
            None => {
                break ;
            },
            Some(c) => {
                assert(s@.skip(i).drop_first() =~= s@.skip(i + 1));
                let ghost before = result@;
                if c == '_' || char_is_whitespace(c) {
                    word_starts = true;
                } else if word_starts {
                    let upper: Vec<char> = char_to_uppercase(c);
                    push_all(&mut result, &upper);
                    word_starts = false;
                } else {
                    result.push(c);
                }
                assert(result@ =~= before + pascal_piece(s@, i));
                proof {
                    i = i + 1;
                }
            },
        }
    }
    result
}

/// Converts `s` to camelCase.
pub fn to_camel_case(s: &str) -> (out: String)
    ensures
        out@ == camel_case(s@),
{
    let pascal: String = to_pascal_case(s);
    let mut result = String::new();
    let mut chars = pascal.as_str().chars();
    match chars.next() {
        None => {
            return result;
        },
        Some(first) => {
            let lower: Vec<char> = char_to_lowercase(first);
            push_all(&mut result, &lower);
        },
    }
    let ghost mut i: int = 1;
    loop
        invariant
            1 <= i <= pascal@.len(),
            pascal@ == pascal_case(s@),
            chars.remaining() == pascal@.skip(i),
            result@ == lowercase_of(pascal@[0]) + pascal@.subrange(1, i),
        ensures
            result@ == camel_case(s@),
        decreases pascal@.len() - i,
    {
        match chars.next() {
            None => {
                assert(pascal@.subrange(1, i) =~= pascal@.subrange(1, pascal@.len() as int));
                break ;
            },
            Some(c) => {
                assert(pascal@.skip(i).drop_first() =~= pascal@.skip(i + 1));
                result.push(c);
                assert(pascal@.subrange(1, i + 1) =~= pascal@.subrange(1, i).push(pascal@[i]));
                proof {
                    i = i + 1;
                }
            },
        }
    }
    result
}

} // verus!
