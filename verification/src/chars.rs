//! Character classes and ASCII case mapping used by the word splitter.
//!
//! A filename stem is cut into words at separator characters and at word
//! boundaries (case changes and digit/letter transitions).  Only ASCII
//! letters change case; every other character passes through unchanged.
use vstd::prelude::*;

verus! {

/// ASCII uppercase letter.
pub open spec fn is_upper(c: char) -> bool {
    'A' <= c && c <= 'Z'
}

/// ASCII lowercase letter.
pub open spec fn is_lower(c: char) -> bool {
    'a' <= c && c <= 'z'
}

/// ASCII digit.
pub open spec fn is_digit(c: char) -> bool {
    '0' <= c && c <= '9'
}

/// A separator: any ASCII character that is not a letter or a digit.
/// Separators delimit words and are replaced by the target convention's
/// own separator.
pub open spec fn is_separator(c: char) -> bool {
    (c as u32) < 128 && !is_upper(c) && !is_lower(c) && !is_digit(c)
}

/// A character that belongs to a word: an ASCII letter, an ASCII digit,
/// or any non-ASCII character (kept verbatim, never re-cased).
pub open spec fn is_word_char(c: char) -> bool {
    !is_separator(c)
}

/// A word character that is not a digit: an ASCII letter or a non-ASCII
/// character.  Digit/letter transitions are word boundaries.
pub open spec fn is_letterlike(c: char) -> bool {
    is_word_char(c) && !is_digit(c)
}

/// A word boundary between two adjacent word characters: a case change —
/// an uppercase letter after a non-uppercase word character — or a
/// digit/letter transition.  A run of uppercase letters stays one word.
pub open spec fn is_boundary(a: char, b: char) -> bool {
    (!is_upper(a) && is_upper(b)) || (is_letterlike(a) && is_digit(b)) || (is_digit(a)
        && is_letterlike(b))
}

/// Lowercase an ASCII uppercase letter; leave everything else unchanged.
pub open spec fn to_lower(c: char) -> char {
    if is_upper(c) {
        ((c as u32) + 32) as char
    } else {
        c
    }
}

/// Uppercase an ASCII lowercase letter; leave everything else unchanged.
pub open spec fn to_upper(c: char) -> char {
    if is_lower(c) {
        ((c as u32) - 32) as char
    } else {
        c
    }
}

/// Executable counterpart of [`is_separator`].
pub fn is_separator_char(c: char) -> (r: bool)
    ensures
        r == is_separator(c),
{
    let u = c as u32;
    u < 128 && !(65 <= u && u <= 90) && !(97 <= u && u <= 122) && !(48 <= u && u <= 57)
}

/// Executable counterpart of [`is_upper`].
pub fn is_upper_char(c: char) -> (r: bool)
    ensures
        r == is_upper(c),
{
    let u = c as u32;
    65 <= u && u <= 90
}

/// Executable counterpart of [`is_lower`].
pub fn is_lower_char(c: char) -> (r: bool)
    ensures
        r == is_lower(c),
{
    let u = c as u32;
    97 <= u && u <= 122
}

/// Executable counterpart of [`is_digit`].
pub fn is_digit_char(c: char) -> (r: bool)
    ensures
        r == is_digit(c),
{
    let u = c as u32;
    48 <= u && u <= 57
}

/// Executable counterpart of [`is_boundary`].
pub fn is_boundary_chars(a: char, b: char) -> (r: bool)
    ensures
        r == is_boundary(a, b),
{
    let a_digit = is_digit_char(a);
    let a_letterlike = !is_separator_char(a) && !a_digit;
    let b_digit = is_digit_char(b);
    let b_letterlike = !is_separator_char(b) && !b_digit;
    (!is_upper_char(a) && is_upper_char(b)) || (a_letterlike && b_digit) || (a_digit
        && b_letterlike)
}

/// Executable counterpart of [`to_lower`].
pub fn to_lower_char(c: char) -> (r: char)
    ensures
        r == to_lower(c),
{
    if is_upper_char(c) {
        ((c as u8) + 32) as char
    } else {
        c
    }
}

/// Executable counterpart of [`to_upper`].
pub fn to_upper_char(c: char) -> (r: char)
    ensures
        r == to_upper(c),
{
    if is_lower_char(c) {
        ((c as u8) - 32) as char
    } else {
        c
    }
}

/// Case mapping never changes a character's class: lowering an uppercase
/// letter gives a lowercase letter and fixes every other character, so
/// digits stay digits, separators stay separators, and non-ASCII
/// characters stay as they are.
pub proof fn lemma_to_lower_class(c: char)
    ensures
        is_digit(to_lower(c)) == is_digit(c),
        is_separator(to_lower(c)) == is_separator(c),
        is_letterlike(to_lower(c)) == is_letterlike(c),
        (is_upper(to_lower(c)) || is_lower(to_lower(c))) == (is_upper(c) || is_lower(c)),
        !is_upper(to_lower(c)),
        is_upper(c) ==> is_lower(to_lower(c)),
        !is_upper(c) ==> to_lower(c) == c,
{
}

/// Same as [`lemma_to_lower_class`], for uppercasing.
pub proof fn lemma_to_upper_class(c: char)
    ensures
        is_digit(to_upper(c)) == is_digit(c),
        is_separator(to_upper(c)) == is_separator(c),
        is_letterlike(to_upper(c)) == is_letterlike(c),
        is_upper(to_upper(c)) == (is_upper(c) || is_lower(c)),
        !is_lower(to_upper(c)),
        is_lower(c) ==> is_upper(to_upper(c)),
        !is_lower(c) ==> to_upper(c) == c,
{
}

/// Lowercasing is idempotent.
pub proof fn lemma_to_lower_idempotent(c: char)
    ensures
        to_lower(to_lower(c)) == to_lower(c),
{
}

/// Lowercasing after uppercasing is plain lowercasing.
pub proof fn lemma_to_lower_to_upper(c: char)
    ensures
        to_lower(to_upper(c)) == to_lower(c),
{
}

/// Uppercasing after uppercasing is plain uppercasing.
pub proof fn lemma_to_upper_idempotent(c: char)
    ensures
        to_upper(to_upper(c)) == to_upper(c),
{
}

/// Uppercasing after lowercasing is plain uppercasing.
pub proof fn lemma_to_upper_to_lower(c: char)
    ensures
        to_upper(to_lower(c)) == to_upper(c),
{
}

} // verus!
