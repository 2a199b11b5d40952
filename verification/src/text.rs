//! The `String` operations the editor needs that vstd does not specify, with
//! what std documents of them stated as their contracts, and decimal
//! formatting of numbers.
use vstd::prelude::*;

verus! {

/// Appends one character by calling `String::push`.
///
/// Trusted: claims, as std documents, that the string afterwards holds its
/// old characters followed by `c`.
#[verifier::external_body]
pub(crate) fn push_char(text: &mut String, c: char)
    ensures
        final(text)@ == old(text)@.push(c),
{
    text.push(c);
}

/// Removes the last character, if any, by calling `String::pop`.
///
/// Trusted: claims, as std documents, that an empty string is left alone and
/// `None` returned, and that otherwise the last character is removed and
/// returned.
#[verifier::external_body]
pub(crate) fn pop_char(text: &mut String) -> (removed: Option<char>)
    ensures
        old(text)@.len() == 0 ==> removed is None && final(text)@ == old(text)@,
        old(text)@.len() > 0 ==> removed == Some(old(text)@.last()) && final(text)@ == old(
            text,
        )@.drop_last(),
{
    text.pop()
}

/// Empties a string by calling `String::clear`.
///
/// Trusted: claims, as std documents, that the string afterwards is empty.
#[verifier::external_body]
pub(crate) fn clear_text(text: &mut String)
    ensures
        final(text)@ == Seq::<char>::empty(),
{
    text.clear();
}

/// Whether a character has the Unicode general category Cc (control):
/// U+0000 to U+001F and U+007F to U+009F.
pub open spec fn is_control(c: char) -> bool {
    (c as u32) <= 0x1f || (0x7f <= (c as u32) && (c as u32) <= 0x9f)
}

/// `char::is_control`, computed from its definition.
pub fn char_is_control(c: char) -> (control: bool)
    ensures
        control == is_control(c),
{
    let code = c as u32;
    code <= 0x1f || (0x7f <= code && code <= 0x9f)
}

/// The decimal digit `d` (0 to 9) as a character.
pub open spec fn digit_char(d: nat) -> char {
    ((48 + d) as u8) as char
}

/// `n` written in decimal, without leading zeros.
pub open spec fn decimal(n: nat) -> Seq<char>
    decreases n,
{
    if n < 10 {
        seq![digit_char(n)]
    } else {
        decimal(n / 10).push(digit_char(n % 10))
    }
}

/// Appends `n` written in decimal.
pub(crate) fn push_decimal(text: &mut String, n: usize)
    ensures
        final(text)@ == old(text)@ + decimal(n as nat),
    decreases n,
{
    if n >= 10 {
        push_decimal(text, n / 10);
    }
    let digit: u8 = 48 + (n % 10) as u8;
    push_char(text, digit as char);
    assert(final(text)@ =~= old(text)@ + decimal(n as nat));
}

} // verus!
