//! Plain text pieces: decimal numbers, counted nouns and checkboxes.
use vstd::prelude::*;

verus! {

/// The character of a decimal digit.
pub open spec fn digit_char(d: nat) -> char {
    if d == 0 { '0' }
    else if d == 1 { '1' }
    else if d == 2 { '2' }
    else if d == 3 { '3' }
    else if d == 4 { '4' }
    else if d == 5 { '5' }
    else if d == 6 { '6' }
    else if d == 7 { '7' }
    else if d == 8 { '8' }
    else { '9' }
}

/// The decimal form of a number, without sign or leading zeros.
pub open spec fn decimal(n: nat) -> Seq<char>
    decreases n,
{
    if n < 10 {
        seq![digit_char(n)]
    } else {
        decimal(n / 10).push(digit_char(n % 10))
    }
}

/// The one-character string of a decimal digit.
fn digit_str(d: u64) -> (r: &'static str)
    requires
        d < 10,
    ensures
        r@ == seq![digit_char(d as nat)],
{
    proof {
        reveal_strlit("0");
        reveal_strlit("1");
        reveal_strlit("2");
        reveal_strlit("3");
        reveal_strlit("4");
        reveal_strlit("5");
        reveal_strlit("6");
        reveal_strlit("7");
        reveal_strlit("8");
        reveal_strlit("9");
    }
    if d == 0 { "0" }
    else if d == 1 { "1" }
    else if d == 2 { "2" }
    else if d == 3 { "3" }
    else if d == 4 { "4" }
    else if d == 5 { "5" }
    else if d == 6 { "6" }
    else if d == 7 { "7" }
    else if d == 8 { "8" }
    else { "9" }
}

/// Writes a number in decimal, as `Display` does for unsigned integers.
pub fn to_decimal(n: u64) -> (r: String)
    ensures
        r@ == decimal(n as nat),
    decreases n,
{
    if n < 10 {
        String::from_str(digit_str(n))
    } else {
        let mut s = to_decimal(n / 10);
        s.append(digit_str(n % 10));
        s
    }
}

/// A count followed by the noun that fits it: the singular for 0 and 1,
/// the plural otherwise.
pub open spec fn counted(value: nat, singular: Seq<char>, plural: Seq<char>) -> Seq<char> {
    decimal(value) + seq![' '] + if value <= 1 { singular } else { plural }
}

/// `"<value> <noun>"`, with the singular noun for 0 and 1 and the plural one
/// for every other count.
pub fn pluralize(value: usize, singular: &str, plural: &str) -> (r: String)
    ensures
        r@ == counted(value as nat, singular@, plural@),
{
    proof {
        reveal_strlit(" ");
    }
    let mut s = to_decimal(value as u64);
    s.append(" ");
    if value <= 1 {
        s.append(singular);
    } else {
        s.append(plural);
    }
    s
}

/// The glyph shown for a task: a checked box when done, an empty box otherwise.
pub open spec fn checkbox(done: bool) -> Seq<char> {
    if done { seq!['\u{1F5F9}'] } else { seq!['\u{2610}'] }
}

/// The checkbox glyph of a done flag.
pub fn as_checkbox(done: &bool) -> (r: String)
    ensures
        r@ == checkbox(*done),
{
    proof {
        reveal_strlit("\u{1F5F9}");
        reveal_strlit("\u{2610}");
    }
    if *done {
        String::from_str("\u{1F5F9}")
    } else {
        String::from_str("\u{2610}")
    }
}

/// What `str::to_lowercase` makes of a text.
pub uninterp spec fn lower_of(s: Seq<char>) -> Seq<char>;

/// What `str::trim` makes of a text.
pub uninterp spec fn trimmed_of(s: Seq<char>) -> Seq<char>;

/// Relies on `str::to_lowercase`: the lower case of each character, the
/// result depending on the characters alone.
#[verifier::external_body]
fn lowercase(s: &str) -> (r: String)
    ensures
        r@ == lower_of(s@),
{
    s.to_lowercase()
}

/// Relies on `str::trim`: the text without leading and trailing white
/// space, the result depending on the characters alone.
#[verifier::external_body]
fn trim(s: &str) -> (r: &str)
    ensures
        r@ == trimmed_of(s@),
{
    s.trim()
}

/// Whether a folded and trimmed answer is exactly `y`.
pub fn is_yes(answer: &str) -> (r: bool)
    ensures
        r == (answer@ == seq!['y']),
{
    if answer.unicode_len() != 1 {
        return false;
    }
    let c = answer.get_char(0);
    if c == 'y' {
        assert(answer@ =~= seq!['y']);
        true
    } else {
        false
    }
}

/// Whether an operator's answer agrees: after lower-casing and trimming it
/// is exactly `y`.
pub fn answer_is_yes(answer: &str) -> (r: bool)
    ensures
        r == (trimmed_of(lower_of(answer@)) == seq!['y']),
{
    let lower = lowercase(answer);
    is_yes(trim(lower.as_str()))
}

} // verus!
