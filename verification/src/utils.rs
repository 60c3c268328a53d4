//! Display names: which ones are accepted, and what stands in for one that
//! is not.

use vstd::prelude::*;
use vstd::string::{StrSliceExecFns, StringExecFns};

verus! {

/// Whether `c` is one of the ASCII punctuation characters, `!` to `/`, `:` to
/// `@`, `[` to `` ` `` and `{` to `~`.
pub open spec fn is_ascii_punctuation(c: char) -> bool {
    let code = c as u32;
    ||| 33 <= code <= 47
    ||| 58 <= code <= 64
    ||| 91 <= code <= 96
    ||| 123 <= code <= 126
}

/// Whether Unicode counts `c` as a letter or a number.
pub uninterp spec fn is_alphanumeric(c: char) -> bool;

/// `char::is_alphanumeric` of the standard library, which decides by the
/// Unicode tables it was built with whether a character is alphabetic or
/// numeric. Its answer depends on the character alone.
pub assume_specification[ char::is_alphanumeric ](c: char) -> (b: bool)
    ensures
        b == is_alphanumeric(c),
;

/// Whether `c` may stand in a display name.
pub open spec fn allowed_char(c: char) -> bool {
    is_alphanumeric(c) || is_ascii_punctuation(c)
}

/// Whether every character of `text` may stand in a display name.
pub open spec fn all_allowed(text: Seq<char>) -> bool {
    forall|i: int| 0 <= i < text.len() ==> allowed_char(#[trigger] text[i])
}

/// Whether `c` is one of the ASCII punctuation characters.
pub fn is_punctuation(c: char) -> (b: bool)
    ensures
        b == is_ascii_punctuation(c),
{
    let code = c as u32;
    (33 <= code && code <= 47) || (58 <= code && code <= 64) || (91 <= code && code <= 96) || (123
        <= code && code <= 126)
}

/// Whether a character may stand in a display name, given whether Unicode
/// counts it as a letter or a number.
pub fn is_allowed(c: char, alphanumeric: bool) -> (ok: bool)
    ensures
        ok == (alphanumeric || is_ascii_punctuation(c)),
{
    alphanumeric || is_punctuation(c)
}

/// Whether `input` holds only letters, numbers and ASCII punctuation.
pub fn is_alphanumeric_with_symbols(input: &str) -> (ok: bool)
    ensures
        ok == all_allowed(input@),
{
    for c in it: input.chars()
        invariant
            it.seq() == input@,
            forall|j: int| 0 <= j < it.index() ==> allowed_char(#[trigger] input@[j]),
    {
        if !is_allowed(c, c.is_alphanumeric()) {
            return false;
        }
    }
    true
}

/// The longest display name that is accepted, in characters.
pub const MAX_USERNAME_LEN: usize = 32;

/// Whether `name` is accepted as a display name: it is not empty, has at
/// most 32 characters, and holds only letters, numbers and ASCII
/// punctuation.
pub open spec fn valid_username(name: Seq<char>) -> bool {
    &&& 0 < name.len() <= 32
    &&& all_allowed(name)
}

/// Whether `name` is accepted as a display name.
pub fn is_valid_username(name: &str) -> (ok: bool)
    ensures
        ok == valid_username(name@),
{
    if name.is_empty() {
        return false;
    }
    if name.unicode_len() > MAX_USERNAME_LEN {
        return false;
    }
    is_alphanumeric_with_symbols(name)
}

/// The character of a decimal digit.
pub open spec fn digit_char(d: int) -> char
    recommends
        0 <= d <= 9,
{
    if d == 0 {
        '0'
    } else if d == 1 {
        '1'
    } else if d == 2 {
        '2'
    } else if d == 3 {
        '3'
    } else if d == 4 {
        '4'
    } else if d == 5 {
        '5'
    } else if d == 6 {
        '6'
    } else if d == 7 {
        '7'
    } else if d == 8 {
        '8'
    } else {
        '9'
    }
}

/// The decimal digits of `n`, without leading zeros.
pub open spec fn decimal_digits(n: nat) -> Seq<char>
    decreases n,
{
    if n < 10 {
        seq![digit_char(n as int)]
    } else {
        decimal_digits(n / 10).push(digit_char((n % 10) as int))
    }
}

/// `n` written in decimal, with a minus sign in front where it is negative.
pub open spec fn decimal(n: int) -> Seq<char> {
    if n < 0 {
        seq!['-'] + decimal_digits((-n) as nat)
    } else {
        decimal_digits(n as nat)
    }
}

/// The name that stands in for a display name that was not accepted:
/// `User` followed by a number.
pub open spec fn placeholder(number: i16) -> Seq<char> {
    "User"@ + decimal(number as int)
}

fn digit_text(d: u32) -> (text: &'static str)
    requires
        d <= 9,
    ensures
        text@ == seq![digit_char(d as int)],
{
    proof {
        reveal_strlit("0");
        reveal_strlit("1");
        reveal_strlit("2");
        reveal_strlit("3");
        reveal_strlit("4");
        reveal_strlit("5");
        reveal_strlit("6");
        reveal_strlit("7");
        reveal_strlit("8");
        reveal_strlit("9");
    }
    let text = if d == 0 {
        "0"
    } else if d == 1 {
        "1"
    } else if d == 2 {
        "2"
    } else if d == 3 {
        "3"
    } else if d == 4 {
        "4"
    } else if d == 5 {
        "5"
    } else if d == 6 {
        "6"
    } else if d == 7 {
        "7"
    } else if d == 8 {
        "8"
    } else {
        "9"
    };
    assert(text@ =~= seq![digit_char(d as int)]);
    text
}

fn append_decimal_digits(out: &mut String, n: u32)
    ensures
        final(out)@ == old(out)@ + decimal_digits(n as nat),
    decreases n,
{
    if n >= 10 {
        append_decimal_digits(out, n / 10);
    }
    out.append(digit_text(n % 10));
    assert(out@ =~= old(out)@ + decimal_digits(n as nat));
}

/// The placeholder name with the given number.
pub fn placeholder_name(number: i16) -> (name: String)
    ensures
        name@ == placeholder(number),
{
    let mut name = String::from_str("User");
    if number < 0 {
        proof {
            reveal_strlit("-");
        }
        name.append("-");
        append_decimal_digits(&mut name, (0 - number as i32) as u32);
    } else {
        append_decimal_digits(&mut name, number as u32);
    }
    assert(name@ =~= placeholder(number));
    name
}

/// The display name for a client that asked to be called `name`: the name
/// itself where it is accepted, else the placeholder with the given number.
pub fn username_or_placeholder(name: &str, number: i16) -> (shown: String)
    ensures
        shown@ == if valid_username(name@) {
            name@
        } else {
            placeholder(number)
        },
{
    if is_valid_username(name) {
        String::from_str(name)
    } else {
        placeholder_name(number)
    }
}

/// `rand::random::<i16>()`: a number drawn from the generator of the current
/// thread. Nothing is claimed of which number comes back. The generator is
/// seeded from the operating system, and the call does not return if that
/// fails.
#[verifier::external_body]
fn random_number() -> i16 {
    rand::prelude::random::<i16>()
}

/// The display name for a client that asked to be called `name`: the name
/// itself where it is accepted, else a placeholder with a number drawn at
/// random.
pub fn check_username(name: &str) -> (shown: String)
    ensures
        valid_username(name@) ==> shown@ == name@,
        !valid_username(name@) ==> exists|number: i16| shown@ == placeholder(number),
{
    if is_valid_username(name) {
        String::from_str(name)
    } else {
        placeholder_name(random_number())
    }
}

} // verus!
