//! Characters and digits: what the formats share.
use vstd::prelude::*;
use vstd::string::StringExecFns;

verus! {

/// The characters of a string, for access by position.
#[verifier::loop_isolation(false)]
pub(crate) fn characters(input: &str) -> (chars: Vec<char>)
    ensures
        chars@ == input@,
{
    let mut chars: Vec<char> = Vec::new();
    for c in it: input.chars()
        invariant
            it.seq() == input@,
            chars@ == input@.take(it.index() as int),
    {
        chars.push(c);
    }
    chars
}

/// The characters that Unicode gives the property `White_Space`.
pub open spec fn is_whitespace(c: char) -> bool {
    ||| '\u{9}' <= c <= '\u{d}'
    ||| c == ' '
    ||| c == '\u{85}'
    ||| c == '\u{a0}'
    ||| c == '\u{1680}'
    ||| '\u{2000}' <= c <= '\u{200a}'
    ||| c == '\u{2028}'
    ||| c == '\u{2029}'
    ||| c == '\u{202f}'
    ||| c == '\u{205f}'
    ||| c == '\u{3000}'
}

/// Whether `c` is white space.
pub(crate) fn whitespace(c: char) -> (yes: bool)
    ensures
        yes == is_whitespace(c),
{
    ('\u{9}' <= c && c <= '\u{d}') || c == ' ' || c == '\u{85}' || c == '\u{a0}' || c == '\u{1680}'
        || ('\u{2000}' <= c && c <= '\u{200a}') || c == '\u{2028}' || c == '\u{2029}' || c
        == '\u{202f}' || c == '\u{205f}' || c == '\u{3000}'
}

/// The first position from `at` on that holds no white space, or the end.
pub open spec fn white_end(s: Seq<char>, at: int) -> int
    decreases s.len() - at,
{
    if 0 <= at < s.len() && is_whitespace(s[at]) {
        white_end(s, at + 1)
    } else {
        at
    }
}

/// The first position from `at` on that holds no white space, or the end.
pub(crate) fn skip_white(chars: &Vec<char>, at: usize) -> (end: usize)
    requires
        at <= chars.len(),
    ensures
        end == white_end(chars@, at as int),
        at <= end <= chars.len(),
{
    let mut end = at;
    while end < chars.len() && whitespace(chars[end])
        invariant
            at <= end <= chars.len(),
            white_end(chars@, at as int) == white_end(chars@, end as int),
        decreases chars.len() - end,
    {
        end += 1;
    }
    end
}

/// Whether `text` ends in `suffix`.
pub open spec fn has_suffix(text: Seq<char>, suffix: Seq<char>) -> bool {
    suffix.len() <= text.len() && text.subrange(text.len() - suffix.len(), text.len() as int)
        == suffix
}

/// Whether `text` ends in `suffix`.
pub(crate) fn ends_with(text: &Vec<char>, suffix: &Vec<char>) -> (yes: bool)
    ensures
        yes == has_suffix(text@, suffix@),
{
    if suffix.len() > text.len() {
        return false;
    }
    let from = text.len() - suffix.len();
    let mut same: usize = 0;
    while same < suffix.len()
        invariant
            from + suffix.len() == text.len(),
            same <= suffix.len(),
            forall|i: int| 0 <= i < same ==> text@[from + i] == suffix@[i],
        decreases suffix.len() - same,
    {
        if text[from + same] != suffix[same] {
            return false;
        }
        same += 1;
    }
    assert(text@.subrange(from as int, text.len() as int) =~= suffix@);
    true
}

/// `value` without its `places` lowest digits in the base `radix`.
pub open spec fn shifted(value: nat, radix: nat, places: nat) -> nat
    decreases places,
{
    if places == 0 {
        value
    } else {
        shifted(value, radix, (places - 1) as nat) / radix
    }
}

/// The digit of `value` at `place` in the base `radix`; place 0 is the
/// lowest.
pub open spec fn digit_at(value: nat, radix: nat, place: nat) -> nat {
    shifted(value, radix, place) % radix
}

/// The character of a digit below 8.
pub open spec fn digit_char(digit: nat) -> char {
    if digit == 0 {
        '0'
    } else if digit == 1 {
        '1'
    } else if digit == 2 {
        '2'
    } else if digit == 3 {
        '3'
    } else if digit == 4 {
        '4'
    } else if digit == 5 {
        '5'
    } else if digit == 6 {
        '6'
    } else {
        '7'
    }
}

/// The `width` lowest digits of `value` in the base `radix`, the highest of
/// them first: a number below `radix` to the power of `width`, filled up
/// with zeros in front.
pub open spec fn fixed_digits(value: nat, radix: nat, width: nat) -> Seq<char> {
    Seq::new(width, |i: int| digit_char(digit_at(value, radix, (width - 1 - i) as nat)))
}

/// The text of one digit.
fn digit_text(digit: u32) -> (text: &'static str)
    requires
        digit < 8,
    ensures
        text@ == seq![digit_char(digit as nat)],
{
    proof {
        reveal_strlit("0");
        reveal_strlit("1");
        reveal_strlit("2");
        reveal_strlit("3");
        reveal_strlit("4");
        reveal_strlit("5");
        reveal_strlit("6");
        reveal_strlit("7");
    }
    let text = if digit == 0 {
        "0"
    } else if digit == 1 {
        "1"
    } else if digit == 2 {
        "2"
    } else if digit == 3 {
        "3"
    } else if digit == 4 {
        "4"
    } else if digit == 5 {
        "5"
    } else if digit == 6 {
        "6"
    } else {
        "7"
    };
    text
}

/// Writes the `width` lowest digits of `value` in the base `radix`, which is
/// from 2 to 8.
pub(crate) fn digits(value: u32, radix: u32, width: usize) -> (text: String)
    requires
        2 <= radix <= 8,
    ensures
        text@ == fixed_digits(value as nat, radix as nat, width as nat),
{
    let mut places: Vec<u32> = Vec::new();
    let mut rest = value;
    while places.len() < width
        invariant
            2 <= radix <= 8,
            places.len() <= width,
            rest == shifted(value as nat, radix as nat, places.len() as nat),
            forall|k: int|
                0 <= k < places.len() ==> places@[k] == digit_at(
                    value as nat,
                    radix as nat,
                    k as nat,
                ),
        decreases width - places.len(),
    {
        places.push(rest % radix);
        rest = rest / radix;
    }
    let mut text = String::new();
    let mut left = width;
    while left > 0
        invariant
            2 <= radix <= 8,
            left <= width,
            places.len() == width,
            forall|k: int|
                0 <= k < places.len() ==> places@[k] == digit_at(
                    value as nat,
                    radix as nat,
                    k as nat,
                ),
            text@ == fixed_digits(value as nat, radix as nat, width as nat).take(width - left),
        decreases left,
    {
        left -= 1;
        text.append(digit_text(places[left]));
    }
    text
}

} // verus!
