//! Text as the game and the system hand it over.

use vstd::prelude::*;
use vstd::string::*;

verus! {

/// Calls `String::from_utf8`: the bytes become text exactly when they are
/// well-formed UTF-8, and the text is then the one that they encode.
#[verifier::external_body]
pub(crate) fn text_from_utf8(bytes: Vec<u8>) -> (text: Option<String>)
    ensures
        match text {
            Some(s) => vstd::utf8::valid_utf8(bytes@) && s@ == vstd::utf8::decode_utf8(bytes@),
            None => !vstd::utf8::valid_utf8(bytes@),
        },
{
    String::from_utf8(bytes).ok()
}

/// Whether a 16-bit unit is the first half of a surrogate pair.
pub open spec fn is_high_surrogate(unit: u16) -> bool {
    0xD800 <= unit <= 0xDBFF
}

/// Whether a 16-bit unit is the second half of a surrogate pair.
pub open spec fn is_low_surrogate(unit: u16) -> bool {
    0xDC00 <= unit <= 0xDFFF
}

/// The text that UTF-16 units encode. A half of a surrogate pair that stands
/// alone becomes the replacement character.
pub open spec fn utf16_lossy(units: Seq<u16>) -> Seq<char>
    decreases units.len(),
{
    if units.len() == 0 {
        Seq::empty()
    } else if !is_high_surrogate(units[0]) && !is_low_surrogate(units[0]) {
        seq![units[0] as char] + utf16_lossy(units.skip(1))
    } else if is_high_surrogate(units[0]) && units.len() > 1 && is_low_surrogate(units[1]) {
        let code = 0x1_0000 + 0x400 * (units[0] - 0xD800) + (units[1] - 0xDC00);
        seq![code as char] + utf16_lossy(units.skip(2))
    } else {
        seq!['\u{FFFD}'] + utf16_lossy(units.skip(1))
    }
}

/// Calls `String::from_utf16_lossy`: the text is the one that the units encode
/// as UTF-16, with the replacement character for each unpaired surrogate.
#[verifier::external_body]
pub(crate) fn text_from_utf16(units: &[u16]) -> (text: String)
    ensures
        text@ == utf16_lossy(units@),
{
    String::from_utf16_lossy(units)
}

/// The characters of a text.
pub fn characters(text: &str) -> (chars: Vec<char>)
    ensures
        chars@ == text@,
{
    let mut chars: Vec<char> = Vec::new();
    for c in iter: text.chars()
        invariant
            iter.seq() == text@,
            chars@ =~= text@.take(iter.index() as int),
    {
        chars.push(c);
    }
    chars
}

/// Whether two texts have the same characters.
pub fn same_text(a: &str, b: &str) -> (same: bool)
    ensures
        same == (a@ == b@),
{
    let x = a.as_bytes();
    let y = b.as_bytes();
    proof {
        vstd::utf8::encode_utf8_decode_utf8(a@);
        vstd::utf8::encode_utf8_decode_utf8(b@);
    }
    same_bytes(x, y)
}

/// Whether two byte strings are the same.
pub fn same_bytes(a: &[u8], b: &[u8]) -> (same: bool)
    ensures
        same == (a@ == b@),
{
    if a.len() != b.len() {
        return false;
    }
    let mut i: usize = 0;
    while i < a.len()
        invariant
            a@.len() == b@.len(),
            i <= a@.len(),
            forall|j: int| 0 <= j < i ==> a@[j] == b@[j],
        decreases a@.len() - i,
    {
        if a[i] != b[i] {
            assert(a@[i as int] != b@[i as int]);
            return false;
        }
        i = i + 1;
    }
    assert(a@ =~= b@);
    true
}

/// A character with an ASCII capital turned into its small letter.
pub open spec fn ascii_lower(c: char) -> char {
    if 'A' <= c && c <= 'Z' {
        ((c as u32) + 32) as char
    } else {
        c
    }
}

/// Whether two texts differ at most in the case of ASCII letters.
pub open spec fn same_ignoring_ascii_case(a: Seq<char>, b: Seq<char>) -> bool {
    a.map_values(|c: char| ascii_lower(c)) == b.map_values(|c: char| ascii_lower(c))
}

/// A text without the NULs at its end.
pub open spec fn without_trailing_nuls(text: Seq<char>) -> Seq<char>
    decreases text.len(),
{
    if text.len() > 0 && text.last() == '\0' {
        without_trailing_nuls(text.drop_last())
    } else {
        text
    }
}

/// A text without the copies of `prefix` that it starts with.
pub open spec fn without_prefixes(text: Seq<char>, prefix: Seq<char>) -> Seq<char>
    decreases text.len(),
{
    if prefix.len() > 0 && prefix.is_prefix_of(text) {
        without_prefixes(text.skip(prefix.len() as int), prefix)
    } else {
        text
    }
}

/// A text without the copies of `suffix` that it ends with.
pub open spec fn without_suffixes(text: Seq<char>, suffix: Seq<char>) -> Seq<char>
    decreases text.len(),
{
    if suffix.len() > 0 && suffix.is_suffix_of(text) {
        without_suffixes(text.take(text.len() - suffix.len()), suffix)
    } else {
        text
    }
}

/// Turns an ASCII capital into its small letter.
pub fn to_ascii_lower(c: char) -> (lower: char)
    ensures
        lower == ascii_lower(c),
{
    if 'A' <= c && c <= 'Z' {
        let small: u8 = c as u8 + 32;
        small as char
    } else {
        c
    }
}

/// Whether `text`, without the NULs at its end, is `name` up to the case of ASCII letters.
pub fn names_match(text: &str, name: &str) -> (matching: bool)
    ensures
        matching == same_ignoring_ascii_case(without_trailing_nuls(text@), name@),
{
    let mut left: Vec<char> = characters(text);
    let right: Vec<char> = characters(name);
    while left.len() > 0 && left[left.len() - 1] == '\0'
        invariant
            without_trailing_nuls(left@) == without_trailing_nuls(text@),
        decreases left@.len(),
    {
        let ghost before = left@;
        left.pop();
        assert(left@ =~= before.drop_last());
    }
    let ghost x = left@.map_values(|c: char| ascii_lower(c));
    let ghost y = right@.map_values(|c: char| ascii_lower(c));
    if left.len() != right.len() {
        assert(x.len() != y.len());
        return false;
    }
    let mut i: usize = 0;
    while i < left.len()
        invariant
            x == left@.map_values(|c: char| ascii_lower(c)),
            y == right@.map_values(|c: char| ascii_lower(c)),
            left@ == without_trailing_nuls(text@),
            right@ == name@,
            left@.len() == right@.len(),
            i <= left@.len(),
            forall|j: int| 0 <= j < i ==> x[j] == y[j],
        decreases left@.len() - i,
    {
        if to_ascii_lower(left[i]) != to_ascii_lower(right[i]) {
            assert(x[i as int] != y[i as int]);
            return false;
        }
        i = i + 1;
    }
    assert(x =~= y);
    true
}

/// Whether 16-bit units spell `name`, up to NULs at their end and the case of ASCII letters.
pub fn units_name(units: &[u16], name: &str) -> (matching: bool)
    ensures
        matching == same_ignoring_ascii_case(without_trailing_nuls(utf16_lossy(units@)), name@),
{
    let text = text_from_utf16(units);
    names_match(text.as_str(), name)
}

/// Whether `chars` holds `part` at index `at`.
fn holds_at(chars: &Vec<char>, part: &Vec<char>, at: usize) -> (holds: bool)
    requires
        at + part@.len() <= chars@.len(),
    ensures
        holds == (chars@.subrange(at as int, at + part@.len()) == part@),
{
    assert(chars@.len() == chars.len());
    let mut i: usize = 0;
    while i < part.len()
        invariant
            at + part@.len() <= chars@.len(),
            chars@.len() <= usize::MAX,
            i <= part@.len(),
            forall|j: int| 0 <= j < i ==> chars@[at + j] == part@[j],
        decreases part@.len() - i,
    {
        if chars[at + i] != part[i] {
            assert(chars@.subrange(at as int, at + part@.len())[i as int] != part@[i as int]);
            return false;
        }
        i = i + 1;
    }
    assert(chars@.subrange(at as int, at + part@.len()) =~= part@);
    true
}

/// The index at which the copies of `part` that `chars` starts with end.
fn end_of_prefixes(chars: &Vec<char>, part: &Vec<char>) -> (start: usize)
    requires
        part@.len() > 0,
    ensures
        start <= chars@.len(),
        chars@.skip(start as int) == without_prefixes(chars@, part@),
{
    let mut start: usize = 0;
    assert(chars@.skip(0) =~= chars@);
    loop
        invariant
            part@.len() > 0,
            start <= chars@.len(),
            without_prefixes(chars@.skip(start as int), part@) == without_prefixes(chars@, part@),
        decreases chars@.len() - start,
    {
        let ghost rest = chars@.skip(start as int);
        if part.len() > chars.len() - start {
            return start;
        }
        assert(rest.subrange(0, part@.len() as int) =~= chars@.subrange(
            start as int,
            start + part@.len(),
        ));
        if !holds_at(chars, part, start) {
            return start;
        }
        assert(part@.is_prefix_of(rest));
        assert(rest.skip(part@.len() as int) =~= chars@.skip(start + part@.len()));
        start = start + part.len();
    }
}

/// The index at which the copies of `part` that `chars`, from `start` on, ends with begin.
fn start_of_suffixes(chars: &Vec<char>, start: usize, part: &Vec<char>) -> (end: usize)
    requires
        part@.len() > 0,
        start <= chars@.len(),
    ensures
        start <= end <= chars@.len(),
        chars@.subrange(start as int, end as int) == without_suffixes(
            chars@.skip(start as int),
            part@,
        ),
{
    let mut end: usize = chars.len();
    assert(chars@.subrange(start as int, end as int) =~= chars@.skip(start as int));
    loop
        invariant
            part@.len() > 0,
            start <= end <= chars@.len(),
            without_suffixes(chars@.subrange(start as int, end as int), part@) == without_suffixes(
                chars@.skip(start as int),
                part@,
            ),
        decreases end - start,
    {
        let ghost rest = chars@.subrange(start as int, end as int);
        if part.len() > end - start {
            return end;
        }
        assert(rest.subrange(rest.len() - part@.len(), rest.len() as int) =~= chars@.subrange(
            end - part@.len(),
            end as int,
        ));
        if !holds_at(chars, part, end - part.len()) {
            return end;
        }
        assert(part@.is_suffix_of(rest));
        assert(rest.take(rest.len() - part@.len()) =~= chars@.subrange(
            start as int,
            end - part@.len(),
        ));
        end = end - part.len();
    }
}

/// Removes the copies of `prefix` at the start of a text and then those of
/// `suffix` at its end.
pub fn trimmed(text: &str, prefix: &str, suffix: &str) -> (result: String)
    requires
        prefix@.len() > 0,
        suffix@.len() > 0,
    ensures
        result@ == without_suffixes(without_prefixes(text@, prefix@), suffix@),
{
    let chars = characters(text);
    let head = characters(prefix);
    let tail = characters(suffix);
    let start = end_of_prefixes(&chars, &head);
    let end = start_of_suffixes(&chars, start, &tail);
    text.substring_char(start, end).to_owned()
}

/// The decimal digits of a number.
pub open spec fn decimal(number: nat) -> Seq<char>
    decreases number,
{
    let digit = ('0' as u32 + number % 10) as char;
    if number < 10 {
        seq![digit]
    } else {
        decimal(number / 10).push(digit)
    }
}

/// The digit of a number below ten.
fn digit_text(digit: u32) -> (text: &'static str)
    requires
        digit < 10,
    ensures
        text@ == seq![('0' as u32 + digit) as char],
{
    proof {
        reveal_strlit("0");
        reveal_strlit("1");
        reveal_strlit("2");
        reveal_strlit("3");
        reveal_strlit("4");
        reveal_strlit("5");
        reveal_strlit("6");
        reveal_strlit("7");
        reveal_strlit("8");
        reveal_strlit("9");
    }
    let text = if digit == 0 {
        "0"
    } else if digit == 1 {
        "1"
    } else if digit == 2 {
        "2"
    } else if digit == 3 {
        "3"
    } else if digit == 4 {
        "4"
    } else if digit == 5 {
        "5"
    } else if digit == 6 {
        "6"
    } else if digit == 7 {
        "7"
    } else if digit == 8 {
        "8"
    } else {
        "9"
    };
    assert(text@ =~= seq![('0' as u32 + digit) as char]);
    text
}

/// Appends the decimal digits of a number to a text.
pub fn append_decimal(text: &mut String, number: u32)
    ensures
        final(text)@ == old(text)@ + decimal(number as nat),
    decreases number,
{
    if number >= 10 {
        append_decimal(text, number / 10);
    }
    text.append(digit_text(number % 10));
    assert(text@ =~= old(text)@ + decimal(number as nat));
}

/// Whether a text starts with a mark.
pub open spec fn starts_with(text: Seq<char>, mark: Seq<char>) -> bool {
    text.len() >= mark.len() && text.take(mark.len() as int) == mark
}

/// Whether a text ends with a mark.
pub open spec fn ends_with(text: Seq<char>, mark: Seq<char>) -> bool {
    text.len() >= mark.len() && text.skip(text.len() - mark.len()) == mark
}

/// A mark before or after a text is taken off, and a text without the mark is
/// left as it is.
pub proof fn law_marks_are_taken_off(mark: Seq<char>, text: Seq<char>)
    requires
        mark.len() > 0,
    ensures
        without_prefixes(mark + text, mark) == without_prefixes(text, mark),
        !starts_with(text, mark) ==> without_prefixes(text, mark) == text,
        without_suffixes(text + mark, mark) == without_suffixes(text, mark),
        !ends_with(text, mark) ==> without_suffixes(text, mark) == text,
{
    assert((mark + text).take(mark.len() as int) =~= mark);
    assert((mark + text).skip(mark.len() as int) =~= text);
    assert((text + mark).skip((text + mark).len() - mark.len()) =~= mark);
    assert((text + mark).take((text + mark).len() - mark.len()) =~= text);
}

/// Whether two characters are the same letter, one of them a capital.
pub open spec fn are_one_letter(capital: char, small: char) -> bool {
    'A' <= capital <= 'Z' && 'a' <= small <= 'z' && small as int - capital as int == 32
}

/// Texts are told apart by all but the case of ASCII letters.
pub proof fn law_only_the_case_of_letters_is_ignored(a: Seq<char>, b: Seq<char>)
    ensures
        same_ignoring_ascii_case(a, b) <==> a.len() == b.len() && forall|i: int|
            0 <= i < a.len() ==> #[trigger] a[i] == b[i] || are_one_letter(a[i], b[i])
                || are_one_letter(b[i], a[i]),
{
    let x = a.map_values(|c: char| ascii_lower(c));
    let y = b.map_values(|c: char| ascii_lower(c));
    if same_ignoring_ascii_case(a, b) {
        assert(x.len() == a.len() && y.len() == b.len());
        assert forall|i: int| 0 <= i < a.len() implies #[trigger] a[i] == b[i] || are_one_letter(
            a[i],
            b[i],
        ) || are_one_letter(b[i], a[i]) by {
            assert(x[i] == y[i]);
        }
    }
    if a.len() == b.len() && forall|i: int|
        0 <= i < a.len() ==> #[trigger] a[i] == b[i] || are_one_letter(a[i], b[i])
            || are_one_letter(b[i], a[i]) {
        assert forall|i: int| 0 <= i < a.len() implies x[i] == y[i] by {
            assert(a[i] == b[i] || are_one_letter(a[i], b[i]) || are_one_letter(b[i], a[i]));
        }
        assert(x =~= y);
    }
}

/// Only NULs are dropped from a text, only at its end, and all of them there.
pub proof fn law_only_trailing_nuls_are_dropped(text: Seq<char>)
    ensures
        without_trailing_nuls(text).len() <= text.len(),
        without_trailing_nuls(text) == text.take(without_trailing_nuls(text).len() as int),
        forall|i: int|
            without_trailing_nuls(text).len() <= i < text.len() ==> #[trigger] text[i] == '\0',
        without_trailing_nuls(text).len() > 0 ==> without_trailing_nuls(text).last() != '\0',
    decreases text.len(),
{
    if text.len() > 0 && text.last() == '\0' {
        law_only_trailing_nuls_are_dropped(text.drop_last());
        let rest = without_trailing_nuls(text);
        assert(text.take(rest.len() as int) =~= text.drop_last().take(rest.len() as int));
        assert forall|i: int| rest.len() <= i < text.len() implies #[trigger] text[i]
            == '\0' by {
            if i < text.len() - 1 {
                assert(text.drop_last()[i] == '\0');
            }
        }
    } else {
        assert(text.take(text.len() as int) =~= text);
    }
}

/// The number that decimal digits stand for.
pub open spec fn number_of(digits: Seq<char>) -> int
    decreases digits.len(),
{
    if digits.len() == 0 {
        0
    } else {
        10 * number_of(digits.drop_last()) + (digits.last() as int - '0' as int)
    }
}

/// The digits of a number stand for it. They are decimal, and no zero leads
/// them but where the number is zero.
pub proof fn law_digits_stand_for_their_number(number: nat)
    ensures
        number_of(decimal(number)) == number,
        decimal(number).len() > 0,
        forall|i: int| 0 <= i < decimal(number).len() ==> '0' <= #[trigger] decimal(number)[i]
            <= '9',
        number > 0 ==> decimal(number)[0] != '0',
        number == 0 ==> decimal(number).len() == 1,
    decreases number,
{
    let digits = decimal(number);
    if number < 10 {
        assert(digits.drop_last() =~= Seq::empty());
        assert(number_of(digits.drop_last()) == 0);
    } else {
        law_digits_stand_for_their_number(number / 10);
        assert(digits.drop_last() =~= decimal(number / 10));
        assert forall|i: int| 0 <= i < digits.len() implies '0' <= #[trigger] digits[i]
            <= '9' by {
            if i < digits.len() - 1 {
                assert(digits[i] == decimal(number / 10)[i]);
            }
        }
    }
}

} // verus!
