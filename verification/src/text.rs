//! Text helpers: decimal numbers, prefixes and suffixes.

use vstd::prelude::*;
use vstd::string::StrSliceExecFns;
use vstd::string::StringExecFns;

verus! {

/// The views of names.
pub open spec fn names_view(names: Seq<String>) -> Seq<Seq<char>> {
    names.map_values(|name: String| name@)
}

/// The text that is set, or the default where none is.
pub open spec fn set_or(value: Option<Seq<char>>, default: Seq<char>) -> Seq<char> {
    match value {
        Some(text) => text,
        None => default,
    }
}

/// The view of an optional text.
pub open spec fn opt_view(value: Option<String>) -> Option<Seq<char>> {
    match value {
        Some(text) => Some(text@),
        None => None,
    }
}

/// The text that is set, or the default where none is.
pub fn value_or(value: Option<String>, default: &str) -> (text: String)
    ensures
        text@ == set_or(opt_view(value), default@),
{
    match value {
        Some(text) => text,
        None => default.to_owned(),
    }
}

/// The decimal digit of a number below ten.
pub open spec fn digit_char(d: nat) -> char {
    (('0' as u32) + d) as char
}

/// The decimal notation of a number, without leading zeros.
pub open spec fn decimal(n: nat) -> Seq<char>
    decreases n,
{
    if n < 10 {
        seq![digit_char(n)]
    } else {
        decimal(n / 10).push(digit_char(n % 10))
    }
}

/// A run of zeros.
pub open spec fn zeros(count: nat) -> Seq<char> {
    Seq::new(count, |i: int| '0')
}

/// The decimal notation of a number, with leading zeros up to `width` digits.
pub open spec fn padded_decimal(n: nat, width: nat) -> Seq<char> {
    let digits = decimal(n);
    if digits.len() < width {
        zeros((width - digits.len()) as nat) + digits
    } else {
        digits
    }
}

/// Whether `s` begins with `prefix`.
pub open spec fn has_prefix(s: Seq<char>, prefix: Seq<char>) -> bool {
    prefix.len() <= s.len() && s.take(prefix.len() as int) == prefix
}

/// Whether `s` ends with `suffix`.
pub open spec fn has_suffix(s: Seq<char>, suffix: Seq<char>) -> bool {
    suffix.len() <= s.len() && s.skip(s.len() - suffix.len()) == suffix
}

/// `s` without `suffix` at its end, where it ends so.
pub open spec fn without_suffix(s: Seq<char>, suffix: Seq<char>) -> Seq<char> {
    if has_suffix(s, suffix) {
        s.take(s.len() - suffix.len())
    } else {
        s
    }
}

/// The text of one decimal digit.
fn digit_text(d: u64) -> (t: &'static str)
    requires
        d < 10,
    ensures
        t@ == seq![digit_char(d as nat)],
{
    proof {
        reveal_strlit("0");
        reveal_strlit("1");
        reveal_strlit("2");
        reveal_strlit("3");
        reveal_strlit("4");
        reveal_strlit("5");
        reveal_strlit("6");
        reveal_strlit("7");
        reveal_strlit("8");
        reveal_strlit("9");
    }
    let t: &'static str = match d {
        0 => "0",
        1 => "1",
        2 => "2",
        3 => "3",
        4 => "4",
        5 => "5",
        6 => "6",
        7 => "7",
        8 => "8",
        _ => "9",
    };
    assert(t@ =~= seq![digit_char(d as nat)]);
    t
}

/// Writes a number in decimal notation.
pub fn write_decimal(n: u64) -> (text: String)
    ensures
        text@ == decimal(n as nat),
    decreases n,
{
    if n < 10 {
        digit_text(n).to_owned()
    } else {
        let mut text = write_decimal(n / 10);
        text.append(digit_text(n % 10));
        assert(text@ =~= decimal(n as nat));
        text
    }
}

/// Writes a number in decimal notation, with leading zeros up to `width` digits.
pub fn write_padded(n: u64, width: usize) -> (text: String)
    ensures
        text@ == padded_decimal(n as nat, width as nat),
{
    let digits = write_decimal(n);
    let count = digits.as_str().unicode_len();
    if count >= width {
        return digits;
    }
    let mut text = String::new();
    let missing: usize = width - count;
    let mut i: usize = 0;
    while i < missing
        invariant
            i <= missing,
            text@ == zeros(i as nat),
        decreases missing - i,
    {
        proof {
            reveal_strlit("0");
        }
        text.append("0");
        i += 1;
        assert(text@ =~= zeros(i as nat));
    }
    text.append(digits.as_str());
    text
}

/// The characters of a text.
pub fn chars_of(s: &str) -> (chars: Vec<char>)
    ensures
        chars@ == s@,
{
    let mut chars: Vec<char> = Vec::new();
    for c in iter: s.chars()
        invariant
            iter.seq() == s@,
            chars@ == s@.take(iter.index() as int),
    {
        chars.push(c);
        assert(chars@ =~= s@.take(iter.index() + 1));
    }
    assert(s@.take(s@.len() as int) =~= s@);
    chars
}

/// Whether `needle` stands in `hay` at position `at`.
fn stands_at(hay: &Vec<char>, needle: &Vec<char>, at: usize) -> (r: bool)
    requires
        at + needle@.len() <= hay@.len(),
    ensures
        r == (hay@.subrange(at as int, at + needle@.len()) == needle@),
{
    let hay_len = hay.len();
    let mut i: usize = 0;
    while i < needle.len()
        invariant
            hay_len == hay@.len(),
            at + needle@.len() <= hay_len,
            i <= needle@.len(),
            forall|j: int| 0 <= j < i ==> hay@[at + j] == needle@[j],
        decreases needle@.len() - i,
    {
        if hay[at + i] != needle[i] {
            assert(hay@.subrange(at as int, at + needle@.len())[i as int] != needle@[i as int]);
            return false;
        }
        i += 1;
    }
    assert(hay@.subrange(at as int, at + needle@.len()) =~= needle@);
    true
}

/// Whether `s` begins with `prefix`.
pub fn starts_with(s: &str, prefix: &str) -> (r: bool)
    ensures
        r == has_prefix(s@, prefix@),
{
    let hay = chars_of(s);
    let needle = chars_of(prefix);
    needle.len() <= hay.len() && stands_at(&hay, &needle, 0)
}

/// Whether `s` ends with `suffix`.
pub fn ends_with(s: &str, suffix: &str) -> (r: bool)
    ensures
        r == has_suffix(s@, suffix@),
{
    let hay = chars_of(s);
    let needle = chars_of(suffix);
    if needle.len() <= hay.len() {
        let at: usize = hay.len() - needle.len();
        assert(hay@.subrange(at as int, at + needle@.len()) =~= hay@.skip(at as int));
        stands_at(&hay, &needle, at)
    } else {
        false
    }
}

/// How many names end with `suffix`.
pub open spec fn count_with_suffix(names: Seq<Seq<char>>, suffix: Seq<char>) -> nat {
    names.filter(|name: Seq<char>| has_suffix(name, suffix)).len()
}

/// How many names end with `suffix`.
pub fn count_suffix(names: &Vec<String>, suffix: &str) -> (count: u64)
    ensures
        count == count_with_suffix(names_view(names@), suffix@),
{
    let ghost all = names_view(names@);
    let ghost wanted = |name: Seq<char>| has_suffix(name, suffix@);
    let mut count: u64 = 0;
    let mut i: usize = 0;
    proof {
        reveal(Seq::filter);
        assert(all.take(0).filter(wanted).len() == 0);
    }
    while i < names.len()
        invariant
            i <= names@.len(),
            all == names_view(names@),
            wanted == (|name: Seq<char>| has_suffix(name, suffix@)),
            count == all.take(i as int).filter(wanted).len(),
            count <= i,
        decreases names@.len() - i,
    {
        proof {
            reveal(Seq::filter);
            assert(all.take(i + 1).drop_last() =~= all.take(i as int));
            assert(all.take(i + 1).last() == names@[i as int]@);
        }
        if ends_with(names[i].as_str(), suffix) {
            count = count + 1;
        }
        i += 1;
    }
    assert(all.take(all.len() as int) =~= all);
    count
}

/// `s` without `suffix` at its end, where it ends so.
pub fn strip_suffix(s: &str, suffix: &str) -> (r: String)
    ensures
        r@ == without_suffix(s@, suffix@),
{
    if ends_with(s, suffix) {
        let end: usize = s.unicode_len() - suffix.unicode_len();
        let stem = s.substring_char(0, end).to_owned();
        assert(stem@ =~= s@.take(end as int));
        stem
    } else {
        s.to_owned()
    }
}

/// Whether a character is a decimal digit.
pub open spec fn is_digit(c: char) -> bool {
    '0' <= c <= '9'
}

/// Whether every character is a decimal digit.
pub open spec fn all_digits(s: Seq<char>) -> bool {
    forall|i: int| 0 <= i < s.len() ==> is_digit(#[trigger] s[i])
}

/// The number that a run of decimal digits denotes.
pub open spec fn digits_value(s: Seq<char>) -> nat
    decreases s.len(),
{
    if s.len() == 0 {
        0
    } else {
        digits_value(s.drop_last()) * 10 + (s.last() as nat - '0' as nat) as nat
    }
}

/// The number that a text denotes: decimal digits, at least one, after an optional plus sign,
/// with a value that a `usize` holds.
pub open spec fn parsed_usize(s: Seq<char>) -> Option<usize> {
    let digits = if s.len() > 0 && s[0] == '+' { s.skip(1) } else { s };
    if digits.len() > 0 && all_digits(digits) && digits_value(digits) <= usize::MAX {
        Some(digits_value(digits) as usize)
    } else {
        None
    }
}

/// A longer run of digits denotes no smaller number.
proof fn lemma_digits_value_grows(s: Seq<char>, k: int)
    requires
        0 <= k <= s.len(),
    ensures
        digits_value(s.take(k)) <= digits_value(s),
    decreases s.len() - k,
{
    if k < s.len() {
        lemma_digits_value_grows(s, k + 1);
        assert(s.take(k + 1).drop_last() =~= s.take(k));
    } else {
        assert(s.take(k) =~= s);
    }
}

/// Reads a decimal number: digits, at least one, after an optional plus sign.
pub fn parse_usize(s: &str) -> (r: Option<usize>)
    ensures
        r == parsed_usize(s@),
{
    let chars = chars_of(s);
    let start: usize = if chars.len() > 0 && chars[0] == '+' { 1 } else { 0 };
    let ghost digits = s@.skip(start as int);
    assert(s@.skip(0) =~= s@);
    if start == chars.len() {
        return None;
    }
    let mut value: usize = 0;
    let mut i: usize = start;
    assert(digits.take(0) =~= Seq::<char>::empty());
    while i < chars.len()
        invariant
            chars@ == s@,
            start <= i <= chars@.len(),
            digits == s@.skip(start as int),
            digits.len() > 0,
            parsed_usize(s@) == (if all_digits(digits) && digits_value(digits) <= usize::MAX {
                Some(digits_value(digits) as usize)
            } else {
                None
            }),
            forall|j: int| 0 <= j < i - start ==> is_digit(#[trigger] digits[j]),
            value == digits_value(digits.take(i - start)),
        decreases chars@.len() - i,
    {
        let c = chars[i];
        let ghost k = i - start;
        assert(digits[k] == c);
        if c < '0' || c > '9' {
            assert(!is_digit(digits[k]));
            return None;
        }
        let d: usize = (c as u32 - '0' as u32) as usize;
        proof {
            lemma_digits_value_grows(digits, k + 1);
            assert(digits.take(k + 1).drop_last() =~= digits.take(k));
        }
        if value > usize::MAX / 10 || value * 10 > usize::MAX - d {
            return None;
        }
        value = value * 10 + d;
        i += 1;
    }
    assert(digits.take(digits.len() as int) =~= digits);
    Some(value)
}

/// The decimal notation of a number has digits only and denotes the number.
pub proof fn lemma_decimal_denotes(n: nat)
    ensures
        all_digits(decimal(n)),
        digits_value(decimal(n)) == n,
    decreases n,
{
    reveal_with_fuel(digits_value, 2);
    if n < 10 {
        assert(decimal(n).drop_last() =~= Seq::<char>::empty());
    } else {
        lemma_decimal_denotes(n / 10);
        assert(decimal(n).drop_last() =~= decimal(n / 10));
        assert forall|i: int| 0 <= i < decimal(n).len() implies is_digit(#[trigger] decimal(n)[i]) by {
            if i < decimal(n / 10).len() {
                assert(decimal(n)[i] == decimal(n / 10)[i]);
            }
        }
    }
}

/// Leading zeros do not change the number that digits denote.
proof fn lemma_leading_zeros(count: nat, s: Seq<char>)
    ensures
        digits_value(zeros(count) + s) == digits_value(s),
    decreases s.len(), count,
{
    if s.len() > 0 {
        assert((zeros(count) + s).drop_last() =~= zeros(count) + s.drop_last());
        lemma_leading_zeros(count, s.drop_last());
    } else if count > 0 {
        assert(zeros(count) + s =~= zeros(count));
        assert(zeros(count).drop_last() =~= zeros((count - 1) as nat));
        assert(zeros((count - 1) as nat) + s =~= zeros((count - 1) as nat));
        lemma_leading_zeros((count - 1) as nat, s);
    } else {
        assert(zeros(count) + s =~= s);
    }
}

/// The padded notation of a number has digits only and denotes the number.
pub proof fn lemma_padded_denotes(n: nat, width: nat)
    ensures
        all_digits(padded_decimal(n, width)),
        digits_value(padded_decimal(n, width)) == n,
{
    lemma_decimal_denotes(n);
    let digits = decimal(n);
    if digits.len() < width {
        let count = (width - digits.len()) as nat;
        lemma_leading_zeros(count, digits);
        assert forall|i: int| 0 <= i < padded_decimal(n, width).len() implies is_digit(
            #[trigger] padded_decimal(n, width)[i],
        ) by {
            if i >= count {
                assert(padded_decimal(n, width)[i] == digits[i - count]);
            }
        }
    }
}

/// Decimal digits denote the number they were written for, hold nothing but digits, and start
/// with a zero only for zero itself. Padded to a width they denote the same number, are at least
/// that wide, and are wider only if the digits are.
pub proof fn law_decimals_denote_their_number(n: nat, width: nat)
    ensures
        all_digits(decimal(n)),
        digits_value(decimal(n)) == n,
        decimal(n).len() > 0,
        n > 0 ==> decimal(n)[0] != '0',
        all_digits(padded_decimal(n, width)),
        digits_value(padded_decimal(n, width)) == n,
        padded_decimal(n, width).len() == if decimal(n).len() < width {
            width
        } else {
            decimal(n).len()
        },
{
    lemma_decimal_denotes(n);
    lemma_padded_denotes(n, width);
    lemma_decimal_leads(n);
}

/// A number above zero is not written with a leading zero.
proof fn lemma_decimal_leads(n: nat)
    ensures
        decimal(n).len() > 0,
        n > 0 ==> decimal(n)[0] != '0',
    decreases n,
{
    if n >= 10 {
        lemma_decimal_leads(n / 10);
        assert(decimal(n)[0] == decimal(n / 10)[0]);
    }
}

/// Parsing a number gives back what was written, with or without a plus sign, for every number
/// that fits. What parses is digits, after a plus sign at most, and has their value.
pub proof fn law_parsing_reads_what_was_written(n: usize, s: Seq<char>)
    ensures
        parsed_usize(decimal(n as nat)) == Some(n),
        parsed_usize(seq!['+'] + decimal(n as nat)) == Some(n),
        parsed_usize(s) == Some(n) ==> s.len() > 0 && (all_digits(s) && digits_value(s) == n || s[0]
            == '+' && s.len() > 1 && all_digits(s.skip(1)) && digits_value(s.skip(1)) == n),
        parsed_usize(s) is None && s.len() > 0 && all_digits(s) ==> digits_value(s) > usize::MAX,
{
    lemma_decimal_denotes(n as nat);
    lemma_decimal_leads(n as nat);
    let digits = decimal(n as nat);
    assert(is_digit(digits[0]));
    assert((seq!['+'] + digits).skip(1) =~= digits);
    if s.len() > 0 && all_digits(s) {
        assert(is_digit(s[0]));
    }
}

/// A text has a suffix exactly if it is something followed by it; taking the suffix off gives
/// that back, and leaves a text without the suffix as it is. The same of a prefix.
pub proof fn law_suffixes_come_last(s: Seq<char>, front: Seq<char>, end: Seq<char>)
    ensures
        has_suffix(front + end, end),
        without_suffix(front + end, end) == front,
        has_suffix(s, end) ==> without_suffix(s, end) + end == s,
        !has_suffix(s, end) ==> without_suffix(s, end) == s,
        has_prefix(front + end, front),
        has_prefix(s, front) ==> s == front + s.skip(front.len() as int),
{
    assert((front + end).skip(front.len() as int) =~= end);
    assert((front + end).take(front.len() as int) =~= front);
    if has_suffix(s, end) {
        let n = s.len() - end.len();
        assert(s.take(n) + s.skip(n) =~= s);
    }
    if has_prefix(s, front) {
        assert(s.take(front.len() as int) + s.skip(front.len() as int) =~= s);
    }
}

/// A value that is set is taken as it is, even an empty one; the default stands in only for one
/// that is not set.
pub proof fn law_set_values_win(value: Option<String>, default: &str, taken: String)
    requires
        call_ensures(value_or, (value, default), taken),
    ensures
        value matches Some(text) ==> taken@ == text@,
        value is None ==> taken@ == default@,
{
}

/// How many names have a suffix, with one name more.
pub proof fn lemma_count_grows(names: Seq<String>, more: Seq<String>, suffix: Seq<char>)
    requires
        more.len() == names.len() + 1,
        more.take(names.len() as int) == names,
    ensures
        count_with_suffix(names_view(more), suffix) == count_with_suffix(names_view(names), suffix)
            + (if has_suffix(more.last()@, suffix) {
            1int
        } else {
            0int
        }),
        names.len() == 0 ==> count_with_suffix(names_view(names), suffix) == 0,
{
    reveal(Seq::filter);
    assert(names_view(more).drop_last() =~= names_view(names)) by {
        assert forall|i: int| 0 <= i < names.len() implies names_view(more)[i] == names_view(
            names,
        )[i] by {
            assert(more.take(names.len() as int)[i] == more[i]);
        }
    }
    assert(names_view(more).last() == more.last()@);
}

} // verus!
