//! Text: prefixes, letter case, UTF-8 and numbers.

use vstd::prelude::*;
use vstd::std_specs::iter::IteratorSpec;
use vstd::utf8::*;

verus! {

broadcast use vstd::string::group_string_axioms;

/// The upper case form of an ASCII letter; any other character is kept.
pub open spec fn ascii_upper(c: char) -> char {
    if 'a' <= c && c <= 'z' {
        (c as u32 - 32) as char
    } else {
        c
    }
}

/// The lower case form of an ASCII letter; any other character is kept.
pub open spec fn ascii_lower(c: char) -> char {
    if 'A' <= c && c <= 'Z' {
        (c as u32 + 32) as char
    } else {
        c
    }
}

/// What `str::to_uppercase` makes of a text that holds a character outside
/// ASCII: the mapping of the Unicode character database.
pub uninterp spec fn unicode_uppercase(s: Seq<char>) -> Seq<char>;

/// What `str::to_lowercase` makes of a text that holds a character outside
/// ASCII: the mapping of the Unicode character database.
pub uninterp spec fn unicode_lowercase(s: Seq<char>) -> Seq<char>;

/// The upper case form of a text.
pub open spec fn uppercase(s: Seq<char>) -> Seq<char> {
    if is_ascii_chars(s) {
        s.map_values(|c: char| ascii_upper(c))
    } else {
        unicode_uppercase(s)
    }
}

/// How many ASCII characters a text begins with.
pub open spec fn ascii_start(s: Seq<char>) -> nat
    decreases s.len(),
{
    if s.len() > 0 && s[0] <= '\u{7f}' {
        1 + ascii_start(s.skip(1))
    } else {
        0
    }
}

/// An ASCII text with its letters in lower case.
pub open spec fn ascii_lowercase(s: Seq<char>) -> Seq<char> {
    s.map_values(|c: char| ascii_lower(c))
}

/// The lower case form of a text. The ASCII characters that it begins with keep
/// their places whatever follows them.
pub open spec fn lowercase(s: Seq<char>) -> Seq<char> {
    if is_ascii_chars(s) {
        ascii_lowercase(s)
    } else {
        let n = ascii_start(s) as int;
        ascii_lowercase(s.take(n)) + unicode_lowercase(s).skip(n)
    }
}

proof fn lemma_ascii_start(s: Seq<char>, n: int)
    requires
        0 <= n <= s.len(),
        is_ascii_chars(s.take(n)),
    ensures
        n <= ascii_start(s) <= s.len(),
    decreases s.len(),
{
    if s.len() > 0 && s[0] <= '\u{7f}' {
        let rest = s.skip(1);
        let m = if n > 0 {
            n - 1
        } else {
            0
        };
        assert forall|i: int| 0 <= i < m implies '\0' <= #[trigger] rest.take(m)[i] <= '\u{7f}' by {
            assert(rest.take(m)[i] == s.take(n)[i + 1]);
        }
        lemma_ascii_start(rest, m);
    } else if n > 0 {
        assert(s.take(n)[0] == s[0]);
    }
}

/// Whether a text begins with an ASCII text where the case of letters does not
/// count is decided by as many characters as that has, where those are ASCII
/// too, whatever follows them.
pub proof fn law_ascii_start_decides(s: Seq<char>, start: Seq<char>)
    requires
        is_ascii_chars(start),
        start.len() <= s.len(),
        is_ascii_chars(s.take(start.len() as int)),
    ensures
        lowercase(start).is_prefix_of(lowercase(s)) <==> ascii_lowercase(start)
            == ascii_lowercase(s.take(start.len() as int)),
{
    let n = start.len() as int;
    let lower = lowercase(s);
    if is_ascii_chars(s) {
        assert(lower.take(n) =~= ascii_lowercase(s.take(n)));
    } else {
        lemma_ascii_start(s, n);
        let m = ascii_start(s) as int;
        assert(lower.take(n) =~= ascii_lowercase(s.take(n))) by {
            assert(s.take(m).take(n) =~= s.take(n));
        }
    }
    assert(lowercase(start) == ascii_lowercase(start));
    if lowercase(start).is_prefix_of(lower) {
        assert(ascii_lowercase(start) =~= lower.take(n));
    }
    if ascii_lowercase(start) == ascii_lowercase(s.take(n)) {
        assert(lower.take(n) =~= lowercase(start));
        assert(lowercase(start).is_prefix_of(lower));
    }
}

/// `str::to_uppercase`. An ASCII text has its letters `a` to `z` replaced by
/// `A` to `Z` and nothing else changed; for any other text the result is what
/// Unicode's upper case mapping gives, which has a name here and no more.
#[verifier::external_body]
pub(crate) fn to_uppercase(s: &str) -> (res: String)
    ensures
        res@ == if is_ascii_chars(s@) {
            s@.map_values(|c: char| ascii_upper(c))
        } else {
            unicode_uppercase(s@)
        },
{
    s.to_uppercase()
}

/// `str::to_lowercase`. An ASCII text has its letters `A` to `Z` replaced by
/// `a` to `z` and nothing else changed. So have the ASCII characters that any
/// other text begins with, each of which is mapped to one character. Of the rest
/// of such a text nothing is said but that it is what Unicode's lower case
/// mapping gives for the whole text, which has a name here.
#[verifier::external_body]
pub(crate) fn to_lowercase(s: &str) -> (res: String)
    ensures
        res@ == if is_ascii_chars(s@) {
            ascii_lowercase(s@)
        } else {
            let n = ascii_start(s@) as int;
            ascii_lowercase(s@.take(n)) + unicode_lowercase(s@).skip(n)
        },
{
    s.to_lowercase()
}

/// Whether `s` begins with `prefix`.
pub fn starts_with(s: &str, prefix: &str) -> (res: bool)
    ensures
        res == prefix@.is_prefix_of(s@),
{
    let mut expected = prefix.chars();
    let mut given = s.chars();
    let ghost mut done: int = 0;
    loop
        invariant
            0 <= done <= prefix@.len(),
            done <= s@.len(),
            expected.remaining() == prefix@.skip(done),
            given.remaining() == s@.skip(done),
            prefix@.take(done) == s@.take(done),
        decreases prefix@.len() - done,
    {
        match expected.next() {
            None => {
                return true;
            },
            Some(c) => {
                match given.next() {
                    Some(d) => {
                        if c != d {
                            return false;
                        }
                    },
                    None => {
                        return false;
                    },
                }
            },
        }
        proof {
            assert(prefix@.take(done + 1) =~= prefix@.take(done).push(prefix@[done]));
            assert(s@.take(done + 1) =~= s@.take(done).push(s@[done]));
            done = done + 1;
        }
    }
}

/// Whether two texts are the same.
pub fn same_text(a: &str, b: &str) -> (res: bool)
    ensures
        res == (a@ == b@),
{
    let res = starts_with(a, b) && starts_with(b, a);
    assert(res ==> a@ =~= b@);
    res
}

/// A value that is a text.
pub trait Text {
    /// The characters of the text.
    spec fn text(&self) -> Seq<char>;

    /// The text.
    fn as_text(&self) -> (res: &str)
        ensures
            res@ == self.text(),
    ;
}

impl Text for String {
    open spec fn text(&self) -> Seq<char> {
        self@
    }

    fn as_text(&self) -> (res: &str) {
        self.as_str()
    }
}

impl Text for &str {
    open spec fn text(&self) -> Seq<char> {
        self@
    }

    fn as_text(&self) -> (res: &str) {
        self
    }
}

/// `str::from_utf8`: text exactly where the bytes are well-formed UTF-8, and
/// then the text that they encode.
#[verifier::external_body]
pub(crate) fn utf8_text(bytes: &[u8]) -> (res: Option<&str>)
    ensures
        res is Some <==> valid_utf8(bytes@),
        res matches Some(s) ==> s@ == decode_utf8(bytes@),
{
    std::str::from_utf8(bytes).ok()
}

/// The value of a digit, with the letters `a` to `z` of either case standing
/// for 10 to 35; `None` for any other character.
pub open spec fn digit_value(c: char) -> Option<nat> {
    if '0' <= c && c <= '9' {
        Some((c as u32 - '0' as u32) as nat)
    } else if 'a' <= c && c <= 'z' {
        Some((c as u32 - 'a' as u32 + 10) as nat)
    } else if 'A' <= c && c <= 'Z' {
        Some((c as u32 - 'A' as u32 + 10) as nat)
    } else {
        None
    }
}

/// Whether `c` is a digit in base `radix`.
pub open spec fn is_digit(c: char, radix: nat) -> bool {
    digit_value(c) matches Some(v) && v < radix
}

/// The number that a row of digits stands for, the most significant first.
pub open spec fn digits_value(s: Seq<char>, radix: nat) -> nat
    decreases s.len(),
{
    if s.len() == 0 {
        0
    } else {
        digits_value(s.drop_last(), radix) * radix + digit_value(s.last()).unwrap_or(0)
    }
}

/// The number that a text denotes in base `radix`: an optional `+`, then one
/// or more digits and nothing else.
pub open spec fn number_value(s: Seq<char>, radix: nat) -> Option<nat> {
    let digits = if s.len() > 0 && s[0] == '+' {
        s.skip(1)
    } else {
        s
    };
    if digits.len() > 0 && forall|i: int|
        0 <= i < digits.len() ==> is_digit(#[trigger] digits[i], radix) {
        Some(digits_value(digits, radix))
    } else {
        None
    }
}

/// The number that a text denotes in base `radix`, where a `usize` can hold it.
pub open spec fn usize_value(s: Seq<char>, radix: nat) -> Option<usize> {
    match number_value(s, radix) {
        Some(n) => if n <= usize::MAX {
            Some(n as usize)
        } else {
            None
        },
        None => None,
    }
}

/// `usize::from_str_radix`, which `str::parse` uses in base 10: the number
/// that the text denotes, and an error where it denotes none or one that a
/// `usize` cannot hold.
#[verifier::external_body]
pub(crate) fn usize_from_text(s: &str, radix: u32) -> (res: Option<usize>)
    requires
        2 <= radix <= 36,
    ensures
        res == usize_value(s@, radix as nat),
{
    usize::from_str_radix(s, radix).ok()
}

/// The decimal digits of a number, without leading zeros.
pub open spec fn decimal(n: nat) -> Seq<char>
    decreases n,
{
    if n < 10 {
        seq![(n as u32 + '0' as u32) as char]
    } else {
        decimal(n / 10).push(((n % 10) as u32 + '0' as u32) as char)
    }
}

/// The text of one decimal digit.
fn digit_text(d: usize) -> (res: &'static str)
    requires
        d < 10,
    ensures
        res@ =~= seq![(d as u32 + '0' as u32) as char],
{
    proof {
        reveal_strlit("0");
        reveal_strlit("1");
        reveal_strlit("2");
        reveal_strlit("3");
        reveal_strlit("4");
        reveal_strlit("5");
        reveal_strlit("6");
        reveal_strlit("7");
        reveal_strlit("8");
        reveal_strlit("9");
    }
    match d {
        0 => "0",
        1 => "1",
        2 => "2",
        3 => "3",
        4 => "4",
        5 => "5",
        6 => "6",
        7 => "7",
        8 => "8",
        _ => "9",
    }
}

/// Writes a number in decimal.
pub fn decimal_text(n: usize) -> (res: String)
    ensures
        res@ == decimal(n as nat),
    decreases n,
{
    let mut res = if n < 10 {
        String::new()
    } else {
        decimal_text(n / 10)
    };
    res.append(digit_text(n % 10));
    proof {
        if n < 10 {
            assert(res@ =~= decimal(n as nat));
        } else {
            assert(res@ =~= decimal(n as nat / 10).push(((n % 10) as u32 + '0' as u32) as char));
        }
    }
    res
}

/// A number written in decimal reads back as itself.
pub proof fn law_decimal_reads_back(n: nat)
    ensures
        number_value(decimal(n), 10) == Some(n),
{
    lemma_decimal_digits(n);
}

proof fn lemma_decimal_digits(n: nat)
    ensures
        decimal(n).len() > 0,
        forall|i: int| 0 <= i < decimal(n).len() ==> is_digit(#[trigger] decimal(n)[i], 10),
        decimal(n)[0] != '+',
        digits_value(decimal(n), 10) == n,
    decreases n,
{
    let s = decimal(n);
    if n < 10 {
        reveal_with_fuel(digits_value, 2);
        assert(s.drop_last() =~= Seq::<char>::empty());
    } else {
        lemma_decimal_digits(n / 10);
        assert(s.drop_last() =~= decimal(n / 10));
        assert(s.last() == ((n % 10) as u32 + '0' as u32) as char);
    }
}

/// A number is written in the digits from 0 to 9 alone, without a sign and
/// without leading zeros.
pub proof fn law_decimal_is_plain(n: nat)
    ensures
        decimal(n).len() > 0,
        forall|i: int| 0 <= i < decimal(n).len() ==> '0' <= #[trigger] decimal(n)[i] <= '9',
        n > 0 ==> decimal(n)[0] != '0',
        n == 0 ==> decimal(n) == seq!['0'],
    decreases n,
{
    if n >= 10 {
        law_decimal_is_plain(n / 10);
    }
}

/// Of an ASCII text every character keeps its place. In upper case the letters
/// from `a` to `z` become those from `A` to `Z`, in lower case those from `A` to
/// `Z` become those from `a` to `z`, and every other character is kept.
pub proof fn law_letters_change_case(s: Seq<char>, i: int)
    requires
        is_ascii_chars(s),
        0 <= i < s.len(),
    ensures
        uppercase(s).len() == s.len(),
        lowercase(s).len() == s.len(),
        97 <= s[i] as u32 <= 122 ==> uppercase(s)[i] as u32 == s[i] as u32 - 32,
        !(97 <= s[i] as u32 <= 122) ==> uppercase(s)[i] == s[i],
        65 <= s[i] as u32 <= 90 ==> lowercase(s)[i] as u32 == s[i] as u32 + 32,
        !(65 <= s[i] as u32 <= 90) ==> lowercase(s)[i] == s[i],
{
}

/// A text outside ASCII is put in upper case as Unicode has it.
pub proof fn law_other_letters_change_case(s: Seq<char>)
    requires
        !is_ascii_chars(s),
    ensures
        uppercase(s) == unicode_uppercase(s),
{
}

/// A value that is a text is all of that text.
pub proof fn law_texts_are_whole(owned: String, borrowed: &str)
    ensures
        owned.text() == owned@,
        borrowed.text() == borrowed@,
{
}

} // verus!
