//! Text and byte-string helpers: comparison, trimming, splitting, decimal numbers, UTF-8.

use vstd::prelude::*;
use vstd::string::*;
use vstd::utf8::*;

verus! {

// ---------------------------------------------------------------------------------------------
// Comparison
// ---------------------------------------------------------------------------------------------

/// Whether two byte strings hold the same bytes.
pub fn same_bytes(a: &[u8], b: &[u8]) -> (same: bool)
    ensures
        same == (a@ == b@),
{
    if a.len() != b.len() {
        return false;
    }
    let mut i: usize = 0;
    while i < a.len()
        invariant
            a@.len() == b@.len(),
            i <= a@.len(),
            forall|j: int| 0 <= j < i ==> a@[j] == b@[j],
        decreases a@.len() - i,
    {
        if a[i] != b[i] {
            return false;
        }
        i += 1;
    }
    assert(a@ =~= b@);
    true
}

/// Whether two strings hold the same characters.
pub fn same_text(a: &str, b: &str) -> (same: bool)
    ensures
        same == (a@ == b@),
{
    proof {
        encode_utf8_decode_utf8(a@);
        encode_utf8_decode_utf8(b@);
    }
    same_bytes(a.as_bytes(), b.as_bytes())
}

/// The characters of a list of strings.
pub open spec fn strings_view(list: Seq<String>) -> Seq<Seq<char>> {
    list.map_values(|s: String| s@)
}

// ---------------------------------------------------------------------------------------------
// Splitting and trimming
// ---------------------------------------------------------------------------------------------

/// Calls [`str::split_once`] with a set of delimiters.
///
/// Claims what its documentation says: the string is cut at the first character that is one of
/// `delims`, that character belongs to neither half, and there is no cut exactly when no
/// character is one of `delims`.
#[verifier::external_body]
pub(crate) fn split_once<'a>(s: &'a str, delims: &[char]) -> (halves: Option<(&'a str, &'a str)>)
    ensures
        match halves {
            Some((before, after)) => {
                &&& before@.len() < s@.len()
                &&& before@ == s@.take(before@.len() as int)
                &&& after@ == s@.skip(before@.len() as int + 1)
                &&& delims@.contains(s@[before@.len() as int])
                &&& forall|i: int| 0 <= i < before@.len() ==> !delims@.contains(#[trigger] s@[i])
            },
            None => forall|i: int| 0 <= i < s@.len() ==> !delims@.contains(#[trigger] s@[i]),
        },
{
    s.split_once(delims)
}

/// Calls [`str::strip_suffix`].
///
/// Claims what its documentation says: the string without the suffix where it ends with it, and
/// nothing where it does not.
#[verifier::external_body]
pub(crate) fn strip_suffix<'a>(s: &'a str, suffix: &str) -> (rest: Option<&'a str>)
    ensures
        match rest {
            Some(r) => s@ == r@ + suffix@,
            None => !has_suffix(s@, suffix@),
        },
{
    s.strip_suffix(suffix)
}

/// Whether `s` ends with `suffix`.
pub open spec fn has_suffix(s: Seq<char>, suffix: Seq<char>) -> bool {
    suffix.len() <= s.len() && s.skip(s.len() - suffix.len()) == suffix
}

/// The characters with Unicode's `White_Space` property.
pub open spec fn is_white_space(c: char) -> bool {
    let u = c as u32;
    ||| 0x9 <= u <= 0xd
    ||| u == 0x20
    ||| u == 0x85
    ||| u == 0xa0
    ||| u == 0x1680
    ||| 0x2000 <= u <= 0x200a
    ||| u == 0x2028
    ||| u == 0x2029
    ||| u == 0x202f
    ||| u == 0x205f
    ||| u == 0x3000
}

/// `s` without the white space that it starts with.
pub open spec fn trim_start(s: Seq<char>) -> Seq<char>
    decreases s.len(),
{
    if s.len() > 0 && is_white_space(s[0]) {
        trim_start(s.skip(1))
    } else {
        s
    }
}

/// `s` without the white space that it ends with.
pub open spec fn trim_end(s: Seq<char>) -> Seq<char>
    decreases s.len(),
{
    if s.len() > 0 && is_white_space(s.last()) {
        trim_end(s.drop_last())
    } else {
        s
    }
}

/// `s` without the white space at either end.
pub open spec fn trimmed(s: Seq<char>) -> Seq<char> {
    trim_end(trim_start(s))
}

proof fn lemma_trim_start(s: Seq<char>)
    ensures
        trim_start(s).len() <= s.len(),
        trim_start(s) == s.skip(s.len() - trim_start(s).len()),
        trim_start(s).len() > 0 ==> !is_white_space(trim_start(s)[0]),
    decreases s.len(),
{
    if s.len() > 0 && is_white_space(s[0]) {
        lemma_trim_start(s.skip(1));
        let n = trim_start(s).len();
        assert(s.skip(1).skip(s.skip(1).len() - n) =~= s.skip(s.len() - n));
    } else {
        assert(s.skip(0) =~= s);
    }
}

proof fn lemma_trim_end(s: Seq<char>)
    ensures
        trim_end(s).len() <= s.len(),
        trim_end(s) == s.take(trim_end(s).len() as int),
        trim_end(s).len() > 0 ==> !is_white_space(trim_end(s).last()),
    decreases s.len(),
{
    if s.len() > 0 && is_white_space(s.last()) {
        lemma_trim_end(s.drop_last());
        let n = trim_end(s).len() as int;
        assert(s.drop_last().take(n) =~= s.take(n));
    } else {
        assert(s.take(s.len() as int) =~= s);
    }
}

/// What is left of a text without the white space around it is a part of the text that neither
/// starts nor ends with white space.
pub proof fn lemma_trimmed(s: Seq<char>)
    ensures
        exists|start: int, end: int|
            0 <= start <= end <= s.len() && trimmed(s) == #[trigger] s.subrange(start, end),
        trimmed(s).len() > 0 ==> !is_white_space(trimmed(s)[0]) && !is_white_space(
            trimmed(s).last(),
        ),
        trimmed(trimmed(s)) == trimmed(s),
{
    let t = trim_start(s);
    lemma_trim_start(s);
    lemma_trim_end(t);
    let n = trim_end(t).len() as int;
    let start = s.len() - t.len();
    assert(t.take(n) =~= s.subrange(start, start + n));
}

/// White space around a text is not left of it.
pub proof fn lemma_trimmed_blanks(left: Seq<char>, s: Seq<char>, right: Seq<char>)
    requires
        forall|i: int| 0 <= i < left.len() ==> is_white_space(#[trigger] left[i]),
        forall|i: int| 0 <= i < right.len() ==> is_white_space(#[trigger] right[i]),
    ensures
        trimmed(left + s + right) == trimmed(s),
{
    assert(left + s + right =~= left + (s + right));
    lemma_trim_start_blanks(left, s + right);
    lemma_trim_both(s, right);
}

proof fn lemma_trim_start_blanks(left: Seq<char>, s: Seq<char>)
    requires
        forall|i: int| 0 <= i < left.len() ==> is_white_space(#[trigger] left[i]),
    ensures
        trim_start(left + s) == trim_start(s),
    decreases left.len(),
{
    if left.len() == 0 {
        assert(left + s =~= s);
    } else {
        let rest = left.skip(1);
        assert forall|i: int| 0 <= i < rest.len() implies is_white_space(#[trigger] rest[i]) by {
            assert(is_white_space(left[i + 1]));
        }
        assert(is_white_space(left[0]));
        lemma_trim_start_blanks(rest, s);
        assert((left + s).skip(1) =~= rest + s);
    }
}

proof fn lemma_trim_end_blanks(s: Seq<char>, right: Seq<char>)
    requires
        forall|i: int| 0 <= i < right.len() ==> is_white_space(#[trigger] right[i]),
    ensures
        trim_end(s + right) == trim_end(s),
    decreases right.len(),
{
    if right.len() == 0 {
        assert(s + right =~= s);
    } else {
        let rest = right.drop_last();
        assert forall|i: int| 0 <= i < rest.len() implies is_white_space(#[trigger] rest[i]) by {
            assert(is_white_space(right[i]));
        }
        assert(is_white_space(right[right.len() - 1]));
        lemma_trim_end_blanks(s, rest);
        assert((s + right).drop_last() =~= s + rest);
    }
}

proof fn lemma_trim_both(s: Seq<char>, right: Seq<char>)
    requires
        forall|i: int| 0 <= i < right.len() ==> is_white_space(#[trigger] right[i]),
    ensures
        trimmed(s + right) == trimmed(s),
    decreases s.len(),
{
    if s.len() == 0 {
        let none = Seq::<char>::empty();
        assert(s =~= none);
        assert(s + right =~= right);
        assert(right + none =~= right);
        lemma_trim_start_blanks(right, none);
    } else if is_white_space(s[0]) {
        lemma_trim_both(s.skip(1), right);
        assert((s + right).skip(1) =~= s.skip(1) + right);
    } else {
        lemma_trim_end_blanks(s, right);
    }
}

/// Calls [`str::trim`].
///
/// Claims what its documentation says: leading and trailing characters with the Unicode property
/// `White_Space` are left out, and nothing else.
#[verifier::external_body]
pub(crate) fn trim(s: &str) -> (t: &str)
    ensures
        t@ == trimmed(s@),
{
    s.trim()
}

// ---------------------------------------------------------------------------------------------
// Decimal numbers
// ---------------------------------------------------------------------------------------------

/// The decimal digit of value `d`.
pub open spec fn digit_char(d: nat) -> char {
    (0x30 + d) as char
}

/// `n` in decimal, without leading zeros.
pub open spec fn decimal(n: nat) -> Seq<char>
    decreases n,
{
    if n < 10 {
        seq![digit_char(n)]
    } else {
        decimal(n / 10).push(digit_char(n % 10))
    }
}

fn digit_text(d: u64) -> (t: &'static str)
    requires
        d < 10,
    ensures
        t@ == seq![digit_char(d as nat)],
{
    proof {
        reveal_strlit("0");
        reveal_strlit("1");
        reveal_strlit("2");
        reveal_strlit("3");
        reveal_strlit("4");
        reveal_strlit("5");
        reveal_strlit("6");
        reveal_strlit("7");
        reveal_strlit("8");
        reveal_strlit("9");
    }
    if d == 0 {
        "0"
    } else if d == 1 {
        "1"
    } else if d == 2 {
        "2"
    } else if d == 3 {
        "3"
    } else if d == 4 {
        "4"
    } else if d == 5 {
        "5"
    } else if d == 6 {
        "6"
    } else if d == 7 {
        "7"
    } else if d == 8 {
        "8"
    } else {
        "9"
    }
}

/// `n` in decimal.
pub fn decimal_string(n: u64) -> (text: String)
    ensures
        text@ == decimal(n as nat),
    decreases n,
{
    if n < 10 {
        digit_text(n).to_string()
    } else {
        let mut text = decimal_string(n / 10);
        text.append(digit_text(n % 10));
        text
    }
}

/// Why a text is not an unsigned number.
#[derive(Debug, Clone, Copy, PartialEq, Eq, Structural)]
pub enum IntError {
    /// There is no text.
    Empty,
    /// A character is no digit, or a sign stands alone.
    InvalidDigit,
    /// The number is over the limit.
    PosOverflow,
}

/// What is said of an [`IntError`].
pub open spec fn int_error_text(error: IntError) -> Seq<char> {
    match error {
        IntError::Empty => "cannot parse integer from empty string"@,
        IntError::InvalidDigit => "invalid digit found in string"@,
        IntError::PosOverflow => "number too large to fit in target type"@,
    }
}

impl IntError {
    /// What is said of the error.
    pub fn message(self) -> (text: &'static str)
        ensures
            text@ == int_error_text(self),
    {
        match self {
            IntError::Empty => "cannot parse integer from empty string",
            IntError::InvalidDigit => "invalid digit found in string",
            IntError::PosOverflow => "number too large to fit in target type",
        }
    }
}

pub open spec fn is_digit(c: char) -> bool {
    '0' <= c && c <= '9'
}

pub open spec fn digit_value(c: char) -> nat {
    (c as u32 - 0x30) as nat
}

/// The number that the digits of `s` write, read from the left, no more than `max`; the first
/// character that cannot be taken decides the error.
pub open spec fn digits_value(s: Seq<char>, max: nat) -> Result<nat, IntError>
    decreases s.len(),
{
    if s.len() == 0 {
        Ok(0)
    } else {
        match digits_value(s.drop_last(), max) {
            Err(e) => Err(e),
            Ok(v) => if !is_digit(s.last()) {
                Err(IntError::InvalidDigit)
            } else if v * 10 + digit_value(s.last()) > max {
                Err(IntError::PosOverflow)
            } else {
                Ok(v * 10 + digit_value(s.last()))
            },
        }
    }
}

/// The unsigned number that `s` writes: digits, after at most one `+`.
pub open spec fn unsigned_value(s: Seq<char>, max: nat) -> Result<nat, IntError> {
    if s.len() == 0 {
        Err(IntError::Empty)
    } else if s.len() == 1 && s[0] == '+' {
        Err(IntError::InvalidDigit)
    } else if s[0] == '+' {
        digits_value(s.skip(1), max)
    } else {
        digits_value(s, max)
    }
}

proof fn lemma_digits_error_sticks(s: Seq<char>, n: int, max: nat)
    requires
        0 <= n <= s.len(),
        digits_value(s.take(n), max) is Err,
    ensures
        digits_value(s, max) == digits_value(s.take(n), max),
    decreases s.len() - n,
{
    if n == s.len() {
        assert(s.take(n) =~= s);
    } else {
        assert(s.take(n + 1).drop_last() =~= s.take(n));
        lemma_digits_error_sticks(s, n + 1, max);
    }
}

/// The unsigned number that `s` writes, no more than `max`.
pub fn parse_unsigned(s: &str, max: u64) -> (value: Result<u64, IntError>)
    ensures
        match value {
            Ok(v) => unsigned_value(s@, max as nat) == Ok::<nat, IntError>(v as nat),
            Err(e) => unsigned_value(s@, max as nat) == Err::<nat, IntError>(e),
        },
{
    if s.is_empty() {
        return Err(IntError::Empty);
    }
    let mut value: u64 = 0;
    let mut index: usize = 0;
    let ghost start: int = if s@[0] == '+' { 1 } else { 0 };
    let ghost digits = s@.skip(start);
    assert(digits.take(0) =~= Seq::<char>::empty());
    assert(start == 0 ==> digits =~= s@);
    for c in it: s.chars()
        invariant
            s@.len() > 0,
            it.seq() == s@,
            start == (if s@[0] == '+' { 1int } else { 0 }),
            digits == s@.skip(start),
            start == 0 ==> digits == s@,
            index == (if it.index() == 0 { 0int } else { 1 }),
            it.index() == 0 ==> value == 0,
            it.index() >= start ==> digits_value(digits.take(it.index() - start), max as nat)
                == Ok::<nat, IntError>(value as nat),
            value <= max,
    {
        assert(c == s@[it.index()]);
        if index == 0 && c == '+' {
            index = 1;
        } else {
            index = 1;
            proof {
                let n = it.index() - start;
                assert(digits.take(n + 1).drop_last() =~= digits.take(n));
                assert(digits.take(n + 1).last() == c);
            }
            if !('0' <= c && c <= '9') {
                proof {
                    lemma_digits_error_sticks(digits, it.index() - start + 1, max as nat);
                }
                return Err(IntError::InvalidDigit);
            }
            let d: u64 = (c as u32 - '0' as u32) as u64;
            if value > max / 10 || d > max - value * 10 {
                proof {
                    lemma_digits_error_sticks(digits, it.index() - start + 1, max as nat);
                }
                return Err(IntError::PosOverflow);
            }
            value = value * 10 + d;
        }
    }
    assert(digits.take(digits.len() as int) =~= digits);
    proof {
        reveal_strlit("+");
    }
    assert(s@ == "+"@ <==> s@.len() == 1 && s@[0] == '+') by {
        if s@.len() == 1 && s@[0] == '+' {
            assert(s@ =~= "+"@);
        }
    }
    if same_text(s, "+") {
        return Err(IntError::InvalidDigit);
    }
    Ok(value)
}

/// What is said of a text that is no number, or of a number that is too large.
pub proof fn lemma_int_errors_are_told()
    ensures
        int_error_text(IntError::Empty) == "cannot parse integer from empty string"@,
        int_error_text(IntError::InvalidDigit) == "invalid digit found in string"@,
        int_error_text(IntError::PosOverflow) == "number too large to fit in target type"@,
{
}

/// A number that is read is one, within its limit.
pub proof fn lemma_number_within(s: Seq<char>, max: nat)
    ensures
        unsigned_value(s, max) matches Ok(n) ==> n <= max,
{
    if s.len() > 0 {
        assert(s.skip(1).len() == s.len() - 1);
    }
}

/// A number is read digit by digit, zeros before it and all; a plus sign before it changes nothing,
/// and stands for no number alone.
pub proof fn lemma_number_grows(s: Seq<char>, c: char, max: nat)
    requires
        s.len() > 0,
        is_digit(s[0]),
    ensures
        s.len() == 1 && digit_value(s[0]) <= max ==> unsigned_value(s, max) == Ok::<nat, IntError>(
            digit_value(s[0]),
        ),
        unsigned_value(s, max) matches Ok(v) ==> is_digit(c) ==> unsigned_value(s.push(c), max) == (
        if v * 10 + digit_value(c) <= max {
            Ok::<nat, IntError>(v * 10 + digit_value(c))
        } else {
            Err(IntError::PosOverflow)
        }),
        unsigned_value(seq!['+'] + s, max) == unsigned_value(s, max),
        unsigned_value(seq!['+'], max) == Err::<nat, IntError>(IntError::InvalidDigit),
{
    assert(s.push(c).drop_last() =~= s);
    assert(s.push(c)[0] == s[0]);
    assert((seq!['+'] + s).skip(1) =~= s);
    if s.len() == 1 {
        assert(s.drop_last() =~= Seq::<char>::empty());
        assert(digits_value(Seq::<char>::empty(), max) == Ok::<nat, IntError>(0));
    }
}

/// A number over the limit is refused for that, and a text with anything but digits behind its sign
/// for that, where all that stands before it could be read.
pub proof fn lemma_number_refused(n: nat, max: nat, other: char, after: Seq<char>)
    ensures
        n > max ==> unsigned_value(decimal(n), max) == Err::<nat, IntError>(IntError::PosOverflow),
        n <= max && !is_digit(other) ==> unsigned_value(decimal(n) + seq![other] + after, max)
            == Err::<nat, IntError>(IntError::InvalidDigit),
        unsigned_value(Seq::empty(), max) == Err::<nat, IntError>(IntError::Empty),
{
    lemma_decimal_digits(n, n);
    let s = decimal(n);
    assert(is_digit(s[0]));
    if n > max {
        lemma_decimal_over(n, max);
    } else if !is_digit(other) {
        let t = s + seq![other] + after;
        lemma_decimal_digits(n, max);
        assert(t[0] == s[0]);
        assert(t.take(s.len() as int + 1).drop_last() =~= s);
        assert(t.take(s.len() as int + 1).last() == other);
        lemma_digits_error_sticks(t, s.len() as int + 1, max);
    }
}

proof fn lemma_decimal_over(n: nat, max: nat)
    requires
        n > max,
    ensures
        digits_value(decimal(n), max) == Err::<nat, IntError>(IntError::PosOverflow),
    decreases n,
{
    let d = n % 10;
    let c = digit_char(d);
    assert(is_digit(c) && digit_value(c) == d);
    let s = decimal(n);
    assert(s.last() == c);
    if n < 10 {
        assert(s.drop_last() =~= Seq::<char>::empty());
        assert(digits_value(Seq::<char>::empty(), max) == Ok::<nat, IntError>(0));
    } else {
        assert(s.drop_last() =~= decimal(n / 10));
        assert(n == (n / 10) * 10 + d);
        if n / 10 > max {
            lemma_decimal_over(n / 10, max);
        } else {
            lemma_decimal_digits(n / 10, max);
        }
    }
}

/// A decimal number is written without zeros before it.
pub proof fn lemma_no_leading_zeros(n: nat)
    ensures
        n == 0 ==> decimal(n) == seq!['0'],
        n > 0 ==> decimal(n)[0] != '0',
    decreases n,
{
    if n >= 10 {
        lemma_no_leading_zeros(n / 10);
        lemma_decimal_digits(n / 10, n);
        assert(decimal(n)[0] == decimal(n / 10)[0]);
    } else {
        assert(decimal(n)[0] as u32 == 0x30 + n);
    }
}

/// What a decimal number writes is that number.
pub proof fn lemma_decimal_reads_back(n: nat, max: nat)
    requires
        n <= max,
    ensures
        unsigned_value(decimal(n), max) == Ok::<nat, IntError>(n),
{
    lemma_decimal_digits(n, max);
    assert(decimal(n)[0] != '+') by {
        assert(is_digit(decimal(n)[0]));
    }
}

/// A decimal number is written with digits alone.
pub proof fn lemma_decimal_is_digits(n: nat)
    ensures
        decimal(n).len() > 0,
        forall|i: int| 0 <= i < decimal(n).len() ==> is_digit(#[trigger] decimal(n)[i]),
{
    lemma_decimal_digits(n, n);
}

proof fn lemma_decimal_digits(n: nat, max: nat)
    requires
        n <= max,
    ensures
        decimal(n).len() > 0,
        forall|i: int| 0 <= i < decimal(n).len() ==> is_digit(#[trigger] decimal(n)[i]),
        digits_value(decimal(n), max) == Ok::<nat, IntError>(n),
    decreases n,
{
    let d = n % 10;
    let c = digit_char(d);
    assert(is_digit(c) && digit_value(c) == d);
    if n < 10 {
        assert(decimal(n).drop_last() =~= Seq::<char>::empty());
        assert(decimal(n).last() == c);
        assert(digits_value(Seq::<char>::empty(), max) == Ok::<nat, IntError>(0));
    } else {
        lemma_decimal_digits(n / 10, max);
        assert(decimal(n).drop_last() =~= decimal(n / 10));
        assert(n == (n / 10) * 10 + d);
    }
}

// ---------------------------------------------------------------------------------------------
// UTF-8
// ---------------------------------------------------------------------------------------------

/// Declares the error of the UTF-8 decoder.
#[verifier::external_type_specification]
#[verifier::external_body]
pub struct ExFromUtf8Error(std::string::FromUtf8Error);

/// Calls [`String::from_utf8`].
///
/// Claims what its documentation says: the text that the bytes encode, where they are valid UTF-8,
/// and an error where they are not.
#[verifier::external_body]
pub(crate) fn string_from_utf8(bytes: Vec<u8>) -> (text: Result<
    String,
    std::string::FromUtf8Error,
>)
    ensures
        match text {
            Ok(t) => valid_utf8(bytes@) && t@ == decode_utf8(bytes@),
            Err(_) => !valid_utf8(bytes@),
        },
{
    String::from_utf8(bytes)
}

/// The text that a byte string is shown as, whatever it holds.
pub uninterp spec fn utf8_lossy(bytes: Seq<u8>) -> Seq<char>;

/// Calls [`String::from_utf8_lossy`].
///
/// Names its result, and claims that valid UTF-8 is shown as the text that it encodes. How invalid
/// bytes are shown is left unsaid.
#[verifier::external_body]
pub(crate) fn string_from_utf8_lossy(bytes: &[u8]) -> (text: String)
    ensures
        text@ == utf8_lossy(bytes@),
        valid_utf8(bytes@) ==> text@ == decode_utf8(bytes@),
{
    String::from_utf8_lossy(bytes).into_owned()
}

/// A copy of a byte string.
pub fn copy_bytes(bytes: &Vec<u8>) -> (copy: Vec<u8>)
    ensures
        copy@ == bytes@,
{
    let copy = bytes.clone();
    assert(copy@ =~= bytes@);
    copy
}

/// The UTF-8 bytes of a text.
pub fn utf8_bytes(text: &str) -> (bytes: Vec<u8>)
    ensures
        bytes@ == encode_utf8(text@),
{
    text.as_bytes_vec()
}

} // verus!
