//! Durations written as a number and a unit.

use vstd::prelude::*;
use vstd::string::*;

use crate::text::{parse_unsigned, strip_suffix};

verus! {

/// A unit of time.
#[derive(Debug, Clone, Copy, PartialEq, Eq, Structural)]
pub enum DurationUnit {
    Hours,
    Minutes,
    Seconds,
}

/// How many times a unit is sixty of a smaller one, down to the second.
pub open spec fn unit_sixties(unit: DurationUnit) -> u32 {
    match unit {
        DurationUnit::Hours => 2,
        DurationUnit::Minutes => 1,
        DurationUnit::Seconds => 0,
    }
}

/// The seconds in a unit.
pub open spec fn unit_seconds(unit: DurationUnit) -> u64 {
    match unit {
        DurationUnit::Hours => 3600,
        DurationUnit::Minutes => 60,
        DurationUnit::Seconds => 1,
    }
}

impl DurationUnit {
    /// How many times the unit is sixty of a smaller one, down to the second.
    pub fn sixties(self) -> (times: u32)
        ensures
            times == unit_sixties(self),
    {
        match self {
            DurationUnit::Hours => 2,
            DurationUnit::Minutes => 1,
            DurationUnit::Seconds => 0,
        }
    }

    /// The seconds in the unit.
    pub fn seconds(self) -> (seconds: u64)
        ensures
            seconds == unit_seconds(self),
    {
        match self {
            DurationUnit::Hours => 3600,
            DurationUnit::Minutes => 60,
            DurationUnit::Seconds => 1,
        }
    }
}

/// What stands before the first of `suffixes` that `s` ends with.
pub open spec fn before_suffix(s: Seq<char>, suffixes: Seq<Seq<char>>) -> Option<Seq<char>>
    decreases suffixes.len(),
{
    if suffixes.len() == 0 {
        None
    } else if crate::text::has_suffix(s, suffixes[0]) {
        Some(s.take(s.len() - suffixes[0].len()))
    } else {
        before_suffix(s, suffixes.skip(1))
    }
}

/// The ways to write hours, the longer ones first.
pub open spec fn hour_suffixes() -> Seq<Seq<char>> {
    seq!["hours"@, "hour"@, "hrs"@, "hr"@, "h"@]
}

/// The ways to write minutes, the longer ones first.
pub open spec fn minute_suffixes() -> Seq<Seq<char>> {
    seq!["minutes"@, "minute"@, "mins"@, "min"@, "m"@]
}

/// The ways to write seconds, the longer ones first.
pub open spec fn second_suffixes() -> Seq<Seq<char>> {
    seq!["seconds"@, "second"@, "secs"@, "sec"@, "s"@]
}

/// The number that a duration is written with, and its unit.
pub open spec fn duration_parts(s: Seq<char>) -> Option<(Seq<char>, DurationUnit)> {
    match before_suffix(s, hour_suffixes()) {
        Some(number) => Some((number, DurationUnit::Hours)),
        None => match before_suffix(s, minute_suffixes()) {
            Some(number) => Some((number, DurationUnit::Minutes)),
            None => match before_suffix(s, second_suffixes()) {
                Some(number) => Some((number, DurationUnit::Seconds)),
                None => None,
            },
        },
    }
}

/// `s` without the first of the five suffixes that it ends with.
fn strip_any<'a>(
    s: &'a str,
    first: &str,
    second: &str,
    third: &str,
    fourth: &str,
    fifth: &str,
) -> (number: Option<&'a str>)
    ensures
        match number {
            Some(n) => before_suffix(s@, seq![first@, second@, third@, fourth@, fifth@]) == Some(
                n@,
            ),
            None => before_suffix(s@, seq![first@, second@, third@, fourth@, fifth@]) is None,
        },
{
    let ghost all = seq![first@, second@, third@, fourth@, fifth@];
    proof {
        reveal_with_fuel(before_suffix, 6);
        assert(all.skip(1) =~= seq![second@, third@, fourth@, fifth@]);
        assert(all.skip(1).skip(1) =~= seq![third@, fourth@, fifth@]);
        assert(all.skip(1).skip(1).skip(1) =~= seq![fourth@, fifth@]);
        assert(all.skip(1).skip(1).skip(1).skip(1) =~= seq![fifth@]);
        assert(all.skip(1).skip(1).skip(1).skip(1).skip(1) =~= Seq::<Seq<char>>::empty());
    }
    if let Some(number) = strip_suffix(s, first) {
        assert(s@.skip(number@.len() as int) =~= first@ && s@.take(number@.len() as int)
            =~= number@);
        return Some(number);
    }
    if let Some(number) = strip_suffix(s, second) {
        assert(s@.skip(number@.len() as int) =~= second@ && s@.take(number@.len() as int)
            =~= number@);
        return Some(number);
    }
    if let Some(number) = strip_suffix(s, third) {
        assert(s@.skip(number@.len() as int) =~= third@ && s@.take(number@.len() as int)
            =~= number@);
        return Some(number);
    }
    if let Some(number) = strip_suffix(s, fourth) {
        assert(s@.skip(number@.len() as int) =~= fourth@ && s@.take(number@.len() as int)
            =~= number@);
        return Some(number);
    }
    if let Some(number) = strip_suffix(s, fifth) {
        assert(s@.skip(number@.len() as int) =~= fifth@ && s@.take(number@.len() as int)
            =~= number@);
        return Some(number);
    }
    None
}

/// The number that a duration is written with, and its unit; nothing where there is no unit.
pub fn parse_duration_str(name: &str) -> (parts: Option<(&str, DurationUnit)>)
    ensures
        match parts {
            Some((number, unit)) => duration_parts(name@) == Some((number@, unit)),
            None => duration_parts(name@) is None,
        },
{
    if let Some(hours) = strip_any(name, "hours", "hour", "hrs", "hr", "h") {
        return Some((hours, DurationUnit::Hours));
    }
    if let Some(minutes) = strip_any(name, "minutes", "minute", "mins", "min", "m") {
        return Some((minutes, DurationUnit::Minutes));
    }
    if let Some(seconds) = strip_any(name, "seconds", "second", "secs", "sec", "s") {
        return Some((seconds, DurationUnit::Seconds));
    }
    None
}

/// The seconds that a duration comes to, where its number is a whole one that 32 bits can hold.
pub open spec fn whole_duration(s: Seq<char>) -> Option<u64> {
    match duration_parts(s) {
        Some((number, unit)) => match crate::text::unsigned_value(number, u32::MAX as nat) {
            Ok(n) => Some((n * unit_seconds(unit)) as u64),
            Err(_) => None,
        },
        None => None,
    }
}

/// The seconds that a duration comes to, where its number is a whole one that 32 bits can hold. Of
/// any other number there is nothing to say without floating point.
pub fn parse_whole_duration(name: &str) -> (seconds: Option<u64>)
    ensures
        seconds == whole_duration(name@),
{
    match parse_duration_str(name) {
        Some((number, unit)) => match parse_unsigned(number, u32::MAX as u64) {
            Ok(n) => {
                let seconds: u64 = unit.seconds();
                assert(n * seconds <= u32::MAX * 3600) by (nonlinear_arith)
                    requires
                        n <= u32::MAX,
                        seconds <= 3600,
                ;
                Some(n * seconds)
            },
            Err(_) => None,
        },
        None => None,
    }
}

/// What is said of a text that is no duration.
pub fn duration_error(text: &str) -> (message: String)
    ensures
        message@ == "invalid time format: "@ + text@,
{
    let mut message = "invalid time format: ".to_string();
    message.append(text);
    message
}

// ---------------------------------------------------------------------------------------------
// Laws
// ---------------------------------------------------------------------------------------------

/// The ways to write a unit.
pub open spec fn unit_suffixes(unit: DurationUnit) -> Seq<Seq<char>> {
    match unit {
        DurationUnit::Hours => hour_suffixes(),
        DurationUnit::Minutes => minute_suffixes(),
        DurationUnit::Seconds => second_suffixes(),
    }
}

/// A number that does not end in a lower-case letter, and a unit in any of its spellings behind it,
/// are read back as they were written.
pub proof fn lemma_duration_reads_back(number: Seq<char>, unit: DurationUnit, spelling: int)
    requires
        0 <= spelling < unit_suffixes(unit).len(),
        number.len() > 0 ==> !('a' <= number.last() && number.last() <= 'z'),
    ensures
        duration_parts(number + unit_suffixes(unit)[spelling]) == Some((number, unit)),
{
    reveal_strlit("hours");
    reveal_strlit("hour");
    reveal_strlit("hrs");
    reveal_strlit("hr");
    reveal_strlit("h");
    reveal_strlit("minutes");
    reveal_strlit("minute");
    reveal_strlit("mins");
    reveal_strlit("min");
    reveal_strlit("m");
    reveal_strlit("seconds");
    reveal_strlit("second");
    reveal_strlit("secs");
    reveal_strlit("sec");
    reveal_strlit("s");
    let suffix = unit_suffixes(unit)[spelling];
    let s = number + suffix;
    assert(s.take(number.len() as int) =~= number);
    assert(s.skip(number.len() as int) =~= suffix);
    lemma_suffixes(number, suffix, hour_suffixes());
    lemma_suffixes(number, suffix, minute_suffixes());
    lemma_suffixes(number, suffix, second_suffixes());
    if unit != DurationUnit::Hours {
        assert forall|i: int| 0 <= i < 5 implies !#[trigger] crate::text::has_suffix(
            s,
            hour_suffixes()[i],
        ) by {
            let other = hour_suffixes()[i];
            if crate::text::has_suffix(s, other) {
                assert(other[other.len() - 1] == suffix[suffix.len() - 1]);
                assert(other.len() > 1 ==> other[other.len() - 2] == suffix[suffix.len() - 2]);
            }
        }
    }
    if unit == DurationUnit::Seconds {
        assert forall|i: int| 0 <= i < 5 implies !#[trigger] crate::text::has_suffix(
            s,
            minute_suffixes()[i],
        ) by {
            let other = minute_suffixes()[i];
            if crate::text::has_suffix(s, other) {
                assert(other[other.len() - 1] == suffix[suffix.len() - 1]);
                assert(other.len() > 1 ==> other[other.len() - 2] == suffix[suffix.len() - 2]);
            }
        }
    }
    match unit {
        DurationUnit::Hours => {
            lemma_before_suffix(s, hour_suffixes(), spelling);
        },
        DurationUnit::Minutes => {
            lemma_before_suffix(s, hour_suffixes(), 5);
            lemma_before_suffix(s, minute_suffixes(), spelling);
        },
        DurationUnit::Seconds => {
            lemma_before_suffix(s, hour_suffixes(), 5);
            lemma_before_suffix(s, minute_suffixes(), 5);
            lemma_before_suffix(s, second_suffixes(), spelling);
        },
    }
}

/// A text of lower-case letters that a number with a suffix ends with lies within the suffix.
proof fn lemma_suffixes(number: Seq<char>, suffix: Seq<char>, others: Seq<Seq<char>>)
    requires
        number.len() > 0 ==> !('a' <= number.last() && number.last() <= 'z'),
        forall|i: int, k: int|
            0 <= i < others.len() && 0 <= k < others[i].len() ==> 'a' <= #[trigger] others[i][k]
                && others[i][k] <= 'z',
    ensures
        forall|i: int|
            0 <= i < others.len() && #[trigger] crate::text::has_suffix(
                number + suffix,
                others[i],
            ) ==> others[i].len() <= suffix.len() && forall|k: int|
                0 <= k < others[i].len() ==> #[trigger] others[i][k] == suffix[suffix.len()
                    - others[i].len() + k],
{
    let s = number + suffix;
    assert forall|i: int|
        0 <= i < others.len() && #[trigger] crate::text::has_suffix(
            s,
            others[i],
        ) implies others[i].len() <= suffix.len() && forall|k: int|
        0 <= k < others[i].len() ==> #[trigger] others[i][k] == suffix[suffix.len()
            - others[i].len() + k] by {
        let other = others[i];
        let start = s.len() - other.len();
        if other.len() > suffix.len() {
            let k = number.len() - 1 - start;
            assert(other[k] == s.skip(start)[k]);
            assert('a' <= others[i][k] && others[i][k] <= 'z');
        }
        assert forall|k: int| 0 <= k < other.len() implies #[trigger] other[k]
            == suffix[suffix.len() - other.len() + k] by {
            assert(other[k] == s.skip(start)[k]);
        }
    }
}

/// The first suffix that a text ends with decides.
proof fn lemma_before_suffix(s: Seq<char>, suffixes: Seq<Seq<char>>, first: int)
    requires
        0 <= first <= suffixes.len(),
        forall|i: int|
            0 <= i < first ==> !#[trigger] crate::text::has_suffix(s, suffixes[i]),
        first < suffixes.len() ==> crate::text::has_suffix(s, suffixes[first]),
    ensures
        before_suffix(s, suffixes) == if first < suffixes.len() {
            Some(s.take(s.len() - suffixes[first].len()))
        } else {
            None
        },
    decreases suffixes.len(),
{
    if first > 0 {
        assert(!crate::text::has_suffix(s, suffixes[0]));
        let rest = suffixes.skip(1);
        assert forall|i: int| 0 <= i < first - 1 implies !#[trigger] crate::text::has_suffix(
            s,
            rest[i],
        ) by {
            assert(!crate::text::has_suffix(s, suffixes[i + 1]));
        }
        lemma_before_suffix(s, rest, first - 1);
    }
}

/// A whole number and any spelling of a unit behind it come to that many of the unit; so all the
/// spellings of a unit agree.
pub proof fn lemma_whole_duration(n: u32, unit: DurationUnit, spelling: int)
    requires
        0 <= spelling < unit_suffixes(unit).len(),
    ensures
        whole_duration(crate::text::decimal(n as nat) + unit_suffixes(unit)[spelling]) == Some(
            (n * unit_seconds(unit)) as u64,
        ),
        n * unit_seconds(unit) <= u64::MAX,
{
    let number = crate::text::decimal(n as nat);
    crate::text::lemma_decimal_is_digits(n as nat);
    assert(crate::text::is_digit(number[number.len() - 1]));
    lemma_duration_reads_back(number, unit, spelling);
    crate::text::lemma_decimal_reads_back(n as nat, u32::MAX as nat);
    assert(n * unit_seconds(unit) <= u32::MAX * 3600) by (nonlinear_arith)
        requires
            n <= u32::MAX,
            unit_seconds(unit) <= 3600,
    ;
}

/// The seconds in a unit are sixty, as many times over as it is sixty of a smaller one.
pub proof fn lemma_sixties(unit: DurationUnit)
    ensures
        unit_seconds(unit) == vstd::arithmetic::power::pow(60, unit_sixties(unit) as nat),
{
    reveal_with_fuel(vstd::arithmetic::power::pow, 3);
}

/// Each unit has its spellings. Behind a number that does not end in a lower-case letter, each of
/// them stands for the unit.
pub proof fn lemma_spellings(number: Seq<char>)
    requires
        number.len() > 0 ==> !('a' <= number.last() && number.last() <= 'z'),
    ensures
        duration_parts(number + "hours"@) == Some((number, DurationUnit::Hours)),
        duration_parts(number + "hour"@) == Some((number, DurationUnit::Hours)),
        duration_parts(number + "hrs"@) == Some((number, DurationUnit::Hours)),
        duration_parts(number + "hr"@) == Some((number, DurationUnit::Hours)),
        duration_parts(number + "h"@) == Some((number, DurationUnit::Hours)),
        duration_parts(number + "minutes"@) == Some((number, DurationUnit::Minutes)),
        duration_parts(number + "minute"@) == Some((number, DurationUnit::Minutes)),
        duration_parts(number + "mins"@) == Some((number, DurationUnit::Minutes)),
        duration_parts(number + "min"@) == Some((number, DurationUnit::Minutes)),
        duration_parts(number + "m"@) == Some((number, DurationUnit::Minutes)),
        duration_parts(number + "seconds"@) == Some((number, DurationUnit::Seconds)),
        duration_parts(number + "second"@) == Some((number, DurationUnit::Seconds)),
        duration_parts(number + "secs"@) == Some((number, DurationUnit::Seconds)),
        duration_parts(number + "sec"@) == Some((number, DurationUnit::Seconds)),
        duration_parts(number + "s"@) == Some((number, DurationUnit::Seconds)),
{
    assert forall|unit: DurationUnit, k: int| 0 <= k < 5 implies duration_parts(
        number + #[trigger] unit_suffixes(unit)[k],
    ) == Some((number, unit)) by {
        lemma_duration_reads_back(number, unit, k);
    }
    let hours = unit_suffixes(DurationUnit::Hours);
    let minutes = unit_suffixes(DurationUnit::Minutes);
    let seconds = unit_suffixes(DurationUnit::Seconds);
    assert(hours[0] == "hours"@ && hours[1] == "hour"@ && hours[2] == "hrs"@ && hours[3] == "hr"@
        && hours[4] == "h"@);
    assert(minutes[0] == "minutes"@ && minutes[1] == "minute"@ && minutes[2] == "mins"@
        && minutes[3] == "min"@ && minutes[4] == "m"@);
    assert(seconds[0] == "seconds"@ && seconds[1] == "second"@ && seconds[2] == "secs"@
        && seconds[3] == "sec"@ && seconds[4] == "s"@);
}

/// A whole number of hours is that many times 3600 seconds, of minutes that many times 60, and of
/// seconds that many; a number that is no whole one, or too large, comes to nothing.
pub proof fn lemma_seconds_of_duration(number: Seq<char>)
    requires
        number.len() > 0 ==> !('a' <= number.last() && number.last() <= 'z'),
    ensures
        match crate::text::unsigned_value(number, 0xffff_ffff) {
            Ok(n) => {
                &&& whole_duration(number + "h"@) == Some((n * 3600) as u64)
                &&& whole_duration(number + "m"@) == Some((n * 60) as u64)
                &&& whole_duration(number + "s"@) == Some(n as u64)
                &&& n * 3600 <= u64::MAX
            },
            Err(_) => {
                &&& whole_duration(number + "h"@) is None
                &&& whole_duration(number + "m"@) is None
                &&& whole_duration(number + "s"@) is None
            },
        },
{
    lemma_spellings(number);
    crate::text::lemma_number_within(number, 0xffff_ffff);
}

/// A text is read as a duration exactly where it ends with a spelling of a unit. What stands before
/// the spelling is the number; hours go before minutes, and minutes before seconds, and of two
/// spellings that fit the longer one counts.
pub proof fn lemma_duration_is_cut(s: Seq<char>)
    ensures
        match duration_parts(s) {
            Some((number, unit)) => {
                &&& exists|k: int|
                    0 <= k < unit_suffixes(unit).len() && s == number
                        + #[trigger] unit_suffixes(unit)[k]
                &&& forall|k: int|
                    0 <= k < unit_suffixes(unit).len() && #[trigger] crate::text::has_suffix(
                        s,
                        unit_suffixes(unit)[k],
                    ) ==> number.len() + unit_suffixes(unit)[k].len() <= s.len()
                &&& unit != DurationUnit::Hours ==> forall|k: int|
                    0 <= k < 5 ==> !#[trigger] crate::text::has_suffix(s, hour_suffixes()[k])
                &&& unit == DurationUnit::Seconds ==> forall|k: int|
                    0 <= k < 5 ==> !#[trigger] crate::text::has_suffix(s, minute_suffixes()[k])
            },
            None => forall|unit: DurationUnit, k: int|
                0 <= k < unit_suffixes(unit).len() ==> !#[trigger] crate::text::has_suffix(
                    s,
                    unit_suffixes(unit)[k],
                ),
        },
{
    reveal_strlit("hours");
    reveal_strlit("hour");
    reveal_strlit("hrs");
    reveal_strlit("hr");
    reveal_strlit("h");
    reveal_strlit("minutes");
    reveal_strlit("minute");
    reveal_strlit("mins");
    reveal_strlit("min");
    reveal_strlit("m");
    reveal_strlit("seconds");
    reveal_strlit("second");
    reveal_strlit("secs");
    reveal_strlit("sec");
    reveal_strlit("s");
    lemma_cut(s, hour_suffixes());
    lemma_cut(s, minute_suffixes());
    lemma_cut(s, second_suffixes());
    if let Some((number, unit)) = duration_parts(s) {
        let fitting = unit_suffixes(unit);
        assert(before_suffix(s, fitting) == Some(number));
        let k = choose|k: int| 0 <= k < fitting.len() && s == number + #[trigger] fitting[k];
        assert(s == number + unit_suffixes(unit)[k]);
    }
    assert forall|unit: DurationUnit, k: int|
        0 <= k < unit_suffixes(unit).len() && duration_parts(s) is None implies !#[trigger]
    crate::text::has_suffix(s, unit_suffixes(unit)[k]) by {
        match unit {
            DurationUnit::Hours => {
                assert(!crate::text::has_suffix(s, hour_suffixes()[k]));
            },
            DurationUnit::Minutes => {
                assert(!crate::text::has_suffix(s, minute_suffixes()[k]));
            },
            DurationUnit::Seconds => {
                assert(!crate::text::has_suffix(s, second_suffixes()[k]));
            },
        }
    }
}

/// What a text is cut before is one of the suffixes, and none of those that come earlier in the list
/// fits.
proof fn lemma_cut(s: Seq<char>, suffixes: Seq<Seq<char>>)
    requires
        forall|i: int, j: int|
            0 <= i < j < suffixes.len() ==> (#[trigger] suffixes[j]).len()
                <= (#[trigger] suffixes[i]).len(),
    ensures
        match before_suffix(s, suffixes) {
            Some(number) => {
                &&& exists|k: int|
                    0 <= k < suffixes.len() && s == number + #[trigger] suffixes[k]
                &&& forall|k: int|
                    0 <= k < suffixes.len() && #[trigger] crate::text::has_suffix(s, suffixes[k])
                        ==> number.len() + suffixes[k].len() <= s.len()
            },
            None => forall|k: int|
                0 <= k < suffixes.len() ==> !#[trigger] crate::text::has_suffix(s, suffixes[k]),
        },
    decreases suffixes.len(),
{
    if suffixes.len() > 0 {
        let first = suffixes[0];
        if crate::text::has_suffix(s, first) {
            let at = s.len() - first.len();
            assert(s =~= s.take(at) + s.skip(at));
            assert(s == s.take(at) + suffixes[0]);
        } else {
            let rest = suffixes.skip(1);
            assert forall|i: int, j: int| 0 <= i < j < rest.len() implies (
            #[trigger] rest[j]).len() <= (#[trigger] rest[i]).len() by {
                assert(suffixes[j + 1].len() <= suffixes[i + 1].len());
            }
            lemma_cut(s, rest);
            assert forall|k: int| 0 < k < suffixes.len() implies #[trigger] suffixes[k] == rest[k
                - 1] by {}
            if let Some(number) = before_suffix(s, rest) {
                let k = choose|k: int|
                    0 <= k < rest.len() && s == number + #[trigger] rest[k];
                assert(s == number + suffixes[k + 1]);
            }
            assert forall|k: int|
                0 <= k < suffixes.len() && #[trigger] crate::text::has_suffix(
                    s,
                    suffixes[k],
                ) implies before_suffix(s, rest) is Some && before_suffix(s, rest)->0.len()
                + suffixes[k].len() <= s.len() by {
                assert(k > 0);
                assert(crate::text::has_suffix(s, rest[k - 1]));
            }
        }
    }
}

} // verus!
