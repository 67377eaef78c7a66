//! Bug reports in the output of a target.

use std::collections::BTreeSet;

use vstd::prelude::*;
use vstd::utf8::*;

verus! {

broadcast use vstd::laws_cmp::group_laws_cmp;

/// The expression that a report of a triggered bug matches. The whole sentence is asked for:
/// comparison logging may copy fragments of it into the input.
pub const BUG_PATTERN: &'static str = "Successfully triggered bug ([0-9]+)";

/// What stands before the digits of a report.
pub const BUG_PREFIX: &'static str = "Successfully triggered bug ";

pub open spec fn is_digit_byte(b: u8) -> bool {
    0x30 <= b <= 0x39
}

/// How many digits `s` starts with.
pub open spec fn digit_run(s: Seq<u8>) -> int
    decreases s.len(),
{
    if s.len() > 0 && is_digit_byte(s[0]) {
        1 + digit_run(s.skip(1))
    } else {
        0
    }
}

/// Whether `s` starts with a report: `prefix` and at least one digit.
pub open spec fn starts_report(prefix: Seq<u8>, s: Seq<u8>) -> bool {
    prefix.len() < s.len() && s.take(prefix.len() as int) == prefix && is_digit_byte(
        s[prefix.len() as int],
    )
}

/// The digits of every report in `s`, from the left; a report takes all the digits that follow its
/// prefix, and the next one starts behind them.
pub open spec fn report_digits(prefix: Seq<u8>, s: Seq<u8>) -> Seq<Seq<u8>>
    decreases s.len(),
{
    if s.len() == 0 {
        Seq::empty()
    } else if starts_report(prefix, s) {
        proof {
            lemma_digit_run(s.skip(prefix.len() as int));
        }
        let rest = s.skip(prefix.len() as int);
        let n = digit_run(rest);
        seq![rest.take(n)] + report_digits(prefix, rest.skip(n))
    } else {
        report_digits(prefix, s.skip(1))
    }
}

pub proof fn lemma_digit_run(s: Seq<u8>)
    ensures
        0 <= digit_run(s) <= s.len(),
        s.len() > 0 && is_digit_byte(s[0]) ==> digit_run(s) > 0,
        forall|i: int| 0 <= i < digit_run(s) ==> is_digit_byte(#[trigger] s[i]),
        digit_run(s) < s.len() ==> !is_digit_byte(s[digit_run(s)]),
    decreases s.len(),
{
    if s.len() > 0 && is_digit_byte(s[0]) {
        lemma_digit_run(s.skip(1));
        assert forall|i: int| 0 <= i < digit_run(s) implies is_digit_byte(#[trigger] s[i]) by {
            if i > 0 {
                assert(s[i] == s.skip(1)[i - 1]);
            }
        }
    }
}

/// Calls `regex::bytes::Regex::new` and `Regex::captures_iter`, and takes the first group of each
/// match.
///
/// Claims, of the one expression that it is called with, that it compiles and what its matches are:
/// by the documented rules (matches do not overlap, the leftmost comes first, `+` takes as much as
/// it can) they are the fixed text followed by all the digits behind it.
#[verifier::external_body]
fn first_groups(pattern: &str, text: &[u8]) -> (groups: Vec<Vec<u8>>)
    requires
        pattern@ == BUG_PATTERN@,
    ensures
        crate::agent::byte_strings(groups@) == report_digits(encode_utf8(BUG_PREFIX@), text@),
{
    let matcher = regex::bytes::Regex::new(pattern).unwrap();
    matcher.captures_iter(text).map(|c| c.get(1).unwrap().as_bytes().to_vec()).collect()
}

/// The number that a string of digits writes.
pub open spec fn digits_number(s: Seq<u8>) -> nat
    decreases s.len(),
{
    if s.len() == 0 {
        0
    } else {
        digits_number(s.drop_last()) * 10 + (s.last() - 0x30) as nat
    }
}

/// The digits of every report in the output of a target.
pub open spec fn reports(out: Seq<u8>) -> Seq<Seq<u8>> {
    report_digits(encode_utf8(BUG_PREFIX@), out)
}

/// Every reported bug id can be held.
pub open spec fn ids_fit(out: Seq<u8>) -> bool {
    forall|i: int|
        0 <= i < reports(out).len() ==> digits_number(#[trigger] reports(out)[i]) <= u64::MAX
}

/// The ids of the bugs that the output of a target reports.
pub open spec fn bug_ids(out: Seq<u8>) -> Set<u64> {
    Set::new(
        |id: u64|
            exists|i: int|
                0 <= i < reports(out).len() && digits_number(#[trigger] reports(out)[i]) == id,
    )
}

/// The ids of the bugs that a run reports on either of its outputs.
pub open spec fn run_ids(stdout: Seq<u8>, stderr: Seq<u8>) -> Set<u64> {
    bug_ids(stdout).union(bug_ids(stderr))
}

/// One digit or more, and nothing else.
pub open spec fn all_digits(s: Seq<u8>) -> bool {
    s.len() > 0 && forall|j: int| 0 <= j < s.len() ==> is_digit_byte(#[trigger] s[j])
}

/// A report names its bug in digits, at least one.
pub proof fn lemma_reports_are_digits(prefix: Seq<u8>, s: Seq<u8>)
    ensures
        forall|i: int|
            0 <= i < report_digits(prefix, s).len() ==> all_digits(
                #[trigger] report_digits(prefix, s)[i],
            ),
    decreases s.len(),
{
    if s.len() == 0 {
        assert(report_digits(prefix, s).len() == 0);
    } else {
        if starts_report(prefix, s) {
            let rest = s.skip(prefix.len() as int);
            lemma_digit_run(rest);
            let n = digit_run(rest);
            let tail = report_digits(prefix, rest.skip(n));
            lemma_reports_are_digits(prefix, rest.skip(n));
            assert(rest[0] == s[prefix.len() as int]);
            assert forall|j: int| 0 <= j < n implies is_digit_byte(
                #[trigger] rest.take(n)[j],
            ) by {
                assert(rest.take(n)[j] == rest[j]);
            }
            assert(report_digits(prefix, s) == seq![rest.take(n)] + tail);
            assert forall|i: int| 0 <= i < report_digits(prefix, s).len() implies all_digits(
                #[trigger] report_digits(prefix, s)[i],
            ) by {
                if i > 0 {
                    assert(report_digits(prefix, s)[i] == tail[i - 1]);
                }
            }
        } else {
            lemma_reports_are_digits(prefix, s.skip(1));
            assert(report_digits(prefix, s) == report_digits(prefix, s.skip(1)));
        }
    }
}

/// The number that `digits` writes, where it can be held.
fn digits_id(digits: &Vec<u8>) -> (id: Option<u64>)
    requires
        all_digits(digits@),
    ensures
        match id {
            Some(n) => digits_number(digits@) == n,
            None => digits_number(digits@) > u64::MAX,
        },
{
    let mut id: u64 = 0;
    let mut i: usize = 0;
    assert(digits@.take(0) =~= Seq::<u8>::empty());
    while i < digits.len()
        invariant
            i <= digits@.len(),
            digits_number(digits@.take(i as int)) == id,
            forall|j: int| 0 <= j < digits@.len() ==> is_digit_byte(#[trigger] digits@[j]),
        decreases digits@.len() - i,
    {
        let d: u64 = (digits[i] - 0x30) as u64;
        assert(digits@.take(i + 1).drop_last() =~= digits@.take(i as int));
        if id > u64::MAX / 10 || d > u64::MAX - id * 10 {
            proof {
                lemma_digits_number_grows(digits@, i + 1);
            }
            return None;
        }
        id = id * 10 + d;
        i += 1;
    }
    assert(digits@.take(i as int) =~= digits@);
    Some(id)
}

proof fn lemma_digits_number_grows(s: Seq<u8>, n: int)
    requires
        0 <= n <= s.len(),
        forall|j: int| 0 <= j < s.len() ==> is_digit_byte(#[trigger] s[j]),
    ensures
        digits_number(s.take(n)) <= digits_number(s),
    decreases s.len() - n,
{
    if n == s.len() {
        assert(s.take(n) =~= s);
    } else {
        assert(s.take(n + 1).drop_last() =~= s.take(n));
        lemma_digits_number_grows(s, n + 1);
    }
}

/// Where no sentence stands whole, nothing is reported.
pub proof fn lemma_no_sentence_no_report(prefix: Seq<u8>, s: Seq<u8>)
    requires
        forall|i: int| 0 <= i <= s.len() ==> !starts_report(prefix, #[trigger] s.skip(i)),
    ensures
        report_digits(prefix, s) == Seq::<Seq<u8>>::empty(),
    decreases s.len(),
{
    assert(s.skip(0) =~= s);
    if s.len() > 0 {
        assert forall|i: int| 0 <= i <= s.skip(1).len() implies !starts_report(
            prefix,
            #[trigger] s.skip(1).skip(i),
        ) by {
            assert(s.skip(1).skip(i) =~= s.skip(i + 1));
        }
        lemma_no_sentence_no_report(prefix, s.skip(1));
    }
}

/// A sentence with its digits is reported as those digits, and the search goes on behind them.
pub proof fn lemma_sentence_is_reported(prefix: Seq<u8>, digits: Seq<u8>, after: Seq<u8>)
    requires
        all_digits(digits),
        after.len() > 0 ==> !is_digit_byte(after[0]),
    ensures
        report_digits(prefix, prefix + digits + after) == seq![digits] + report_digits(
            prefix,
            after,
        ),
{
    let s = prefix + digits + after;
    let rest = s.skip(prefix.len() as int);
    assert(s.take(prefix.len() as int) =~= prefix);
    assert(s[prefix.len() as int] == digits[0]);
    assert(rest =~= digits + after);
    lemma_digit_run(rest);
    let n = digit_run(rest);
    assert(n == digits.len()) by {
        if n < digits.len() {
            assert(rest[n] == digits[n]);
        } else if n > digits.len() {
            assert(rest[digits.len() as int] == after[0]);
        }
    }
    assert(rest.take(n) =~= digits);
    assert(rest.skip(n) =~= after);
}

/// Whether every id that the output reports can be held.
pub fn bug_ids_fit(out: &[u8]) -> (fit: bool)
    ensures
        fit == ids_fit(out@),
{
    let groups = first_groups(BUG_PATTERN, out);
    proof {
        lemma_reports_are_digits(encode_utf8(BUG_PREFIX@), out@);
    }
    let mut i: usize = 0;
    while i < groups.len()
        invariant
            i <= groups@.len(),
            crate::agent::byte_strings(groups@) == reports(out@),
            forall|j: int| 0 <= j < reports(out@).len() ==> all_digits(#[trigger] reports(out@)[j]),
            forall|j: int| 0 <= j < i ==> digits_number(#[trigger] reports(out@)[j]) <= u64::MAX,
        decreases groups@.len() - i,
    {
        assert(reports(out@)[i as int] == groups@[i as int]@);
        if digits_id(&groups[i]).is_none() {
            return false;
        }
        i += 1;
    }
    true
}

/// Adds the bugs that the output of a target reports.
pub(crate) fn find_lava_bugs(out: &[u8], bugs: &mut BTreeSet<u64>)
    requires
        ids_fit(out@),
    ensures
        final(bugs)@ == old(bugs)@.union(bug_ids(out@)),
{
    let groups = first_groups(BUG_PATTERN, out);
    proof {
        lemma_reports_are_digits(encode_utf8(BUG_PREFIX@), out@);
    }
    let mut i: usize = 0;
    let ghost found = Set::<u64>::empty();
    while i < groups.len()
        invariant
            i <= groups@.len(),
            crate::agent::byte_strings(groups@) == reports(out@),
            ids_fit(out@),
            forall|j: int| 0 <= j < reports(out@).len() ==> all_digits(#[trigger] reports(out@)[j]),
            bugs@ == old(bugs)@.union(found),
            forall|id: u64| #[trigger] found.contains(id) <==> exists|j: int|
                0 <= j < i && digits_number(#[trigger] reports(out@)[j]) == id,
        decreases groups@.len() - i,
    {
        assert(reports(out@)[i as int] == groups@[i as int]@);
        if let Some(id) = digits_id(&groups[i]) {
            bugs.insert(id);
            proof {
                found = found.insert(id);
            }
        }
        i += 1;
    }
    assert(found =~= bug_ids(out@));
}

// ---------------------------------------------------------------------------------------------
// Which bugs an output reports
// ---------------------------------------------------------------------------------------------

/// A sentence that names a bug by its number reports that bug, beside those that are reported
/// behind it; nothing else in the output counts.
pub proof fn lemma_bug_is_reported(before: Seq<u8>, id: u64, after: Seq<u8>)
    requires
        after.len() > 0 ==> !is_digit_byte(after[0]),
        forall|i: int|
            0 <= i < before.len() ==> !starts_report(
                encode_utf8("Successfully triggered bug "@),
                #[trigger] (before + encode_utf8("Successfully triggered bug "@) + encode_utf8(
                    crate::text::decimal(id as nat),
                ) + after).skip(i),
            ),
    ensures
        bug_ids(
            before + encode_utf8("Successfully triggered bug "@) + encode_utf8(
                crate::text::decimal(id as nat),
            ) + after,
        ) == bug_ids(after).insert(id),
        ids_fit(
            before + encode_utf8("Successfully triggered bug "@) + encode_utf8(
                crate::text::decimal(id as nat),
            ) + after,
        ) <==> ids_fit(after),
{
    let prefix = encode_utf8("Successfully triggered bug "@);
    let digits = encode_utf8(crate::text::decimal(id as nat));
    let found = prefix + digits + after;
    let out = before + prefix + digits + after;
    assert(out =~= before + found);
    lemma_decimal_bytes(id as nat);
    lemma_search_goes_on(prefix, before, found);
    lemma_sentence_is_reported(prefix, digits, after);
    let all = reports(out);
    let rest = reports(after);
    assert(all == seq![digits] + rest);
    assert(all[0] == digits);
    assert forall|i: int| 0 <= i < rest.len() implies #[trigger] rest[i] == all[i + 1] by {}
    assert forall|other: u64|
        bug_ids(out).contains(other) <==> #[trigger] bug_ids(after).insert(id).contains(
            other,
        ) by {
        if bug_ids(out).contains(other) {
            let i = choose|i: int| 0 <= i < all.len() && digits_number(#[trigger] all[i]) == other;
            if i > 0 {
                assert(digits_number(rest[i - 1]) == other);
            }
        }
        if bug_ids(after).contains(other) {
            let i = choose|i: int| 0 <= i < rest.len() && digits_number(#[trigger] rest[i]) == other;
            assert(digits_number(all[i + 1]) == other);
        }
    }
    assert(bug_ids(out) =~= bug_ids(after).insert(id));
    if ids_fit(out) {
        assert forall|i: int| 0 <= i < rest.len() implies digits_number(#[trigger] rest[i])
            <= u64::MAX by {
            assert(digits_number(all[i + 1]) <= u64::MAX);
        }
    }
    if ids_fit(after) {
        assert forall|i: int| 0 <= i < all.len() implies digits_number(#[trigger] all[i])
            <= u64::MAX by {
            if i > 0 {
                assert(digits_number(rest[i - 1]) <= u64::MAX);
            }
        }
    }
}

/// An output in which no sentence stands whole reports no bug, and any run reports the bugs of both
/// of its outputs and no others.
pub proof fn lemma_bugs_of_run(quiet: Seq<u8>, stdout: Seq<u8>, stderr: Seq<u8>, id: u64)
    requires
        forall|i: int|
            0 <= i <= quiet.len() ==> !starts_report(
                encode_utf8("Successfully triggered bug "@),
                #[trigger] quiet.skip(i),
            ),
    ensures
        bug_ids(quiet) == Set::<u64>::empty(),
        ids_fit(quiet),
        run_ids(stdout, stderr).contains(id) <==> bug_ids(stdout).contains(id) || bug_ids(
            stderr,
        ).contains(id),
{
    lemma_no_sentence_no_report(encode_utf8("Successfully triggered bug "@), quiet);
    assert(bug_ids(quiet) =~= Set::<u64>::empty());
}

/// What stands before a sentence, where no sentence starts, is passed over.
proof fn lemma_search_goes_on(prefix: Seq<u8>, before: Seq<u8>, s: Seq<u8>)
    requires
        forall|i: int|
            0 <= i < before.len() ==> !starts_report(prefix, #[trigger] (before + s).skip(i)),
    ensures
        report_digits(prefix, before + s) == report_digits(prefix, s),
    decreases before.len(),
{
    if before.len() == 0 {
        assert(before + s =~= s);
    } else {
        let rest = before.skip(1);
        assert((before + s).skip(0) =~= before + s);
        assert((before + s).skip(1) =~= rest + s);
        assert forall|i: int| 0 <= i < rest.len() implies !starts_report(
            prefix,
            #[trigger] (rest + s).skip(i),
        ) by {
            assert((rest + s).skip(i) =~= (before + s).skip(i + 1));
        }
        lemma_search_goes_on(prefix, rest, s);
    }
}

/// The bytes of a decimal number are digits, and write that number.
proof fn lemma_decimal_bytes(n: nat)
    ensures
        all_digits(encode_utf8(crate::text::decimal(n))),
        digits_number(encode_utf8(crate::text::decimal(n))) == n,
    decreases n,
{
    let s = crate::text::decimal(n);
    let bytes = encode_utf8(s);
    crate::text::lemma_decimal_is_digits(n);
    assert(is_ascii_chars(s)) by {
        assert forall|i: int| 0 <= i < s.len() implies '\0' <= #[trigger] s[i] <= '\u{7f}' by {
            assert(crate::text::is_digit(s[i]));
        }
    }
    is_ascii_chars_encode_utf8(s);
    assert forall|i: int| 0 <= i < bytes.len() implies is_digit_byte(#[trigger] bytes[i]) by {
        assert(crate::text::is_digit(s[i]));
    }
    let last = crate::text::digit_char(n % 10);
    assert(bytes.last() == 0x30 + n % 10) by {
        assert(s.last() == last);
    }
    if n < 10 {
        assert(bytes.drop_last() =~= Seq::<u8>::empty());
        assert(digits_number(Seq::<u8>::empty()) == 0);
    } else {
        let head = crate::text::decimal(n / 10);
        lemma_decimal_bytes(n / 10);
        crate::text::lemma_decimal_is_digits(n / 10);
        assert(is_ascii_chars(head)) by {
            assert forall|i: int| 0 <= i < head.len() implies '\0' <= #[trigger] head[i]
                <= '\u{7f}' by {
                assert(crate::text::is_digit(head[i]));
            }
        }
        is_ascii_chars_encode_utf8(head);
        assert(s.drop_last() =~= head);
        assert forall|i: int| 0 <= i < head.len() implies bytes[i] == encode_utf8(head)[i] by {
            assert(s[i] == head[i]);
        }
        assert(bytes.drop_last() =~= encode_utf8(head));
        assert(n == (n / 10) * 10 + n % 10);
    }
}

} // verus!
