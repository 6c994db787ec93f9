//! Results of case and bundle runs, and the text the report shows for them.

use vstd::prelude::*;

use crate::runner::{is_number_word, strip_commas};
use crate::text::{
    all_digits, chars_of, decimal, digit_char, digits_value, is_digit, parse_u64_spec,
    push_str, string_from_chars, sub_chars, u64_decimal, u64_to_string,
};

verus! {

pub struct CaseResult {
    pub name: String,
    pub description: Option<String>,
    pub passed: bool,
    pub duration: std::time::Duration,
    pub rows_read: Option<u64>,
    pub rows_written: Option<u64>,
    /// Setup steps (image builds, service readiness) shown before the run.
    pub prep_lines: Vec<String>,
    /// Loadsmith's own stdout report, shown framed under the case.
    pub loadsmith_output: String,
    pub failures: Vec<String>,
    /// Host path of the per-run output directory (mounted at /output during
    /// the run); bundles hand it to their validate/cleanup hooks.
    pub output_dir: String,
}

/// Outcome of one bundle entry: the wrapped case plus its setup, validate and
/// cleanup hook results. An entry passes only if setup (if any) succeeded,
/// the case passed, and validate (if any) succeeded; a cleanup failure is a
/// warning only.
pub struct BundleEntryResult {
    pub case_name: String,
    pub passed: bool,
    /// The case run itself; `None` only when setup failed before it ran.
    pub case_result: Option<CaseResult>,
    pub setup_failure: Option<String>,
    pub validate_failure: Option<String>,
    pub cleanup_warning: Option<String>,
}

pub struct BundleResult {
    pub name: String,
    pub entries: Vec<BundleEntryResult>,
}

/// `Duration::ZERO`. `Duration` is opaque to the proofs, so nothing is
/// stated of the value.
#[verifier::external_body]
pub(crate) fn zero_duration() -> std::time::Duration {
    std::time::Duration::ZERO
}

// --- thousands separators --------------------------------------------------

/// Digits grouped in threes from the right, with commas between groups.
pub open spec fn group3(d: Seq<char>) -> Seq<char>
    decreases d.len(),
{
    if d.len() <= 3 {
        d
    } else {
        group3(d.subrange(0, d.len() - 3)) + seq![','] + d.subrange(d.len() - 3, d.len() as int)
    }
}

/// `n` in decimal with thousands separators: `100000` becomes `100,000`.
pub open spec fn fmt_n_spec(n: nat) -> Seq<char> {
    group3(decimal(n))
}

proof fn lemma_decimal_len(n: nat)
    ensures
        decimal(n).len() > 0,
    decreases n,
{
    if n >= 10 {
        lemma_decimal_len(n / 10);
    }
}

/// Formats a count with thousands separators.
pub fn fmt_n(n: u64) -> (r: String)
    ensures
        r@ == fmt_n_spec(n as nat),
{
    let d = u64_decimal(n);
    proof {
        lemma_decimal_len(n as nat);
    }
    let len = d.len();
    let mut h = len % 3;
    if h == 0 {
        h = 3;
    }
    let mut out = sub_chars(d.as_slice(), 0, h);
    assert(d@.take(h as int) =~= d@.subrange(0, h as int));
    let mut p = h;
    while p < len
        invariant
            len == d@.len(),
            1 <= p <= len,
            p % 3 == len % 3,
            out@ == group3(d@.take(p as int)),
        decreases len - p,
    {
        out.push(',');
        let mut block = sub_chars(d.as_slice(), p, p + 3);
        out.append(&mut block);
        proof {
            assert(d@.take(p + 3).subrange(0, p as int) =~= d@.take(p as int));
            assert(d@.take(p + 3).subrange(p as int, p + 3) =~= d@.subrange(p as int, p + 3));
        }
        p = p + 3;
    }
    proof {
        assert(d@.take(len as int) =~= d@);
    }
    string_from_chars(out.as_slice())
}

proof fn lemma_decimal_digits(n: nat)
    ensures
        all_digits(decimal(n)),
        digits_value(decimal(n)) == n,
        decimal(n).len() > 0,
    decreases n,
{
    assert(digit_char((n % 10) as int) as int == (n % 10) + 48);
    if n < 10 {
        assert(decimal(n).drop_last() =~= Seq::<char>::empty());
        assert(digits_value(Seq::<char>::empty()) == 0);
        assert(digits_value(decimal(n)) == digits_value(decimal(n).drop_last()) * 10 + (
        decimal(n).last() as int - 48));
    } else {
        lemma_decimal_digits(n / 10);
        let d = decimal(n);
        assert(d.drop_last() =~= decimal(n / 10));
        assert(d.last() == digit_char((n % 10) as int));
        assert(digits_value(d) == digits_value(decimal(n / 10)) * 10 + (n % 10));
        assert(n == (n / 10) * 10 + n % 10);
        assert forall|i: int| 0 <= i < d.len() implies is_digit(#[trigger] d[i]) by {
            if i < d.len() - 1 {
                assert(d[i] == decimal(n / 10)[i]);
            }
        }
    }
}

proof fn lemma_group3_chars(d: Seq<char>)
    requires
        all_digits(d),
        d.len() > 0,
    ensures
        strip_commas(group3(d)) == d,
        is_number_word(group3(d)),
    decreases d.len(),
{
    reveal_with_fuel(Seq::filter, 1);
    if d.len() <= 3 {
        lemma_filter_keeps_all(d);
    } else {
        let a = d.subrange(0, d.len() - 3);
        let b = d.subrange(d.len() - 3, d.len() as int);
        assert(all_digits(a));
        assert(all_digits(b));
        lemma_group3_chars(a);
        let g = group3(a);
        assert(group3(d) == g + seq![','] + b);
        Seq::filter_distributes_over_add(g + seq![','], b, |c: char| c != ',');
        Seq::filter_distributes_over_add(g, seq![','], |c: char| c != ',');
        assert(seq![','].filter(|c: char| c != ',') =~= Seq::<char>::empty()) by {
            reveal_with_fuel(Seq::filter, 2);
            assert(seq![','].drop_last() =~= Seq::<char>::empty());
        }
        lemma_filter_keeps_all(b);
        assert(a + b =~= d);
        let gd = group3(d);
        assert forall|k: int| 0 <= k < gd.len() implies is_digit(#[trigger] gd[k]) || gd[k]
            == ',' by {
            if k < g.len() {
                assert(gd[k] == g[k]);
            } else if k == g.len() {
            } else {
                assert(gd[k] == b[k - g.len() - 1]);
            }
        }
    }
}

proof fn lemma_filter_keeps_all(d: Seq<char>)
    requires
        all_digits(d),
    ensures
        d.filter(|c: char| c != ',') == d,
    decreases d.len(),
{
    reveal_with_fuel(Seq::filter, 1);
    if d.len() > 0 {
        assert(all_digits(d.drop_last()));
        lemma_filter_keeps_all(d.drop_last());
        assert(is_digit(d.last()));
        assert(d.drop_last().push(d.last()) =~= d);
    } else {
        assert(d.filter(|c: char| c != ',') =~= d);
    }
}

/// A count formatted with thousands separators is a word of digits and
/// commas, and dropping its commas reads back the count: what the report
/// writes, the row-count reader of the runner reads back.
pub proof fn law_fmt_n_reads_back(n: u64)
    ensures
        is_number_word(fmt_n_spec(n as nat)),
        parse_u64_spec(strip_commas(fmt_n_spec(n as nat))) == Some(n),
{
    lemma_decimal_digits(n as nat);
    lemma_group3_chars(decimal(n as nat));
}

// --- verdict and summary text ----------------------------------------------

/// The rows part of a verdict line: `N read · M written`, `N read`,
/// `M written`, or nothing.
pub open spec fn rows_text_spec(rows_read: Option<u64>, rows_written: Option<u64>) -> Seq<char> {
    match (rows_read, rows_written) {
        (Some(r), Some(w)) => fmt_n_spec(r as nat) + " read · "@ + fmt_n_spec(w as nat)
            + " written"@,
        (Some(r), None) => fmt_n_spec(r as nat) + " read"@,
        (None, Some(w)) => fmt_n_spec(w as nat) + " written"@,
        (None, None) => Seq::empty(),
    }
}

pub fn rows_text(rows_read: Option<u64>, rows_written: Option<u64>) -> (r: String)
    ensures
        r@ == rows_text_spec(rows_read, rows_written),
{
    let mut v: Vec<char> = Vec::new();
    match (rows_read, rows_written) {
        (Some(r), Some(w)) => {
            push_str(&mut v, fmt_n(r).as_str());
            push_str(&mut v, " read · ");
            push_str(&mut v, fmt_n(w).as_str());
            push_str(&mut v, " written");
        },
        (Some(r), None) => {
            push_str(&mut v, fmt_n(r).as_str());
            push_str(&mut v, " read");
        },
        (None, Some(w)) => {
            push_str(&mut v, fmt_n(w).as_str());
            push_str(&mut v, " written");
        },
        (None, None) => {},
    }
    assert(v@ =~= rows_text_spec(rows_read, rows_written));
    string_from_chars(v.as_slice())
}

/// How many of the case results passed.
pub open spec fn passed_count(results: Seq<CaseResult>) -> nat {
    results.filter(|r: CaseResult| r.passed).len()
}

/// `(passed, failed)` over a run's case results.
pub fn summary_counts(results: &Vec<CaseResult>) -> (r: (usize, usize))
    ensures
        r.0 == passed_count(results@),
        r.0 + r.1 == results@.len(),
{
    let mut passed: usize = 0;
    let mut i: usize = 0;
    while i < results.len()
        invariant
            i <= results@.len(),
            passed == results@.take(i as int).filter(|r: CaseResult| r.passed).len(),
            passed <= i,
        decreases results.len() - i,
    {
        proof {
            reveal_with_fuel(Seq::filter, 1);
            assert(results@.take(i + 1).drop_last() =~= results@.take(i as int));
        }
        if results[i].passed {
            passed = passed + 1;
        }
        i = i + 1;
    }
    proof {
        assert(results@.take(results@.len() as int) =~= results@);
    }
    (passed, results.len() - passed)
}

/// How many of the bundle entries passed.
pub open spec fn entries_passed_count(entries: Seq<BundleEntryResult>) -> nat {
    entries.filter(|e: BundleEntryResult| e.passed).len()
}

/// `(passed, failed)` over a bundle's entries.
pub fn bundle_counts(result: &BundleResult) -> (r: (usize, usize))
    ensures
        r.0 == entries_passed_count(result.entries@),
        r.0 + r.1 == result.entries@.len(),
{
    let mut passed: usize = 0;
    let mut i: usize = 0;
    while i < result.entries.len()
        invariant
            i <= result.entries@.len(),
            passed == result.entries@.take(i as int).filter(|e: BundleEntryResult| e.passed).len(),
            passed <= i,
        decreases result.entries.len() - i,
    {
        proof {
            reveal_with_fuel(Seq::filter, 1);
            assert(result.entries@.take(i + 1).drop_last() =~= result.entries@.take(i as int));
        }
        if result.entries[i].passed {
            passed = passed + 1;
        }
        i = i + 1;
    }
    proof {
        assert(result.entries@.take(result.entries@.len() as int) =~= result.entries@);
    }
    (passed, result.entries.len() - passed)
}

/// `P passed, F failed`.
pub open spec fn summary_text_spec(passed: nat, failed: nat) -> Seq<char> {
    decimal(passed) + " passed, "@ + decimal(failed) + " failed"@
}

pub fn summary_text(passed: usize, failed: usize) -> (r: String)
    ensures
        r@ == summary_text_spec(passed as nat, failed as nat),
{
    let mut v: Vec<char> = Vec::new();
    push_str(&mut v, u64_to_string(passed as u64).as_str());
    push_str(&mut v, " passed, ");
    push_str(&mut v, u64_to_string(failed as u64).as_str());
    push_str(&mut v, " failed");
    string_from_chars(v.as_slice())
}

/// `<bundle> — P passed, F failed`.
pub fn bundle_summary_text(name: &str, passed: usize, failed: usize) -> (r: String)
    ensures
        r@ == name@ + " — "@ + summary_text_spec(passed as nat, failed as nat),
{
    let mut v: Vec<char> = Vec::new();
    push_str(&mut v, name);
    push_str(&mut v, " — ");
    push_str(&mut v, summary_text(passed, failed).as_str());
    assert(v@ =~= name@ + " — "@ + summary_text_spec(passed as nat, failed as nat));
    string_from_chars(v.as_slice())
}

} // verus!
