//! The decisions of a case run: reading Loadsmith's summary, checking the
//! case's expectations, and the containers it starts.

use vstd::prelude::*;

use crate::case::{Case, Expect, PostgresReadiness, ServiceDef, VolumeMount};
use crate::docker::{env_pairs, split_env_spec, ContainerConfig};
use crate::origin::Config;
use crate::paths::{join, path_join};
use crate::report::{fmt_n_spec, law_fmt_n_reads_back, CaseResult};
use crate::text::{
    chars_of, concat, contains, contains_seq, copy_strings, decimal, i64_to_string, is_digit,
    lines, lines_of, lower, opt_view, pair_views, parse_u64, parse_u64_spec, push_str,
    signed_decimal, str_eq, string_from_chars, string_views, to_ascii_lowercase, u64_to_string,
    views, words, words_of, is_sep, is_ws, lower_char, occurs_at, split_scan, strip_cr,
};

verus! {

/// `i` is the first position in `s` whose element satisfies `p`.
pub open spec fn is_first_where(s: Seq<Seq<char>>, p: spec_fn(Seq<char>) -> bool, i: int) -> bool {
    &&& 0 <= i < s.len()
    &&& p(s[i])
    &&& forall|j: int| 0 <= j < i ==> !p(#[trigger] s[j])
}

/// The first element of `s` satisfying `p` (`Iterator::find`).
pub open spec fn find_first(s: Seq<Seq<char>>, p: spec_fn(Seq<char>) -> bool) -> Option<Seq<char>> {
    if exists|i: int| is_first_where(s, p, i) {
        Some(s[choose|i: int| is_first_where(s, p, i)])
    } else {
        None
    }
}

proof fn lemma_find_first_at(s: Seq<Seq<char>>, p: spec_fn(Seq<char>) -> bool, i: int)
    requires
        is_first_where(s, p, i),
    ensures
        find_first(s, p) == Some(s[i]),
{
    let j = choose|j: int| is_first_where(s, p, j);
    if j < i {
        assert(!p(s[j]));
    } else if i < j {
        assert(!p(s[i]));
    }
}

/// A word made only of digits and commas (`100,000`).
pub open spec fn is_number_word(w: Seq<char>) -> bool {
    w.len() > 0 && forall|k: int| 0 <= k < w.len() ==> is_digit(#[trigger] w[k]) || w[k] == ','
}

/// `w` without its commas.
pub open spec fn strip_commas(w: Seq<char>) -> Seq<char> {
    w.filter(|c: char| c != ',')
}

/// The metric labelled `label` in Loadsmith's output: on the first line whose
/// lower-cased text contains `label`, the first word of digits and commas,
/// read as a number once its commas are dropped.
pub open spec fn parse_metric_spec(s: Seq<char>, label: Seq<char>) -> Option<u64> {
    match find_first(lines_of(s), |l: Seq<char>| contains(lower(l), label)) {
        None => None,
        Some(line) => match find_first(words_of(line), |w: Seq<char>| is_number_word(w)) {
            None => None,
            Some(w) => parse_u64_spec(strip_commas(w)),
        },
    }
}

fn is_number_word_exec(w: &[char]) -> (b: bool)
    ensures
        b == is_number_word(w@),
{
    if w.len() == 0 {
        return false;
    }
    let mut k: usize = 0;
    while k < w.len()
        invariant
            k <= w@.len(),
            w.len() == w@.len(),
            forall|j: int| 0 <= j < k ==> is_digit(#[trigger] w@[j]) || w@[j] == ',',
        decreases w.len() - k,
    {
        let c = w[k];
        if !(('0' <= c && c <= '9') || c == ',') {
            return false;
        }
        k = k + 1;
    }
    true
}

fn strip_commas_exec(w: &[char]) -> (r: Vec<char>)
    ensures
        r@ == strip_commas(w@),
{
    let mut r: Vec<char> = Vec::new();
    let mut k: usize = 0;
    while k < w.len()
        invariant
            k <= w@.len(),
            w.len() == w@.len(),
            r@ =~= w@.take(k as int).filter(|c: char| c != ','),
        decreases w.len() - k,
    {
        proof {
            reveal_with_fuel(Seq::filter, 1);
            assert(w@.take(k + 1).drop_last() =~= w@.take(k as int));
        }
        if w[k] != ',' {
            r.push(w[k]);
        }
        k = k + 1;
    }
    proof {
        assert(w@.take(w@.len() as int) =~= w@);
    }
    r
}

/// Reads a metric such as `Rows read:    100,000` from Loadsmith's output,
/// case-insensitively, handling comma-grouped numbers.
pub fn parse_metric(s: &str, label: &str) -> (r: Option<u64>)
    ensures
        r == parse_metric_spec(s@, label@),
{
    let sc = chars_of(s);
    let lc = chars_of(label);
    let ls = lines(sc.as_slice());
    let ghost lsv = views(ls@);
    let ghost pl = |l: Seq<char>| contains(lower(l), lc@);
    let mut i: usize = 0;
    while i < ls.len()
        invariant
            i <= ls@.len(),
            lsv == views(ls@),
            lsv == lines_of(s@),
            lc@ == label@,
            pl == (|l: Seq<char>| contains(lower(l), lc@)),
            forall|j: int| 0 <= j < i ==> !pl(#[trigger] lsv[j]),
        decreases ls.len() - i,
    {
        let low = to_ascii_lowercase(ls[i].as_slice());
        if contains_seq(low.as_slice(), lc.as_slice()) {
            proof {
                assert(lsv[i as int] == ls@[i as int]@);
                assert(is_first_where(lsv, pl, i as int));
                lemma_find_first_at(lsv, pl, i as int);
                assert(find_first(lines_of(s@), |l: Seq<char>| contains(lower(l), label@))
                    == Some(ls@[i as int]@));
            }
            let ws = words(ls[i].as_slice());
            let ghost wsv = views(ws@);
            let ghost pw = |w: Seq<char>| is_number_word(w);
            let mut j: usize = 0;
            while j < ws.len()
                invariant
                    j <= ws@.len(),
                    i < ls@.len(),
                    find_first(lines_of(s@), |l: Seq<char>| contains(lower(l), label@)) == Some(
                        ls@[i as int]@,
                    ),
                    wsv == views(ws@),
                    wsv == words_of(ls@[i as int]@),
                    pw == (|w: Seq<char>| is_number_word(w)),
                    forall|k: int| 0 <= k < j ==> !pw(#[trigger] wsv[k]),
                decreases ws.len() - j,
            {
                if is_number_word_exec(ws[j].as_slice()) {
                    proof {
                        assert(wsv[j as int] == ws@[j as int]@);
                        assert(is_first_where(wsv, pw, j as int));
                        lemma_find_first_at(wsv, pw, j as int);
                    }
                    let digits = strip_commas_exec(ws[j].as_slice());
                    return parse_u64(digits.as_slice());
                }
                proof {
                    assert(wsv[j as int] == ws@[j as int]@);
                }
                j = j + 1;
            }
            proof {
                assert(!exists|k: int| is_first_where(wsv, pw, k));
            }
            return None;
        }
        proof {
            assert(lsv[i as int] == ls@[i as int]@);
        }
        i = i + 1;
    }
    proof {
        assert(!exists|k: int| is_first_where(lsv, pl, k));
    }
    None
}

/// `(rows read, rows written)` from Loadsmith's summary.
pub fn parse_rows_from_stdout(stdout: &str) -> (r: (Option<u64>, Option<u64>))
    ensures
        r.0 == parse_metric_spec(stdout@, "rows read"@),
        r.1 == parse_metric_spec(stdout@, "rows written"@),
{
    (parse_metric(stdout, "rows read"), parse_metric(stdout, "rows written"))
}

// --- expectations ------------------------------------------------------------

/// The expected output file: taken as is when absolute, else under the run's
/// output directory.
pub open spec fn output_path_spec(file: Seq<char>, output_dir: Seq<char>) -> Seq<char> {
    if file.len() > 0 && file[0] == '/' {
        file
    } else {
        path_join(output_dir, file)
    }
}

pub fn output_path(file: &str, output_dir: &str) -> (r: String)
    ensures
        r@ == output_path_spec(file@, output_dir@),
{
    let f = chars_of(file);
    if f.len() > 0 && f[0] == '/' {
        file.to_owned()
    } else {
        join(output_dir, file)
    }
}

/// What the runner found at the expected output file.
// --- reading back what the report writes -------------------------------------

/// Scanning on past characters that separate nothing extends the open
/// piece.
proof fn lemma_scan_plain(p: Seq<char>, y: Seq<char>, by_ws: bool)
    requires
        forall|k: int| 0 <= k < y.len() ==> !is_sep(by_ws, #[trigger] y[k]),
    ensures
        split_scan(p + y, by_ws) == (split_scan(p, by_ws).0, split_scan(p, by_ws).1 + y),
    decreases y.len(),
{
    let cur = split_scan(p, by_ws).1;
    if y.len() == 0 {
        assert(p + y =~= p);
        assert(cur + y =~= cur);
    } else {
        let y0 = y.drop_last();
        lemma_scan_plain(p, y0, by_ws);
        assert((p + y).drop_last() =~= p + y0);
        assert((p + y).last() == y.last());
        assert((cur + y0).push(y.last()) =~= cur + y);
    }
}

/// No character of `w` can be part of a number word.
pub open spec fn no_number_chars(w: Seq<char>) -> bool {
    forall|k: int| 0 <= k < w.len() ==> !is_digit(#[trigger] w[k]) && w[k] != ','
}

/// The pieces of a text with no digit and no comma have none either.
proof fn lemma_scan_no_number_chars(s: Seq<char>, by_ws: bool)
    requires
        no_number_chars(s),
    ensures
        forall|i: int|
            0 <= i < split_scan(s, by_ws).0.len() ==> no_number_chars(
                #[trigger] split_scan(s, by_ws).0[i],
            ),
        no_number_chars(split_scan(s, by_ws).1),
    decreases s.len(),
{
    if s.len() > 0 {
        let r = s.drop_last();
        assert(no_number_chars(r)) by {
            assert forall|k: int| 0 <= k < r.len() implies !is_digit(#[trigger] r[k]) && r[k] != ',' by {
                assert(r[k] == s[k]);
            }
        }
        lemma_scan_no_number_chars(r, by_ws);
        let (done, cur) = split_scan(r, by_ws);
        if !is_sep(by_ws, s.last()) {
            let c2 = cur.push(s.last());
            assert forall|k: int| 0 <= k < c2.len() implies !is_digit(#[trigger] c2[k]) && c2[k] != ',' by {
                if k < cur.len() {
                    assert(c2[k] == cur[k]);
                } else {
                    assert(c2[k] == s[s.len() - 1]);
                }
            }
        } else {
            let d2 = done.push(cur);
            assert forall|i: int| 0 <= i < d2.len() implies no_number_chars(#[trigger] d2[i]) by {
                if i < done.len() {
                    assert(d2[i] == done[i]);
                }
            }
        }
    }
}

/// A line made of a text with no digit or comma, ending in whitespace, then
/// a number word: that number word is the line's first.
proof fn lemma_first_number_word(pre: Seq<char>, d: Seq<char>)
    requires
        pre.len() > 0,
        is_ws(pre.last()),
        no_number_chars(pre),
        is_number_word(d),
        forall|k: int| 0 <= k < d.len() ==> !is_ws(#[trigger] d[k]),
    ensures
        find_first(words_of(pre + d), |w: Seq<char>| is_number_word(w)) == Some(d),
{
    broadcast use vstd::seq_lib::group_filter_ensures;

    let (done, cur) = split_scan(pre, true);
    assert(pre.drop_last().push(pre.last()) =~= pre);
    assert(cur.len() == 0);
    lemma_scan_plain(pre, d, true);
    assert(cur + d =~= d);
    let ne = |w: Seq<char>| w.len() > 0;
    done.lemma_filter_push(d, ne);
    let fw = done.filter(ne);
    let ws = fw.push(d);
    assert(words_of(pre + d) == ws);
    lemma_scan_no_number_chars(pre, true);
    let p = |w: Seq<char>| is_number_word(w);
    assert forall|j: int| 0 <= j < fw.len() implies !p(#[trigger] ws[j]) by {
        assert(ws[j] == fw[j]);
        assert(fw[j].len() > 0);
        assert(fw.contains(fw[j]));
        done.lemma_filter_contains_rev(ne, fw[j]);
        let i = choose|i: int| 0 <= i < done.len() && done[i] == fw[j];
        assert(no_number_chars(done[i]));
        assert(!is_digit(fw[j][0]) && fw[j][0] != ',');
    }
    assert(ws[fw.len() as int] == d);
    lemma_find_first_at(ws, p, fw.len() as int);
}

/// Two lines joined by a line feed read back as those two lines.
proof fn lemma_two_lines(l1: Seq<char>, l2: Seq<char>)
    requires
        l1.len() > 0,
        l2.len() > 0,
        l1.last() != '\r',
        forall|k: int| 0 <= k < l1.len() ==> #[trigger] l1[k] != '\n',
        forall|k: int| 0 <= k < l2.len() ==> #[trigger] l2[k] != '\n',
    ensures
        lines_of(l1 + seq!['\n'] + l2) == seq![l1, l2],
{
    let e = Seq::<char>::empty();
    lemma_scan_plain(e, l1, false);
    assert(e + l1 =~= l1);
    assert(split_scan(e, false) == (Seq::<Seq<char>>::empty(), e));
    assert(e + l1 =~= l1);
    let a = l1.push('\n');
    assert(a.drop_last() =~= l1);
    assert(split_scan(a, false) == (seq![l1], e));
    lemma_scan_plain(a, l2, false);
    assert(l1 + seq!['\n'] + l2 =~= a + l2);
    assert(e + l2 =~= l2);
    assert(seq![l1].map_values(|l: Seq<char>| strip_cr(l)) =~= seq![l1]);
    assert(seq![l1].push(l2) =~= seq![l1, l2]);
}

/// The two rows lines of Loadsmith's summary, as the report formats them.
pub open spec fn rows_summary(rows_read: u64, rows_written: u64) -> Seq<char> {
    "  Rows read:    "@ + fmt_n_spec(rows_read as nat) + seq!['\n'] + "  Rows written: "@ + fmt_n_spec(
        rows_written as nat,
    )
}

proof fn lemma_number_word_plain(d: Seq<char>)
    requires
        is_number_word(d),
    ensures
        forall|k: int| 0 <= k < d.len() ==> !is_ws(#[trigger] d[k]),
        forall|k: int| 0 <= k < d.len() ==> #[trigger] d[k] != '\n' && d[k] != '\r',
        forall|k: int| 0 <= k < d.len() ==> #[trigger] lower_char(d[k]) == d[k],
{
    assert forall|k: int| 0 <= k < d.len() implies !is_ws(#[trigger] d[k]) by {
        assert(is_digit(d[k]) || d[k] == ',');
    }
}

/// Reading the metrics back from the summary lines gives the counts that
/// were formatted into them: the reader undoes the thousands separators.
pub proof fn law_parse_metric_reads_fmt_n(rows_read: u64, rows_written: u64)
    ensures
        parse_metric_spec(rows_summary(rows_read, rows_written), "rows read"@) == Some(rows_read),
        parse_metric_spec(rows_summary(rows_read, rows_written), "rows written"@) == Some(
            rows_written,
        ),
{
    reveal_strlit("  Rows read:    ");
    reveal_strlit("  Rows written: ");
    reveal_strlit("rows read");
    reveal_strlit("rows written");
    let pre1 = "  Rows read:    "@;
    let pre2 = "  Rows written: "@;
    let d1 = fmt_n_spec(rows_read as nat);
    let d2 = fmt_n_spec(rows_written as nat);
    law_fmt_n_reads_back(rows_read);
    law_fmt_n_reads_back(rows_written);
    lemma_number_word_plain(d1);
    lemma_number_word_plain(d2);
    let l1 = pre1 + d1;
    let l2 = pre2 + d2;
    assert forall|k: int| 0 <= k < l1.len() implies #[trigger] l1[k] != '\n' by {
        if k >= pre1.len() {
            assert(l1[k] == d1[k - pre1.len()]);
        }
    }
    assert forall|k: int| 0 <= k < l2.len() implies #[trigger] l2[k] != '\n' by {
        if k >= pre2.len() {
            assert(l2[k] == d2[k - pre2.len()]);
        }
    }
    assert(l1.last() == d1.last());
    lemma_two_lines(l1, l2);
    assert(rows_summary(rows_read, rows_written) =~= l1 + seq!['\n'] + l2);
    let lines = seq![l1, l2];
    assert(no_number_chars(pre1));
    assert(no_number_chars(pre2));
    lemma_first_number_word(pre1, d1);
    lemma_first_number_word(pre2, d2);
    let h1 = lower(l1);
    let h2 = lower(l2);
    // "rows read" is on the first line.
    let lr = "rows read"@;
    assert(h1.subrange(2, 11) =~= lr);
    assert(occurs_at(h1, lr, 2));
    let p1 = |l: Seq<char>| contains(lower(l), lr);
    assert(p1(lines[0]));
    lemma_find_first_at(lines, p1, 0);
    // "rows written" is not on the first line, and is on the second.
    let lw = "rows written"@;
    assert forall|i: int| !occurs_at(h1, lw, i) by {
        if occurs_at(h1, lw, i) {
            assert(h1.subrange(i, i + 12)[0] == lw[0]);
            assert(h1.subrange(i, i + 12)[5] == lw[5]);
            assert(h1[i] == 'r' && h1[i + 5] == 'w');
            if i + 5 >= 16 {
                assert(h1[i + 5] == d1[i + 5 - 16]);
            }
        }
    }
    assert(h2.subrange(2, 14) =~= lw);
    assert(occurs_at(h2, lw, 2));
    let p2 = |l: Seq<char>| contains(lower(l), lw);
    assert(!p2(lines[0]));
    assert(p2(lines[1]));
    lemma_find_first_at(lines, p2, 1);
}

/// The number of newline-terminated lines in a file's bytes: the number of
/// `\n` bytes.
pub open spec fn newline_count(b: Seq<u8>) -> nat
    decreases b.len(),
{
    if b.len() == 0 {
        0
    } else {
        newline_count(b.drop_last()) + if b.last() == 10u8 {
            1nat
        } else {
            0nat
        }
    }
}

/// The row count of an output file: its newline-terminated lines, so an
/// unterminated last line does not count.
pub fn count_rows(bytes: &[u8]) -> (r: u64)
    ensures
        r == newline_count(bytes@),
{
    let mut n: u64 = 0;
    let mut i: usize = 0;
    while i < bytes.len()
        invariant
            i <= bytes@.len(),
            n == newline_count(bytes@.take(i as int)),
            n <= i,
        decreases bytes.len() - i,
    {
        assert(bytes@.take(i + 1).drop_last() =~= bytes@.take(i as int));
        if bytes[i] == 10u8 {
            n = n + 1;
        }
        i = i + 1;
    }
    assert(bytes@.take(i as int) =~= bytes@);
    n
}

pub struct FileObservation {
    pub exists: bool,
    /// The file's line count, or why it could not be counted; asked only
    /// when the file exists and a row count is expected.
    pub line_count: Option<Result<u64, String>>,
}

pub open spec fn status_failure(status: Seq<char>, exit_code: i64) -> Seq<Seq<char>> {
    if (status == "success"@) != (exit_code == 0) {
        seq![
            "status: expected '"@ + status + "', got exit code "@ + signed_decimal(
                exit_code as int,
            ),
        ]
    } else {
        Seq::empty()
    }
}

/// `expected <label>=N, got M` (or `got none`) when a summary count differs
/// from the expected one.
pub open spec fn count_failure(label: Seq<char>, expected: Option<u64>, actual: Option<u64>) -> Seq<
    Seq<char>,
> {
    match expected {
        None => Seq::empty(),
        Some(e) => if actual == Some(e) {
            Seq::empty()
        } else {
            seq![
                "expected "@ + label + "="@ + decimal(e as nat) + ", got "@ + match actual {
                    Some(a) => decimal(a as nat),
                    None => "none"@,
                },
            ]
        },
    }
}

pub open spec fn output_failure(
    out: Option<(Seq<char>, Option<u64>)>,
    output_dir: Seq<char>,
    exists: bool,
    line_count: Option<Result<u64, Seq<char>>>,
) -> Seq<Seq<char>> {
    match out {
        None => Seq::empty(),
        Some((file, row_count)) => {
            let path = output_path_spec(file, output_dir);
            if !exists {
                seq!["output file not found: "@ + path]
            } else {
                match row_count {
                    None => Seq::empty(),
                    Some(e) => match line_count {
                        Some(Ok(a)) => if a == e {
                            Seq::empty()
                        } else {
                            seq![
                                "row_count: expected "@ + decimal(e as nat) + ", got "@ + decimal(
                                    a as nat,
                                ) + " in "@ + path,
                            ]
                        },
                        Some(Err(err)) => seq!["cannot count rows in "@ + path + ": "@ + err],
                        None => seq!["cannot count rows in "@ + path + ": "@ + "not counted"@],
                    },
                }
            }
        },
    }
}

pub open spec fn expect_output_view(e: &Expect) -> Option<(Seq<char>, Option<u64>)> {
    match e.output {
        Some(o) => Some((o.file@, o.row_count)),
        None => None,
    }
}

pub open spec fn line_count_view(l: Option<Result<u64, String>>) -> Option<Result<u64, Seq<char>>> {
    match l {
        Some(Ok(a)) => Some(Ok(a)),
        Some(Err(e)) => Some(Err(e@)),
        None => None,
    }
}

/// Every way the run fell short of the case's `expect` block, in order:
/// exit status, rows read, rows written, then the output file.
pub open spec fn failures_spec(
    expect: &Expect,
    exit_code: i64,
    rows_read: Option<u64>,
    rows_written: Option<u64>,
    output_dir: Seq<char>,
    obs: &FileObservation,
) -> Seq<Seq<char>> {
    status_failure(expect.status@, exit_code) + count_failure("rows_read"@, expect.rows_read, rows_read)
        + count_failure("rows_written"@, expect.rows_written, rows_written) + output_failure(
        expect_output_view(expect),
        output_dir,
        obs.exists,
        line_count_view(obs.line_count),
    )
}

/// An output file that exists, with no row count asked of it, adds no
/// failure whatever its line count: `row_count` is optional, and a missing
/// one asserts nothing. Two runs that differ only in the observed line
/// count then fail in exactly the same ways.
pub proof fn law_no_row_count_asserts_nothing(
    expect: &Expect,
    exit_code: i64,
    rows_read: Option<u64>,
    rows_written: Option<u64>,
    output_dir: Seq<char>,
    obs1: &FileObservation,
    obs2: &FileObservation,
)
    requires
        expect.output matches Some(o) && o.row_count is None,
        obs1.exists,
        obs2.exists,
    ensures
        forall|lc: Option<Result<u64, Seq<char>>>|
            output_failure(#[trigger] expect_output_view(expect), output_dir, true, lc).len() == 0,
        failures_spec(expect, exit_code, rows_read, rows_written, output_dir, obs1) == failures_spec(
            expect,
            exit_code,
            rows_read,
            rows_written,
            output_dir,
            obs2,
        ),
        failures_spec(expect, exit_code, rows_read, rows_written, output_dir, obs1) == status_failure(
            expect.status@,
            exit_code,
        ) + count_failure("rows_read"@, expect.rows_read, rows_read) + count_failure(
            "rows_written"@,
            expect.rows_written,
            rows_written,
        ),
{
    let a = status_failure(expect.status@, exit_code) + count_failure(
        "rows_read"@,
        expect.rows_read,
        rows_read,
    ) + count_failure("rows_written"@, expect.rows_written, rows_written);
    assert(a + Seq::<Seq<char>>::empty() =~= a);
}

fn push_line(v: &mut Vec<String>, parts: Vec<char>)
    ensures
        string_views(final(v)@) == string_views(old(v)@).push(parts@),
{
    let s = string_from_chars(parts.as_slice());
    let ghost before = v@;
    v.push(s);
    proof {
        assert(string_views(v@) =~= string_views(before).push(parts@));
    }
}

fn count_check(
    v: &mut Vec<String>,
    label: &str,
    expected: Option<u64>,
    actual: Option<u64>,
)
    ensures
        string_views(final(v)@) == string_views(old(v)@) + count_failure(label@, expected, actual),
{
    match expected {
        None => {
            assert(string_views(v@) =~= string_views(v@) + Seq::<Seq<char>>::empty());
        },
        Some(e) => {
            if actual == Some(e) {
                assert(string_views(v@) =~= string_views(v@) + Seq::<Seq<char>>::empty());
            } else {
                let mut m = chars_of("expected ");
                push_str(&mut m, label);
                push_str(&mut m, "=");
                push_str(&mut m, u64_to_string(e).as_str());
                push_str(&mut m, ", got ");
                match actual {
                    Some(a) => push_str(&mut m, u64_to_string(a).as_str()),
                    None => push_str(&mut m, "none"),
                }
                let ghost before = string_views(v@);
                push_line(v, m);
                assert(string_views(v@) =~= before + count_failure(label@, expected, actual));
            }
        },
    }
}

/// Checks a finished run against the case's `expect` block and lists every
/// failure; an empty list means the case passed.
pub fn validate_expects(
    expect: &Expect,
    exit_code: i64,
    rows_read: Option<u64>,
    rows_written: Option<u64>,
    output_dir: &str,
    obs: &FileObservation,
) -> (r: Vec<String>)
    ensures
        string_views(r@) == failures_spec(
            expect,
            exit_code,
            rows_read,
            rows_written,
            output_dir@,
            obs,
        ),
{
    let mut failures: Vec<String> = Vec::new();
    let expected_success = str_eq(expect.status.as_str(), "success");
    let actual_success = exit_code == 0;
    if expected_success != actual_success {
        let mut m = chars_of("status: expected '");
        push_str(&mut m, expect.status.as_str());
        push_str(&mut m, "', got exit code ");
        push_str(&mut m, i64_to_string(exit_code).as_str());
        push_line(&mut failures, m);
    }
    assert(string_views(failures@) =~= status_failure(expect.status@, exit_code));
    count_check(&mut failures, "rows_read", expect.rows_read, rows_read);
    count_check(&mut failures, "rows_written", expect.rows_written, rows_written);
    let ghost before = string_views(failures@);
    match &expect.output {
        None => {},
        Some(out) => {
            let path = output_path(out.file.as_str(), output_dir);
            if !obs.exists {
                let mut m = chars_of("output file not found: ");
                push_str(&mut m, path.as_str());
                push_line(&mut failures, m);
            } else {
                match out.row_count {
                    None => {},
                    Some(e) => match &obs.line_count {
                        Some(Ok(a)) => {
                            if *a != e {
                                let mut m = chars_of("row_count: expected ");
                                push_str(&mut m, u64_to_string(e).as_str());
                                push_str(&mut m, ", got ");
                                push_str(&mut m, u64_to_string(*a).as_str());
                                push_str(&mut m, " in ");
                                push_str(&mut m, path.as_str());
                                push_line(&mut failures, m);
                            }
                        },
                        Some(Err(err)) => {
                            let mut m = chars_of("cannot count rows in ");
                            push_str(&mut m, path.as_str());
                            push_str(&mut m, ": ");
                            push_str(&mut m, err.as_str());
                            push_line(&mut failures, m);
                        },
                        None => {
                            let mut m = chars_of("cannot count rows in ");
                            push_str(&mut m, path.as_str());
                            push_str(&mut m, ": ");
                            push_str(&mut m, "not counted");
                            push_line(&mut failures, m);
                        },
                    },
                }
            }
        },
    }
    proof {
        assert(string_views(failures@) =~= before + output_failure(
            expect_output_view(expect),
            output_dir@,
            obs.exists,
            line_count_view(obs.line_count),
        ));
    }
    failures
}


// --- run options and containers ----------------------------------------------

pub struct RunOpts {
    /// The Loadsmith core to run, when given: a path to a binary (wrapped in
    /// a minimal image) or a Rust project directory (built from its
    /// Dockerfile). When `None`, a published image is used (`loadsmith_tag`,
    /// else the case's image). Loadsmith always runs in a container.
    pub loadsmith_source: Option<String>,
    /// Use the published image `loadsmith:<tag>` (only when
    /// `loadsmith_source` is `None`).
    pub loadsmith_tag: Option<String>,
    /// Registered origins, used to resolve a case's service-image
    /// references (`<origin>/<name>`) to a build context.
    pub origins: Config,
    /// Emit ANSI colour; passed on to Loadsmith as `NO_COLOR` when false.
    pub color: bool,
    /// Log level handed to Loadsmith.
    pub log_level: String,
    /// Locally built plugin binaries or projects (`--plugin`) that override
    /// the cached canonical plugins.
    pub plugin_overrides: Vec<String>,
}

/// The name of a run's scratch network and output directory:
/// `ls-lab-<id>`.
pub open spec fn scratch_name_spec(id: Seq<char>) -> Seq<char> {
    "ls-lab-"@ + id
}

/// A lowercase hexadecimal digit.
pub open spec fn is_lower_hex(c: char) -> bool {
    ('0' <= c && c <= '9') || ('a' <= c && c <= 'f')
}

/// `Uuid::new_v4().simple()`, as a string: a random identifier written as
/// 32 lowercase hexadecimal digits. Which digits is not stated: they are
/// random.
#[verifier::external_body]
fn random_simple_uuid() -> (r: String)
    ensures
        r@.len() == 32,
        forall|i: int| 0 <= i < 32 ==> is_lower_hex(#[trigger] r@[i]),
{
    uuid::Uuid::new_v4().simple().to_string()
}

/// A fresh scratch name `ls-lab-<id>`, with a random id of 32 lowercase
/// hexadecimal digits.
pub fn scratch_name() -> (r: String)
    ensures
        exists|id: Seq<char>|
            #![trigger scratch_name_spec(id)]
            id.len() == 32 && (forall|i: int| 0 <= i < 32 ==> is_lower_hex(#[trigger] id[i])) && r@
                == scratch_name_spec(id),
{
    let id = random_simple_uuid();
    let r = concat("ls-lab-", id.as_str());
    assert(r@ == scratch_name_spec(id@));
    r
}

/// The container of one case service: named and aliased by the service's
/// alias on the case network, its environment split from the case's
/// `KEY=VALUE` entries, and the service's `docker_args` used as bind mounts.
pub fn service_container(svc: &ServiceDef, tag: &str, net_name: &str) -> (r: ContainerConfig)
    ensures
        r.image@ == tag@,
        r.hostname == Some(svc.alias),
        opt_view(r.network) == Some(net_name@),
        r.env@.len() == svc.env@.len(),
        forall|i: int|
            0 <= i < svc.env@.len() ==> (#[trigger] r.env@[i].0@, r.env@[i].1@) == split_env_spec(
                svc.env@[i]@,
            ),
        r.binds@ == svc.docker_args@,
        r.publish_ports@.len() == 0,
        r.cmd@.len() == 0,
        r.docker_args@.len() == 0,
{
    ContainerConfig {
        image: tag.to_owned(),
        hostname: Some(svc.alias.clone()),
        network: Some(net_name.to_owned()),
        env: env_pairs(&svc.env),
        binds: copy_strings(&svc.docker_args),
        publish_ports: Vec::new(),
        cmd: Vec::new(),
        docker_args: Vec::new(),
    }
}

/// `host:container`, as a volume bind.
pub open spec fn volume_bind(v: VolumeMount) -> Seq<char> {
    v.host@ + seq![':'] + v.container@
}

/// The bind mounts of the Loadsmith container: the pipeline file read-only
/// at `/case/pipeline.yaml`, the output directory at `/output`, the plugin
/// directory read-only at `/plugins`, then the case's own volumes.
pub open spec fn loadsmith_binds_spec(
    pipeline: Seq<char>,
    output_dir: Seq<char>,
    plugin_dir: Seq<char>,
    volumes: Seq<VolumeMount>,
) -> Seq<Seq<char>> {
    seq![
        pipeline + ":/case/pipeline.yaml:ro"@,
        output_dir + ":/output"@,
        plugin_dir + ":/plugins:ro"@,
    ] + volumes.map_values(|v: VolumeMount| volume_bind(v))
}

/// The command handed to the Loadsmith entrypoint.
pub open spec fn loadsmith_cmd_spec(log_level: Seq<char>) -> Seq<Seq<char>> {
    seq![
        "run"@,
        "/case/pipeline.yaml"@,
        "--plugin-dir"@,
        "/plugins"@,
        "--log-level"@,
        log_level,
    ]
}

fn loadsmith_binds(
    pipeline: &str,
    output_dir: &str,
    plugin_dir: &str,
    volumes: &Vec<VolumeMount>,
) -> (r: Vec<String>)
    ensures
        string_views(r@) == loadsmith_binds_spec(pipeline@, output_dir@, plugin_dir@, volumes@),
{
    let mut binds: Vec<String> = Vec::new();
    binds.push(concat(pipeline, ":/case/pipeline.yaml:ro"));
    binds.push(concat(output_dir, ":/output"));
    binds.push(concat(plugin_dir, ":/plugins:ro"));
    let ghost head = string_views(binds@);
    let mut i: usize = 0;
    while i < volumes.len()
        invariant
            i <= volumes@.len(),
            head == seq![
                pipeline@ + ":/case/pipeline.yaml:ro"@,
                output_dir@ + ":/output"@,
                plugin_dir@ + ":/plugins:ro"@,
            ],
            string_views(binds@) =~= head + volumes@.take(i as int).map_values(
                |v: VolumeMount| volume_bind(v),
            ),
        decreases volumes.len() - i,
    {
        let mut b = chars_of(volumes[i].host.as_str());
        b.push(':');
        push_str(&mut b, volumes[i].container.as_str());
        let ghost before = string_views(binds@);
        binds.push(string_from_chars(b.as_slice()));
        proof {
            assert(volumes@.take(i + 1).map_values(|v: VolumeMount| volume_bind(v))
                =~= volumes@.take(i as int).map_values(|v: VolumeMount| volume_bind(v)).push(
                volume_bind(volumes@[i as int]),
            ));
            assert(b@ =~= volume_bind(volumes@[i as int]));
            assert(string_views(binds@) =~= before.push(b@));
            assert(string_views(binds@) =~= head + volumes@.take(i + 1).map_values(
                |v: VolumeMount| volume_bind(v),
            ));
        }
        i = i + 1;
    }
    proof {
        assert(volumes@.take(volumes@.len() as int) =~= volumes@);
    }
    binds
}

/// The container Loadsmith runs in, on the case network: the binds of
/// [`loadsmith_binds_spec`], the case's environment with `NO_COLOR=1` added
/// when colour is off, the `run` command, and the case's extra docker
/// arguments.
pub fn loadsmith_container(
    case: &Case,
    opts: &RunOpts,
    image: &str,
    net_name: &str,
    pipeline: &str,
    output_dir: &str,
    plugin_dir: &str,
) -> (r: ContainerConfig)
    ensures
        r.image@ == image@,
        r.hostname is None,
        opt_view(r.network) == Some(net_name@),
        pair_views(r.env@) == case.loadsmith.env@.map_values(|e: String| split_env_spec(e@))
            + if opts.color {
            Seq::<(Seq<char>, Seq<char>)>::empty()
        } else {
            seq![("NO_COLOR"@, "1"@)]
        },
        string_views(r.binds@) == loadsmith_binds_spec(
            pipeline@,
            output_dir@,
            plugin_dir@,
            case.loadsmith.volumes@,
        ),
        r.publish_ports@.len() == 0,
        string_views(r.cmd@) == loadsmith_cmd_spec(opts.log_level@),
        r.docker_args@ == case.loadsmith.docker_args@,
{
    let mut env = env_pairs(&case.loadsmith.env);
    let ghost base = env@;
    if !opts.color {
        env.push(("NO_COLOR".to_owned(), "1".to_owned()));
    }
    let mut cmd: Vec<String> = Vec::new();
    cmd.push("run".to_owned());
    cmd.push("/case/pipeline.yaml".to_owned());
    cmd.push("--plugin-dir".to_owned());
    cmd.push("/plugins".to_owned());
    cmd.push("--log-level".to_owned());
    cmd.push(opts.log_level.clone());
    let r = ContainerConfig {
        image: image.to_owned(),
        hostname: None,
        network: Some(net_name.to_owned()),
        env,
        binds: loadsmith_binds(pipeline, output_dir, plugin_dir, &case.loadsmith.volumes),
        publish_ports: Vec::new(),
        cmd,
        docker_args: copy_strings(&case.loadsmith.docker_args),
    };
    proof {
        assert(pair_views(base) =~= case.loadsmith.env@.map_values(
            |e: String| split_env_spec(e@),
        ));
        assert(pair_views(r.env@) =~= case.loadsmith.env@.map_values(
            |e: String| split_env_spec(e@),
        ) + if opts.color {
            Seq::<(Seq<char>, Seq<char>)>::empty()
        } else {
            seq![("NO_COLOR"@, "1"@)]
        });
        assert(string_views(r.cmd@) =~= loadsmith_cmd_spec(opts.log_level@));
    }
    r
}

/// Where the pipeline file comes from (beside the case file) and where the
/// run's copy goes (in the output directory, as `pipeline.yaml`).
pub fn pipeline_paths(case_dir: &str, case: &Case, output_dir: &str) -> (r: (String, String))
    ensures
        r.0@ == path_join(case_dir@, case.pipeline.file@),
        r.1@ == path_join(output_dir@, "pipeline.yaml"@),
{
    (join(case_dir, case.pipeline.file.as_str()), join(output_dir, "pipeline.yaml"))
}

/// Where the run's Loadsmith output is saved: `loadsmith.stdout` in the
/// output directory.
pub fn stdout_log_path(output_dir: &str) -> (r: String)
    ensures
        r@ == path_join(output_dir@, "loadsmith.stdout"@),
{
    join(output_dir, "loadsmith.stdout")
}

/// The result of a finished case run: its failures against the case's
/// `expect` block, passed exactly when there are none, and the row counts
/// read from Loadsmith's summary. Lines already shown live are left empty.
pub fn finish_case(
    case: &Case,
    duration: std::time::Duration,
    exit_code: i64,
    stdout: &str,
    output_dir: &str,
    obs: &FileObservation,
) -> (r: CaseResult)
    ensures
        r.name == case.case.name,
        r.description == case.case.description,
        r.duration == duration,
        r.rows_read == parse_metric_spec(stdout@, "rows read"@),
        r.rows_written == parse_metric_spec(stdout@, "rows written"@),
        string_views(r.failures@) == failures_spec(
            &case.expect,
            exit_code,
            r.rows_read,
            r.rows_written,
            output_dir@,
            obs,
        ),
        r.passed == (r.failures@.len() == 0),
        r.prep_lines@.len() == 0,
        r.loadsmith_output@.len() == 0,
        r.output_dir@ == output_dir@,
{
    let (rows_read, rows_written) = parse_rows_from_stdout(stdout);
    let failures = validate_expects(
        &case.expect,
        exit_code,
        rows_read,
        rows_written,
        output_dir,
        obs,
    );
    let passed = failures.len() == 0;
    let r = CaseResult {
        name: case.case.name.clone(),
        description: crate::text::copy_opt(&case.case.description),
        passed,
        duration,
        rows_read,
        rows_written,
        prep_lines: Vec::new(),
        loadsmith_output: String::new(),
        failures,
        output_dir: output_dir.to_owned(),
    };
    assert(r.loadsmith_output@ =~= Seq::<char>::empty());
    r
}

// --- postgres readiness ---------------------------------------------------------

/// The connection string of the postgres readiness probe.
pub open spec fn postgres_conn_spec(host: Seq<char>, port: u16, pg: PostgresReadiness) -> Seq<char> {
    "host="@ + host + " port="@ + decimal(port as nat) + " dbname="@ + pg.dbname@ + " user="@
        + pg.user@ + " password="@ + pg.password@ + " connect_timeout=3"@
}

pub fn postgres_conn_str(host: &str, port: u16, pg: &PostgresReadiness) -> (r: String)
    ensures
        r@ == postgres_conn_spec(host@, port, *pg),
{
    let mut v = chars_of("host=");
    push_str(&mut v, host);
    push_str(&mut v, " port=");
    push_str(&mut v, u64_to_string(port as u64).as_str());
    push_str(&mut v, " dbname=");
    push_str(&mut v, pg.dbname.as_str());
    push_str(&mut v, " user=");
    push_str(&mut v, pg.user.as_str());
    push_str(&mut v, " password=");
    push_str(&mut v, pg.password.as_str());
    push_str(&mut v, " connect_timeout=3");
    string_from_chars(v.as_slice())
}

/// The query the probe runs: the case's own, else `SELECT 1`.
pub fn probe_query(pg: &PostgresReadiness) -> (r: String)
    ensures
        r@ == match pg.probe_query {
            Some(q) => q@,
            None => "SELECT 1"@,
        },
{
    match &pg.probe_query {
        Some(q) => q.clone(),
        None => "SELECT 1".to_owned(),
    }
}

/// A probe that ran is satisfied when it returned rows, or when it was the
/// default `SELECT 1` (which needs no seed data).
pub fn probe_ready(probe: &str, rows: usize) -> (r: bool)
    ensures
        r == (rows > 0 || probe@ == "SELECT 1"@),
{
    rows > 0 || str_eq(probe, "SELECT 1")
}

} // verus!
