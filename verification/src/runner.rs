//! Running a problem's tests: where the test files are, which problem folder
//! a search names, and the decisions of a test run as a state machine. The
//! caller compiles, starts processes and prints.
use vstd::prelude::*;
use vstd::string::StringExecFns;

use crate::text::{
    is_whitespace, joined, lemma_lines_cover_text, lemma_trim_by_ends, newline_count, occurs_at, chars_of, contains, contains_chars, decimal, decimal_string, lemma_decimal_injective,
    lemma_trim_by_padding, lines, lines_of, lowercase, to_lowercase,
    trim_chars, trimmed, views, whitespace,
};

verus! {

/// The name of the input file of test `n`: `test_<n>.in`.
pub open spec fn input_file_name(n: nat) -> Seq<char> {
    "test_"@ + decimal(n) + ".in"@
}

/// The name of the expected-output file of test `n`: `test_<n>.out`.
pub open spec fn output_file_name(n: nat) -> Seq<char> {
    "test_"@ + decimal(n) + ".out"@
}

/// The input file of test `n`.
pub fn test_input_file(n: u64) -> (r: String)
    ensures
        r@ == input_file_name(n as nat),
{
    let mut r = String::from_str("test_");
    r.append(decimal_string(n).as_str());
    r.append(".in");
    r
}

/// The expected-output file of test `n`.
pub fn test_output_file(n: u64) -> (r: String)
    ensures
        r@ == output_file_name(n as nat),
{
    let mut r = String::from_str("test_");
    r.append(decimal_string(n).as_str());
    r.append(".out");
    r
}

/// Different tests are stored in different files, and no input file is an
/// output file.
pub proof fn lemma_test_files_distinct(m: nat, n: nat)
    ensures
        input_file_name(m) == input_file_name(n) ==> m == n,
        output_file_name(m) == output_file_name(n) ==> m == n,
        input_file_name(m) != output_file_name(n),
{
    reveal_strlit("test_");
    reveal_strlit(".in");
    reveal_strlit(".out");
    lemma_decimal_injective(m, n);
    crate::text::lemma_decimal_value(m);
    crate::text::lemma_decimal_value(n);
    let dm = decimal(m);
    let dn = decimal(n);
    if input_file_name(m) == input_file_name(n) {
        let a = input_file_name(m);
        assert(a.subrange(5, a.len() - 3) =~= dm);
        assert(input_file_name(n).subrange(5, a.len() - 3) =~= dn);
    }
    if output_file_name(m) == output_file_name(n) {
        let a = output_file_name(m);
        assert(a.subrange(5, a.len() - 4) =~= dm);
        assert(output_file_name(n).subrange(5, a.len() - 4) =~= dn);
    }
    let a = input_file_name(m);
    let b = output_file_name(n);
    assert(a.last() == 'n');
    assert(b.last() == 't');
}

// ---------------------------------------------------------------------------
// Finding a problem folder by name
// ---------------------------------------------------------------------------

/// An entry of the problems root folder.
pub struct ProblemDir {
    /// The entry's file name.
    pub name: String,
    /// Whether the entry is a folder.
    pub is_dir: bool,
    /// When it was last modified, in nanoseconds from the Unix epoch.
    pub modified: i128,
}

/// A search query or a folder name made comparable with the other:
/// lowercased, with spaces and hyphens turned into underscores.
pub open spec fn normalized_name(query: Seq<char>) -> Seq<char> {
    lowercase(query).map_values(|c: char| if c == ' ' || c == '-' { '_' } else { c })
}

/// An entry matches a normalized query when it is a folder whose normalized
/// name contains the query.
pub open spec fn entry_matches(e: ProblemDir, key: Seq<char>) -> bool {
    e.is_dir && contains_chars(normalized_name(e.name@), key)
}

/// The outcome of a search: the matching entries, in folder order, and the
/// one chosen.
pub struct ProblemSearch {
    /// Positions of the matching entries, in increasing order.
    pub matches: Vec<usize>,
    /// The chosen entry: `None` when nothing matches, else the most recently
    /// modified match, the last one in folder order among equally recent.
    pub chosen: Option<usize>,
}

/// A query or folder name normalized: lowercased, with spaces and hyphens
/// as underscores.
pub fn normalize_name(name: &str) -> (r: Vec<char>)
    ensures
        r@ == normalized_name(name@),
{
    let lower = to_lowercase(name);
    let chars = chars_of(lower.as_str());
    let mut r: Vec<char> = Vec::new();
    let mut i: usize = 0;
    let ghost f = |c: char| if c == ' ' || c == '-' { '_' } else { c };
    while i < chars.len()
        invariant
            i <= chars.len(),
            chars@ == lowercase(name@),
            f == (|c: char| if c == ' ' || c == '-' { '_' } else { c }),
            r@ == chars@.take(i as int).map_values(f),
        decreases chars.len() - i,
    {
        let c = chars[i];
        if c == ' ' || c == '-' {
            r.push('_');
        } else {
            r.push(c);
        }
        assert(chars@.take(i + 1).map_values(f) =~= chars@.take(i as int).map_values(f).push(f(c)));
        i += 1;
    }
    assert(chars@.take(chars.len() as int) =~= chars@);
    r
}

/// Searches the entries of the problems root for a problem folder whose
/// name contains the query, both normalized alike: case is ignored and
/// spaces and hyphens count as underscores. When several match, the most recently modified is chosen.
pub fn find_problem_by_name(query: &str, entries: &Vec<ProblemDir>) -> (r: ProblemSearch)
    ensures
        forall|k: int|
            0 <= k < r.matches.len() ==> #[trigger] r.matches@[k] < entries.len() && entry_matches(
                entries@[r.matches@[k] as int],
                normalized_name(query@),
            ),
        forall|k1: int, k2: int|
            0 <= k1 < k2 < r.matches.len() ==> r.matches@[k1] < r.matches@[k2],
        forall|i: int|
            0 <= i < entries.len() && entry_matches(#[trigger] entries@[i], normalized_name(query@))
                ==> r.matches@.contains(i as usize),
        r.chosen is None <==> r.matches.len() == 0,
        r.chosen matches Some(j) ==> {
            &&& j < entries.len()
            &&& entry_matches(entries@[j as int], normalized_name(query@))
            &&& forall|i: int|
                0 <= i < entries.len() && entry_matches(#[trigger] entries@[i], normalized_name(query@))
                    ==> entries@[i].modified <= entries@[j as int].modified && (i > j
                    ==> entries@[i].modified < entries@[j as int].modified)
        },
{
    let key = normalize_name(query);
    let ghost k = normalized_name(query@);
    let mut matches: Vec<usize> = Vec::new();
    let mut chosen: Option<usize> = None;
    let mut i: usize = 0;
    while i < entries.len()
        invariant
            i <= entries.len(),
            key@ == k,
            k == normalized_name(query@),
            forall|m: int|
                0 <= m < matches.len() ==> #[trigger] matches@[m] < i && entry_matches(
                    entries@[matches@[m] as int],
                    k,
                ),
            forall|m1: int, m2: int| 0 <= m1 < m2 < matches.len() ==> matches@[m1] < matches@[m2],
            forall|j: int|
                0 <= j < i && entry_matches(#[trigger] entries@[j], k) ==> matches@.contains(
                    j as usize,
                ),
            chosen is None <==> matches.len() == 0,
            chosen matches Some(c) ==> {
                &&& c < i
                &&& entry_matches(entries@[c as int], k)
                &&& forall|j: int|
                    0 <= j < i && entry_matches(#[trigger] entries@[j], k) ==> entries@[j].modified
                        <= entries@[c as int].modified && (j > c ==> entries@[j].modified
                        < entries@[c as int].modified)
            },
        decreases entries.len() - i,
    {
        let entry = &entries[i];
        let mut is_match = false;
        if entry.is_dir {
            let name_chars = normalize_name(entry.name.as_str());
            is_match = contains(&name_chars, &key);
        }
        assert(is_match == entry_matches(entries@[i as int], k));
        if is_match {
            let ghost old_matches = matches@;
            matches.push(i);
            assert(matches@[matches.len() - 1] == i);
            assert forall|j: int|
                0 <= j < i + 1 && entry_matches(#[trigger] entries@[j], k) implies matches@.contains(
                j as usize,
            ) by {
                if j < i {
                    let m = choose|m: int| 0 <= m < old_matches.len() && old_matches[m] == j as usize;
                    assert(matches@[m] == j as usize);
                }
            }
            match chosen {
                None => {
                    chosen = Some(i);
                },
                Some(c) => {
                    if entries[c].modified <= entry.modified {
                        chosen = Some(i);
                    }
                },
            }
        }
        i += 1;
    }
    ProblemSearch { matches, chosen }
}

// ---------------------------------------------------------------------------
// Judging a test case
// ---------------------------------------------------------------------------

/// A test case passes when its output equals the expected output once white
/// space is removed from both ends of each.
pub open spec fn case_passes(actual: Seq<char>, expected: Seq<char>) -> bool {
    trimmed(actual) == trimmed(expected)
}

/// Whether a program's output matches the expected output, ignoring white
/// space at both ends.
pub fn outputs_match(actual: &str, expected: &str) -> (r: bool)
    ensures
        r == case_passes(actual@, expected@),
{
    let a = chars_of(actual);
    let e = chars_of(expected);
    let ta = trim_chars(&a);
    let te = trim_chars(&e);
    crate::text::chars_equal(&ta, &te)
}

/// White space added before or after an output never changes whether it
/// passes.
pub proof fn lemma_verdict_ignores_padding(
    w1: Seq<char>,
    actual: Seq<char>,
    w2: Seq<char>,
    expected: Seq<char>,
)
    requires
        forall|j: int| 0 <= j < w1.len() ==> whitespace()(#[trigger] w1[j]),
        forall|j: int| 0 <= j < w2.len() ==> whitespace()(#[trigger] w2[j]),
    ensures
        case_passes(w1 + actual + w2, expected) == case_passes(actual, expected),
        case_passes(expected, w1 + actual + w2) == case_passes(expected, actual),
{
    lemma_trim_by_padding(w1, actual, w2, whitespace());
}

/// Passing is symmetric in the two outputs, and every output passes against
/// itself.
pub proof fn lemma_verdict_symmetric(a: Seq<char>, b: Seq<char>)
    ensures
        case_passes(a, b) == case_passes(b, a),
        case_passes(a, a),
{
}

/// A folder matches a query exactly when it is a folder and the query,
/// lowercased with spaces and hyphens as underscores, occurs somewhere in its
/// name treated the same way: at its start, its end or anywhere between.
/// "watermelon" matches the folder "A__Watermelon".
pub proof fn lemma_search_is_substring_match(e: ProblemDir, query: Seq<char>)
    ensures
        entry_matches(e, normalized_name(query)) <==> ({
            let q = lowercase(query).map_values(
                (|c: char|
                    if c == ' ' || c == '-' {
                        '_'
                    } else {
                        c
                    }),
            );
            let n = lowercase(e.name@).map_values(
                (|c: char|
                    if c == ' ' || c == '-' {
                        '_'
                    } else {
                        c
                    }),
            );
            e.is_dir && exists|k: int|
                0 <= k && k + q.len() <= n.len() && #[trigger] n.subrange(k, k + q.len()) == q
        }),
{
    let q = lowercase(query).map_values(
        |c: char|
            if c == ' ' || c == '-' {
                '_'
            } else {
                c
            },
    );
    let n = lowercase(e.name@).map_values(
        |c: char|
            if c == ' ' || c == '-' {
                '_'
            } else {
                c
            },
    );
    assert(normalized_name(query) =~= q);
    assert(normalized_name(e.name@) =~= n);
    if entry_matches(e, normalized_name(query)) {
        let k = choose|k: int| occurs_at(normalized_name(e.name@), normalized_name(query), k);
        assert(n.subrange(k, k + q.len()) == q);
    }
    if e.is_dir && exists|k: int|
        0 <= k && k + q.len() <= n.len() && #[trigger] n.subrange(k, k + q.len()) == q {
        let k = choose|k: int|
            0 <= k && k + q.len() <= n.len() && #[trigger] n.subrange(k, k + q.len()) == q;
        assert(occurs_at(normalized_name(e.name@), normalized_name(query), k));
    }
}

/// A case passes only when the trimmed outputs are the same text: equally
/// long and equal at every position; and whenever they are, it passes.
pub proof fn lemma_pass_means_same_trimmed_text(actual: Seq<char>, expected: Seq<char>)
    ensures
        case_passes(actual, expected) ==> trimmed(actual).len() == trimmed(expected).len() && forall|
            i: int,
        |
            0 <= i < trimmed(actual).len() ==> #[trigger] trimmed(actual)[i] == trimmed(expected)[i],
        trimmed(actual).len() == trimmed(expected).len() && (forall|i: int|
            0 <= i < trimmed(actual).len() ==> #[trigger] trimmed(actual)[i] == trimmed(expected)[i])
            ==> case_passes(actual, expected),
{
    if trimmed(actual).len() == trimmed(expected).len() && (forall|i: int|
        0 <= i < trimmed(actual).len() ==> #[trigger] trimmed(actual)[i] == trimmed(expected)[i]) {
        assert(trimmed(actual) =~= trimmed(expected));
    }
}

/// An output that is empty or only white space never passes against an
/// expected output that has something in it, and a cut-short output never
/// passes: the trimmed lengths must agree.
pub proof fn lemma_short_output_fails(actual: Seq<char>, expected: Seq<char>)
    requires
        trimmed(actual).len() < trimmed(expected).len(),
    ensures
        !case_passes(actual, expected),
        !case_passes(expected, actual),
{
}

/// Two outputs that both pass against the same expected output pass
/// against each other.
pub proof fn lemma_pass_is_transitive(a: Seq<char>, b: Seq<char>, expected: Seq<char>)
    requires
        case_passes(a, expected),
        case_passes(b, expected),
    ensures
        case_passes(a, b),
{
}

/// What is shown for a failed test case.
pub struct FailureReport {
    /// The lines of the expected output, trimmed.
    pub expected_lines: Vec<String>,
    /// The lines of the actual output, trimmed; none when there was no output.
    pub actual_lines: Vec<String>,
    /// The lines of what the program wrote to its error stream, trimmed;
    /// `None` when it wrote nothing but white space.
    pub stderr_lines: Option<Vec<String>>,
    /// The exit code, when the program did not exit successfully (-1 when it
    /// was ended by a signal).
    pub exit_code: Option<i32>,
}

/// The report fits a failed case with the given outputs and exit status.
pub open spec fn report_fits(
    report: FailureReport,
    expected: Seq<char>,
    stdout: Seq<char>,
    stderr: Seq<char>,
    success: bool,
    code: Option<i32>,
) -> bool {
    &&& views(report.expected_lines@) == lines_of(trimmed(expected))
    &&& views(report.actual_lines@) == lines_of(trimmed(stdout))
    &&& match report.stderr_lines {
        Some(l) => trimmed(stderr).len() > 0 && views(l@) == lines_of(trimmed(stderr)),
        None => trimmed(stderr).len() == 0,
    }
    &&& report.exit_code == if success {
        None
    } else {
        Some(
            match code {
                Some(c) => c,
                None => -1i32,
            },
        )
    }
}

/// The lines of a trimmed text cover all of it: one more line than line
/// feeds (none for an empty text), and without carriage returns, the lines
/// written back with line feeds are the trimmed text.
pub proof fn lemma_trimmed_lines_cover(text: Seq<char>)
    ensures
        trimmed(text).len() > 0 ==> lines_of(trimmed(text)).len() == newline_count(trimmed(text))
            + 1,
        trimmed(text).len() == 0 ==> lines_of(trimmed(text)).len() == 0,
        (forall|i: int| 0 <= i < trimmed(text).len() ==> #[trigger] trimmed(text)[i] != '\r')
            ==> joined(lines_of(trimmed(text)), seq!['\n']) == trimmed(text),
{
    let t = trimmed(text);
    lemma_trim_by_ends(text, whitespace());
    if t.len() > 0 {
        assert(!is_whitespace(t.last()));
        lemma_lines_cover_text(t);
    } else {
        assert(lines_of(t).len() == 0);
        assert(joined(lines_of(t), seq!['\n']) =~= t);
    }
}

/// A failure report shows the whole of each output, not a part of it: the
/// expected and the actual output each appear as all the lines of their
/// trimmed text, one more line than line feeds, and, for text without
/// carriage returns, those lines joined by line feeds are the trimmed text.
pub proof fn lemma_report_shows_whole_outputs(
    report: FailureReport,
    expected: Seq<char>,
    stdout: Seq<char>,
    stderr: Seq<char>,
    success: bool,
    code: Option<i32>,
)
    requires
        report_fits(report, expected, stdout, stderr, success, code),
    ensures
        trimmed(expected).len() > 0 ==> report.expected_lines.len() == newline_count(
            trimmed(expected),
        ) + 1,
        trimmed(stdout).len() > 0 ==> report.actual_lines.len() == newline_count(trimmed(stdout))
            + 1,
        trimmed(stdout).len() == 0 ==> report.actual_lines.len() == 0,
        (forall|i: int| 0 <= i < trimmed(expected).len() ==> #[trigger] trimmed(expected)[i] != '\r')
            ==> joined(views(report.expected_lines@), seq!['\n']) == trimmed(expected),
        (forall|i: int| 0 <= i < trimmed(stdout).len() ==> #[trigger] trimmed(stdout)[i] != '\r')
            ==> joined(views(report.actual_lines@), seq!['\n']) == trimmed(stdout),
        report.stderr_lines matches Some(l) ==> l.len() == newline_count(trimmed(stderr)) + 1,
        report.stderr_lines matches Some(l) ==> ((forall|i: int|
            0 <= i < trimmed(stderr).len() ==> #[trigger] trimmed(stderr)[i] != '\r') ==> joined(
            views(l@),
            seq!['\n'],
        ) == trimmed(stderr)),
{
    lemma_trimmed_lines_cover(expected);
    lemma_trimmed_lines_cover(stdout);
    lemma_trimmed_lines_cover(stderr);
    assert(views(report.expected_lines@).len() == report.expected_lines.len());
    assert(views(report.actual_lines@).len() == report.actual_lines.len());
    if let Some(l) = report.stderr_lines {
        assert(views(l@).len() == l.len());
    }
}

/// The lines of a text once trimmed.
fn trimmed_lines(s: &str) -> (r: Vec<String>)
    ensures
        views(r@) == lines_of(trimmed(s@)),
        r.len() == 0 <==> trimmed(s@).len() == 0,
{
    let v = chars_of(s);
    let t = trim_chars(&v);
    lines(&t)
}

/// The report for a failed test case.
pub fn failure_report(
    expected: &str,
    stdout: &str,
    stderr: &str,
    success: bool,
    code: Option<i32>,
) -> (r: FailureReport)
    ensures
        report_fits(r, expected@, stdout@, stderr@, success, code),
{
    let expected_lines = trimmed_lines(expected);
    let actual_lines = trimmed_lines(stdout);
    let err = trimmed_lines(stderr);
    let stderr_lines = if err.len() == 0 {
        None
    } else {
        Some(err)
    };
    let exit_code = if success {
        None
    } else {
        match code {
            Some(c) => Some(c),
            None => Some(-1i32),
        }
    };
    FailureReport { expected_lines, actual_lines, stderr_lines, exit_code }
}

// ---------------------------------------------------------------------------
// A test run, step by step
// ---------------------------------------------------------------------------

/// How compiling the solution went.
pub enum CompileOutcome {
    /// The compiler exited successfully.
    Succeeded,
    /// The compiler ran and failed; what it wrote to its error stream.
    Failed { stderr: String },
    /// The compiler could not be started.
    CouldNotRun { error: String },
}

/// What the caller observed while doing what was last requested.
pub enum RunEvent {
    /// Whether the solution file exists.
    SolutionFound(bool),
    /// The compiler finished, or could not be started.
    CompileDone(CompileOutcome),
    /// Whether the compiled program exists.
    BinaryFound(bool),
    /// Whether the `.cph` test folder exists.
    TestDirFound(bool),
    /// The input or the expected-output file of the requested case is missing.
    CaseMissing,
    /// The program could not be started for the requested case.
    CaseFailedToStart { error: String },
    /// The program ran on the requested case.
    CaseRan {
        expected: String,
        stdout: String,
        stderr: String,
        success: bool,
        code: Option<i32>,
    },
}

/// Where a test run stands.
pub enum RunStage {
    CheckingSolution,
    Compiling,
    CheckingBinary,
    CheckingTestDir,
    /// Running test `next`; `all_passed` tells whether every earlier test passed.
    Testing { next: u64, all_passed: bool },
    Finished,
}

/// What the caller is asked to do next.
pub enum RunRequest {
    /// Check that the solution file exists.
    CheckSolution,
    /// Compile the solution.
    Compile,
    /// Check that the compiled program exists.
    CheckBinary,
    /// Check that the test folder exists.
    CheckTestDir,
    /// Run the program on test case `n`, if its files exist.
    RunCase(u64),
    /// Nothing more: the run is over.
    Stop,
}

/// What the caller is asked to tell the user.
pub enum RunNotice {
    NoSolution,
    CompileSucceeded,
    /// Compilation failed; the compiler's error output, unless it was empty.
    CompileFailed { stderr: Option<String> },
    CompilerMissing { error: String },
    NoBinary,
    NoTestDir,
    CasePassed(u64),
    CaseFailed { number: u64, report: FailureReport },
    CaseError { number: u64, error: String },
    /// The tests are over: `None` when there were no test cases, else whether
    /// all of them passed.
    Done { summary: Option<bool> },
}

/// A test run: compile the solution, then run it on test 1, 2, ... until a
/// test's files are missing.
pub struct Runner {
    pub stage: RunStage,
}

/// The stage after an event. An event that does not answer the last request
/// ends the run.
pub open spec fn next_stage(stage: RunStage, event: RunEvent) -> RunStage {
    match stage {
        RunStage::CheckingSolution => match event {
            RunEvent::SolutionFound(true) => RunStage::Compiling,
            _ => RunStage::Finished,
        },
        RunStage::Compiling => match event {
            RunEvent::CompileDone(CompileOutcome::Succeeded) => RunStage::CheckingBinary,
            _ => RunStage::Finished,
        },
        RunStage::CheckingBinary => match event {
            RunEvent::BinaryFound(true) => RunStage::CheckingTestDir,
            _ => RunStage::Finished,
        },
        RunStage::CheckingTestDir => match event {
            RunEvent::TestDirFound(true) => RunStage::Testing { next: 1, all_passed: true },
            _ => RunStage::Finished,
        },
        RunStage::Testing { next, all_passed } => match event {
            RunEvent::CaseFailedToStart { .. } => if next < u64::MAX {
                RunStage::Testing { next: (next + 1) as u64, all_passed: false }
            } else {
                RunStage::Finished
            },
            RunEvent::CaseRan { expected, stdout, .. } => if next < u64::MAX {
                RunStage::Testing {
                    next: (next + 1) as u64,
                    all_passed: all_passed && case_passes(stdout@, expected@),
                }
            } else {
                RunStage::Finished
            },
            _ => RunStage::Finished,
        },
        RunStage::Finished => RunStage::Finished,
    }
}

/// The request that goes with a stage.
pub open spec fn request_for(stage: RunStage) -> RunRequest {
    match stage {
        RunStage::CheckingSolution => RunRequest::CheckSolution,
        RunStage::Compiling => RunRequest::Compile,
        RunStage::CheckingBinary => RunRequest::CheckBinary,
        RunStage::CheckingTestDir => RunRequest::CheckTestDir,
        RunStage::Testing { next, .. } => RunRequest::RunCase(next),
        RunStage::Finished => RunRequest::Stop,
    }
}

/// The notice about test case `number`, given what happened when it ran.
pub open spec fn case_notice_fits(number: u64, event: RunEvent, notice: RunNotice) -> bool {
    match event {
        RunEvent::CaseFailedToStart { error } => notice == RunNotice::CaseError { number, error },
        RunEvent::CaseRan { expected, stdout, stderr, success, code } => if case_passes(
            stdout@,
            expected@,
        ) {
            notice == RunNotice::CasePassed(number)
        } else {
            notice matches RunNotice::CaseFailed { number: n, report } && n == number
                && report_fits(report, expected@, stdout@, stderr@, success, code)
        },
        _ => false,
    }
}

/// The notices that a step gives.
pub open spec fn notices_fit(stage: RunStage, event: RunEvent, notices: Seq<RunNotice>) -> bool {
    match stage {
        RunStage::CheckingSolution => match event {
            RunEvent::SolutionFound(false) => notices == seq![RunNotice::NoSolution],
            _ => notices.len() == 0,
        },
        RunStage::Compiling => match event {
            RunEvent::CompileDone(CompileOutcome::Succeeded) => notices == seq![
                RunNotice::CompileSucceeded,
            ],
            RunEvent::CompileDone(CompileOutcome::Failed { stderr }) => notices == seq![
                RunNotice::CompileFailed {
                    stderr: if stderr@.len() == 0 {
                        None
                    } else {
                        Some(stderr)
                    },
                },
            ],
            RunEvent::CompileDone(CompileOutcome::CouldNotRun { error }) => notices == seq![
                RunNotice::CompilerMissing { error },
            ],
            _ => notices.len() == 0,
        },
        RunStage::CheckingBinary => match event {
            RunEvent::BinaryFound(false) => notices == seq![RunNotice::NoBinary],
            _ => notices.len() == 0,
        },
        RunStage::CheckingTestDir => match event {
            RunEvent::TestDirFound(false) => notices == seq![RunNotice::NoTestDir],
            _ => notices.len() == 0,
        },
        RunStage::Testing { next, all_passed } => match event {
            RunEvent::CaseMissing => notices == seq![
                RunNotice::Done {
                    summary: if next == 1 {
                        None
                    } else {
                        Some(all_passed)
                    },
                },
            ],
            RunEvent::CaseFailedToStart { .. } => {
                &&& case_notice_fits(next, event, notices[0])
                &&& if next < u64::MAX {
                    notices.len() == 1
                } else {
                    notices.len() == 2 && notices[1] == RunNotice::Done { summary: Some(false) }
                }
            },
            RunEvent::CaseRan { expected, stdout, .. } => {
                &&& case_notice_fits(next, event, notices[0])
                &&& if next < u64::MAX {
                    notices.len() == 1
                } else {
                    notices.len() == 2 && notices[1] == RunNotice::Done {
                        summary: Some(all_passed && case_passes(stdout@, expected@)),
                    }
                }
            },
            _ => notices.len() == 0,
        },
        RunStage::Finished => notices.len() == 0,
    }
}

impl Runner {
    /// A run that has not started: it first asks for the solution file.
    pub fn new() -> (r: (Runner, RunRequest))
        ensures
            r.0.stage == RunStage::CheckingSolution,
            r.1 == request_for(r.0.stage),
    {
        (Runner { stage: RunStage::CheckingSolution }, RunRequest::CheckSolution)
    }

    /// Takes what the caller observed, and gives the next state, what to tell
    /// the user, and what to do next.
    pub fn step(self, event: RunEvent) -> (r: (Runner, Vec<RunNotice>, RunRequest))
        ensures
            r.0.stage == next_stage(self.stage, event),
            notices_fit(self.stage, event, r.1@),
            r.2 == request_for(r.0.stage),
    {
        let mut notices: Vec<RunNotice> = Vec::new();
        let stage = match self.stage {
            RunStage::CheckingSolution => match event {
                RunEvent::SolutionFound(true) => RunStage::Compiling,
                RunEvent::SolutionFound(false) => {
                    notices.push(RunNotice::NoSolution);
                    RunStage::Finished
                },
                _ => RunStage::Finished,
            },
            RunStage::Compiling => match event {
                RunEvent::CompileDone(CompileOutcome::Succeeded) => {
                    notices.push(RunNotice::CompileSucceeded);
                    RunStage::CheckingBinary
                },
                RunEvent::CompileDone(CompileOutcome::Failed { stderr }) => {
                    let shown = if stderr.as_str().is_empty() {
                        None
                    } else {
                        Some(stderr)
                    };
                    notices.push(RunNotice::CompileFailed { stderr: shown });
                    RunStage::Finished
                },
                RunEvent::CompileDone(CompileOutcome::CouldNotRun { error }) => {
                    notices.push(RunNotice::CompilerMissing { error });
                    RunStage::Finished
                },
                _ => RunStage::Finished,
            },
            RunStage::CheckingBinary => match event {
                RunEvent::BinaryFound(true) => RunStage::CheckingTestDir,
                RunEvent::BinaryFound(false) => {
                    notices.push(RunNotice::NoBinary);
                    RunStage::Finished
                },
                _ => RunStage::Finished,
            },
            RunStage::CheckingTestDir => match event {
                RunEvent::TestDirFound(true) => RunStage::Testing { next: 1, all_passed: true },
                RunEvent::TestDirFound(false) => {
                    notices.push(RunNotice::NoTestDir);
                    RunStage::Finished
                },
                _ => RunStage::Finished,
            },
            RunStage::Testing { next, all_passed } => match event {
                RunEvent::CaseMissing => {
                    let summary = if next == 1 {
                        None
                    } else {
                        Some(all_passed)
                    };
                    notices.push(RunNotice::Done { summary });
                    RunStage::Finished
                },
                RunEvent::CaseFailedToStart { error } => {
                    notices.push(RunNotice::CaseError { number: next, error });
                    Self::after_case(next, false, &mut notices)
                },
                RunEvent::CaseRan { expected, stdout, stderr, success, code } => {
                    let passed = outputs_match(stdout.as_str(), expected.as_str());
                    if passed {
                        notices.push(RunNotice::CasePassed(next));
                    } else {
                        let report = failure_report(
                            expected.as_str(),
                            stdout.as_str(),
                            stderr.as_str(),
                            success,
                            code,
                        );
                        notices.push(RunNotice::CaseFailed { number: next, report });
                    }
                    Self::after_case(next, all_passed && passed, &mut notices)
                },
                _ => RunStage::Finished,
            },
            RunStage::Finished => RunStage::Finished,
        };
        let request = match stage {
            RunStage::CheckingSolution => RunRequest::CheckSolution,
            RunStage::Compiling => RunRequest::Compile,
            RunStage::CheckingBinary => RunRequest::CheckBinary,
            RunStage::CheckingTestDir => RunRequest::CheckTestDir,
            RunStage::Testing { next, .. } => RunRequest::RunCase(next),
            RunStage::Finished => RunRequest::Stop,
        };
        (Runner { stage }, notices, request)
    }

    /// The stage after test case `number`, given whether every case so far
    /// passed; ends the run, with its summary, when the numbering is exhausted.
    fn after_case(number: u64, all_passed: bool, notices: &mut Vec<RunNotice>) -> (r: RunStage)
        ensures
            number < u64::MAX ==> r == (RunStage::Testing { next: (number + 1) as u64, all_passed }),
            number < u64::MAX ==> final(notices)@ == old(notices)@,
            number == u64::MAX ==> r is Finished,
            number == u64::MAX ==> final(notices)@ == old(notices)@.push(
                (RunNotice::Done { summary: Some(all_passed) }),
            ),
    {
        if number < u64::MAX {
            RunStage::Testing { next: number + 1, all_passed }
        } else {
            notices.push(RunNotice::Done { summary: Some(all_passed) });
            RunStage::Finished
        }
    }
}

/// The stage a run reaches after a sequence of events, from its start.
pub open spec fn run_stage(events: Seq<RunEvent>) -> RunStage
    decreases events.len(),
{
    if events.len() == 0 {
        RunStage::CheckingSolution
    } else {
        next_stage(run_stage(events.drop_last()), events.last())
    }
}

/// The event of a test case that ran to the end and passed.
pub open spec fn passing_case(e: RunEvent) -> bool {
    e matches RunEvent::CaseRan { expected, stdout, .. } && case_passes(stdout@, expected@)
}

/// The event of a test case that was run, whether it passed or not.
pub open spec fn ran_case(e: RunEvent) -> bool {
    e is CaseRan || e is CaseFailedToStart
}

/// The events that lead a run to its tests: the solution exists, compiles,
/// the program and the test folder exist.
pub open spec fn setup_events() -> Seq<RunEvent> {
    seq![
        RunEvent::SolutionFound(true),
        RunEvent::CompileDone(CompileOutcome::Succeeded),
        RunEvent::BinaryFound(true),
        RunEvent::TestDirFound(true),
    ]
}

/// A run is testing case `next` exactly when the solution was found and
/// compiled, the program and the test folder were found, and then
/// `next - 1` test cases ran; it reports that all passed exactly when each
/// of those cases ran to the end and passed.
pub proof fn lemma_testing_stage(events: Seq<RunEvent>)
    ensures
        run_stage(events) is Compiling ==> events == setup_events().take(1),
        run_stage(events) is CheckingBinary ==> events == setup_events().take(2),
        run_stage(events) is CheckingTestDir ==> events == setup_events().take(3),
        run_stage(events) matches RunStage::Testing { next, all_passed } ==> {
            &&& events.len() == next + 3
            &&& events.take(4) == setup_events()
            &&& forall|i: int| 4 <= i < events.len() ==> ran_case(#[trigger] events[i])
            &&& all_passed == forall|i: int|
                4 <= i < events.len() ==> passing_case(#[trigger] events[i])
        },
    decreases events.len(),
{
    if events.len() > 0 {
        let prefix = events.drop_last();
        let e = events.last();
        lemma_testing_stage(prefix);
        assert(events =~= prefix.push(e));
        match run_stage(prefix) {
            RunStage::CheckingSolution => {
                assert(prefix.len() == 0) by {
                    if prefix.len() > 0 {
                        lemma_stage_not_initial(prefix);
                    }
                }
                assert(prefix.push(e) =~= seq![e]);
            },
            RunStage::Compiling => {
                assert(setup_events().take(2) =~= setup_events().take(1).push(setup_events()[1]));
            },
            RunStage::CheckingBinary => {
                assert(setup_events().take(3) =~= setup_events().take(2).push(setup_events()[2]));
            },
            RunStage::CheckingTestDir => {
                assert(setup_events().take(4) =~= setup_events().take(3).push(setup_events()[3]));
                assert(setup_events().take(4) =~= setup_events());
                if run_stage(events) is Testing {
                    assert(events.take(4) =~= events);
                }
            },
            RunStage::Testing { next, all_passed } => {
                if run_stage(events) is Testing {
                    assert(events.take(4) =~= prefix.take(4));
                    assert forall|i: int| 4 <= i < events.len() implies ran_case(
                        #[trigger] events[i],
                    ) by {
                        if i < prefix.len() {
                            assert(events[i] == prefix[i]);
                        }
                    }
                    let now = forall|i: int| 4 <= i < events.len() ==> passing_case(#[trigger] events[i]);
                    let before = forall|i: int|
                        4 <= i < prefix.len() ==> passing_case(#[trigger] prefix[i]);
                    assert(now == (before && passing_case(e))) by {
                        if now {
                            assert forall|i: int| 4 <= i < prefix.len() implies passing_case(
                                #[trigger] prefix[i],
                            ) by {
                                assert(events[i] == prefix[i]);
                            }
                            assert(passing_case(events[events.len() - 1]));
                        }
                        if before && passing_case(e) {
                            assert forall|i: int| 4 <= i < events.len() implies passing_case(
                                #[trigger] events[i],
                            ) by {
                                if i < prefix.len() {
                                    assert(events[i] == prefix[i]);
                                }
                            }
                        }
                    }
                }
            },
            RunStage::Finished => {},
        }
    }
}

/// No event leads back to the start of a run.
proof fn lemma_stage_not_initial(events: Seq<RunEvent>)
    requires
        events.len() > 0,
    ensures
        !(run_stage(events) is CheckingSolution),
{
}

/// A run that has ended stays ended, whatever the caller reports.
pub proof fn lemma_finished_is_final(events: Seq<RunEvent>, more: Seq<RunEvent>)
    requires
        run_stage(events) is Finished,
    ensures
        run_stage(events + more) is Finished,
    decreases more.len(),
{
    if more.len() > 0 {
        lemma_finished_is_final(events, more.drop_last());
        assert((events + more).drop_last() =~= events + more.drop_last());
    } else {
        assert(events + more =~= events);
    }
}

} // verus!
