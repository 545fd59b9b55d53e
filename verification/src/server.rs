//! What receiving a problem writes: the folder name, the starter solution,
//! the README and the test files. Creating the folders and writing the
//! files is left to the caller.
use vstd::prelude::*;
use vstd::string::StringExecFns;

use crate::language::LanguageConfig;
use crate::models::Problem;
use crate::runner::{input_file_name, output_file_name, test_input_file, test_output_file};
use crate::text::{
    occurs_at, first_kept, last_kept, lemma_first_kept, lemma_last_kept, lemma_trim_by_bounds,
    char_is_alphanumeric, chars_of, decimal, decimal_string, is_alphanumeric, lemma_trim_by_ends,
    lemma_trim_by_idempotent, trim_by, trim_underscores, underscore,
};

verus! {

/// A character of a problem name as it stands in a folder name: letters,
/// digits and '-' stay, anything else becomes '_'.
pub open spec fn folder_char(c: char) -> char {
    if is_alphanumeric(c) || c == '-' {
        c
    } else {
        '_'
    }
}

/// A problem name made into a folder name: each character through
/// `folder_char`, then underscores removed from both ends.
pub open spec fn sanitized(name: Seq<char>) -> Seq<char> {
    trim_by(name.map_values(|c: char| folder_char(c)), underscore())
}

/// Converts a problem name into a safe folder name: anything that is not a
/// letter, a digit or '-' becomes '_', and underscores at the very start and
/// end are removed. "Two Sets!" becomes "Two_Sets".
pub fn sanitize_name(name: &str) -> (r: String)
    ensures
        r@ == sanitized(name@),
{
    let chars = chars_of(name);
    let mut mapped: Vec<char> = Vec::new();
    let mut i: usize = 0;
    while i < chars.len()
        invariant
            i <= chars.len(),
            chars@ == name@,
            mapped@ == name@.take(i as int).map_values(|c: char| folder_char(c)),
        decreases chars.len() - i,
    {
        let ch = chars[i];
        if char_is_alphanumeric(ch) || ch == '-' {
            mapped.push(ch);
        } else {
            mapped.push('_');
        }
        assert(name@.take(i + 1).map_values(|c: char| folder_char(c)) =~= name@.take(
            i as int,
        ).map_values(|c: char| folder_char(c)).push(folder_char(ch)));
        i += 1;
    }
    assert(name@.take(chars.len() as int) =~= name@);
    trim_underscores(&mapped)
}

/// A folder name keeps only letters, digits, '-' and '_', and neither starts
/// nor ends with '_'.
pub proof fn lemma_sanitized_shape(name: Seq<char>)
    ensures
        forall|i: int|
            0 <= i < sanitized(name).len() ==> ({
                let c = #[trigger] sanitized(name)[i];
                is_alphanumeric(c) || c == '-' || c == '_'
            }),
        sanitized(name).len() > 0 ==> sanitized(name)[0] != '_' && sanitized(name).last() != '_',
        sanitized(name).len() <= name.len(),
{
    let m = name.map_values(|c: char| folder_char(c));
    lemma_trim_by_ends(m, underscore());
    crate::text::lemma_trim_by_bounds(m, underscore());
    let a = crate::text::first_kept(m, underscore(), 0);
    let b = crate::text::last_kept(m, underscore(), m.len() as int);
    assert forall|i: int| 0 <= i < sanitized(name).len() implies ({
        let c = #[trigger] sanitized(name)[i];
        is_alphanumeric(c) || c == '-' || c == '_'
    }) by {
        assert(sanitized(name)[i] == m[a + i]);
        assert(m[a + i] == folder_char(name[a + i]));
    }
}

/// A folder name is the whole problem name mapped character by character
/// (letters, digits and '-' kept, anything else '_'), with only the
/// underscores at its two ends dropped: it is the mapping of a stretch
/// `[a, b)` of the name, everything before and after that stretch maps to
/// '_', and the stretch, unless empty, starts and ends with a kept character.
pub proof fn lemma_sanitize_maps_whole_name(name: Seq<char>) -> (r: (int, int))
    ensures
        0 <= r.0 <= r.1 <= name.len(),
        sanitized(name).len() == r.1 - r.0,
        forall|i: int|
            0 <= i < r.1 - r.0 ==> #[trigger] sanitized(name)[i] == (if is_alphanumeric(name[r.0 + i]) || name[r.0 + i] == '-' { name[r.0 + i] } else { '_' }),
        forall|j: int| 0 <= j < r.0 ==> (if is_alphanumeric(name[j]) || name[j] == '-' { name[j] } else { '_' }) == '_',
        forall|j: int| r.1 <= j < name.len() ==> (if is_alphanumeric(name[j]) || name[j] == '-' { name[j] } else { '_' }) == '_',
        r.0 < r.1 ==> sanitized(name)[0] != '_' && sanitized(name)[r.1 - r.0 - 1] != '_',
{
    let m = name.map_values(|c: char| folder_char(c));
    let p = underscore();
    lemma_trim_by_bounds(m, p);
    lemma_first_kept(m, p, 0);
    lemma_last_kept(m, p, m.len() as int);
    let a = first_kept(m, p, 0);
    let b = last_kept(m, p, m.len() as int);
    if a < b {
        assert forall|j: int| 0 <= j < a implies (if is_alphanumeric(name[j]) || name[j] == '-' { name[j] } else { '_' }) == '_' by {
            assert(p(m[j]));
        }
        assert forall|j: int| b <= j < name.len() implies (if is_alphanumeric(name[j]) || name[j] == '-' { name[j] } else { '_' }) == '_' by {
            assert(p(m[j]));
        }
        (a, b)
    } else {
        assert forall|j: int| 0 <= j < name.len() implies (if is_alphanumeric(name[j]) || name[j] == '-' { name[j] } else { '_' }) == '_' by {
            if j >= a {
                assert(b <= j);
            }
            assert(p(m[j]));
        }
        (0, 0)
    }
}

/// When the name neither starts nor ends with a character that becomes '_',
/// the folder name is as long as the name, and each of its characters is
/// the name's character at the same position, mapped: nothing is cut.
pub proof fn lemma_sanitize_keeps_every_character(name: Seq<char>)
    requires
        name.len() > 0,
        (if is_alphanumeric(name[0]) || name[0] == '-' { name[0] } else { '_' }) != '_',
        (if is_alphanumeric(name[name.len() - 1]) || name[name.len() - 1] == '-' { name[name.len() - 1] } else { '_' }) != '_',
    ensures
        sanitized(name).len() == name.len(),
        forall|i: int|
            0 <= i < name.len() ==> #[trigger] sanitized(name)[i] == (if is_alphanumeric(name[i]) || name[i] == '-' { name[i] } else { '_' }),
{
    let r = lemma_sanitize_maps_whole_name(name);
    if r.0 > 0 {
        assert((if is_alphanumeric(name[0]) || name[0] == '-' { name[0] } else { '_' }) == '_');
    }
    if r.1 < name.len() {
        let j = name.len() - 1;
        assert((if is_alphanumeric(name[j]) || name[j] == '-' { name[j] } else { '_' }) == '_');
    }
}

/// Sanitizing a folder name again changes nothing.
pub proof fn lemma_sanitize_idempotent(name: Seq<char>)
    ensures
        sanitized(sanitized(name)) == sanitized(name),
{
    let s = sanitized(name);
    lemma_sanitized_shape(name);
    let m = s.map_values(|c: char| folder_char(c));
    assert forall|i: int| 0 <= i < s.len() implies m[i] == s[i] by {
        let c = s[i];
        assert(is_alphanumeric(c) || c == '-' || c == '_');
    }
    assert(m =~= s);
    let m0 = name.map_values(|c: char| folder_char(c));
    lemma_trim_by_idempotent(m0, underscore());
}

/// The README written for a new problem.
pub open spec fn readme_text(problem: &Problem) -> Seq<char> {
    "# "@ + problem.name@ + "\n\n**Link:** "@ + problem.url@ + "\n**Group:** "@ + problem.group@
        + "\n**Time Limit:** "@ + decimal(problem.time_limit as nat) + " ms\n**Memory Limit:** "@
        + decimal(problem.memory_limit as nat) + " MB\n\n## Test Cases\n\n"@ + decimal(
        problem.tests.len() as nat,
    ) + " test case(s) loaded.\n"@
}

/// The README for a new problem: its name, link, group, limits and the number
/// of test cases.
pub fn readme_content(problem: &Problem) -> (r: String)
    ensures
        r@ == readme_text(problem),
{
    let mut r = String::from_str("# ");
    r.append(problem.name.as_str());
    r.append("\n\n**Link:** ");
    r.append(problem.url.as_str());
    r.append("\n**Group:** ");
    r.append(problem.group.as_str());
    r.append("\n**Time Limit:** ");
    r.append(decimal_string(problem.time_limit).as_str());
    r.append(" ms\n**Memory Limit:** ");
    r.append(decimal_string(problem.memory_limit).as_str());
    r.append(" MB\n\n## Test Cases\n\n");
    r.append(decimal_string(problem.tests.len() as u64).as_str());
    r.append(" test case(s) loaded.\n");
    r
}

/// The README shows every detail of the problem: its name, link and group,
/// both limits and the number of test cases each appear in it, in that order.
pub proof fn lemma_readme_shows_every_field(problem: &Problem)
    ensures
        ({
            let r = readme_text(problem);
            let parts = seq![
                problem.name@,
                problem.url@,
                problem.group@,
                decimal(problem.time_limit as nat),
                decimal(problem.memory_limit as nat),
                decimal(problem.tests.len() as nat),
            ];
            exists|pos: Seq<int>|
                #![trigger pos.len()]
                pos.len() == 6 && (forall|j: int| 0 <= j < 6 ==> occurs_at(r, parts[j], #[trigger] pos[j]))
                    && (forall|j: int| 0 <= j < 5 ==> pos[j] + parts[j].len() <= #[trigger] pos[j + 1])
        }),
{
    let r = readme_text(problem);
    let s0 = "# "@;
    let s1 = "\n\n**Link:** "@;
    let s2 = "\n**Group:** "@;
    let s3 = "\n**Time Limit:** "@;
    let s4 = " ms\n**Memory Limit:** "@;
    let s5 = " MB\n\n## Test Cases\n\n"@;
    let s6 = " test case(s) loaded.\n"@;
    let f0 = problem.name@;
    let f1 = problem.url@;
    let f2 = problem.group@;
    let f3 = decimal(problem.time_limit as nat);
    let f4 = decimal(problem.memory_limit as nat);
    let f5 = decimal(problem.tests.len() as nat);
    let parts = seq![f0, f1, f2, f3, f4, f5];
    let p0 = s0.len() as int;
    let p1 = p0 + f0.len() + s1.len();
    let p2 = p1 + f1.len() + s2.len();
    let p3 = p2 + f2.len() + s3.len();
    let p4 = p3 + f3.len() + s4.len();
    let p5 = p4 + f4.len() + s5.len();
    let pos = seq![p0, p1, p2, p3, p4, p5];
    assert(r =~= s0 + f0 + s1 + f1 + s2 + f2 + s3 + f3 + s4 + f4 + s5 + f5 + s6);
    assert(r.subrange(p0, p0 + f0.len()) =~= f0);
    assert(r.subrange(p1, p1 + f1.len()) =~= f1);
    assert(r.subrange(p2, p2 + f2.len()) =~= f2);
    assert(r.subrange(p3, p3 + f3.len()) =~= f3);
    assert(r.subrange(p4, p4 + f4.len()) =~= f4);
    assert(r.subrange(p5, p5 + f5.len()) =~= f5);
    assert forall|j: int| 0 <= j < 6 implies occurs_at(r, parts[j], #[trigger] pos[j]) by {
        if j == 0 {} else if j == 1 {} else if j == 2 {} else if j == 3 {} else if j == 4 {} else {}
    }
    assert forall|j: int| 0 <= j < 5 implies pos[j] + parts[j].len() <= #[trigger] pos[j + 1] by {
        if j == 0 {} else if j == 1 {} else if j == 2 {} else if j == 3 {} else {}
    }
    assert(pos.len() == 6);
}

/// One example test as two files: `test_<n>.in` and `test_<n>.out`.
pub struct TestFiles {
    pub input_name: String,
    pub input: String,
    pub output_name: String,
    pub output: String,
}

/// Everything a received problem is saved as. The tests go into the hidden
/// `.cph` folder inside the problem folder; the solution file and the README
/// are written only when they do not exist yet.
pub struct ProblemFiles {
    /// The problem folder, inside the problems root.
    pub dir_name: String,
    pub solution_file: String,
    pub solution_template: String,
    pub readme: String,
    pub tests: Vec<TestFiles>,
}

/// What is saved for a received problem, in the given language.
pub fn problem_files(problem: &Problem, lang: &LanguageConfig) -> (r: ProblemFiles)
    ensures
        r.dir_name@ == sanitized(problem.name@),
        r.solution_file@ == lang@.solution_file,
        r.solution_template@ == lang@.template,
        r.readme@ == readme_text(problem),
        r.tests.len() == problem.tests.len(),
        forall|i: int|
            0 <= i < r.tests.len() ==> {
                &&& (#[trigger] r.tests@[i]).input_name@ == input_file_name((i + 1) as nat)
                &&& r.tests@[i].output_name@ == output_file_name((i + 1) as nat)
                &&& r.tests@[i].input@ == problem.tests@[i].input@
                &&& r.tests@[i].output@ == problem.tests@[i].output@
            },
{
    let mut tests: Vec<TestFiles> = Vec::new();
    let mut i: usize = 0;
    while i < problem.tests.len()
        invariant
            i <= problem.tests.len(),
            tests.len() == i,
            forall|j: int|
                0 <= j < i ==> {
                    &&& (#[trigger] tests@[j]).input_name@ == input_file_name((j + 1) as nat)
                    &&& tests@[j].output_name@ == output_file_name((j + 1) as nat)
                    &&& tests@[j].input@ == problem.tests@[j].input@
                    &&& tests@[j].output@ == problem.tests@[j].output@
                },
        decreases problem.tests.len() - i,
    {
        let number = (i as u64) + 1;
        let test = &problem.tests[i];
        tests.push(
            TestFiles {
                input_name: test_input_file(number),
                input: test.input.clone(),
                output_name: test_output_file(number),
                output: test.output.clone(),
            },
        );
        i += 1;
    }
    ProblemFiles {
        dir_name: sanitize_name(problem.name.as_str()),
        solution_file: String::from_str(lang.solution_file),
        solution_template: String::from_str(lang.template),
        readme: readme_content(problem),
        tests,
    }
}

} // verus!
