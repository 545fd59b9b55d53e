use cph_engine::config::{
    load_default_language, load_last_problem, load_problems_root, zed_config_dir, ConfigDir,
};
use cph_engine::language::{
    default_language, detect_language, find_language, languages, lookup_language,
    resolve_command,
};
use cph_engine::models::{Problem, TestCase};
use cph_engine::runner::{
    failure_report, find_problem_by_name, normalize_name, outputs_match, test_input_file,
    test_output_file, CompileOutcome, ProblemDir, RunEvent, RunNotice, RunRequest, RunStage,
    Runner,
};
use cph_engine::server::{problem_files, readme_content, sanitize_name};
use cph_engine::text::{
    chars_of, contains, decimal_string, lines, replace_all, string_from_chars, trim,
};

fn chars(s: &str) -> Vec<char> {
    s.chars().collect()
}

// ---------------------------------------------------------------- text

#[test]
fn trim_removes_surrounding_whitespace() {
    assert_eq!(trim("  hello world \n\t"), "hello world");
    assert_eq!(trim("\r\n"), "");
    assert_eq!(trim(""), "");
    assert_eq!(trim("a"), "a");
    // Unicode white space counts too.
    assert_eq!(trim("\u{A0}x\u{2003}"), "x");
}

#[test]
fn trim_is_idempotent() {
    let once = trim("  a b  ");
    assert_eq!(trim(&once), once);
}

#[test]
fn decimal_numerals() {
    assert_eq!(decimal_string(0), "0");
    assert_eq!(decimal_string(7), "7");
    assert_eq!(decimal_string(10), "10");
    assert_eq!(decimal_string(2048), "2048");
    assert_eq!(decimal_string(u64::MAX), u64::MAX.to_string());
}

#[test]
fn lines_split_like_str_lines() {
    let cases = ["", "a", "a\n", "a\nb", "a\r\nb\r\n", "a\n\nb", "\n", "x\ry", "one\ntwo\nthree", "a\r", "a\nb\r", "\r\n", "\r"];
    for case in cases {
        let expected: Vec<String> = case.lines().map(|l| l.to_string()).collect();
        assert_eq!(lines(&chars(case)), expected, "lines of {:?}", case);
    }
}

#[test]
fn substring_search() {
    assert!(contains(&chars("two_sets"), &chars("o_s")));
    assert!(contains(&chars("abc"), &chars("")));
    assert!(contains(&chars("abc"), &chars("abc")));
    assert!(!contains(&chars("abc"), &chars("abcd")));
    assert!(!contains(&chars("abc"), &chars("ac")));
}

#[test]
fn replacing_patterns() {
    let r = replace_all(&chars("{x}-{x}{x"), &chars("{x}"), &chars("yy"));
    assert_eq!(string_from_chars(&r), "yy-yy{x");
    let r = replace_all(&chars("aaa"), &chars("aa"), &chars("b"));
    assert_eq!(string_from_chars(&r), "ba");
    let r = replace_all(&chars("none here"), &chars("{file}"), &chars("f"));
    assert_eq!(string_from_chars(&r), "none here");
}

#[test]
fn chars_round_trip() {
    let s = "héllo wörld";
    assert_eq!(string_from_chars(&chars_of(s)), s);
}

// ---------------------------------------------------------------- language

#[test]
fn table_has_every_language_in_order() {
    let names: Vec<&str> = languages().iter().map(|l| l.name).collect();
    assert_eq!(names, vec!["cpp", "c", "python", "java", "rust", "go", "javascript", "kotlin"]);
    assert_eq!(default_language().name, "cpp");
}

#[test]
fn find_language_is_case_insensitive() {
    assert_eq!(find_language("CPP").unwrap().name, "cpp");
    assert_eq!(find_language("cpp").unwrap().name, "cpp");
    assert_eq!(find_language("Py").unwrap().name, "python");
    assert_eq!(find_language("PYTHON3").unwrap().name, "python");
}

#[test]
fn find_language_by_alias() {
    assert_eq!(find_language("c++").unwrap().name, "cpp");
    assert_eq!(find_language("cc").unwrap().name, "cpp");
    assert_eq!(find_language("gcc").unwrap().name, "c");
    assert_eq!(find_language("golang").unwrap().name, "go");
    assert_eq!(find_language("node").unwrap().name, "javascript");
    assert_eq!(find_language("kt").unwrap().name, "kotlin");
    assert_eq!(find_language("rs").unwrap().name, "rust");
}

#[test]
fn find_language_unknown() {
    assert!(find_language("klingon").is_none());
    assert!(find_language("").is_none());
    assert!(find_language(" cpp").is_none());
}

#[test]
fn every_name_and_alias_finds_its_language() {
    for lang in languages() {
        assert_eq!(lookup_language(lang.name).unwrap().name, lang.name);
        for alias in &lang.aliases {
            assert_eq!(lookup_language(alias).unwrap().name, lang.name);
        }
    }
}

#[test]
fn lookup_is_exact() {
    assert!(lookup_language("CPP").is_none());
    assert_eq!(lookup_language("cxx").unwrap().display_name, "C++ (g++, C++17)");
}

#[test]
fn language_details() {
    let java = find_language("java").unwrap();
    assert_eq!(java.solution_file, "Main.java");
    assert_eq!(java.compile_cmd, Some(vec!["javac", "{file}"]));
    assert_eq!(java.run_cmd, vec!["java", "-cp", "{dir}", "Main"]);
    let py = find_language("python").unwrap();
    assert!(py.compile_cmd.is_none());
    assert!(py.template.starts_with("import sys"));
    let kt = find_language("kotlin").unwrap();
    assert_eq!(kt.bin_name, "solution.jar");
    assert_eq!(kt.extension, "kt");
}

#[test]
fn all_names_lists_name_then_aliases() {
    assert_eq!(find_language("cpp").unwrap().all_names(), "cpp, c++, cc, cxx");
    assert_eq!(find_language("java").unwrap().all_names(), "java");
}

#[test]
fn detect_language_from_solution_files() {
    let found = detect_language(&vec!["solution.py".to_string()]);
    assert_eq!(found.unwrap().name, "python");
    let found = detect_language(&vec!["Main.java".to_string()]);
    assert_eq!(found.unwrap().name, "java");
    assert!(detect_language(&vec![]).is_none());
    assert!(detect_language(&vec!["notes.txt".to_string()]).is_none());
}

#[test]
fn detect_language_prefers_table_order() {
    let found = detect_language(&vec!["solution.py".to_string(), "solution.cpp".to_string()]);
    assert_eq!(found.unwrap().name, "cpp");
}

#[test]
fn detect_finds_each_language_by_its_own_file() {
    for lang in languages() {
        let found = detect_language(&vec![lang.solution_file.to_string()]);
        assert_eq!(found.unwrap().name, lang.name);
    }
}

#[test]
fn resolve_command_fills_placeholders() {
    let cpp = find_language("cpp").unwrap();
    let template = cpp.compile_cmd.unwrap();
    let argv = resolve_command(&template, "/p/solution.cpp", "/p/solution", "/p");
    assert_eq!(argv, vec!["g++", "-O2", "-std=c++17", "/p/solution.cpp", "-o", "/p/solution"]);

    let java = find_language("java").unwrap();
    let argv = resolve_command(&java.run_cmd, "/p/Main.java", "/p/solution", "/p");
    assert_eq!(argv, vec!["java", "-cp", "/p", "Main"]);

    let argv = resolve_command(&["x{file}{bin}{dir}y"], "F", "B", "D");
    assert_eq!(argv, vec!["xFBDy"]);
}

#[test]
fn plain_command_words_are_unchanged() {
    let argv = resolve_command(&["python3", "-u", "{other}"], "F", "B", "D");
    assert_eq!(argv, vec!["python3", "-u", "{other}"]);
}

// ---------------------------------------------------------------- config

#[test]
fn problems_root_default_and_saved() {
    assert_eq!(load_problems_root(None), "./problems");
    assert_eq!(load_problems_root(Some("  /home/u/cph/problems\n")), "/home/u/cph/problems");
}

#[test]
fn last_problem_trimmed() {
    assert_eq!(load_last_problem(None), None);
    assert_eq!(load_last_problem(Some("/a/b\n")), Some("/a/b".to_string()));
}

#[test]
fn default_language_falls_back_to_cpp() {
    assert_eq!(load_default_language(None).name, "cpp");
    assert_eq!(load_default_language(Some("")).name, "cpp");
    assert_eq!(load_default_language(Some("klingon\n")).name, "cpp");
}

#[test]
fn default_language_reads_saved_value() {
    assert_eq!(load_default_language(Some("python\n")).name, "python");
    assert_eq!(load_default_language(Some("  RUST ")).name, "rust");
    assert_eq!(load_default_language(Some("js")).name, "javascript");
}

#[test]
fn saved_language_round_trip() {
    for lang in languages() {
        assert_eq!(load_default_language(Some(lang.name)).name, lang.name);
    }
}

#[test]
fn zed_config_dir_precedence() {
    match zed_config_dir(Some("/x".to_string()), Some("/h".to_string())) {
        ConfigDir::XdgZed(d) => assert_eq!(d, "/x"),
        _ => panic!("expected XDG"),
    }
    match zed_config_dir(None, Some("/h".to_string())) {
        ConfigDir::HomeZed(d) => assert_eq!(d, "/h"),
        _ => panic!("expected HOME"),
    }
    assert!(matches!(zed_config_dir(None, None), ConfigDir::Current));
}

// ---------------------------------------------------------------- server

#[test]
fn sanitize_examples() {
    assert_eq!(sanitize_name("Two Sets!"), "Two_Sets");
    assert_eq!(sanitize_name("A. Number Spiral"), "A__Number_Spiral");
    assert_eq!(sanitize_name("__hi-there__"), "hi-there");
    assert_eq!(sanitize_name("!!!"), "");
    assert_eq!(sanitize_name(""), "");
    assert_eq!(sanitize_name("Ünïcode 2"), "Ünïcode_2");
}

#[test]
fn sanitize_is_idempotent() {
    for name in ["Two Sets!", "  x  y ", "a_b-c", "(*)", "ABC 123 - Problem D"] {
        let once = sanitize_name(name);
        assert_eq!(sanitize_name(&once), once);
        assert!(!once.starts_with('_') && !once.ends_with('_'));
        assert!(once.chars().all(|c| c.is_alphanumeric() || c == '-' || c == '_'));
    }
}

fn sample_problem() -> Problem {
    Problem {
        name: "Two Sets".to_string(),
        group: "CSES - Introductory".to_string(),
        url: "https://cses.fi/problemset/task/1092".to_string(),
        tests: vec![
            TestCase { input: "7\n".to_string(), output: "YES\n".to_string() },
            TestCase { input: "6\n".to_string(), output: "NO\n".to_string() },
        ],
        time_limit: 1000,
        memory_limit: 512,
    }
}

#[test]
fn readme_layout() {
    let expected = "# Two Sets\n\n**Link:** https://cses.fi/problemset/task/1092\n**Group:** CSES - Introductory\n**Time Limit:** 1000 ms\n**Memory Limit:** 512 MB\n\n## Test Cases\n\n2 test case(s) loaded.\n";
    assert_eq!(readme_content(&sample_problem()), expected);
}

#[test]
fn problem_files_layout() {
    let p = sample_problem();
    let lang = find_language("python").unwrap();
    let files = problem_files(&p, &lang);
    assert_eq!(files.dir_name, "Two_Sets");
    assert_eq!(files.solution_file, "solution.py");
    assert_eq!(files.solution_template, lang.template);
    assert_eq!(files.tests.len(), 2);
    assert_eq!(files.tests[0].input_name, "test_1.in");
    assert_eq!(files.tests[0].output_name, "test_1.out");
    assert_eq!(files.tests[1].input, "6\n");
    assert_eq!(files.tests[1].output, "NO\n");
    assert_eq!(files.tests[1].input_name, "test_2.in");
}

// ---------------------------------------------------------------- runner

#[test]
fn test_file_names() {
    assert_eq!(test_input_file(1), "test_1.in");
    assert_eq!(test_output_file(12), "test_12.out");
    assert_ne!(test_input_file(1), test_input_file(11));
}

fn dir(name: &str, is_dir: bool, modified: i128) -> ProblemDir {
    ProblemDir { name: name.to_string(), is_dir, modified }
}

#[test]
fn query_normalization() {
    assert_eq!(string_from_chars(&normalize_name("Number Spiral")), "number_spiral");
    assert_eq!(string_from_chars(&normalize_name("two-sets")), "two_sets");
    assert_eq!(string_from_chars(&normalize_name("A-B_Problem")), "a_b_problem");
}

#[test]
fn search_single_match() {
    let entries = vec![dir("Two_Sets", true, 5), dir("Number_Spiral", true, 9)];
    let r = find_problem_by_name("number spiral", &entries);
    assert_eq!(r.matches, vec![1]);
    assert_eq!(r.chosen, Some(1));
}

#[test]
fn search_normalizes_folder_names_too() {
    let entries = vec![dir("A-B_Problem", true, 1)];
    let r = find_problem_by_name("A-B Problem", &entries);
    assert_eq!(r.matches, vec![0]);
    assert_eq!(r.chosen, Some(0));
    let entries = vec![dir("Number_Spiral", true, 1)];
    let r = find_problem_by_name("NUMBER-SPIRAL", &entries);
    assert_eq!(r.chosen, Some(0));
    let r = find_problem_by_name("number spiral", &vec![dir("number-spiral", true, 1)]);
    assert_eq!(r.chosen, Some(0));
}

#[test]
fn search_no_match() {
    let entries = vec![dir("Two_Sets", true, 5)];
    let r = find_problem_by_name("weird", &entries);
    assert!(r.matches.is_empty());
    assert_eq!(r.chosen, None);
}

#[test]
fn search_ignores_files() {
    let entries = vec![dir("two_sets.txt", false, 5), dir("Two_Sets", true, 1)];
    let r = find_problem_by_name("TWO-SETS", &entries);
    assert_eq!(r.matches, vec![1]);
    assert_eq!(r.chosen, Some(1));
}

#[test]
fn search_picks_most_recent() {
    let entries = vec![
        dir("Sets_A", true, 30),
        dir("Other", true, 99),
        dir("Sets_B", true, 50),
        dir("Sets_C", true, 10),
    ];
    let r = find_problem_by_name("sets", &entries);
    assert_eq!(r.matches, vec![0, 2, 3]);
    assert_eq!(r.chosen, Some(2));
}

#[test]
fn search_ties_pick_last_in_folder_order() {
    let entries = vec![dir("sets_a", true, 7), dir("sets_b", true, 7), dir("sets_c", true, 3)];
    let r = find_problem_by_name("sets", &entries);
    assert_eq!(r.chosen, Some(1));
    let entries = vec![dir("sets_a", true, -5), dir("sets_b", true, -9)];
    let r = find_problem_by_name("sets", &entries);
    assert_eq!(r.chosen, Some(0));
}

#[test]
fn verdict_ignores_surrounding_whitespace() {
    assert!(outputs_match("YES\n", "YES"));
    assert!(outputs_match("  1 2 3  \n\n", "1 2 3\n"));
    assert!(!outputs_match("1  2", "1 2"));
    assert!(!outputs_match("NO", "YES"));
    assert!(outputs_match("", "\n"));
    assert!(outputs_match("a\r\nb\r\n", "a\r\nb"));
}

#[test]
fn failure_report_contents() {
    let r = failure_report("YES\n", "  NO\nmaybe \n", "\n", false, Some(3));
    assert_eq!(r.expected_lines, vec!["YES"]);
    assert_eq!(r.actual_lines, vec!["NO", "maybe"]);
    assert!(r.stderr_lines.is_none());
    assert_eq!(r.exit_code, Some(3));

    let r = failure_report("YES", "", "panic!\nat line 3\n", false, None);
    assert!(r.actual_lines.is_empty());
    assert_eq!(r.stderr_lines, Some(vec!["panic!".to_string(), "at line 3".to_string()]));
    assert_eq!(r.exit_code, Some(-1));

    let r = failure_report("YES", "NO", "", true, Some(0));
    assert_eq!(r.exit_code, None);
}

fn ran(expected: &str, stdout: &str) -> RunEvent {
    RunEvent::CaseRan {
        expected: expected.to_string(),
        stdout: stdout.to_string(),
        stderr: String::new(),
        success: true,
        code: Some(0),
    }
}

fn setup(runner: Runner) -> Runner {
    let (runner, notices, req) = runner.step(RunEvent::SolutionFound(true));
    assert!(notices.is_empty());
    assert!(matches!(req, RunRequest::Compile));
    let (runner, notices, req) = runner.step(RunEvent::CompileDone(CompileOutcome::Succeeded));
    assert!(matches!(notices[..], [RunNotice::CompileSucceeded]));
    assert!(matches!(req, RunRequest::CheckBinary));
    let (runner, _, req) = runner.step(RunEvent::BinaryFound(true));
    assert!(matches!(req, RunRequest::CheckTestDir));
    let (runner, _, req) = runner.step(RunEvent::TestDirFound(true));
    assert!(matches!(req, RunRequest::RunCase(1)));
    runner
}

#[test]
fn run_all_passing() {
    let (runner, req) = Runner::new();
    assert!(matches!(req, RunRequest::CheckSolution));
    let runner = setup(runner);
    let (runner, notices, req) = runner.step(ran("YES\n", "YES"));
    assert!(matches!(notices[..], [RunNotice::CasePassed(1)]));
    assert!(matches!(req, RunRequest::RunCase(2)));
    let (runner, notices, req) = runner.step(ran("NO", " NO \n"));
    assert!(matches!(notices[..], [RunNotice::CasePassed(2)]));
    assert!(matches!(req, RunRequest::RunCase(3)));
    let (runner, notices, req) = runner.step(RunEvent::CaseMissing);
    assert!(matches!(notices[..], [RunNotice::Done { summary: Some(true) }]));
    assert!(matches!(req, RunRequest::Stop));
    assert!(matches!(runner.stage, RunStage::Finished));
}

#[test]
fn run_with_failure_is_remembered() {
    let runner = setup(Runner::new().0);
    let (runner, notices, _) = runner.step(ran("YES", "NO"));
    match &notices[..] {
        [RunNotice::CaseFailed { number: 1, report }] => {
            assert_eq!(report.expected_lines, vec!["YES"]);
            assert_eq!(report.actual_lines, vec!["NO"]);
        }
        _ => panic!("expected a failure"),
    }
    let (runner, notices, _) = runner.step(ran("1", "1"));
    assert!(matches!(notices[..], [RunNotice::CasePassed(2)]));
    let (_, notices, _) = runner.step(RunEvent::CaseMissing);
    assert!(matches!(notices[..], [RunNotice::Done { summary: Some(false) }]));
}

#[test]
fn run_with_spawn_error() {
    let runner = setup(Runner::new().0);
    let (runner, notices, req) =
        runner.step(RunEvent::CaseFailedToStart { error: "denied".to_string() });
    assert!(matches!(&notices[..], [RunNotice::CaseError { number: 1, error }] if error == "denied"));
    assert!(matches!(req, RunRequest::RunCase(2)));
    let (_, notices, _) = runner.step(RunEvent::CaseMissing);
    assert!(matches!(notices[..], [RunNotice::Done { summary: Some(false) }]));
}

#[test]
fn run_without_cases() {
    let runner = setup(Runner::new().0);
    let (_, notices, req) = runner.step(RunEvent::CaseMissing);
    assert!(matches!(notices[..], [RunNotice::Done { summary: None }]));
    assert!(matches!(req, RunRequest::Stop));
}

#[test]
fn run_stops_early() {
    let (_, notices, req) = Runner::new().0.step(RunEvent::SolutionFound(false));
    assert!(matches!(notices[..], [RunNotice::NoSolution]));
    assert!(matches!(req, RunRequest::Stop));

    let (r, _, _) = Runner::new().0.step(RunEvent::SolutionFound(true));
    let (_, notices, req) =
        r.step(RunEvent::CompileDone(CompileOutcome::Failed { stderr: "error: x".to_string() }));
    assert!(matches!(&notices[..], [RunNotice::CompileFailed { stderr: Some(s) }] if s == "error: x"));
    assert!(matches!(req, RunRequest::Stop));

    let (r, _, _) = Runner::new().0.step(RunEvent::SolutionFound(true));
    let (_, notices, _) =
        r.step(RunEvent::CompileDone(CompileOutcome::Failed { stderr: String::new() }));
    assert!(matches!(notices[..], [RunNotice::CompileFailed { stderr: None }]));

    let (r, _, _) = Runner::new().0.step(RunEvent::SolutionFound(true));
    let (_, notices, _) =
        r.step(RunEvent::CompileDone(CompileOutcome::CouldNotRun { error: "no g++".to_string() }));
    assert!(matches!(notices[..], [RunNotice::CompilerMissing { .. }]));

    let (r, _, _) = Runner::new().0.step(RunEvent::SolutionFound(true));
    let (r, _, _) = r.step(RunEvent::CompileDone(CompileOutcome::Succeeded));
    let (_, notices, _) = r.step(RunEvent::BinaryFound(false));
    assert!(matches!(notices[..], [RunNotice::NoBinary]));

    let (r, _, _) = Runner::new().0.step(RunEvent::SolutionFound(true));
    let (r, _, _) = r.step(RunEvent::CompileDone(CompileOutcome::Succeeded));
    let (r, _, _) = r.step(RunEvent::BinaryFound(true));
    let (_, notices, _) = r.step(RunEvent::TestDirFound(false));
    assert!(matches!(notices[..], [RunNotice::NoTestDir]));
}

#[test]
fn run_ignores_unexpected_events() {
    let (r, notices, req) = Runner::new().0.step(RunEvent::CaseMissing);
    assert!(notices.is_empty());
    assert!(matches!(req, RunRequest::Stop));
    let (_, notices, req) = r.step(RunEvent::SolutionFound(true));
    assert!(notices.is_empty());
    assert!(matches!(req, RunRequest::Stop));
}
