//! The table of supported languages and what is computed from it: lookup
//! by name or alias, detection from the solution files present in a problem
//! folder, and filling in command templates.
use vstd::prelude::*;
use vstd::string::StringExecFns;

use crate::text::{
    all_ascii, ascii_lowercase, lemma_lower_word, lower_word, chars_of, contains_chars, lemma_replaced_absent, joined, lowercase, replace_all, replaced, str_equal, string_from_chars,
    to_lowercase, views,
};

verus! {
/// Starter code written for a new C++ problem.
pub const CPP_TEMPLATE: &'static str = r#"#include <bits/stdc++.h>
using namespace std;

int main() {
    ios_base::sync_with_stdio(false);
    cin.tie(NULL);

    return 0;
}
"#;
/// Starter code written for a new C problem.
pub const C_TEMPLATE: &'static str = r#"#include <stdio.h>
#include <stdlib.h>
#include <string.h>

int main() {

    return 0;
}
"#;
/// Starter code written for a new Python problem.
pub const PYTHON_TEMPLATE: &'static str = r#"import sys
input = sys.stdin.readline

def main():
    pass

if __name__ == "__main__":
    main()
"#;
/// Starter code written for a new Java problem.
pub const JAVA_TEMPLATE: &'static str = r#"import java.util.*;
import java.io.*;

public class Main {
    public static void main(String[] args) throws IOException {
        BufferedReader br = new BufferedReader(new InputStreamReader(System.in));

    }
}
"#;
/// Starter code written for a new Rust problem.
pub const RUST_TEMPLATE: &'static str = r#"use std::io::{self, BufRead, Write};

fn main() {
    let stdin  = io::stdin();
    let stdout = io::stdout();
    let mut out = io::BufWriter::new(stdout.lock());

    for line in stdin.lock().lines() {
        let _line = line.unwrap();
        writeln!(out, "").unwrap();
    }
}
"#;
/// Starter code written for a new Go problem.
pub const GO_TEMPLATE: &'static str = r#"package main

import (
    "bufio"
    "fmt"
    "os"
)

var reader *bufio.Reader
var writer *bufio.Writer

func main() {
    reader = bufio.NewReader(os.Stdin)
    writer = bufio.NewWriter(os.Stdout)
    defer writer.Flush()

    _ = fmt.Fscan
    _ = reader
}
"#;
/// Starter code written for a new JavaScript problem.
pub const JAVASCRIPT_TEMPLATE: &'static str = r#"const readline = require('readline');
const rl = readline.createInterface({ input: process.stdin });
const lines = [];
rl.on('line', line => lines.push(line.trim()));
rl.on('close', () => {
    let idx = 0;
    const next = () => lines[idx++];
    // Your solution here
    void next;
});
"#;
/// Starter code written for a new Kotlin problem.
pub const KOTLIN_TEMPLATE: &'static str = r#"import java.util.Scanner

fun main() {
    val sc = Scanner(System.`in`)

}
"#;

/// Everything the engine needs to know about one programming language.
pub struct LanguageConfig {
    /// The short name used on the command line, such as "cpp".
    pub name: &'static str,
    /// What the user is shown.
    pub display_name: &'static str,
    /// Other names the user may type for this language.
    pub aliases: Vec<&'static str>,
    /// The file extension, without the dot.
    pub extension: &'static str,
    /// The file created in the problem folder.
    pub solution_file: &'static str,
    /// The starter code written into the solution file.
    pub template: &'static str,
    /// The command that compiles the solution; `None` for interpreted languages.
    /// Its words may hold the placeholders `{file}`, `{bin}` and `{dir}`.
    pub compile_cmd: Option<Vec<&'static str>>,
    /// The command that runs the solution, with the same placeholders.
    pub run_cmd: Vec<&'static str>,
    /// The name of the compiled output in the problem folder.
    pub bin_name: &'static str,
}

/// The mathematical value of a `LanguageConfig`: every text as its characters.
#[verifier::ext_equal]
pub struct LanguageView {
    pub name: Seq<char>,
    pub display_name: Seq<char>,
    pub aliases: Seq<Seq<char>>,
    pub extension: Seq<char>,
    pub solution_file: Seq<char>,
    pub template: Seq<char>,
    pub compile_cmd: Option<Seq<Seq<char>>>,
    pub run_cmd: Seq<Seq<char>>,
    pub bin_name: Seq<char>,
}

/// The characters of each string of a sequence.
pub open spec fn str_views(v: Seq<&str>) -> Seq<Seq<char>> {
    v.map_values(|s: &str| s@)
}

impl View for LanguageConfig {
    type V = LanguageView;

    open spec fn view(&self) -> LanguageView {
        LanguageView {
            name: self.name@,
            display_name: self.display_name@,
            aliases: str_views(self.aliases@),
            extension: self.extension@,
            solution_file: self.solution_file@,
            template: self.template@,
            compile_cmd: match self.compile_cmd {
                Some(c) => Some(str_views(c@)),
                None => None,
            },
            run_cmd: str_views(self.run_cmd@),
            bin_name: self.bin_name@,
        }
    }
}

/// The views of a sequence of language configurations.
pub open spec fn config_views(v: Seq<LanguageConfig>) -> Seq<LanguageView> {
    v.map_values(|l: LanguageConfig| l@)
}

/// The view of an optional language configuration.
pub open spec fn option_view(r: Option<LanguageConfig>) -> Option<LanguageView> {
    match r {
        Some(l) => Some(l@),
        None => None,
    }
}

/// The language table, in the order in which lookups search it.
pub open spec fn language_table() -> Seq<LanguageView> {
    seq![
        LanguageView {
            name: "cpp"@,
            display_name: "C++ (g++, C++17)"@,
            aliases: seq!["c++"@, "cc"@, "cxx"@],
            extension: "cpp"@,
            solution_file: "solution.cpp"@,
            template: CPP_TEMPLATE@,
            compile_cmd: Some(seq!["g++"@, "-O2"@, "-std=c++17"@, "{file}"@, "-o"@, "{bin}"@]),
            run_cmd: seq!["{bin}"@],
            bin_name: "solution"@,
        },
        LanguageView {
            name: "c"@,
            display_name: "C (gcc, C11)"@,
            aliases: seq!["gcc"@],
            extension: "c"@,
            solution_file: "solution.c"@,
            template: C_TEMPLATE@,
            compile_cmd: Some(seq!["gcc"@, "-O2"@, "-std=c11"@, "-lm"@, "{file}"@, "-o"@, "{bin}"@]),
            run_cmd: seq!["{bin}"@],
            bin_name: "solution"@,
        },
        LanguageView {
            name: "python"@,
            display_name: "Python (python3)"@,
            aliases: seq!["py"@, "python3"@],
            extension: "py"@,
            solution_file: "solution.py"@,
            template: PYTHON_TEMPLATE@,
            compile_cmd: None,
            run_cmd: seq!["python3"@, "{file}"@],
            bin_name: "solution"@,
        },
        LanguageView {
            name: "java"@,
            display_name: "Java (javac + JVM)"@,
            aliases: Seq::empty(),
            extension: "java"@,
            solution_file: "Main.java"@,
            template: JAVA_TEMPLATE@,
            compile_cmd: Some(seq!["javac"@, "{file}"@]),
            run_cmd: seq!["java"@, "-cp"@, "{dir}"@, "Main"@],
            bin_name: "solution"@,
        },
        LanguageView {
            name: "rust"@,
            display_name: "Rust (rustc)"@,
            aliases: seq!["rs"@],
            extension: "rs"@,
            solution_file: "solution.rs"@,
            template: RUST_TEMPLATE@,
            compile_cmd: Some(seq!["rustc"@, "-O"@, "{file}"@, "-o"@, "{bin}"@]),
            run_cmd: seq!["{bin}"@],
            bin_name: "solution"@,
        },
        LanguageView {
            name: "go"@,
            display_name: "Go (go run)"@,
            aliases: seq!["golang"@],
            extension: "go"@,
            solution_file: "solution.go"@,
            template: GO_TEMPLATE@,
            compile_cmd: None,
            run_cmd: seq!["go"@, "run"@, "{file}"@],
            bin_name: "solution"@,
        },
        LanguageView {
            name: "javascript"@,
            display_name: "JavaScript (Node.js)"@,
            aliases: seq!["js"@, "node"@],
            extension: "js"@,
            solution_file: "solution.js"@,
            template: JAVASCRIPT_TEMPLATE@,
            compile_cmd: None,
            run_cmd: seq!["node"@, "{file}"@],
            bin_name: "solution"@,
        },
        LanguageView {
            name: "kotlin"@,
            display_name: "Kotlin (kotlinc + JVM)"@,
            aliases: seq!["kt"@],
            extension: "kt"@,
            solution_file: "solution.kt"@,
            template: KOTLIN_TEMPLATE@,
            compile_cmd: Some(seq!["kotlinc"@, "{file}"@, "-include-runtime"@, "-d"@, "{bin}"@]),
            run_cmd: seq!["java"@, "-jar"@, "{bin}"@],
            bin_name: "solution.jar"@,
        },
    ]
}

fn cpp_config() -> (l: LanguageConfig)
    ensures
        l@ == language_table()[0],
{
    let l = LanguageConfig {
        name: "cpp",
        display_name: "C++ (g++, C++17)",
        aliases: vec!["c++", "cc", "cxx"],
        extension: "cpp",
        solution_file: "solution.cpp",
        template: CPP_TEMPLATE,
        compile_cmd: Some(vec!["g++", "-O2", "-std=c++17", "{file}", "-o", "{bin}"]),
        run_cmd: vec!["{bin}"],
        bin_name: "solution",
    };
    proof {
        assert(str_views(l.aliases@) =~= language_table()[0].aliases);
        assert(str_views(l.run_cmd@) =~= language_table()[0].run_cmd);
        assert(str_views(l.compile_cmd.unwrap()@) =~= language_table()[0].compile_cmd.unwrap());
        assert(l@ =~= language_table()[0]);
    }
    l
}

fn c_config() -> (l: LanguageConfig)
    ensures
        l@ == language_table()[1],
{
    let l = LanguageConfig {
        name: "c",
        display_name: "C (gcc, C11)",
        aliases: vec!["gcc"],
        extension: "c",
        solution_file: "solution.c",
        template: C_TEMPLATE,
        compile_cmd: Some(vec!["gcc", "-O2", "-std=c11", "-lm", "{file}", "-o", "{bin}"]),
        run_cmd: vec!["{bin}"],
        bin_name: "solution",
    };
    proof {
        assert(str_views(l.aliases@) =~= language_table()[1].aliases);
        assert(str_views(l.run_cmd@) =~= language_table()[1].run_cmd);
        assert(str_views(l.compile_cmd.unwrap()@) =~= language_table()[1].compile_cmd.unwrap());
        assert(l@ =~= language_table()[1]);
    }
    l
}

fn python_config() -> (l: LanguageConfig)
    ensures
        l@ == language_table()[2],
{
    let l = LanguageConfig {
        name: "python",
        display_name: "Python (python3)",
        aliases: vec!["py", "python3"],
        extension: "py",
        solution_file: "solution.py",
        template: PYTHON_TEMPLATE,
        compile_cmd: None,
        run_cmd: vec!["python3", "{file}"],
        bin_name: "solution",
    };
    proof {
        assert(str_views(l.aliases@) =~= language_table()[2].aliases);
        assert(str_views(l.run_cmd@) =~= language_table()[2].run_cmd);
        assert(l@ =~= language_table()[2]);
    }
    l
}

fn java_config() -> (l: LanguageConfig)
    ensures
        l@ == language_table()[3],
{
    let l = LanguageConfig {
        name: "java",
        display_name: "Java (javac + JVM)",
        aliases: Vec::new(),
        extension: "java",
        solution_file: "Main.java",
        template: JAVA_TEMPLATE,
        compile_cmd: Some(vec!["javac", "{file}"]),
        run_cmd: vec!["java", "-cp", "{dir}", "Main"],
        bin_name: "solution",
    };
    proof {
        assert(str_views(l.aliases@) =~= language_table()[3].aliases);
        assert(str_views(l.run_cmd@) =~= language_table()[3].run_cmd);
        assert(str_views(l.compile_cmd.unwrap()@) =~= language_table()[3].compile_cmd.unwrap());
        assert(l@ =~= language_table()[3]);
    }
    l
}

fn rust_config() -> (l: LanguageConfig)
    ensures
        l@ == language_table()[4],
{
    let l = LanguageConfig {
        name: "rust",
        display_name: "Rust (rustc)",
        aliases: vec!["rs"],
        extension: "rs",
        solution_file: "solution.rs",
        template: RUST_TEMPLATE,
        compile_cmd: Some(vec!["rustc", "-O", "{file}", "-o", "{bin}"]),
        run_cmd: vec!["{bin}"],
        bin_name: "solution",
    };
    proof {
        assert(str_views(l.aliases@) =~= language_table()[4].aliases);
        assert(str_views(l.run_cmd@) =~= language_table()[4].run_cmd);
        assert(str_views(l.compile_cmd.unwrap()@) =~= language_table()[4].compile_cmd.unwrap());
        assert(l@ =~= language_table()[4]);
    }
    l
}

fn go_config() -> (l: LanguageConfig)
    ensures
        l@ == language_table()[5],
{
    let l = LanguageConfig {
        name: "go",
        display_name: "Go (go run)",
        aliases: vec!["golang"],
        extension: "go",
        solution_file: "solution.go",
        template: GO_TEMPLATE,
        compile_cmd: None,
        run_cmd: vec!["go", "run", "{file}"],
        bin_name: "solution",
    };
    proof {
        assert(str_views(l.aliases@) =~= language_table()[5].aliases);
        assert(str_views(l.run_cmd@) =~= language_table()[5].run_cmd);
        assert(l@ =~= language_table()[5]);
    }
    l
}

fn javascript_config() -> (l: LanguageConfig)
    ensures
        l@ == language_table()[6],
{
    let l = LanguageConfig {
        name: "javascript",
        display_name: "JavaScript (Node.js)",
        aliases: vec!["js", "node"],
        extension: "js",
        solution_file: "solution.js",
        template: JAVASCRIPT_TEMPLATE,
        compile_cmd: None,
        run_cmd: vec!["node", "{file}"],
        bin_name: "solution",
    };
    proof {
        assert(str_views(l.aliases@) =~= language_table()[6].aliases);
        assert(str_views(l.run_cmd@) =~= language_table()[6].run_cmd);
        assert(l@ =~= language_table()[6]);
    }
    l
}

fn kotlin_config() -> (l: LanguageConfig)
    ensures
        l@ == language_table()[7],
{
    let l = LanguageConfig {
        name: "kotlin",
        display_name: "Kotlin (kotlinc + JVM)",
        aliases: vec!["kt"],
        extension: "kt",
        solution_file: "solution.kt",
        template: KOTLIN_TEMPLATE,
        compile_cmd: Some(vec!["kotlinc", "{file}", "-include-runtime", "-d", "{bin}"]),
        run_cmd: vec!["java", "-jar", "{bin}"],
        bin_name: "solution.jar",
    };
    proof {
        assert(str_views(l.aliases@) =~= language_table()[7].aliases);
        assert(str_views(l.run_cmd@) =~= language_table()[7].run_cmd);
        assert(str_views(l.compile_cmd.unwrap()@) =~= language_table()[7].compile_cmd.unwrap());
        assert(l@ =~= language_table()[7]);
    }
    l
}

/// The language table, as `language_table` states it.
pub fn languages() -> (v: Vec<LanguageConfig>)
    ensures
        config_views(v@) == language_table(),
{
    let v = vec![cpp_config(), c_config(), python_config(), java_config(), rust_config(), go_config(), javascript_config(), kotlin_config()];
    assert(config_views(v@) =~= language_table());
    v
}

/// A language answers to a key that is its name or one of its aliases.
pub open spec fn has_name(l: LanguageView, key: Seq<char>) -> bool {
    l.name == key || l.aliases.contains(key)
}

/// The first language of `t` that answers to `key`.
pub open spec fn first_named(t: Seq<LanguageView>, key: Seq<char>) -> Option<LanguageView>
    decreases t.len(),
{
    if t.len() == 0 {
        None
    } else if has_name(t[0], key) {
        Some(t[0])
    } else {
        first_named(t.drop_first(), key)
    }
}

/// The first language of `t` whose solution file is among `present`.
pub open spec fn first_present(t: Seq<LanguageView>, present: Seq<Seq<char>>) -> Option<
    LanguageView,
>
    decreases t.len(),
{
    if t.len() == 0 {
        None
    } else if present.contains(t[0].solution_file) {
        Some(t[0])
    } else {
        first_present(t.drop_first(), present)
    }
}

/// A command word with its placeholders filled in: `{file}` first, then
/// `{bin}`, then `{dir}`.
pub open spec fn filled(arg: Seq<char>, file: Seq<char>, bin: Seq<char>, dir: Seq<char>) -> Seq<
    char,
> {
    replaced(replaced(replaced(arg, "{file}"@, file), "{bin}"@, bin), "{dir}"@, dir)
}

impl LanguageConfig {
    /// Whether this language's name or one of its aliases is exactly `key`.
    pub fn answers_to(&self, key: &str) -> (r: bool)
        ensures
            r == has_name(self@, key@),
    {
        if str_equal(self.name, key) {
            return true;
        }
        let mut i: usize = 0;
        while i < self.aliases.len()
            invariant
                i <= self.aliases.len(),
                self.name@ != key@,
                forall|j: int| 0 <= j < i ==> self.aliases@[j]@ != key@,
            decreases self.aliases.len() - i,
        {
            if str_equal(self.aliases[i], key) {
                assert(str_views(self.aliases@)[i as int] == key@);
                return true;
            }
            i += 1;
        }
        assert forall|j: int| 0 <= j < str_views(self.aliases@).len() implies str_views(
            self.aliases@,
        )[j] != key@ by {}
        false
    }

    /// The name and the aliases, separated by ", ".
    pub fn all_names(&self) -> (r: String)
        ensures
            r@ == joined(seq![self@.name] + self@.aliases, ", "@),
    {
        let ghost names = seq![self@.name] + self@.aliases;
        let mut r = String::from_str(self.name);
        proof {
            assert(seq![self@.name] + str_views(self.aliases@).take(0) =~= seq![self@.name]);
        }
        let mut i: usize = 0;
        while i < self.aliases.len()
            invariant
                i <= self.aliases.len(),
                names == seq![self@.name] + self@.aliases,
                r@ == joined(seq![self@.name] + str_views(self.aliases@).take(i as int), ", "@),
            decreases self.aliases.len() - i,
        {
            let ghost before = seq![self@.name] + str_views(self.aliases@).take(i as int);
            r.append(", ");
            r.append(self.aliases[i]);
            proof {
                let after = seq![self@.name] + str_views(self.aliases@).take(i + 1);
                assert(after.drop_last() =~= before);
                assert(after.last() == self.aliases@[i as int]@);
            }
            i += 1;
        }
        proof {
            assert(str_views(self.aliases@).take(i as int) =~= self@.aliases);
        }
        r
    }
}

/// The language used when none has been chosen: the first of the table, C++.
pub fn default_language() -> (r: LanguageConfig)
    ensures
        r@ == language_table()[0],
{
    cpp_config()
}

/// Looks a language up by its exact name or alias, searching the table in
/// order.
pub fn lookup_language(key: &str) -> (r: Option<LanguageConfig>)
    ensures
        option_view(r) == first_named(language_table(), key@),
{
    let mut table = languages();
    let mut i: usize = 0;
    assert(language_table().skip(0) =~= language_table());
    while i < table.len()
        invariant
            config_views(table@) == language_table(),
            i <= table.len(),
            first_named(language_table(), key@) == first_named(language_table().skip(i as int), key@),
        decreases table.len() - i,
    {
        assert(language_table().skip(i as int)[0] == table@[i as int]@);
        if table[i].answers_to(key) {
            let l = table.remove(i);
            return Some(l);
        }
        assert(language_table().skip(i as int).drop_first() =~= language_table().skip(i + 1));
        i += 1;
    }
    None
}

/// Looks a language up by name or alias, case-insensitively: the name is
/// lowercased, then looked up.
pub fn find_language(name: &str) -> (r: Option<LanguageConfig>)
    ensures
        option_view(r) == first_named(language_table(), lowercase(name@)),
        all_ascii(name@) ==> option_view(r) == first_named(
            language_table(),
            ascii_lowercase(name@),
        ),
        name@.len() == 0 ==> r is None,
{
    let lower = to_lowercase(name);
    proof {
        if name@.len() == 0 {
            assert(lower@ =~= Seq::<char>::empty());
            lemma_no_empty_name();
        }
    }
    lookup_language(lower.as_str())
}

/// The language whose solution file is in a problem folder: the first in
/// table order whose solution file name is among `present`, the names of the
/// solution files found there.
pub fn detect_language(present: &Vec<String>) -> (r: Option<LanguageConfig>)
    ensures
        option_view(r) == first_present(language_table(), views(present@)),
{
    let mut table = languages();
    let mut i: usize = 0;
    assert(language_table().skip(0) =~= language_table());
    while i < table.len()
        invariant
            config_views(table@) == language_table(),
            i <= table.len(),
            first_present(language_table(), views(present@)) == first_present(
                language_table().skip(i as int),
                views(present@),
            ),
        decreases table.len() - i,
    {
        assert(language_table().skip(i as int)[0] == table@[i as int]@);
        let mut k: usize = 0;
        let mut found = false;
        while k < present.len()
            invariant
                k <= present.len(),
                config_views(table@) == language_table(),
                i < table.len(),
                found == exists|j: int| 0 <= j < k && present@[j]@ == table@[i as int].solution_file@,
            decreases present.len() - k,
        {
            if str_equal(present[k].as_str(), table[i].solution_file) {
                found = true;
            }
            k += 1;
        }
        proof {
            let sf = table@[i as int]@.solution_file;
            if found {
                let j = choose|j: int| 0 <= j < k && present@[j]@ == table@[i as int].solution_file@;
                assert(views(present@)[j] == sf);
            } else {
                assert forall|j: int| 0 <= j < views(present@).len() implies views(present@)[j]
                    != sf by {
                    assert(views(present@)[j] == present@[j]@);
                }
            }
        }
        if found {
            let l = table.remove(i);
            return Some(l);
        }
        assert(language_table().skip(i as int).drop_first() =~= language_table().skip(i + 1));
        i += 1;
    }
    None
}

/// Fills the placeholders of a command template: in each word, `{file}`,
/// `{bin}` and `{dir}` are replaced by the given paths. The first word is
/// the program to run and the rest are its arguments, so a template holds at
/// least one word.
pub fn resolve_command(template: &[&str], file: &str, bin: &str, dir: &str) -> (r: Vec<String>)
    requires
        template.len() > 0,
    ensures
        r.len() == template.len(),
        forall|i: int|
            0 <= i < template.len() ==> #[trigger] r@[i]@ == filled(template@[i]@, file@, bin@, dir@),
{
    let file_pat = chars_of("{file}");
    let bin_pat = chars_of("{bin}");
    let dir_pat = chars_of("{dir}");
    proof {
        reveal_strlit("{file}");
        reveal_strlit("{bin}");
        reveal_strlit("{dir}");
    }
    let file_chars = chars_of(file);
    let bin_chars = chars_of(bin);
    let dir_chars = chars_of(dir);
    let mut resolved: Vec<String> = Vec::new();
    let mut i: usize = 0;
    while i < template.len()
        invariant
            i <= template.len(),
            resolved.len() == i,
            file_pat@ == "{file}"@,
            bin_pat@ == "{bin}"@,
            dir_pat@ == "{dir}"@,
            file_pat@.len() > 0,
            bin_pat@.len() > 0,
            dir_pat@.len() > 0,
            file_chars@ == file@,
            bin_chars@ == bin@,
            dir_chars@ == dir@,
            forall|j: int|
                0 <= j < i ==> #[trigger] resolved@[j]@ == filled(template@[j]@, file@, bin@, dir@),
        decreases template.len() - i,
    {
        let arg = chars_of(template[i]);
        let step1 = replace_all(&arg, &file_pat, &file_chars);
        let step2 = replace_all(&step1, &bin_pat, &bin_chars);
        let filled_arg = replace_all(&step2, &dir_pat, &dir_chars);
        resolved.push(string_from_chars(&filled_arg));
        i += 1;
    }
    resolved
}

/// Looking up a key finds language `i` when no earlier language answers to
/// the key and language `i` does.
proof fn lemma_first_named_at(t: Seq<LanguageView>, key: Seq<char>, i: int)
    requires
        0 <= i < t.len(),
        forall|j: int| 0 <= j < i ==> !has_name(#[trigger] t[j], key),
        has_name(t[i], key),
    ensures
        first_named(t, key) == Some(t[i]),
    decreases i,
{
    if i > 0 {
        let u = t.drop_first();
        assert forall|j: int| 0 <= j < i - 1 implies !has_name(#[trigger] u[j], key) by {
            assert(u[j] == t[j + 1]);
        }
        assert(!has_name(t[0], key));
        lemma_first_named_at(u, key, i - 1);
    }
}

/// Detecting a language finds language `i` when no earlier language's
/// solution file is present and language `i`'s is.
proof fn lemma_first_present_at(t: Seq<LanguageView>, present: Seq<Seq<char>>, i: int)
    requires
        0 <= i < t.len(),
        forall|j: int| 0 <= j < i ==> !present.contains(#[trigger] t[j].solution_file),
        present.contains(t[i].solution_file),
    ensures
        first_present(t, present) == Some(t[i]),
    decreases i,
{
    if i > 0 {
        let u = t.drop_first();
        assert forall|j: int| 0 <= j < i - 1 implies !present.contains(#[trigger] u[j].solution_file) by {
            assert(u[j] == t[j + 1]);
        }
        assert(!present.contains(t[0].solution_file));
        lemma_first_present_at(u, present, i - 1);
    }
}

/// No two languages of the table share a name, an alias or a solution file
/// name.
pub proof fn lemma_table_names_distinct(i: int, j: int, key: Seq<char>)
    requires
        0 <= i < language_table().len(),
        0 <= j < language_table().len(),
        i != j,
    ensures
        has_name(language_table()[i], key) ==> !has_name(language_table()[j], key),
        language_table()[i].solution_file != language_table()[j].solution_file,
{
        reveal_strlit("cpp");
        reveal_strlit("c++");
        reveal_strlit("cc");
        reveal_strlit("cxx");
        reveal_strlit("solution.cpp");
        reveal_strlit("c");
        reveal_strlit("gcc");
        reveal_strlit("solution.c");
        reveal_strlit("python");
        reveal_strlit("py");
        reveal_strlit("python3");
        reveal_strlit("solution.py");
        reveal_strlit("java");
        reveal_strlit("Main.java");
        reveal_strlit("rust");
        reveal_strlit("rs");
        reveal_strlit("solution.rs");
        reveal_strlit("go");
        reveal_strlit("golang");
        reveal_strlit("solution.go");
        reveal_strlit("javascript");
        reveal_strlit("js");
        reveal_strlit("node");
        reveal_strlit("solution.js");
        reveal_strlit("kotlin");
        reveal_strlit("kt");
        reveal_strlit("solution.kt");
        assert("cpp"@.len() == 3 && "cpp"@[0] == 'c' && "cpp"@[1] == 'p' && "cpp"@[2] == 'p');
        assert("c++"@.len() == 3 && "c++"@[0] == 'c' && "c++"@[1] == '+' && "c++"@[2] == '+');
        assert("cc"@.len() == 2 && "cc"@[0] == 'c' && "cc"@[1] == 'c');
        assert("cxx"@.len() == 3 && "cxx"@[0] == 'c' && "cxx"@[1] == 'x' && "cxx"@[2] == 'x');
        assert("solution.cpp"@.len() == 12 && "solution.cpp"@[0] == 's' && "solution.cpp"@[1] == 'o' && "solution.cpp"@[2] == 'l' && "solution.cpp"@[3] == 'u' && "solution.cpp"@[4] == 't' && "solution.cpp"@[5] == 'i' && "solution.cpp"@[6] == 'o' && "solution.cpp"@[7] == 'n' && "solution.cpp"@[8] == '.' && "solution.cpp"@[9] == 'c' && "solution.cpp"@[10] == 'p' && "solution.cpp"@[11] == 'p');
        assert("c"@.len() == 1 && "c"@[0] == 'c');
        assert("gcc"@.len() == 3 && "gcc"@[0] == 'g' && "gcc"@[1] == 'c' && "gcc"@[2] == 'c');
        assert("solution.c"@.len() == 10 && "solution.c"@[0] == 's' && "solution.c"@[1] == 'o' && "solution.c"@[2] == 'l' && "solution.c"@[3] == 'u' && "solution.c"@[4] == 't' && "solution.c"@[5] == 'i' && "solution.c"@[6] == 'o' && "solution.c"@[7] == 'n' && "solution.c"@[8] == '.' && "solution.c"@[9] == 'c');
        assert("python"@.len() == 6 && "python"@[0] == 'p' && "python"@[1] == 'y' && "python"@[2] == 't' && "python"@[3] == 'h' && "python"@[4] == 'o' && "python"@[5] == 'n');
        assert("py"@.len() == 2 && "py"@[0] == 'p' && "py"@[1] == 'y');
        assert("python3"@.len() == 7 && "python3"@[0] == 'p' && "python3"@[1] == 'y' && "python3"@[2] == 't' && "python3"@[3] == 'h' && "python3"@[4] == 'o' && "python3"@[5] == 'n' && "python3"@[6] == '3');
        assert("solution.py"@.len() == 11 && "solution.py"@[0] == 's' && "solution.py"@[1] == 'o' && "solution.py"@[2] == 'l' && "solution.py"@[3] == 'u' && "solution.py"@[4] == 't' && "solution.py"@[5] == 'i' && "solution.py"@[6] == 'o' && "solution.py"@[7] == 'n' && "solution.py"@[8] == '.' && "solution.py"@[9] == 'p' && "solution.py"@[10] == 'y');
        assert("java"@.len() == 4 && "java"@[0] == 'j' && "java"@[1] == 'a' && "java"@[2] == 'v' && "java"@[3] == 'a');
        assert("Main.java"@.len() == 9 && "Main.java"@[0] == 'M' && "Main.java"@[1] == 'a' && "Main.java"@[2] == 'i' && "Main.java"@[3] == 'n' && "Main.java"@[4] == '.' && "Main.java"@[5] == 'j' && "Main.java"@[6] == 'a' && "Main.java"@[7] == 'v' && "Main.java"@[8] == 'a');
        assert("rust"@.len() == 4 && "rust"@[0] == 'r' && "rust"@[1] == 'u' && "rust"@[2] == 's' && "rust"@[3] == 't');
        assert("rs"@.len() == 2 && "rs"@[0] == 'r' && "rs"@[1] == 's');
        assert("solution.rs"@.len() == 11 && "solution.rs"@[0] == 's' && "solution.rs"@[1] == 'o' && "solution.rs"@[2] == 'l' && "solution.rs"@[3] == 'u' && "solution.rs"@[4] == 't' && "solution.rs"@[5] == 'i' && "solution.rs"@[6] == 'o' && "solution.rs"@[7] == 'n' && "solution.rs"@[8] == '.' && "solution.rs"@[9] == 'r' && "solution.rs"@[10] == 's');
        assert("go"@.len() == 2 && "go"@[0] == 'g' && "go"@[1] == 'o');
        assert("golang"@.len() == 6 && "golang"@[0] == 'g' && "golang"@[1] == 'o' && "golang"@[2] == 'l' && "golang"@[3] == 'a' && "golang"@[4] == 'n' && "golang"@[5] == 'g');
        assert("solution.go"@.len() == 11 && "solution.go"@[0] == 's' && "solution.go"@[1] == 'o' && "solution.go"@[2] == 'l' && "solution.go"@[3] == 'u' && "solution.go"@[4] == 't' && "solution.go"@[5] == 'i' && "solution.go"@[6] == 'o' && "solution.go"@[7] == 'n' && "solution.go"@[8] == '.' && "solution.go"@[9] == 'g' && "solution.go"@[10] == 'o');
        assert("javascript"@.len() == 10 && "javascript"@[0] == 'j' && "javascript"@[1] == 'a' && "javascript"@[2] == 'v' && "javascript"@[3] == 'a' && "javascript"@[4] == 's' && "javascript"@[5] == 'c' && "javascript"@[6] == 'r' && "javascript"@[7] == 'i' && "javascript"@[8] == 'p' && "javascript"@[9] == 't');
        assert("js"@.len() == 2 && "js"@[0] == 'j' && "js"@[1] == 's');
        assert("node"@.len() == 4 && "node"@[0] == 'n' && "node"@[1] == 'o' && "node"@[2] == 'd' && "node"@[3] == 'e');
        assert("solution.js"@.len() == 11 && "solution.js"@[0] == 's' && "solution.js"@[1] == 'o' && "solution.js"@[2] == 'l' && "solution.js"@[3] == 'u' && "solution.js"@[4] == 't' && "solution.js"@[5] == 'i' && "solution.js"@[6] == 'o' && "solution.js"@[7] == 'n' && "solution.js"@[8] == '.' && "solution.js"@[9] == 'j' && "solution.js"@[10] == 's');
        assert("kotlin"@.len() == 6 && "kotlin"@[0] == 'k' && "kotlin"@[1] == 'o' && "kotlin"@[2] == 't' && "kotlin"@[3] == 'l' && "kotlin"@[4] == 'i' && "kotlin"@[5] == 'n');
        assert("kt"@.len() == 2 && "kt"@[0] == 'k' && "kt"@[1] == 't');
        assert("solution.kt"@.len() == 11 && "solution.kt"@[0] == 's' && "solution.kt"@[1] == 'o' && "solution.kt"@[2] == 'l' && "solution.kt"@[3] == 'u' && "solution.kt"@[4] == 't' && "solution.kt"@[5] == 'i' && "solution.kt"@[6] == 'o' && "solution.kt"@[7] == 'n' && "solution.kt"@[8] == '.' && "solution.kt"@[9] == 'k' && "solution.kt"@[10] == 't');
}

/// Every language is found by its own name and by each of its aliases.
pub proof fn lemma_lookup_finds_own_names(i: int, key: Seq<char>)
    requires
        0 <= i < language_table().len(),
        has_name(language_table()[i], key),
    ensures
        first_named(language_table(), key) == Some(language_table()[i]),
{
    let t = language_table();
    assert forall|j: int| 0 <= j < i implies !has_name(#[trigger] t[j], key) by {
        lemma_table_names_distinct(i, j, key);
    }
    lemma_first_named_at(t, key, i);
}

/// A problem folder that holds only the solution file of language `i` is
/// detected as language `i`.
pub proof fn lemma_detect_finds_own_solution_file(i: int)
    requires
        0 <= i < language_table().len(),
    ensures
        first_present(language_table(), seq![language_table()[i].solution_file]) == Some(
            language_table()[i],
        ),
{
    let t = language_table();
    let present = seq![t[i].solution_file];
    assert(present[0] == t[i].solution_file);
    assert forall|j: int| 0 <= j < i implies !present.contains(#[trigger] t[j].solution_file) by {
        lemma_table_names_distinct(i, j, Seq::empty());
    }
    lemma_first_present_at(t, present, i);
}

/// A command word without placeholders is used as it is.
pub proof fn lemma_plain_word_unchanged(arg: Seq<char>, file: Seq<char>, bin: Seq<char>, dir: Seq<char>)
    requires
        !contains_chars(arg, "{file}"@),
        !contains_chars(arg, "{bin}"@),
        !contains_chars(arg, "{dir}"@),
    ensures
        filled(arg, file, bin, dir) == arg,
{
    reveal_strlit("{file}");
    reveal_strlit("{bin}");
    reveal_strlit("{dir}");
    lemma_replaced_absent(arg, "{file}"@, file);
    lemma_replaced_absent(arg, "{bin}"@, bin);
    lemma_replaced_absent(arg, "{dir}"@, dir);
}


/// The name of every language is a non-empty word of lowercase letters.
pub proof fn lemma_names_are_lower_words(i: int)
    requires
        0 <= i < language_table().len(),
    ensures
        lower_word(language_table()[i].name),
        language_table()[i].name.len() > 0,
{
    let n = language_table()[i].name;
    if i == 0 {
        reveal_strlit("cpp");
        assert forall|k: int| 0 <= k < n.len() implies 97 <= (#[trigger] n[k] as u32) <= 122 by {
            if k == 0 {} else if k == 1 {} else if k == 2 {}
        }
    }
    if i == 1 {
        reveal_strlit("c");
        assert forall|k: int| 0 <= k < n.len() implies 97 <= (#[trigger] n[k] as u32) <= 122 by {
            if k == 0 {}
        }
    }
    if i == 2 {
        reveal_strlit("python");
        assert forall|k: int| 0 <= k < n.len() implies 97 <= (#[trigger] n[k] as u32) <= 122 by {
            if k == 0 {} else if k == 1 {} else if k == 2 {} else if k == 3 {} else if k == 4 {} else if k == 5 {}
        }
    }
    if i == 3 {
        reveal_strlit("java");
        assert forall|k: int| 0 <= k < n.len() implies 97 <= (#[trigger] n[k] as u32) <= 122 by {
            if k == 0 {} else if k == 1 {} else if k == 2 {} else if k == 3 {}
        }
    }
    if i == 4 {
        reveal_strlit("rust");
        assert forall|k: int| 0 <= k < n.len() implies 97 <= (#[trigger] n[k] as u32) <= 122 by {
            if k == 0 {} else if k == 1 {} else if k == 2 {} else if k == 3 {}
        }
    }
    if i == 5 {
        reveal_strlit("go");
        assert forall|k: int| 0 <= k < n.len() implies 97 <= (#[trigger] n[k] as u32) <= 122 by {
            if k == 0 {} else if k == 1 {}
        }
    }
    if i == 6 {
        reveal_strlit("javascript");
        assert forall|k: int| 0 <= k < n.len() implies 97 <= (#[trigger] n[k] as u32) <= 122 by {
            if k == 0 {} else if k == 1 {} else if k == 2 {} else if k == 3 {} else if k == 4 {} else if k == 5 {} else if k == 6 {} else if k == 7 {} else if k == 8 {} else if k == 9 {}
        }
    }
    if i == 7 {
        reveal_strlit("kotlin");
        assert forall|k: int| 0 <= k < n.len() implies 97 <= (#[trigger] n[k] as u32) <= 122 by {
            if k == 0 {} else if k == 1 {} else if k == 2 {} else if k == 3 {} else if k == 4 {} else if k == 5 {}
        }
    }
}

/// No language answers to the empty string.
pub proof fn lemma_no_empty_name()
    ensures
        first_named(language_table(), Seq::<char>::empty()) is None,
{
    reveal_strlit("cpp");
    reveal_strlit("c++");
    reveal_strlit("cc");
    reveal_strlit("cxx");
    reveal_strlit("c");
    reveal_strlit("gcc");
    reveal_strlit("python");
    reveal_strlit("py");
    reveal_strlit("python3");
    reveal_strlit("java");
    reveal_strlit("rust");
    reveal_strlit("rs");
    reveal_strlit("go");
    reveal_strlit("golang");
    reveal_strlit("javascript");
    reveal_strlit("js");
    reveal_strlit("node");
    reveal_strlit("kotlin");
    reveal_strlit("kt");
    let t = language_table();
    let e = Seq::<char>::empty();
    assert(t.len() == 8);
    assert forall|j: int| 0 <= j < t.len() implies !has_name(#[trigger] t[j], e) by {
        assert(t[j].name.len() > 0);
        assert forall|k: int| 0 <= k < t[j].aliases.len() implies #[trigger] t[j].aliases[k] != e by {
            if k == 0 {
                assert(t[j].aliases[0].len() > 0);
            } else if k == 1 {
                assert(t[j].aliases[1].len() > 0);
            } else {
                assert(t[j].aliases[2].len() > 0);
            }
        }
    }
    lemma_first_named_none(t, Seq::<char>::empty());
}

/// Looking up a key that no language answers to finds nothing.
proof fn lemma_first_named_none(t: Seq<LanguageView>, key: Seq<char>)
    requires
        forall|j: int| 0 <= j < t.len() ==> !has_name(#[trigger] t[j], key),
    ensures
        first_named(t, key) is None,
    decreases t.len(),
{
    if t.len() > 0 {
        let u = t.drop_first();
        assert forall|j: int| 0 <= j < u.len() implies !has_name(#[trigger] u[j], key) by {
            assert(u[j] == t[j + 1]);
        }
        assert(!has_name(t[0], key));
        lemma_first_named_none(u, key);
    }
}

/// A name or alias typed in any mix of ASCII capitals finds its language:
/// "CPP", "Cpp" and "cpp" all find C++.
pub proof fn lemma_find_ignores_ascii_case(i: int, typed: Seq<char>)
    requires
        0 <= i < language_table().len(),
        all_ascii(typed),
        has_name(language_table()[i], ascii_lowercase(typed)),
    ensures
        first_named(language_table(), ascii_lowercase(typed)) == Some(language_table()[i]),
{
    lemma_lookup_finds_own_names(i, ascii_lowercase(typed));
}

/// A word is a placeholder of the command templates.
pub open spec fn mentions(words: Seq<Seq<char>>, w: Seq<char>) -> bool {
    exists|k: int| 0 <= k < words.len() && #[trigger] words[k] == w
}

/// What the table's commands do, whatever the language: an interpreted
/// language (no compile command) runs its source file through `{file}` and
/// never a built program; a compiled language compiles its source file
/// through `{file}` and runs what was built, not the source; a run command
/// uses `{bin}` only when the compile command builds it. The solution file
/// is named with the language's extension after a dot.
pub proof fn lemma_table_commands(i: int)
    requires
        0 <= i < language_table().len(),
    ensures
        ({
            let l = language_table()[i];
            &&& l.compile_cmd is None ==> mentions(l.run_cmd, "{file}"@) && !mentions(
                l.run_cmd,
                "{bin}"@,
            )
            &&& l.compile_cmd matches Some(c) ==> mentions(c, "{file}"@) && !mentions(
                l.run_cmd,
                "{file}"@,
            )
            &&& mentions(l.run_cmd, "{bin}"@) ==> (l.compile_cmd matches Some(c) && mentions(
                c,
                "{bin}"@,
            ))
            &&& l.extension.len() + 1 < l.solution_file.len()
            &&& l.solution_file.subrange(
                l.solution_file.len() - l.extension.len(),
                l.solution_file.len() as int,
            ) == l.extension
            &&& l.solution_file[l.solution_file.len() - l.extension.len() - 1] == '.'
        }),
{
    reveal_strlit("-O");
    reveal_strlit("-O2");
    reveal_strlit("-cp");
    reveal_strlit("-d");
    reveal_strlit("-include-runtime");
    reveal_strlit("-jar");
    reveal_strlit("-lm");
    reveal_strlit("-o");
    reveal_strlit("-std=c++17");
    reveal_strlit("-std=c11");
    reveal_strlit("Main");
    reveal_strlit("Main.java");
    reveal_strlit("c");
    reveal_strlit("cpp");
    reveal_strlit("g++");
    reveal_strlit("gcc");
    reveal_strlit("go");
    reveal_strlit("java");
    reveal_strlit("javac");
    reveal_strlit("js");
    reveal_strlit("kotlinc");
    reveal_strlit("kt");
    reveal_strlit("node");
    reveal_strlit("py");
    reveal_strlit("python3");
    reveal_strlit("rs");
    reveal_strlit("run");
    reveal_strlit("rustc");
    reveal_strlit("solution.c");
    reveal_strlit("solution.cpp");
    reveal_strlit("solution.go");
    reveal_strlit("solution.js");
    reveal_strlit("solution.kt");
    reveal_strlit("solution.py");
    reveal_strlit("solution.rs");
    reveal_strlit("{bin}");
    reveal_strlit("{dir}");
    reveal_strlit("{file}");
    let t = language_table();
    if i == 0 {
        assert(t[0].run_cmd.len() == 1);
        assert(t[0].run_cmd[0] == "{bin}"@);
        assert(t[0].compile_cmd.unwrap().len() == 6);
        assert(t[0].compile_cmd.unwrap()[0] == "g++"@);
        assert(t[0].compile_cmd.unwrap()[1] == "-O2"@);
        assert(t[0].compile_cmd.unwrap()[2] == "-std=c++17"@);
        assert(t[0].compile_cmd.unwrap()[3] == "{file}"@);
        assert(t[0].compile_cmd.unwrap()[4] == "-o"@);
        assert(t[0].compile_cmd.unwrap()[5] == "{bin}"@);
        assert("{file}"@.len() == 6);
        assert("{file}"@[0] == '{');
        assert("{file}"@[1] == 'f');
        assert("{file}"@[2] == 'i');
        assert("{file}"@[3] == 'l');
        assert("{file}"@[4] == 'e');
        assert("{file}"@[5] == '}');
        assert("-std=c++17"@.len() == 10);
        assert("-std=c++17"@[0] == '-');
        assert("-std=c++17"@[1] == 's');
        assert("-std=c++17"@[2] == 't');
        assert("-std=c++17"@[3] == 'd');
        assert("-std=c++17"@[4] == '=');
        assert("-std=c++17"@[5] == 'c');
        assert("-std=c++17"@[6] == '+');
        assert("-std=c++17"@[7] == '+');
        assert("-std=c++17"@[8] == '1');
        assert("-std=c++17"@[9] == '7');
        assert("cpp"@.len() == 3);
        assert("cpp"@[0] == 'c');
        assert("cpp"@[1] == 'p');
        assert("cpp"@[2] == 'p');
        assert("g++"@.len() == 3);
        assert("g++"@[0] == 'g');
        assert("g++"@[1] == '+');
        assert("g++"@[2] == '+');
        assert("solution.cpp"@.len() == 12);
        assert("solution.cpp"@[0] == 's');
        assert("solution.cpp"@[1] == 'o');
        assert("solution.cpp"@[2] == 'l');
        assert("solution.cpp"@[3] == 'u');
        assert("solution.cpp"@[4] == 't');
        assert("solution.cpp"@[5] == 'i');
        assert("solution.cpp"@[6] == 'o');
        assert("solution.cpp"@[7] == 'n');
        assert("solution.cpp"@[8] == '.');
        assert("solution.cpp"@[9] == 'c');
        assert("solution.cpp"@[10] == 'p');
        assert("solution.cpp"@[11] == 'p');
        assert("-o"@.len() == 2);
        assert("-o"@[0] == '-');
        assert("-o"@[1] == 'o');
        assert("{bin}"@.len() == 5);
        assert("{bin}"@[0] == '{');
        assert("{bin}"@[1] == 'b');
        assert("{bin}"@[2] == 'i');
        assert("{bin}"@[3] == 'n');
        assert("{bin}"@[4] == '}');
        assert("-O2"@.len() == 3);
        assert("-O2"@[0] == '-');
        assert("-O2"@[1] == 'O');
        assert("-O2"@[2] == '2');
    }
    if i == 1 {
        assert(t[1].run_cmd.len() == 1);
        assert(t[1].run_cmd[0] == "{bin}"@);
        assert(t[1].compile_cmd.unwrap().len() == 7);
        assert(t[1].compile_cmd.unwrap()[0] == "gcc"@);
        assert(t[1].compile_cmd.unwrap()[1] == "-O2"@);
        assert(t[1].compile_cmd.unwrap()[2] == "-std=c11"@);
        assert(t[1].compile_cmd.unwrap()[3] == "-lm"@);
        assert(t[1].compile_cmd.unwrap()[4] == "{file}"@);
        assert(t[1].compile_cmd.unwrap()[5] == "-o"@);
        assert(t[1].compile_cmd.unwrap()[6] == "{bin}"@);
        assert("c"@.len() == 1);
        assert("c"@[0] == 'c');
        assert("{file}"@.len() == 6);
        assert("{file}"@[0] == '{');
        assert("{file}"@[1] == 'f');
        assert("{file}"@[2] == 'i');
        assert("{file}"@[3] == 'l');
        assert("{file}"@[4] == 'e');
        assert("{file}"@[5] == '}');
        assert("-lm"@.len() == 3);
        assert("-lm"@[0] == '-');
        assert("-lm"@[1] == 'l');
        assert("-lm"@[2] == 'm');
        assert("-std=c11"@.len() == 8);
        assert("-std=c11"@[0] == '-');
        assert("-std=c11"@[1] == 's');
        assert("-std=c11"@[2] == 't');
        assert("-std=c11"@[3] == 'd');
        assert("-std=c11"@[4] == '=');
        assert("-std=c11"@[5] == 'c');
        assert("-std=c11"@[6] == '1');
        assert("-std=c11"@[7] == '1');
        assert("-o"@.len() == 2);
        assert("-o"@[0] == '-');
        assert("-o"@[1] == 'o');
        assert("gcc"@.len() == 3);
        assert("gcc"@[0] == 'g');
        assert("gcc"@[1] == 'c');
        assert("gcc"@[2] == 'c');
        assert("solution.c"@.len() == 10);
        assert("solution.c"@[0] == 's');
        assert("solution.c"@[1] == 'o');
        assert("solution.c"@[2] == 'l');
        assert("solution.c"@[3] == 'u');
        assert("solution.c"@[4] == 't');
        assert("solution.c"@[5] == 'i');
        assert("solution.c"@[6] == 'o');
        assert("solution.c"@[7] == 'n');
        assert("solution.c"@[8] == '.');
        assert("solution.c"@[9] == 'c');
        assert("{bin}"@.len() == 5);
        assert("{bin}"@[0] == '{');
        assert("{bin}"@[1] == 'b');
        assert("{bin}"@[2] == 'i');
        assert("{bin}"@[3] == 'n');
        assert("{bin}"@[4] == '}');
        assert("-O2"@.len() == 3);
        assert("-O2"@[0] == '-');
        assert("-O2"@[1] == 'O');
        assert("-O2"@[2] == '2');
    }
    if i == 2 {
        assert(t[2].run_cmd.len() == 2);
        assert(t[2].run_cmd[0] == "python3"@);
        assert(t[2].run_cmd[1] == "{file}"@);
        assert("python3"@.len() == 7);
        assert("python3"@[0] == 'p');
        assert("python3"@[1] == 'y');
        assert("python3"@[2] == 't');
        assert("python3"@[3] == 'h');
        assert("python3"@[4] == 'o');
        assert("python3"@[5] == 'n');
        assert("python3"@[6] == '3');
        assert("solution.py"@.len() == 11);
        assert("solution.py"@[0] == 's');
        assert("solution.py"@[1] == 'o');
        assert("solution.py"@[2] == 'l');
        assert("solution.py"@[3] == 'u');
        assert("solution.py"@[4] == 't');
        assert("solution.py"@[5] == 'i');
        assert("solution.py"@[6] == 'o');
        assert("solution.py"@[7] == 'n');
        assert("solution.py"@[8] == '.');
        assert("solution.py"@[9] == 'p');
        assert("solution.py"@[10] == 'y');
        assert("{file}"@.len() == 6);
        assert("{file}"@[0] == '{');
        assert("{file}"@[1] == 'f');
        assert("{file}"@[2] == 'i');
        assert("{file}"@[3] == 'l');
        assert("{file}"@[4] == 'e');
        assert("{file}"@[5] == '}');
        assert("py"@.len() == 2);
        assert("py"@[0] == 'p');
        assert("py"@[1] == 'y');
    }
    if i == 3 {
        assert(t[3].run_cmd.len() == 4);
        assert(t[3].run_cmd[0] == "java"@);
        assert(t[3].run_cmd[1] == "-cp"@);
        assert(t[3].run_cmd[2] == "{dir}"@);
        assert(t[3].run_cmd[3] == "Main"@);
        assert(t[3].compile_cmd.unwrap().len() == 2);
        assert(t[3].compile_cmd.unwrap()[0] == "javac"@);
        assert(t[3].compile_cmd.unwrap()[1] == "{file}"@);
        assert("-cp"@.len() == 3);
        assert("-cp"@[0] == '-');
        assert("-cp"@[1] == 'c');
        assert("-cp"@[2] == 'p');
        assert("{dir}"@.len() == 5);
        assert("{dir}"@[0] == '{');
        assert("{dir}"@[1] == 'd');
        assert("{dir}"@[2] == 'i');
        assert("{dir}"@[3] == 'r');
        assert("{dir}"@[4] == '}');
        assert("{file}"@.len() == 6);
        assert("{file}"@[0] == '{');
        assert("{file}"@[1] == 'f');
        assert("{file}"@[2] == 'i');
        assert("{file}"@[3] == 'l');
        assert("{file}"@[4] == 'e');
        assert("{file}"@[5] == '}');
        assert("java"@.len() == 4);
        assert("java"@[0] == 'j');
        assert("java"@[1] == 'a');
        assert("java"@[2] == 'v');
        assert("java"@[3] == 'a');
        assert("javac"@.len() == 5);
        assert("javac"@[0] == 'j');
        assert("javac"@[1] == 'a');
        assert("javac"@[2] == 'v');
        assert("javac"@[3] == 'a');
        assert("javac"@[4] == 'c');
        assert("Main"@.len() == 4);
        assert("Main"@[0] == 'M');
        assert("Main"@[1] == 'a');
        assert("Main"@[2] == 'i');
        assert("Main"@[3] == 'n');
        assert("Main.java"@.len() == 9);
        assert("Main.java"@[0] == 'M');
        assert("Main.java"@[1] == 'a');
        assert("Main.java"@[2] == 'i');
        assert("Main.java"@[3] == 'n');
        assert("Main.java"@[4] == '.');
        assert("Main.java"@[5] == 'j');
        assert("Main.java"@[6] == 'a');
        assert("Main.java"@[7] == 'v');
        assert("Main.java"@[8] == 'a');
    }
    if i == 4 {
        assert(t[4].run_cmd.len() == 1);
        assert(t[4].run_cmd[0] == "{bin}"@);
        assert(t[4].compile_cmd.unwrap().len() == 5);
        assert(t[4].compile_cmd.unwrap()[0] == "rustc"@);
        assert(t[4].compile_cmd.unwrap()[1] == "-O"@);
        assert(t[4].compile_cmd.unwrap()[2] == "{file}"@);
        assert(t[4].compile_cmd.unwrap()[3] == "-o"@);
        assert(t[4].compile_cmd.unwrap()[4] == "{bin}"@);
        assert("solution.rs"@.len() == 11);
        assert("solution.rs"@[0] == 's');
        assert("solution.rs"@[1] == 'o');
        assert("solution.rs"@[2] == 'l');
        assert("solution.rs"@[3] == 'u');
        assert("solution.rs"@[4] == 't');
        assert("solution.rs"@[5] == 'i');
        assert("solution.rs"@[6] == 'o');
        assert("solution.rs"@[7] == 'n');
        assert("solution.rs"@[8] == '.');
        assert("solution.rs"@[9] == 'r');
        assert("solution.rs"@[10] == 's');
        assert("rustc"@.len() == 5);
        assert("rustc"@[0] == 'r');
        assert("rustc"@[1] == 'u');
        assert("rustc"@[2] == 's');
        assert("rustc"@[3] == 't');
        assert("rustc"@[4] == 'c');
        assert("{file}"@.len() == 6);
        assert("{file}"@[0] == '{');
        assert("{file}"@[1] == 'f');
        assert("{file}"@[2] == 'i');
        assert("{file}"@[3] == 'l');
        assert("{file}"@[4] == 'e');
        assert("{file}"@[5] == '}');
        assert("rs"@.len() == 2);
        assert("rs"@[0] == 'r');
        assert("rs"@[1] == 's');
        assert("-o"@.len() == 2);
        assert("-o"@[0] == '-');
        assert("-o"@[1] == 'o');
        assert("{bin}"@.len() == 5);
        assert("{bin}"@[0] == '{');
        assert("{bin}"@[1] == 'b');
        assert("{bin}"@[2] == 'i');
        assert("{bin}"@[3] == 'n');
        assert("{bin}"@[4] == '}');
        assert("-O"@.len() == 2);
        assert("-O"@[0] == '-');
        assert("-O"@[1] == 'O');
    }
    if i == 5 {
        assert(t[5].run_cmd.len() == 3);
        assert(t[5].run_cmd[0] == "go"@);
        assert(t[5].run_cmd[1] == "run"@);
        assert(t[5].run_cmd[2] == "{file}"@);
        assert("run"@.len() == 3);
        assert("run"@[0] == 'r');
        assert("run"@[1] == 'u');
        assert("run"@[2] == 'n');
        assert("solution.go"@.len() == 11);
        assert("solution.go"@[0] == 's');
        assert("solution.go"@[1] == 'o');
        assert("solution.go"@[2] == 'l');
        assert("solution.go"@[3] == 'u');
        assert("solution.go"@[4] == 't');
        assert("solution.go"@[5] == 'i');
        assert("solution.go"@[6] == 'o');
        assert("solution.go"@[7] == 'n');
        assert("solution.go"@[8] == '.');
        assert("solution.go"@[9] == 'g');
        assert("solution.go"@[10] == 'o');
        assert("{file}"@.len() == 6);
        assert("{file}"@[0] == '{');
        assert("{file}"@[1] == 'f');
        assert("{file}"@[2] == 'i');
        assert("{file}"@[3] == 'l');
        assert("{file}"@[4] == 'e');
        assert("{file}"@[5] == '}');
        assert("go"@.len() == 2);
        assert("go"@[0] == 'g');
        assert("go"@[1] == 'o');
    }
    if i == 6 {
        assert(t[6].run_cmd.len() == 2);
        assert(t[6].run_cmd[0] == "node"@);
        assert(t[6].run_cmd[1] == "{file}"@);
        assert("node"@.len() == 4);
        assert("node"@[0] == 'n');
        assert("node"@[1] == 'o');
        assert("node"@[2] == 'd');
        assert("node"@[3] == 'e');
        assert("{file}"@.len() == 6);
        assert("{file}"@[0] == '{');
        assert("{file}"@[1] == 'f');
        assert("{file}"@[2] == 'i');
        assert("{file}"@[3] == 'l');
        assert("{file}"@[4] == 'e');
        assert("{file}"@[5] == '}');
        assert("js"@.len() == 2);
        assert("js"@[0] == 'j');
        assert("js"@[1] == 's');
        assert("solution.js"@.len() == 11);
        assert("solution.js"@[0] == 's');
        assert("solution.js"@[1] == 'o');
        assert("solution.js"@[2] == 'l');
        assert("solution.js"@[3] == 'u');
        assert("solution.js"@[4] == 't');
        assert("solution.js"@[5] == 'i');
        assert("solution.js"@[6] == 'o');
        assert("solution.js"@[7] == 'n');
        assert("solution.js"@[8] == '.');
        assert("solution.js"@[9] == 'j');
        assert("solution.js"@[10] == 's');
    }
    if i == 7 {
        assert(t[7].run_cmd.len() == 3);
        assert(t[7].run_cmd[0] == "java"@);
        assert(t[7].run_cmd[1] == "-jar"@);
        assert(t[7].run_cmd[2] == "{bin}"@);
        assert(t[7].compile_cmd.unwrap().len() == 5);
        assert(t[7].compile_cmd.unwrap()[0] == "kotlinc"@);
        assert(t[7].compile_cmd.unwrap()[1] == "{file}"@);
        assert(t[7].compile_cmd.unwrap()[2] == "-include-runtime"@);
        assert(t[7].compile_cmd.unwrap()[3] == "-d"@);
        assert(t[7].compile_cmd.unwrap()[4] == "{bin}"@);
        assert("{file}"@.len() == 6);
        assert("{file}"@[0] == '{');
        assert("{file}"@[1] == 'f');
        assert("{file}"@[2] == 'i');
        assert("{file}"@[3] == 'l');
        assert("{file}"@[4] == 'e');
        assert("{file}"@[5] == '}');
        assert("kt"@.len() == 2);
        assert("kt"@[0] == 'k');
        assert("kt"@[1] == 't');
        assert("-d"@.len() == 2);
        assert("-d"@[0] == '-');
        assert("-d"@[1] == 'd');
        assert("-include-runtime"@.len() == 16);
        assert("-include-runtime"@[0] == '-');
        assert("-include-runtime"@[1] == 'i');
        assert("-include-runtime"@[2] == 'n');
        assert("-include-runtime"@[3] == 'c');
        assert("-include-runtime"@[4] == 'l');
        assert("-include-runtime"@[5] == 'u');
        assert("-include-runtime"@[6] == 'd');
        assert("-include-runtime"@[7] == 'e');
        assert("-include-runtime"@[8] == '-');
        assert("-include-runtime"@[9] == 'r');
        assert("-include-runtime"@[10] == 'u');
        assert("-include-runtime"@[11] == 'n');
        assert("-include-runtime"@[12] == 't');
        assert("-include-runtime"@[13] == 'i');
        assert("-include-runtime"@[14] == 'm');
        assert("-include-runtime"@[15] == 'e');
        assert("java"@.len() == 4);
        assert("java"@[0] == 'j');
        assert("java"@[1] == 'a');
        assert("java"@[2] == 'v');
        assert("java"@[3] == 'a');
        assert("solution.kt"@.len() == 11);
        assert("solution.kt"@[0] == 's');
        assert("solution.kt"@[1] == 'o');
        assert("solution.kt"@[2] == 'l');
        assert("solution.kt"@[3] == 'u');
        assert("solution.kt"@[4] == 't');
        assert("solution.kt"@[5] == 'i');
        assert("solution.kt"@[6] == 'o');
        assert("solution.kt"@[7] == 'n');
        assert("solution.kt"@[8] == '.');
        assert("solution.kt"@[9] == 'k');
        assert("solution.kt"@[10] == 't');
        assert("-jar"@.len() == 4);
        assert("-jar"@[0] == '-');
        assert("-jar"@[1] == 'j');
        assert("-jar"@[2] == 'a');
        assert("-jar"@[3] == 'r');
        assert("{bin}"@.len() == 5);
        assert("{bin}"@[0] == '{');
        assert("{bin}"@[1] == 'b');
        assert("{bin}"@[2] == 'i');
        assert("{bin}"@[3] == 'n');
        assert("{bin}"@[4] == '}');
        assert("kotlinc"@.len() == 7);
        assert("kotlinc"@[0] == 'k');
        assert("kotlinc"@[1] == 'o');
        assert("kotlinc"@[2] == 't');
        assert("kotlinc"@[3] == 'l');
        assert("kotlinc"@[4] == 'i');
        assert("kotlinc"@[5] == 'n');
        assert("kotlinc"@[6] == 'c');
    }
}

} // verus!
