//! What the engine makes of its saved settings. Reading and writing the
//! settings files is left to the caller; these functions take what was read
//! (`None` when there was no file) and decide.
use vstd::prelude::*;

use crate::language::{
    default_language, find_language, first_named, language_table, lemma_lookup_finds_own_names,
    lemma_names_are_lower_words, LanguageConfig, LanguageView,
};
use crate::text::{
    all_ascii, ascii_lowercase, lemma_lower_word, lemma_trimmed_empty, lowercase, trim, trimmed,
};
use vstd::string::StringExecFns;

verus! {

/// The problems folder used when none has been saved.
pub open spec fn default_problems_root() -> Seq<char> {
    "./problems"@
}

/// The problems root folder: the saved path without surrounding white space,
/// or "./problems" when none has been saved.
pub fn load_problems_root(saved: Option<&str>) -> (r: String)
    ensures
        match saved {
            Some(content) => r@ == trimmed(content@),
            None => r@ == default_problems_root(),
        },
{
    match saved {
        Some(content) => trim(content),
        None => String::from_str("./problems"),
    }
}

/// The path of the last received problem: the saved path without
/// surrounding white space, or `None` when none has been saved. The caller
/// still checks that the folder exists.
pub fn load_last_problem(saved: Option<&str>) -> (r: Option<String>)
    ensures
        match saved {
            Some(content) => r is Some && r->0@ == trimmed(content@),
            None => r is None,
        },
{
    match saved {
        Some(content) => Some(trim(content)),
        None => None,
    }
}

/// The text of the saved language setting; nothing saved reads as empty.
pub open spec fn saved_text(saved: Option<&str>) -> Seq<char> {
    match saved {
        Some(content) => content@,
        None => Seq::empty(),
    }
}

/// The language chosen by a saved setting: the language that answers to it,
/// trimmed and lowercased, or C++ when there is none.
pub open spec fn chosen_language(saved: Seq<char>) -> LanguageView {
    match first_named(language_table(), lowercase(trimmed(saved))) {
        Some(l) => l,
        None => language_table()[0],
    }
}

/// The language that an all-ASCII saved setting chooses: the language that
/// answers to its ASCII lowercase form, or C++ when there is none.
pub open spec fn chosen_language_ascii(text: Seq<char>) -> LanguageView {
    match first_named(language_table(), ascii_lowercase(text)) {
        Some(l) => l,
        None => language_table()[0],
    }
}

/// The user's preferred language: the saved setting looked up
/// case-insensitively; when nothing is saved, or the saved value is not
/// recognised, C++.
pub fn load_default_language(saved: Option<&str>) -> (r: LanguageConfig)
    ensures
        r@ == chosen_language(saved_text(saved)),
        all_ascii(trimmed(saved_text(saved))) ==> r@ == chosen_language_ascii(
            trimmed(saved_text(saved)),
        ),
        saved is None ==> r@ == language_table()[0],
{
    let content = match saved {
        Some(content) => content,
        None => "",
    };
    proof {
        reveal_strlit("");
        assert(""@ =~= Seq::<char>::empty());
        assert(content@ == saved_text(saved));
    }
    let name = trim(content);
    proof {
        if saved is None {
            lemma_trimmed_empty();
            assert(name@.len() == 0);
        }
    }
    match find_language(name.as_str()) {
        Some(lang) => lang,
        None => default_language(),
    }
}

/// Saving a language's name and loading it back gives that language: the
/// name has no white space to trim, is ASCII, and is its own lowercase form.
pub proof fn lemma_saved_language_round_trip(i: int)
    requires
        0 <= i < language_table().len(),
    ensures
        trimmed(language_table()[i].name) == language_table()[i].name,
        all_ascii(language_table()[i].name),
        chosen_language_ascii(language_table()[i].name) == language_table()[i],
{
    let name = language_table()[i].name;
    lemma_names_are_lower_words(i);
    lemma_lower_word(name);
    lemma_lookup_finds_own_names(i, name);
}

/// Where the editor's configuration lives.
pub enum ConfigDir {
    /// `$XDG_CONFIG_HOME/zed`
    XdgZed(String),
    /// `$HOME/.config/zed`
    HomeZed(String),
    /// The current folder.
    Current,
}

/// The editor's configuration folder: under `XDG_CONFIG_HOME` when it is set,
/// else under `HOME`, else the current folder.
pub fn zed_config_dir(xdg_config_home: Option<String>, home: Option<String>) -> (r: ConfigDir)
    ensures
        match xdg_config_home {
            Some(x) => r matches ConfigDir::XdgZed(d) && d@ == x@,
            None => match home {
                Some(h) => r matches ConfigDir::HomeZed(d) && d@ == h@,
                None => r is Current,
            },
        },
{
    match xdg_config_home {
        Some(x) => ConfigDir::XdgZed(x),
        None => match home {
            Some(h) => ConfigDir::HomeZed(h),
            None => ConfigDir::Current,
        },
    }
}

} // verus!
