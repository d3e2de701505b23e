//! What a file is: its image MIME type, its language by extension or name,
//! its line count, and a data URL of its bytes.
use vstd::prelude::*;
use base64::Engine;
use crate::paths::upper_letter;
use crate::text::{
    free_of, lemma_last_char_at, lemma_split_last_piece, lemma_split_single,
    chars_of, last_occ, push_all, rfind_in, split_chars, split_on, string_of, sub_vec,
    vec_eq_str, views,
};

verus! {

/// What `str::to_lowercase` gives for `s`: each character mapped by
/// Unicode's lower-case mapping.
pub uninterp spec fn lowercase(s: Seq<char>) -> Seq<char>;

/// Every character of `s` is ASCII.
pub open spec fn all_ascii(s: Seq<char>) -> bool {
    forall|i: int| 0 <= i < s.len() ==> (#[trigger] s[i] as u32) < 128
}

/// `c` in lower case when it is an ASCII upper-case letter.
pub open spec fn lower_letter(c: char) -> char {
    if 65 <= (c as u32) && (c as u32) <= 90 {
        (((c as u32) + 32) as u8) as char
    } else {
        c
    }
}

/// `s` with its ASCII letters in lower case (`str::to_ascii_lowercase`).
pub open spec fn ascii_lower(s: Seq<char>) -> Seq<char> {
    s.map_values(|c: char| lower_letter(c))
}

/// `s` with its ASCII letters in upper case (`str::to_ascii_uppercase`).
pub open spec fn ascii_upper(s: Seq<char>) -> Seq<char> {
    s.map_values(|c: char| upper_letter(c))
}

proof fn lemma_same_code(a: char, b: char)
    requires
        (a as u32) == (b as u32),
    ensures
        a == b,
{
}

/// What `to_lower` states of ASCII text, as `ascii_lower`.
proof fn lemma_lower_is_ascii_lower(s: Seq<char>, r: Seq<char>)
    requires
        all_ascii(s) ==> r.len() == s.len() && forall|i: int|
            0 <= i < s.len() ==> (#[trigger] r[i] as u32) == if 65 <= (s[i] as u32) <= 90 {
                (s[i] as u32) + 32
            } else {
                s[i] as int
            },
    ensures
        all_ascii(s) ==> r == ascii_lower(s),
{
    if all_ascii(s) {
        assert forall|i: int| 0 <= i < s.len() implies r[i] == ascii_lower(s)[i] by {
            let c = s[i];
            assert((c as u32) < 128);
            assert(ascii_lower(s)[i] == lower_letter(c));
            if 65 <= (c as u32) && (c as u32) <= 90 {
                assert((lower_letter(c) as u32) == (c as u32) + 32);
            } else {
                assert(lower_letter(c) == c);
            }
            assert((r[i] as u32) == (lower_letter(c) as u32));
            lemma_same_code(r[i], lower_letter(c));
        }
        assert(r =~= ascii_lower(s));
    }
}

/// Language detection ignores the case of ASCII letters: an ASCII path,
/// its upper-case form and its lower-case form are all ASCII and give the
/// same language.
pub proof fn law_language_ignores_ascii_case(p: Seq<char>)
    requires
        all_ascii(p),
    ensures
        all_ascii(ascii_upper(p)),
        all_ascii(ascii_lower(p)),
        language_of_lower(ascii_lower(ascii_upper(p))) == language_of_lower(ascii_lower(p)),
        language_of_lower(ascii_lower(ascii_lower(p))) == language_of_lower(ascii_lower(p)),
{
    assert forall|i: int| 0 <= i < p.len() implies lower_letter(upper_letter(p[i])) == lower_letter(
        p[i],
    ) && lower_letter(lower_letter(p[i])) == lower_letter(p[i]) && (upper_letter(p[i]) as u32) < 128
        && (lower_letter(p[i]) as u32) < 128 by {
        let c = p[i];
        assert((c as u32) < 128);
    }
    assert(ascii_lower(ascii_upper(p)) =~= ascii_lower(p));
    assert(ascii_lower(ascii_lower(p)) =~= ascii_lower(p));
}

/// `str::to_lowercase`: the Unicode lower-case form of `s`. Its contract
/// names the result and states the ASCII part of Unicode's mapping: on
/// ASCII text each of `A`-`Z` becomes its lower-case letter and every
/// other character stays; nothing more is claimed of other characters.
#[verifier::external_body]
pub(crate) fn to_lower(s: &str) -> (r: String)
    ensures
        r@ == lowercase(s@),
        all_ascii(s@) ==> r@.len() == s@.len() && forall|i: int|
            0 <= i < s@.len() ==> (#[trigger] r@[i] as u32) == if 65 <= (s@[i] as u32) <= 90 {
                (s@[i] as u32) + 32
            } else {
                s@[i] as int
            },
{
    s.to_lowercase()
}

/// The language and linguist colour of a lower-case extension.
pub open spec fn lang_of_ext(ext: Seq<char>) -> Option<(Seq<char>, Seq<char>)> {
    if ext == "rs"@ {
        Some(("Rust"@, "#dea584"@))
    } else if ext == "ts"@ || ext == "tsx"@ || ext == "mts"@ || ext == "cts"@ {
        Some(("TypeScript"@, "#3178c6"@))
    } else if ext == "js"@ || ext == "jsx"@ || ext == "mjs"@ || ext == "cjs"@ {
        Some(("JavaScript"@, "#f1e05a"@))
    } else if ext == "vue"@ {
        Some(("Vue"@, "#41b883"@))
    } else if ext == "css"@ {
        Some(("CSS"@, "#563d7c"@))
    } else if ext == "scss"@ || ext == "sass"@ {
        Some(("SCSS"@, "#c6538c"@))
    } else if ext == "less"@ {
        Some(("Less"@, "#1d365d"@))
    } else if ext == "html"@ || ext == "htm"@ {
        Some(("HTML"@, "#e34c26"@))
    } else if ext == "json"@ || ext == "jsonc"@ {
        Some(("JSON"@, "#292929"@))
    } else if ext == "md"@ || ext == "markdown"@ {
        Some(("Markdown"@, "#083fa1"@))
    } else if ext == "py"@ {
        Some(("Python"@, "#3572a5"@))
    } else if ext == "go"@ {
        Some(("Go"@, "#00add8"@))
    } else if ext == "java"@ {
        Some(("Java"@, "#b07219"@))
    } else if ext == "kt"@ || ext == "kts"@ {
        Some(("Kotlin"@, "#a97bff"@))
    } else if ext == "c"@ || ext == "h"@ {
        Some(("C"@, "#555555"@))
    } else if ext == "cpp"@ || ext == "cc"@ || ext == "cxx"@ || ext == "hpp"@ || ext == "hh"@ {
        Some(("C++"@, "#f34b7d"@))
    } else if ext == "cs"@ {
        Some(("C#"@, "#178600"@))
    } else if ext == "sh"@ || ext == "bash"@ || ext == "zsh"@ {
        Some(("Shell"@, "#89e051"@))
    } else if ext == "ps1"@ || ext == "psm1"@ {
        Some(("PowerShell"@, "#012456"@))
    } else if ext == "yml"@ || ext == "yaml"@ {
        Some(("YAML"@, "#cb171e"@))
    } else if ext == "toml"@ {
        Some(("TOML"@, "#9c4221"@))
    } else if ext == "sql"@ {
        Some(("SQL"@, "#e38c00"@))
    } else if ext == "php"@ {
        Some(("PHP"@, "#4f5d95"@))
    } else if ext == "rb"@ {
        Some(("Ruby"@, "#701516"@))
    } else if ext == "swift"@ {
        Some(("Swift"@, "#f05138"@))
    } else if ext == "dart"@ {
        Some(("Dart"@, "#00b4ab"@))
    } else if ext == "xml"@ {
        Some(("XML"@, "#0060ac"@))
    } else if ext == "lua"@ {
        Some(("Lua"@, "#000080"@))
    } else {
        None
    }
}

/// The extension table, entry by entry, as the original's language
/// detection lists it; an extension outside it (such as `txt`) has no
/// language.
#[verifier::rlimit(100)]
pub proof fn law_extension_table()
    ensures
        lang_of_ext("rs"@) == Some(("Rust"@, "#dea584"@)),
        lang_of_ext("ts"@) == Some(("TypeScript"@, "#3178c6"@)),
        lang_of_ext("tsx"@) == Some(("TypeScript"@, "#3178c6"@)),
        lang_of_ext("mts"@) == Some(("TypeScript"@, "#3178c6"@)),
        lang_of_ext("cts"@) == Some(("TypeScript"@, "#3178c6"@)),
        lang_of_ext("js"@) == Some(("JavaScript"@, "#f1e05a"@)),
        lang_of_ext("jsx"@) == Some(("JavaScript"@, "#f1e05a"@)),
        lang_of_ext("mjs"@) == Some(("JavaScript"@, "#f1e05a"@)),
        lang_of_ext("cjs"@) == Some(("JavaScript"@, "#f1e05a"@)),
        lang_of_ext("vue"@) == Some(("Vue"@, "#41b883"@)),
        lang_of_ext("css"@) == Some(("CSS"@, "#563d7c"@)),
        lang_of_ext("scss"@) == Some(("SCSS"@, "#c6538c"@)),
        lang_of_ext("sass"@) == Some(("SCSS"@, "#c6538c"@)),
        lang_of_ext("less"@) == Some(("Less"@, "#1d365d"@)),
        lang_of_ext("html"@) == Some(("HTML"@, "#e34c26"@)),
        lang_of_ext("htm"@) == Some(("HTML"@, "#e34c26"@)),
        lang_of_ext("json"@) == Some(("JSON"@, "#292929"@)),
        lang_of_ext("jsonc"@) == Some(("JSON"@, "#292929"@)),
        lang_of_ext("md"@) == Some(("Markdown"@, "#083fa1"@)),
        lang_of_ext("markdown"@) == Some(("Markdown"@, "#083fa1"@)),
        lang_of_ext("py"@) == Some(("Python"@, "#3572a5"@)),
        lang_of_ext("go"@) == Some(("Go"@, "#00add8"@)),
        lang_of_ext("java"@) == Some(("Java"@, "#b07219"@)),
        lang_of_ext("kt"@) == Some(("Kotlin"@, "#a97bff"@)),
        lang_of_ext("kts"@) == Some(("Kotlin"@, "#a97bff"@)),
        lang_of_ext("c"@) == Some(("C"@, "#555555"@)),
        lang_of_ext("h"@) == Some(("C"@, "#555555"@)),
        lang_of_ext("cpp"@) == Some(("C++"@, "#f34b7d"@)),
        lang_of_ext("cc"@) == Some(("C++"@, "#f34b7d"@)),
        lang_of_ext("cxx"@) == Some(("C++"@, "#f34b7d"@)),
        lang_of_ext("hpp"@) == Some(("C++"@, "#f34b7d"@)),
        lang_of_ext("hh"@) == Some(("C++"@, "#f34b7d"@)),
        lang_of_ext("cs"@) == Some(("C#"@, "#178600"@)),
        lang_of_ext("sh"@) == Some(("Shell"@, "#89e051"@)),
        lang_of_ext("bash"@) == Some(("Shell"@, "#89e051"@)),
        lang_of_ext("zsh"@) == Some(("Shell"@, "#89e051"@)),
        lang_of_ext("ps1"@) == Some(("PowerShell"@, "#012456"@)),
        lang_of_ext("psm1"@) == Some(("PowerShell"@, "#012456"@)),
        lang_of_ext("yml"@) == Some(("YAML"@, "#cb171e"@)),
        lang_of_ext("yaml"@) == Some(("YAML"@, "#cb171e"@)),
        lang_of_ext("toml"@) == Some(("TOML"@, "#9c4221"@)),
        lang_of_ext("sql"@) == Some(("SQL"@, "#e38c00"@)),
        lang_of_ext("php"@) == Some(("PHP"@, "#4f5d95"@)),
        lang_of_ext("rb"@) == Some(("Ruby"@, "#701516"@)),
        lang_of_ext("swift"@) == Some(("Swift"@, "#f05138"@)),
        lang_of_ext("dart"@) == Some(("Dart"@, "#00b4ab"@)),
        lang_of_ext("xml"@) == Some(("XML"@, "#0060ac"@)),
        lang_of_ext("lua"@) == Some(("Lua"@, "#000080"@)),
        lang_of_ext("txt"@) is None,
{
    reveal_strlit("rs");
    assert("rs"@.len() == 2 && "rs"@[0] == 'r' && "rs"@[1] == 's');
    reveal_strlit("ts");
    assert("ts"@.len() == 2 && "ts"@[0] == 't' && "ts"@[1] == 's');
    reveal_strlit("tsx");
    assert("tsx"@.len() == 3 && "tsx"@[0] == 't' && "tsx"@[1] == 's' && "tsx"@[2] == 'x');
    reveal_strlit("mts");
    assert("mts"@.len() == 3 && "mts"@[0] == 'm' && "mts"@[1] == 't' && "mts"@[2] == 's');
    reveal_strlit("cts");
    assert("cts"@.len() == 3 && "cts"@[0] == 'c' && "cts"@[1] == 't' && "cts"@[2] == 's');
    reveal_strlit("js");
    assert("js"@.len() == 2 && "js"@[0] == 'j' && "js"@[1] == 's');
    reveal_strlit("jsx");
    assert("jsx"@.len() == 3 && "jsx"@[0] == 'j' && "jsx"@[1] == 's' && "jsx"@[2] == 'x');
    reveal_strlit("mjs");
    assert("mjs"@.len() == 3 && "mjs"@[0] == 'm' && "mjs"@[1] == 'j' && "mjs"@[2] == 's');
    reveal_strlit("cjs");
    assert("cjs"@.len() == 3 && "cjs"@[0] == 'c' && "cjs"@[1] == 'j' && "cjs"@[2] == 's');
    reveal_strlit("vue");
    assert("vue"@.len() == 3 && "vue"@[0] == 'v' && "vue"@[1] == 'u' && "vue"@[2] == 'e');
    reveal_strlit("css");
    assert("css"@.len() == 3 && "css"@[0] == 'c' && "css"@[1] == 's' && "css"@[2] == 's');
    reveal_strlit("scss");
    assert("scss"@.len() == 4 && "scss"@[0] == 's' && "scss"@[1] == 'c' && "scss"@[2] == 's' && "scss"@[3] == 's');
    reveal_strlit("sass");
    assert("sass"@.len() == 4 && "sass"@[0] == 's' && "sass"@[1] == 'a' && "sass"@[2] == 's' && "sass"@[3] == 's');
    reveal_strlit("less");
    assert("less"@.len() == 4 && "less"@[0] == 'l' && "less"@[1] == 'e' && "less"@[2] == 's' && "less"@[3] == 's');
    reveal_strlit("html");
    assert("html"@.len() == 4 && "html"@[0] == 'h' && "html"@[1] == 't' && "html"@[2] == 'm' && "html"@[3] == 'l');
    reveal_strlit("htm");
    assert("htm"@.len() == 3 && "htm"@[0] == 'h' && "htm"@[1] == 't' && "htm"@[2] == 'm');
    reveal_strlit("json");
    assert("json"@.len() == 4 && "json"@[0] == 'j' && "json"@[1] == 's' && "json"@[2] == 'o' && "json"@[3] == 'n');
    reveal_strlit("jsonc");
    assert("jsonc"@.len() == 5 && "jsonc"@[0] == 'j' && "jsonc"@[1] == 's' && "jsonc"@[2] == 'o' && "jsonc"@[3] == 'n' && "jsonc"@[4] == 'c');
    reveal_strlit("md");
    assert("md"@.len() == 2 && "md"@[0] == 'm' && "md"@[1] == 'd');
    reveal_strlit("markdown");
    assert("markdown"@.len() == 8 && "markdown"@[0] == 'm' && "markdown"@[1] == 'a' && "markdown"@[2] == 'r' && "markdown"@[3] == 'k' && "markdown"@[4] == 'd' && "markdown"@[5] == 'o' && "markdown"@[6] == 'w' && "markdown"@[7] == 'n');
    reveal_strlit("py");
    assert("py"@.len() == 2 && "py"@[0] == 'p' && "py"@[1] == 'y');
    reveal_strlit("go");
    assert("go"@.len() == 2 && "go"@[0] == 'g' && "go"@[1] == 'o');
    reveal_strlit("java");
    assert("java"@.len() == 4 && "java"@[0] == 'j' && "java"@[1] == 'a' && "java"@[2] == 'v' && "java"@[3] == 'a');
    reveal_strlit("kt");
    assert("kt"@.len() == 2 && "kt"@[0] == 'k' && "kt"@[1] == 't');
    reveal_strlit("kts");
    assert("kts"@.len() == 3 && "kts"@[0] == 'k' && "kts"@[1] == 't' && "kts"@[2] == 's');
    reveal_strlit("c");
    assert("c"@.len() == 1 && "c"@[0] == 'c');
    reveal_strlit("h");
    assert("h"@.len() == 1 && "h"@[0] == 'h');
    reveal_strlit("cpp");
    assert("cpp"@.len() == 3 && "cpp"@[0] == 'c' && "cpp"@[1] == 'p' && "cpp"@[2] == 'p');
    reveal_strlit("cc");
    assert("cc"@.len() == 2 && "cc"@[0] == 'c' && "cc"@[1] == 'c');
    reveal_strlit("cxx");
    assert("cxx"@.len() == 3 && "cxx"@[0] == 'c' && "cxx"@[1] == 'x' && "cxx"@[2] == 'x');
    reveal_strlit("hpp");
    assert("hpp"@.len() == 3 && "hpp"@[0] == 'h' && "hpp"@[1] == 'p' && "hpp"@[2] == 'p');
    reveal_strlit("hh");
    assert("hh"@.len() == 2 && "hh"@[0] == 'h' && "hh"@[1] == 'h');
    reveal_strlit("cs");
    assert("cs"@.len() == 2 && "cs"@[0] == 'c' && "cs"@[1] == 's');
    reveal_strlit("sh");
    assert("sh"@.len() == 2 && "sh"@[0] == 's' && "sh"@[1] == 'h');
    reveal_strlit("bash");
    assert("bash"@.len() == 4 && "bash"@[0] == 'b' && "bash"@[1] == 'a' && "bash"@[2] == 's' && "bash"@[3] == 'h');
    reveal_strlit("zsh");
    assert("zsh"@.len() == 3 && "zsh"@[0] == 'z' && "zsh"@[1] == 's' && "zsh"@[2] == 'h');
    reveal_strlit("ps1");
    assert("ps1"@.len() == 3 && "ps1"@[0] == 'p' && "ps1"@[1] == 's' && "ps1"@[2] == '1');
    reveal_strlit("psm1");
    assert("psm1"@.len() == 4 && "psm1"@[0] == 'p' && "psm1"@[1] == 's' && "psm1"@[2] == 'm' && "psm1"@[3] == '1');
    reveal_strlit("yml");
    assert("yml"@.len() == 3 && "yml"@[0] == 'y' && "yml"@[1] == 'm' && "yml"@[2] == 'l');
    reveal_strlit("yaml");
    assert("yaml"@.len() == 4 && "yaml"@[0] == 'y' && "yaml"@[1] == 'a' && "yaml"@[2] == 'm' && "yaml"@[3] == 'l');
    reveal_strlit("toml");
    assert("toml"@.len() == 4 && "toml"@[0] == 't' && "toml"@[1] == 'o' && "toml"@[2] == 'm' && "toml"@[3] == 'l');
    reveal_strlit("sql");
    assert("sql"@.len() == 3 && "sql"@[0] == 's' && "sql"@[1] == 'q' && "sql"@[2] == 'l');
    reveal_strlit("php");
    assert("php"@.len() == 3 && "php"@[0] == 'p' && "php"@[1] == 'h' && "php"@[2] == 'p');
    reveal_strlit("rb");
    assert("rb"@.len() == 2 && "rb"@[0] == 'r' && "rb"@[1] == 'b');
    reveal_strlit("swift");
    assert("swift"@.len() == 5 && "swift"@[0] == 's' && "swift"@[1] == 'w' && "swift"@[2] == 'i' && "swift"@[3] == 'f' && "swift"@[4] == 't');
    reveal_strlit("dart");
    assert("dart"@.len() == 4 && "dart"@[0] == 'd' && "dart"@[1] == 'a' && "dart"@[2] == 'r' && "dart"@[3] == 't');
    reveal_strlit("xml");
    assert("xml"@.len() == 3 && "xml"@[0] == 'x' && "xml"@[1] == 'm' && "xml"@[2] == 'l');
    reveal_strlit("lua");
    assert("lua"@.len() == 3 && "lua"@[0] == 'l' && "lua"@[1] == 'u' && "lua"@[2] == 'a');
    reveal_strlit("txt");
    assert("txt"@.len() == 3 && "txt"@[0] == 't' && "txt"@[1] == 'x' && "txt"@[2] == 't');
}

fn lang_of_ext_exec(ext: &Vec<char>) -> (r: Option<(&'static str, &'static str)>)
    ensures
        match r {
            Some((n, c)) => lang_of_ext(ext@) == Some((n@, c@)),
            None => lang_of_ext(ext@) is None,
        },
{
    if vec_eq_str(ext, "rs") {
        Some(("Rust", "#dea584"))
    } else if vec_eq_str(ext, "ts") || vec_eq_str(ext, "tsx") || vec_eq_str(ext, "mts") || vec_eq_str(ext, "cts") {
        Some(("TypeScript", "#3178c6"))
    } else if vec_eq_str(ext, "js") || vec_eq_str(ext, "jsx") || vec_eq_str(ext, "mjs") || vec_eq_str(ext, "cjs") {
        Some(("JavaScript", "#f1e05a"))
    } else if vec_eq_str(ext, "vue") {
        Some(("Vue", "#41b883"))
    } else if vec_eq_str(ext, "css") {
        Some(("CSS", "#563d7c"))
    } else if vec_eq_str(ext, "scss") || vec_eq_str(ext, "sass") {
        Some(("SCSS", "#c6538c"))
    } else if vec_eq_str(ext, "less") {
        Some(("Less", "#1d365d"))
    } else if vec_eq_str(ext, "html") || vec_eq_str(ext, "htm") {
        Some(("HTML", "#e34c26"))
    } else if vec_eq_str(ext, "json") || vec_eq_str(ext, "jsonc") {
        Some(("JSON", "#292929"))
    } else if vec_eq_str(ext, "md") || vec_eq_str(ext, "markdown") {
        Some(("Markdown", "#083fa1"))
    } else if vec_eq_str(ext, "py") {
        Some(("Python", "#3572a5"))
    } else if vec_eq_str(ext, "go") {
        Some(("Go", "#00add8"))
    } else if vec_eq_str(ext, "java") {
        Some(("Java", "#b07219"))
    } else if vec_eq_str(ext, "kt") || vec_eq_str(ext, "kts") {
        Some(("Kotlin", "#a97bff"))
    } else if vec_eq_str(ext, "c") || vec_eq_str(ext, "h") {
        Some(("C", "#555555"))
    } else if vec_eq_str(ext, "cpp") || vec_eq_str(ext, "cc") || vec_eq_str(ext, "cxx") || vec_eq_str(ext, "hpp") || vec_eq_str(ext, "hh") {
        Some(("C++", "#f34b7d"))
    } else if vec_eq_str(ext, "cs") {
        Some(("C#", "#178600"))
    } else if vec_eq_str(ext, "sh") || vec_eq_str(ext, "bash") || vec_eq_str(ext, "zsh") {
        Some(("Shell", "#89e051"))
    } else if vec_eq_str(ext, "ps1") || vec_eq_str(ext, "psm1") {
        Some(("PowerShell", "#012456"))
    } else if vec_eq_str(ext, "yml") || vec_eq_str(ext, "yaml") {
        Some(("YAML", "#cb171e"))
    } else if vec_eq_str(ext, "toml") {
        Some(("TOML", "#9c4221"))
    } else if vec_eq_str(ext, "sql") {
        Some(("SQL", "#e38c00"))
    } else if vec_eq_str(ext, "php") {
        Some(("PHP", "#4f5d95"))
    } else if vec_eq_str(ext, "rb") {
        Some(("Ruby", "#701516"))
    } else if vec_eq_str(ext, "swift") {
        Some(("Swift", "#f05138"))
    } else if vec_eq_str(ext, "dart") {
        Some(("Dart", "#00b4ab"))
    } else if vec_eq_str(ext, "xml") {
        Some(("XML", "#0060ac"))
    } else if vec_eq_str(ext, "lua") {
        Some(("Lua", "#000080"))
    } else {
        None
    }
}

/// The MIME type of a lower-case image extension.
pub open spec fn mime_of_ext(ext: Seq<char>) -> Option<Seq<char>> {
    if ext == "png"@ {
        Some("image/png"@)
    } else if ext == "jpg"@ || ext == "jpeg"@ {
        Some("image/jpeg"@)
    } else if ext == "gif"@ {
        Some("image/gif"@)
    } else if ext == "webp"@ {
        Some("image/webp"@)
    } else if ext == "bmp"@ {
        Some("image/bmp"@)
    } else if ext == "ico"@ {
        Some("image/x-icon"@)
    } else if ext == "avif"@ {
        Some("image/avif"@)
    } else {
        None
    }
}

fn mime_of_ext_exec(ext: &Vec<char>) -> (r: Option<&'static str>)
    ensures
        match r {
            Some(m) => mime_of_ext(ext@) == Some(m@),
            None => mime_of_ext(ext@) is None,
        },
{
    if vec_eq_str(ext, "png") {
        Some("image/png")
    } else if vec_eq_str(ext, "jpg") || vec_eq_str(ext, "jpeg") {
        Some("image/jpeg")
    } else if vec_eq_str(ext, "gif") {
        Some("image/gif")
    } else if vec_eq_str(ext, "webp") {
        Some("image/webp")
    } else if vec_eq_str(ext, "bmp") {
        Some("image/bmp")
    } else if vec_eq_str(ext, "ico") {
        Some("image/x-icon")
    } else if vec_eq_str(ext, "avif") {
        Some("image/avif")
    } else {
        None
    }
}

/// The MIME type of an image path by its extension (the text after the
/// last `.`, or the whole path without one), compared in lower case.
pub open spec fn image_mime_spec(path: Seq<char>) -> Option<Seq<char>> {
    mime_of_ext(lowercase(image_ext(path)))
}

/// The text after the last `.` of `path`, or the whole path without one.
pub open spec fn image_ext(path: Seq<char>) -> Seq<char> {
    let k = last_occ(path, seq!['.']);
    if k >= 0 {
        path.skip(k + 1)
    } else {
        path
    }
}

/// The image MIME type of `path` by its extension: png, jpg/jpeg, gif,
/// webp, bmp, ico or avif, in any case; none for anything else.
pub fn image_mime(path: &str) -> (r: Option<&'static str>)
    ensures
        match r {
            Some(m) => image_mime_spec(path@) == Some(m@),
            None => image_mime_spec(path@) is None,
        },
        all_ascii(path@) ==> match r {
            Some(m) => mime_of_ext(ascii_lower(image_ext(path@))) == Some(m@),
            None => mime_of_ext(ascii_lower(image_ext(path@))) is None,
        },
{
    let v = chars_of(path);
    let dot = vec!['.'];
    assert(dot@ =~= seq!['.']);
    assert(v@.subrange(0, v@.len() as int) =~= v@);
    let start = match rfind_in(&v, 0, v.len(), &dot) {
        Some(k) => k + 1,
        None => 0,
    };
    let ext = sub_vec(&v, start, v.len());
    assert(start == 0 ==> ext@ =~= v@);
    assert(start > 0 ==> ext@ =~= v@.skip(start as int));
    let e = string_of(&ext);
    proof {
        if all_ascii(path@) {
            assert(e@ == image_ext(path@));
            assert forall|i: int| 0 <= i < e@.len() implies (#[trigger] e@[i] as u32) < 128 by {
                assert(e@[i] == path@[i + start]);
            }
        }
    }
    let lower = to_lower(e.as_str());
    proof {
        lemma_lower_is_ascii_lower(e@, lower@);
    }
    mime_of_ext_exec(&chars_of(lower.as_str()))
}

/// The last component of a path split at `/` that is neither empty nor `.`.
pub open spec fn last_component(parts: Seq<Seq<char>>) -> Option<Seq<char>>
    decreases parts.len(),
{
    if parts.len() == 0 {
        None
    } else if parts.last().len() > 0 && parts.last() != seq!['.'] {
        Some(parts.last())
    } else {
        last_component(parts.drop_last())
    }
}

/// `Path::file_name` with `/` separators: the last normal component, none
/// when there is none or it is `..`.
pub open spec fn file_name_of(path: Seq<char>) -> Option<Seq<char>> {
    match last_component(split_on(path, '/')) {
        Some(c) => if c == seq!['.', '.'] {
            None
        } else {
            Some(c)
        },
        None => None,
    }
}

/// `Path::extension` of a file name: the text after its last `.`; none
/// without a `.` or when the only `.` starts the name.
pub open spec fn extension_of(name: Seq<char>) -> Option<Seq<char>> {
    let k = last_occ(name, seq!['.']);
    if k <= 0 {
        None
    } else {
        Some(name.skip(k + 1))
    }
}

/// The (language, colour) of a repository-relative path: by its lower-cased
/// file name for Dockerfile and Makefile, otherwise by its extension.
pub open spec fn language_spec(path: Seq<char>) -> Option<(Seq<char>, Seq<char>)> {
    language_of_lower(lowercase(path))
}

/// The (language, colour) of an already lower-cased path (see
/// `language_spec`).
pub open spec fn language_of_lower(lower: Seq<char>) -> Option<(Seq<char>, Seq<char>)> {
    let name = match file_name_of(lower) {
        Some(n) => n,
        None => Seq::<char>::empty(),
    };
    if name == "dockerfile"@ {
        Some(("Dockerfile"@, "#384d54"@))
    } else if name == "makefile"@ || name == "gnumakefile"@ {
        Some(("Makefile"@, "#427819"@))
    } else {
        match file_name_of(lower) {
            Some(n) => match extension_of(n) {
                Some(e) => lang_of_ext(e),
                None => None,
            },
            None => None,
        }
    }
}

/// An ASCII capital letter.
pub open spec fn is_capital(c: char) -> bool {
    65 <= (c as u32) && (c as u32) <= 90
}

/// ASCII text without capital letters.
pub open spec fn lower_ascii_text(p: Seq<char>) -> bool {
    all_ascii(p) && forall|i: int| 0 <= i < p.len() ==> !is_capital(#[trigger] p[i])
}

/// The file `name` in the directory `dir`, or on its own.
pub open spec fn file_path(dir: Option<Seq<char>>, name: Seq<char>) -> Seq<char> {
    match dir {
        Some(d) => d + seq!['/'] + name,
        None => name,
    }
}

proof fn lemma_no_dot(lit: Seq<char>, name: Seq<char>, k: int)
    requires
        free_of(lit, '.'),
        0 <= k < name.len(),
        name[k] == '.',
    ensures
        name != lit,
{
    if name == lit {
        assert(lit[k] == '.');
    }
}

/// A path whose file name is a stem (no `/`, not starting with `.`), a `.`
/// and an extension (no `/`, no `.`), in a directory or none, written in
/// ASCII without capitals, gets the language of its extension, the text after
/// the last `.`, in the table (see `law_extension_table`); `language_for`
/// gives the same for it.
pub proof fn law_language_by_extension(dir: Option<Seq<char>>, stem: Seq<char>, ext: Seq<char>)
    requires
        stem.len() > 0,
        free_of(stem, '/') && stem[0] != '.',
        free_of(ext, '/') && free_of(ext, '.'),
        lower_ascii_text(file_path(dir, stem + seq!['.'] + ext)),
    ensures
        language_of_lower(ascii_lower(file_path(dir, stem + seq!['.'] + ext))) == lang_of_ext(ext),
{
    let name = stem + seq!['.'] + ext;
    let path = file_path(dir, name);
    assert forall|i: int| 0 <= i < path.len() implies ascii_lower(path)[i] == path[i] by {
        assert(!is_capital(path[i]));
    }
    assert(ascii_lower(path) =~= path);
    assert forall|i: int| 0 <= i < name.len() implies name[i] != '/' by {
        if i < stem.len() {
            assert(name[i] == stem[i]);
        } else if i > stem.len() {
            assert(name[i] == ext[i - stem.len() - 1]);
        }
    }
    match dir {
        Some(d) => {
            lemma_split_last_piece(d, name, '/');
        },
        None => {
            lemma_split_single(name, '/');
        },
    }
    let parts = split_on(path, '/');
    assert(parts.len() >= 1 && parts.last() == name);
    assert(name.len() >= 2);
    assert(name != seq!['.']) by {
        if name == seq!['.'] {
            assert(name.len() == 1);
        }
    }
    assert(last_component(parts) == Some(name));
    assert(name[0] == stem[0] && stem[0] != '.');
    assert(name != seq!['.', '.']) by {
        if name == seq!['.', '.'] {
            assert(name[0] == '.');
        }
    }
    assert(file_name_of(path) == Some(name));
    let k = stem.len() as int;
    assert(name[k] == '.');
    reveal_strlit("dockerfile");
    reveal_strlit("makefile");
    reveal_strlit("gnumakefile");
    assert(free_of("dockerfile"@, '.'));
    assert(free_of("makefile"@, '.'));
    assert(free_of("gnumakefile"@, '.'));
    lemma_no_dot("dockerfile"@, name, k);
    lemma_no_dot("makefile"@, name, k);
    lemma_no_dot("gnumakefile"@, name, k);
    lemma_last_char_at(stem, ext, '.');
    assert(name.skip(k + 1) =~= ext);
    assert(extension_of(name) == Some(ext));
}

/// ASCII text without capitals is its own ASCII lower-case form, so for
/// such a path `language_for` gives `language_of_lower` of the path itself.
pub proof fn law_lower_text_unchanged(p: Seq<char>)
    requires
        lower_ascii_text(p),
    ensures
        ascii_lower(p) == p,
{
    assert forall|i: int| 0 <= i < p.len() implies ascii_lower(p)[i] == p[i] by {
        assert(!is_capital(p[i]));
    }
    assert(ascii_lower(p) =~= p);
}

proof fn lemma_named_file(dir: Option<Seq<char>>, name: Seq<char>)
    requires
        name.len() >= 3,
        free_of(name, '/'),
        name[0] != '.',
    ensures
        file_name_of(file_path(dir, name)) == Some(name),
{
    match dir {
        Some(d) => {
            lemma_split_last_piece(d, name, '/');
        },
        None => {
            lemma_split_single(name, '/');
        },
    }
    let parts = split_on(file_path(dir, name), '/');
    assert(name != seq!['.']) by {
        if name == seq!['.'] {
            assert(name.len() == 1);
        }
    }
    assert(last_component(parts) == Some(name));
    assert(name != seq!['.', '.']) by {
        if name == seq!['.', '.'] {
            assert(name.len() == 2);
        }
    }
}

/// A file whose name starts with its only `.` (such as `.bashrc`) has no
/// extension, so no language, whatever follows the `.`.
pub proof fn law_hidden_file_has_no_language(dir: Option<Seq<char>>, rest: Seq<char>)
    requires
        rest.len() >= 1,
        free_of(rest, '/') && free_of(rest, '.'),
    ensures
        language_of_lower(file_path(dir, seq!['.'] + rest)) is None,
{
    let name = seq!['.'] + rest;
    assert forall|i: int| 0 <= i < name.len() implies name[i] != '/' by {
        if i > 0 {
            assert(name[i] == rest[i - 1]);
        }
    }
    match dir {
        Some(d) => {
            lemma_split_last_piece(d, name, '/');
        },
        None => {
            lemma_split_single(name, '/');
        },
    }
    let parts = split_on(file_path(dir, name), '/');
    assert(name != seq!['.']) by {
        if name == seq!['.'] {
            assert(name.len() == 1);
        }
    }
    assert(last_component(parts) == Some(name));
    assert(name != seq!['.', '.']) by {
        if name == seq!['.', '.'] {
            assert(name[1] == rest[0]);
        }
    }
    assert(file_name_of(file_path(dir, name)) == Some(name));
    reveal_strlit("dockerfile");
    reveal_strlit("makefile");
    reveal_strlit("gnumakefile");
    assert(free_of("dockerfile"@, '.'));
    assert(free_of("makefile"@, '.'));
    assert(free_of("gnumakefile"@, '.'));
    lemma_no_dot("dockerfile"@, name, 0);
    lemma_no_dot("makefile"@, name, 0);
    lemma_no_dot("gnumakefile"@, name, 0);
    lemma_last_char_at(Seq::<char>::empty(), rest, '.');
    assert(Seq::<char>::empty() + seq!['.'] + rest =~= name);
    assert(extension_of(name) is None);
}

/// A file named `dockerfile`, `makefile` or `gnumakefile` (as the lower-cased
/// path spells it), in any directory, is Dockerfile or Makefile by its name.
pub proof fn law_language_by_name(dir: Option<Seq<char>>)
    ensures
        language_of_lower(file_path(dir, "dockerfile"@)) == Some(("Dockerfile"@, "#384d54"@)),
        language_of_lower(file_path(dir, "makefile"@)) == Some(("Makefile"@, "#427819"@)),
        language_of_lower(file_path(dir, "gnumakefile"@)) == Some(("Makefile"@, "#427819"@)),
{
    reveal_strlit("dockerfile");
    reveal_strlit("makefile");
    reveal_strlit("gnumakefile");
    assert(free_of("dockerfile"@, '/') && "dockerfile"@[0] == 'd' && "dockerfile"@.len() == 10);
    assert(free_of("makefile"@, '/') && "makefile"@[0] == 'm' && "makefile"@.len() == 8);
    assert(free_of("gnumakefile"@, '/') && "gnumakefile"@[0] == 'g' && "gnumakefile"@.len() == 11);
    lemma_named_file(dir, "dockerfile"@);
    lemma_named_file(dir, "makefile"@);
    lemma_named_file(dir, "gnumakefile"@);
}

pub(crate) fn file_name_exec(path: &Vec<char>) -> (r: Option<Vec<char>>)
    ensures
        match r {
            Some(n) => file_name_of(path@) == Some(n@),
            None => file_name_of(path@) is None,
        },
{
    let parts = split_chars(path, '/');
    let ghost pv = views(parts@);
    let mut i = parts.len();
    assert(pv.take(pv.len() as int) =~= pv);
    while i > 0
        invariant
            0 <= i <= parts.len(),
            pv == views(parts@),
            pv == split_on(path@, '/'),
            last_component(pv.take(i as int)) == last_component(pv),
        decreases i,
    {
        let p = &parts[i - 1];
        assert(pv.take(i as int).last() == p@);
        assert(pv.take(i as int).drop_last() =~= pv.take(i - 1));
        let dot = vec!['.'];
        assert(dot@ =~= seq!['.']);
        if p.len() > 0 && !crate::text::vec_range_eq(&dot, p, 0, p.len()) {
            assert(p@.subrange(0, p@.len() as int) =~= p@);
            let dotdot = vec!['.', '.'];
            assert(dotdot@ =~= seq!['.', '.']);
            if crate::text::vec_range_eq(&dotdot, p, 0, p.len()) {
                return None;
            }
            return Some(sub_vec(p, 0, p.len()));
        }
        assert(p@.subrange(0, p@.len() as int) =~= p@);
        i -= 1;
    }
    None
}

fn extension_exec(name: &Vec<char>) -> (r: Option<Vec<char>>)
    ensures
        match r {
            Some(e) => extension_of(name@) == Some(e@),
            None => extension_of(name@) is None,
        },
{
    let dot = vec!['.'];
    assert(dot@ =~= seq!['.']);
    assert(name@.subrange(0, name@.len() as int) =~= name@);
    match rfind_in(name, 0, name.len(), &dot) {
        Some(k) => {
            if k == 0 {
                None
            } else {
                let e = sub_vec(name, k + 1, name.len());
                assert(e@ =~= name@.skip(k + 1));
                Some(e)
            }
        },
        None => None,
    }
}

/// The (language, linguist colour) of a repository-relative path: by file
/// name for Dockerfile / Makefile / GNUmakefile, otherwise by extension, all
/// compared in lower case; none for anything unrecognized.
pub fn language_for(rel_path: &str) -> (r: Option<(&'static str, &'static str)>)
    ensures
        match r {
            Some((n, c)) => language_spec(rel_path@) == Some((n@, c@)),
            None => language_spec(rel_path@) is None,
        },
        all_ascii(rel_path@) ==> match r {
            Some((n, c)) => language_of_lower(ascii_lower(rel_path@)) == Some((n@, c@)),
            None => language_of_lower(ascii_lower(rel_path@)) is None,
        },
{
    let lower = to_lower(rel_path);
    proof {
        lemma_lower_is_ascii_lower(rel_path@, lower@);
    }
    let lv = chars_of(lower.as_str());
    let name = file_name_exec(&lv);
    let empty: Vec<char> = Vec::new();
    let n = match &name {
        Some(n) => n,
        None => &empty,
    };
    if vec_eq_str(n, "dockerfile") {
        return Some(("Dockerfile", "#384d54"));
    }
    if vec_eq_str(n, "makefile") || vec_eq_str(n, "gnumakefile") {
        return Some(("Makefile", "#427819"));
    }
    match name {
        Some(n) => match extension_exec(&n) {
            Some(e) => lang_of_ext_exec(&e),
            None => None,
        },
        None => None,
    }
}

/// The base64 digit of the six-bit value `v` in the standard alphabet
/// `A-Z a-z 0-9 + /`.
pub open spec fn b64_digit(v: int) -> char {
    if v < 26 {
        (65 + v) as char
    } else if v < 52 {
        (97 + v - 26) as char
    } else if v < 62 {
        (48 + v - 52) as char
    } else if v == 62 {
        '+'
    } else {
        '/'
    }
}

/// Standard base64 (RFC 4648, section 4) with `=` padding: each three bytes
/// become four digits, a final one or two bytes two or three digits and the
/// padding.
pub open spec fn base64_standard(b: Seq<u8>) -> Seq<char>
    decreases b.len(),
{
    if b.len() == 0 {
        seq![]
    } else if b.len() == 1 {
        let x = b[0] as int;
        seq![b64_digit(x / 4), b64_digit((x % 4) * 16), '=', '=']
    } else if b.len() == 2 {
        let x = b[0] as int;
        let y = b[1] as int;
        seq![b64_digit(x / 4), b64_digit((x % 4) * 16 + y / 16), b64_digit((y % 16) * 4), '=']
    } else {
        let x = b[0] as int;
        let y = b[1] as int;
        let z = b[2] as int;
        seq![
            b64_digit(x / 4),
            b64_digit((x % 4) * 16 + y / 16),
            b64_digit((y % 16) * 4 + z / 64),
            b64_digit(z % 64),
        ] + base64_standard(b.skip(3))
    }
}

/// `base64::engine::general_purpose::STANDARD.encode`: the standard base64
/// encoding of `bytes`, with padding.
#[verifier::external_body]
fn base64_encode(bytes: &[u8]) -> (r: String)
    ensures
        r@ == base64_standard(bytes@),
{
    base64::engine::general_purpose::STANDARD.encode(bytes)
}

/// `data:<mime>;base64,<bytes in standard base64>`.
pub fn data_url(mime: &str, bytes: &[u8]) -> (r: String)
    ensures
        r@ == "data:"@ + mime@ + ";base64,"@ + base64_standard(bytes@),
{
    let mut s = string_of(&chars_of("data:"));
    push_all(&mut s, &chars_of(mime));
    push_all(&mut s, &chars_of(";base64,"));
    let enc = base64_encode(bytes);
    push_all(&mut s, &chars_of(enc.as_str()));
    s
}

/// The number of `\n` bytes in `b`.
pub open spec fn newline_count(b: Seq<u8>) -> nat
    decreases b.len(),
{
    if b.len() == 0 {
        0
    } else {
        newline_count(b.drop_last()) + if b.last() == 10 {
            1nat
        } else {
            0nat
        }
    }
}

/// The number of lines of a text: its `\n`s, plus one for a last line
/// without a `\n`.
pub open spec fn line_total(b: Seq<u8>) -> nat {
    newline_count(b) + if b.len() > 0 && b.last() != 10 {
        1nat
    } else {
        0nat
    }
}

/// git's binary heuristic: a NUL byte among the first 8000 bytes.
pub open spec fn looks_binary(b: Seq<u8>) -> bool {
    exists|i: int| 0 <= i < b.len() && i < 8000 && b[i] == 0
}

/// Whether `b` looks binary (a NUL among its first 8000 bytes).
pub fn is_binary_content(b: &[u8]) -> (r: bool)
    ensures
        r == looks_binary(b@),
{
    let mut i: usize = 0;
    while i < b.len() && i < 8000
        invariant
            0 <= i <= b.len(),
            i <= 8000,
            forall|j: int| 0 <= j < i ==> b@[j] != 0,
        decreases b.len() - i,
    {
        if b[i] == 0 {
            return true;
        }
        i += 1;
    }
    false
}

/// The number of `\n` bytes in `b`.
pub fn count_newlines(b: &[u8]) -> (n: usize)
    ensures
        n == newline_count(b@),
{
    let mut n: usize = 0;
    let mut i: usize = 0;
    assert(b@.take(0) =~= Seq::<u8>::empty());
    while i < b.len()
        invariant
            0 <= i <= b.len(),
            n == newline_count(b@.take(i as int)),
            n <= i,
        decreases b.len() - i,
    {
        assert(b@.take(i as int + 1).drop_last() =~= b@.take(i as int));
        if b[i] == 10 {
            n += 1;
        }
        i += 1;
    }
    assert(b@.take(b.len() as int) =~= b@);
    n
}

/// The largest file whose lines are counted in the changes list, in bytes.
pub const LINE_COUNT_CAP: u64 = 1048576;

/// The line count shown for an untracked file of `size` bytes (none when
/// its metadata could not be read) with contents `bytes` (none when they
/// could not be read, or were not read because the file is too large): none
/// above 1 MiB or for binary content; otherwise the number of `\n`s, as
/// `u32`, plus one for a last line without a `\n`.
pub fn count_lines(size: Option<u64>, bytes: Option<&[u8]>) -> (r: Option<u32>)
    requires
        bytes matches Some(b) ==> !((newline_count(b@) as u32) == u32::MAX && b@.len() > 0
            && b@.last() != 10),
    ensures
        match (size, bytes) {
            (Some(sz), Some(b)) => if sz > LINE_COUNT_CAP || looks_binary(b@) {
                r is None
            } else {
                r == Some(
                    ((newline_count(b@) as u32) + if b@.len() > 0 && b@.last() != 10 {
                        1int
                    } else {
                        0int
                    }) as u32,
                )
            },
            _ => r is None,
        },
{
    let sz = match size {
        Some(s) => s,
        None => return None,
    };
    if sz > LINE_COUNT_CAP {
        return None;
    }
    let b = match bytes {
        Some(b) => b,
        None => return None,
    };
    if is_binary_content(b) {
        return None;
    }
    let newlines = count_newlines(b) as u32;
    let extra: u32 = if b.len() > 0 && b[b.len() - 1] != 10 {
        1
    } else {
        0
    };
    Some(newlines + extra)
}

proof fn lemma_newline_count_bound(b: Seq<u8>)
    ensures
        newline_count(b) <= b.len(),
    decreases b.len(),
{
    if b.len() > 0 {
        lemma_newline_count_bound(b.drop_last());
    }
}

/// The number of lines of a text, as the language statistics count them.
pub fn line_count(b: &[u8]) -> (n: u64)
    ensures
        n == line_total(b@),
{
    let nl = count_newlines(b) as u64;
    proof {
        if b@.len() > 0 {
            lemma_newline_count_bound(b@.drop_last());
        }
    }
    if b.len() > 0 && b[b.len() - 1] != 10 {
        nl + 1
    } else {
        nl
    }
}

} // verus!
