//! Languages known to the editor and the groups that highlighting assigns.
use crate::text::{chars_of, same_text, slice_string};
use vstd::prelude::*;

verus! {

/// A language with built-in lexical knowledge.
#[derive(Debug, Clone, Copy, PartialEq, Eq, Structural)]
pub enum Language {
    Rust,
    JavaScript,
    TypeScript,
    Tsx,
    Python,
    Ruby,
    Bash,
    Dockerfile,
    Yaml,
    Toml,
    Properties,
    Ini,
    Lua,
    Sql,
    Terraform,
    Hcl,
    Html,
    Markdown,
    TreeSitterQuery,
    Json,
    Css,
    Go,
    Java,
    C,
    Cpp,
}

/// What kind of token a stretch of text is.
#[derive(Debug, Clone, Copy, PartialEq, Eq, Structural)]
pub enum HighlightGroup {
    Keyword,
    Function,
    Type,
    String,
    Number,
    Comment,
    Operator,
    Variable,
    Constant,
    Punctuation,
    DiffAdded,
    DiffRemoved,
    DiffHeader,
    DiffLocation,
}

/// Where the part of a path behind its last `/` starts, looked for up to `k`.
pub open spec fn name_start(path: Seq<char>, k: int) -> int
    decreases k,
{
    if k <= 0 || k > path.len() {
        0
    } else if path[k - 1] == '/' {
        k
    } else {
        name_start(path, k - 1)
    }
}

/// Where the part of a name behind its last `.` starts, looked for up to `k`;
/// `from` where it has none.
pub open spec fn suffix_start(path: Seq<char>, from: int, k: int) -> int
    decreases k,
{
    if k <= 0 || k <= from || k > path.len() {
        from
    } else if path[k - 1] == '.' {
        k
    } else {
        suffix_start(path, from, k - 1)
    }
}

/// The extension of the file that a path leads to; its whole name where it
/// has none.
pub open spec fn extension_of(path: Seq<char>) -> Seq<char> {
    path.skip(suffix_start(path, name_start(path, path.len() as int), path.len() as int))
}

/// The language of a file extension.
pub open spec fn language_of(e: Seq<char>) -> Option<Language> {
    if e == "rs"@ {
        Some(Language::Rust)
    } else if e == "js"@ || e == "jsx"@ || e == "mjs"@ || e == "cjs"@ {
        Some(Language::JavaScript)
    } else if e == "ts"@ {
        Some(Language::TypeScript)
    } else if e == "tsx"@ {
        Some(Language::Tsx)
    } else if e == "py"@ {
        Some(Language::Python)
    } else if e == "rb"@ {
        Some(Language::Ruby)
    } else if e == "sh"@ || e == "bash"@ {
        Some(Language::Bash)
    } else if e == "Dockerfile"@ {
        Some(Language::Dockerfile)
    } else if e == "yml"@ || e == "yaml"@ {
        Some(Language::Yaml)
    } else if e == "toml"@ {
        Some(Language::Toml)
    } else if e == "properties"@ {
        Some(Language::Properties)
    } else if e == "ini"@ {
        Some(Language::Ini)
    } else if e == "lua"@ {
        Some(Language::Lua)
    } else if e == "sql"@ {
        Some(Language::Sql)
    } else if e == "tf"@ {
        Some(Language::Terraform)
    } else if e == "hcl"@ {
        Some(Language::Hcl)
    } else if e == "html"@ || e == "htm"@ {
        Some(Language::Html)
    } else if e == "md"@ || e == "markdown"@ {
        Some(Language::Markdown)
    } else if e == "scm"@ {
        Some(Language::TreeSitterQuery)
    } else if e == "json"@ {
        Some(Language::Json)
    } else if e == "css"@ {
        Some(Language::Css)
    } else if e == "go"@ {
        Some(Language::Go)
    } else if e == "java"@ {
        Some(Language::Java)
    } else if e == "c"@ || e == "h"@ {
        Some(Language::C)
    } else if e == "cpp"@ || e == "cc"@ || e == "hpp"@ {
        Some(Language::Cpp)
    } else {
        None
    }
}

/// Where the file name starts in a path.
fn find_name(cs: &Vec<char>) -> (n: usize)
    ensures
        n == name_start(cs@, cs.len() as int),
        n <= cs.len(),
{
    let mut k: usize = cs.len();
    while k > 0 && cs[k - 1] != '/'
        invariant
            k <= cs.len(),
            name_start(cs@, k as int) == name_start(cs@, cs.len() as int),
        decreases k,
    {
        k -= 1;
    }
    k
}

/// The last component of the first `k` characters of a path, if it is a name.
/// Closing slashes and `.` components are passed over; `..` is no name.
pub open spec fn last_component(path: Seq<char>, k: int) -> Option<Seq<char>>
    decreases k,
{
    if k <= 0 || k > path.len() {
        None
    } else if path[k - 1] == '/' {
        last_component(path, k - 1)
    } else {
        let start = name_start(path, k);
        let name = path.subrange(start, k);
        if name == seq!['.'] {
            if 0 < start < k {
                last_component(path, start)
            } else {
                None
            }
        } else if name == seq!['.', '.'] {
            None
        } else {
            Some(name)
        }
    }
}

proof fn name_starts_before(path: Seq<char>, k: int)
    requires
        0 <= k <= path.len(),
    ensures
        0 <= name_start(path, k) <= k,
        k > 0 && path[k - 1] != '/' ==> name_start(path, k) < k,
    decreases k,
{
    if k > 0 && path[k - 1] != '/' {
        name_starts_before(path, k - 1);
    }
}

/// The last component of a path, if it is a name.
pub fn path_name(path: &str) -> (res: Option<String>)
    ensures
        match res {
            Some(name) => last_component(path@, path@.len() as int) == Some(name@),
            None => last_component(path@, path@.len() as int) is None,
        },
{
    let cs = chars_of(path);
    let mut k: usize = cs.len();
    while k > 0
        invariant
            k <= cs.len(),
            cs@ == path@,
            last_component(cs@, k as int) == last_component(path@, path@.len() as int),
        decreases k,
    {
        if cs[k - 1] == '/' {
            k -= 1;
            continue;
        }
        proof {
            name_starts_before(cs@, k as int);
        }
        let mut start: usize = k;
        while start > 0 && cs[start - 1] != '/'
            invariant
                start <= k <= cs.len(),
                name_start(cs@, start as int) == name_start(cs@, k as int),
            decreases start,
        {
            start -= 1;
        }
        let ghost name = cs@.subrange(start as int, k as int);
        if k - start == 1 && cs[start] == '.' {
            proof {
                assert(name =~= seq!['.']);
            }
            if start == 0 {
                return None;
            }
            k = start;
            continue;
        }
        if k - start == 2 && cs[start] == '.' && cs[start + 1] == '.' {
            proof {
                assert(name =~= seq!['.', '.']);
                assert(name.len() == 2);
                assert(seq!['.'].len() == 1);
            }
            return None;
        }
        proof {
            if name == seq!['.'] {
                assert(name.len() == 1 && name[0] == '.');
            }
            if name == seq!['.', '.'] {
                assert(name.len() == 2 && name[0] == '.' && name[1] == '.');
            }
        }
        return Some(slice_string(&cs, start, k));
    }
    None
}

/// The language of a file, by its extension.
pub fn detect_from_path(path: &str) -> (res: Option<Language>)
    ensures
        res == language_of(extension_of(path@)),
{
    let cs = chars_of(path);
    let from: usize = find_name(&cs);
    let mut k: usize = cs.len();
    while k > from && cs[k - 1] != '.'
        invariant
            from <= k <= cs.len(),
            suffix_start(cs@, from as int, k as int) == suffix_start(
                cs@,
                from as int,
                cs.len() as int,
            ),
        decreases k,
    {
        k -= 1;
    }
    let suffix = slice_string(&cs, k, cs.len());
    proof {
        assert(suffix@ =~= extension_of(path@));
    }
    let e = suffix.as_str();
    if same_text(e, "rs") {
        Some(Language::Rust)
    } else if same_text(e, "js") || same_text(e, "jsx") || same_text(e, "mjs") || same_text(
        e,
        "cjs",
    ) {
        Some(Language::JavaScript)
    } else if same_text(e, "ts") {
        Some(Language::TypeScript)
    } else if same_text(e, "tsx") {
        Some(Language::Tsx)
    } else if same_text(e, "py") {
        Some(Language::Python)
    } else if same_text(e, "rb") {
        Some(Language::Ruby)
    } else if same_text(e, "sh") || same_text(e, "bash") {
        Some(Language::Bash)
    } else if same_text(e, "Dockerfile") {
        Some(Language::Dockerfile)
    } else if same_text(e, "yml") || same_text(e, "yaml") {
        Some(Language::Yaml)
    } else if same_text(e, "toml") {
        Some(Language::Toml)
    } else if same_text(e, "properties") {
        Some(Language::Properties)
    } else if same_text(e, "ini") {
        Some(Language::Ini)
    } else if same_text(e, "lua") {
        Some(Language::Lua)
    } else if same_text(e, "sql") {
        Some(Language::Sql)
    } else if same_text(e, "tf") {
        Some(Language::Terraform)
    } else if same_text(e, "hcl") {
        Some(Language::Hcl)
    } else if same_text(e, "html") || same_text(e, "htm") {
        Some(Language::Html)
    } else if same_text(e, "md") || same_text(e, "markdown") {
        Some(Language::Markdown)
    } else if same_text(e, "scm") {
        Some(Language::TreeSitterQuery)
    } else if same_text(e, "json") {
        Some(Language::Json)
    } else if same_text(e, "css") {
        Some(Language::Css)
    } else if same_text(e, "go") {
        Some(Language::Go)
    } else if same_text(e, "java") {
        Some(Language::Java)
    } else if same_text(e, "c") || same_text(e, "h") {
        Some(Language::C)
    } else if same_text(e, "cpp") || same_text(e, "cc") || same_text(e, "hpp") {
        Some(Language::Cpp)
    } else {
        None
    }
}

} // verus!
