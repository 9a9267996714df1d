//! What the names of files tell: their extension, their language, the
//! directory that they are in.
use crate::display::{caret_of, cluster_width, unicode_width_of};
use crate::paths::{
    absolute, before_component, body_start, component_start, idle, joined_path, parent_of,
    trimmed_end,
};
use crate::syntax::{extension_of, language_of, last_component, name_start, suffix_start, Language};
use vstd::prelude::*;

verus! {

/// No such character stands in a text.
pub open spec fn lacks(t: Seq<char>, c: char) -> bool {
    forall|i: int| 0 <= i < t.len() ==> t[i] != c
}

proof fn name_starts(path: Seq<char>, from: int, k: int)
    requires
        0 <= from <= k <= path.len(),
        forall|i: int| from <= i < k ==> path[i] != '/',
        from == 0 || path[from - 1] == '/',
    ensures
        name_start(path, k) == from,
    decreases k,
{
    if k > from {
        name_starts(path, from, k - 1);
    }
}

proof fn suffix_starts(path: Seq<char>, from: int, at: int, k: int)
    requires
        0 <= from <= at <= k <= path.len(),
        forall|i: int| at <= i < k ==> path[i] != '.',
        at == from || path[at - 1] == '.',
    ensures
        suffix_start(path, from, k) == at,
    decreases k,
{
    if k > at {
        suffix_starts(path, from, at, k - 1);
    }
}

/// The extension of a file is what stands behind the last dot of its name, and
/// the whole name where it has no dot. What its directories are called does
/// not matter.
pub proof fn extensions_stand_behind_the_last_dot(
    dir: Seq<char>,
    stem: Seq<char>,
    ext: Seq<char>,
)
    requires
        dir.len() == 0 || dir.last() == '/',
        lacks(stem, '/'),
        lacks(ext, '/'),
        lacks(ext, '.'),
    ensures
        extension_of(dir + stem + seq!['.'] + ext) == ext,
        extension_of(dir + ext) == ext,
{
    let path = dir + stem + seq!['.'] + ext;
    let n = path.len() as int;
    let from = dir.len() as int;
    let at = from + stem.len() + 1;
    assert forall|i: int| from <= i < n implies path[i] != '/' by {
        if i < from + stem.len() {
            assert(path[i] == stem[i - from]);
        } else if i >= at {
            assert(path[i] == ext[i - at]);
        }
    }
    if from > 0 {
        assert(path[from - 1] == dir.last());
    }
    name_starts(path, from, n);
    assert forall|i: int| at <= i < n implies path[i] != '.' by {
        assert(path[i] == ext[i - at]);
    }
    suffix_starts(path, from, at, n);
    assert(path.skip(at) =~= ext);
    let bare = dir + ext;
    let m = bare.len() as int;
    assert forall|i: int| from <= i < m implies bare[i] != '/' && bare[i] != '.' by {
        assert(bare[i] == ext[i - from]);
    }
    if from > 0 {
        assert(bare[from - 1] == dir.last());
    }
    name_starts(bare, from, m);
    suffix_starts(bare, from, from, m);
    assert(bare.skip(from) =~= ext);
}

/// What each language's files are called.
pub proof fn languages_have_their_extensions(e: Seq<char>)
    ensures
        language_of("rs"@) == Some(Language::Rust),
        match language_of(e) {
            Some(l) => match l {
                Language::Rust => e == "rs"@,
                Language::JavaScript => e == "js"@ || e == "jsx"@ || e == "mjs"@ || e == "cjs"@,
                Language::TypeScript => e == "ts"@,
                Language::Tsx => e == "tsx"@,
                Language::Python => e == "py"@,
                Language::Ruby => e == "rb"@,
                Language::Bash => e == "sh"@ || e == "bash"@,
                Language::Dockerfile => e == "Dockerfile"@,
                Language::Yaml => e == "yml"@ || e == "yaml"@,
                Language::Toml => e == "toml"@,
                Language::Properties => e == "properties"@,
                Language::Ini => e == "ini"@,
                Language::Lua => e == "lua"@,
                Language::Sql => e == "sql"@,
                Language::Terraform => e == "tf"@,
                Language::Hcl => e == "hcl"@,
                Language::Html => e == "html"@ || e == "htm"@,
                Language::Markdown => e == "md"@ || e == "markdown"@,
                Language::TreeSitterQuery => e == "scm"@,
                Language::Json => e == "json"@,
                Language::Css => e == "css"@,
                Language::Go => e == "go"@,
                Language::Java => e == "java"@,
                Language::C => e == "c"@ || e == "h"@,
                Language::Cpp => e == "cpp"@ || e == "cc"@ || e == "hpp"@,
            },
            None => e != "rs"@ && e != "js"@ && e != "jsx"@ && e != "mjs"@ && e != "cjs"@ && e
                != "ts"@ && e != "tsx"@ && e != "py"@ && e != "rb"@ && e != "sh"@ && e != "bash"@
                && e != "Dockerfile"@ && e != "yml"@ && e != "yaml"@ && e != "toml"@ && e
                != "properties"@ && e != "ini"@ && e != "lua"@ && e != "sql"@ && e != "tf"@ && e
                != "hcl"@ && e != "html"@ && e != "htm"@ && e != "md"@ && e != "markdown"@ && e
                != "scm"@ && e != "json"@ && e != "css"@ && e != "go"@ && e != "java"@ && e != "c"@
                && e != "h"@ && e != "cpp"@ && e != "cc"@ && e != "hpp"@,
        },
{
}

/// A name of a file: it is not empty, has no slash, and is neither of the two
/// names that stand for directories.
pub open spec fn plain_name(name: Seq<char>) -> bool {
    &&& name.len() > 0
    &&& lacks(name, '/')
    &&& name != seq!['.']
    &&& name != seq!['.', '.']
}

proof fn slashes_are_passed(path: Seq<char>, from: int, k: int)
    requires
        0 <= from <= k <= path.len(),
        forall|i: int| from <= i < k ==> path[i] == '/',
    ensures
        last_component(path, k) == last_component(path, from),
    decreases k - from,
{
    if k > from {
        slashes_are_passed(path, from, k - 1);
    }
}

/// The name of a file is the last part of its path; slashes behind it do not
/// matter.
pub proof fn the_last_part_is_the_name(dir: Seq<char>, name: Seq<char>, slashes: Seq<char>)
    requires
        dir.len() == 0 || dir.last() == '/',
        plain_name(name),
        forall|i: int| 0 <= i < slashes.len() ==> slashes[i] == '/',
    ensures
        last_component(dir + name + slashes, (dir + name + slashes).len() as int) == Some(name),
{
    let path = dir + name + slashes;
    let from = dir.len() as int;
    let k = from + name.len();
    assert forall|i: int| k <= i < path.len() implies path[i] == '/' by {
        assert(path[i] == slashes[i - k]);
    }
    slashes_are_passed(path, k, path.len() as int);
    assert forall|i: int| from <= i < k implies path[i] != '/' by {
        assert(path[i] == name[i - from]);
    }
    if from > 0 {
        assert(path[from - 1] == dir.last());
    }
    name_starts(path, from, k);
    assert(path[k - 1] == name.last());
    assert(path.subrange(from, k) =~= name);
}

proof fn component_starts(path: Seq<char>, from: int, at: int, k: int)
    requires
        0 <= from <= at <= k <= path.len(),
        forall|i: int| at <= i < k ==> path[i] != '/',
        at == from || path[at - 1] == '/',
    ensures
        component_start(path, from, k) == at,
    decreases k - from,
{
    if k > at {
        component_starts(path, from, at, k - 1);
    }
}

/// The parent of a file in a directory is that directory: for an absolute
/// directory whose last part is a name.
pub proof fn files_are_in_their_directory(above: Seq<char>, last: Seq<char>, name: Seq<char>)
    requires
        above.len() > 0,
        above[0] == '/',
        above.last() == '/',
        plain_name(last),
        plain_name(name),
    ensures
        ({
            let dir = above + last;
            &&& joined_path(dir, name) == dir + seq!['/'] + name
            &&& parent_of(joined_path(dir, name)) == Some(dir)
        }),
{
    let dir = above + last;
    let path = dir + seq!['/'] + name;
    let n = path.len() as int;
    let d = dir.len() as int;
    let at = above.len() as int;
    assert(dir.last() == last.last());
    assert(!absolute(name));
    assert(joined_path(dir, name) =~= path);
    assert(path[0] == '/');
    assert(body_start(path) == 1);
    assert forall|i: int| d + 1 <= i < n implies path[i] != '/' by {
        assert(path[i] == name[i - d - 1]);
    }
    assert(path[d] == '/');
    component_starts(path, 1, d + 1, n);
    assert(!idle(path, d + 1, n)) by {
        if n == d + 2 && path[d + 1] == '.' {
            assert(path[d + 1] == name[0]);
            assert(name =~= seq!['.']);
        }
    }
    assert(trimmed_end(path, 1, n) == n);
    assert(before_component(1, d + 1) == d);
    assert forall|i: int| at <= i < d implies path[i] != '/' by {
        assert(path[i] == last[i - at]);
    }
    assert(path[at - 1] == above.last());
    component_starts(path, 1, at, d);
    assert(!idle(path, at, d)) by {
        if d == at + 1 && path[at] == '.' {
            assert(path[at] == last[0]);
            assert(last =~= seq!['.']);
        }
    }
    assert(trimmed_end(path, 1, d) == d);
    assert(path.take(d) =~= dir);
}

/// An absolute path stays where it is joined to a directory; the root and the
/// empty path have no parent.
pub proof fn absolute_paths_stay(dir: Seq<char>, path: Seq<char>)
    requires
        path.len() > 0,
        path[0] == '/',
    ensures
        joined_path(dir, path) == path,
        parent_of(seq!['/']) is None,
        parent_of(Seq::<char>::empty()) is None,
{
}

/// A control character is shown as a caret and the character sixty-four places
/// on, the last of the basic ones as a caret and a question mark; no other
/// character is shown in this way.
pub proof fn control_characters_have_carets(c: char)
    ensures
        (c as u32) < 32 ==> caret_of(c) == Some(seq!['^', (c as u32 + 64) as char]),
        c as u32 == 127 ==> caret_of(c) == Some(seq!['^', '?']),
        (c as u32) >= 32 && c as u32 != 127 ==> caret_of(c) is None,
{
}

/// A cluster takes as many cells as its text, and two at most.
pub proof fn clusters_take_two_cells_at_most(cluster: Seq<char>)
    ensures
        cluster_width(cluster) <= 2,
        unicode_width_of(cluster) <= 2 ==> cluster_width(cluster) == unicode_width_of(cluster),
        unicode_width_of(cluster) > 2 ==> cluster_width(cluster) == 2,
{
}

} // verus!
