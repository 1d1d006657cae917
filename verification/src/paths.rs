//! Where generated artifacts live and how generated modules import each other.
//!
//! Paths are `/`-separated and relative to the project root.  The artifact of
//! a definition lives in a `__generated__` directory next to its source file.
use vstd::prelude::*;
use crate::builder::{JsModuleFormat, ProjectConfig};
use crate::constants::GENERATED_DIRECTORY;
use crate::strings::{concat, rfind_char, substring};

verus! {

/// The last position of `c` in `s`, if any.
pub open spec fn last_index_of(s: Seq<char>, c: char) -> Option<int> {
    if exists|i: int| 0 <= i < s.len() && s[i] == c {
        Some(choose|i: int| 0 <= i < s.len() && s[i] == c && forall|j: int| i < j < s.len() ==> s[j] != c)
    } else {
        None
    }
}

proof fn lemma_last_index_of(s: Seq<char>, c: char, i: Option<int>)
    requires
        i matches Some(k) ==> 0 <= k < s.len() && s[k] == c && forall|j: int| k < j < s.len() ==> s[j] != c,
        i is None ==> forall|j: int| 0 <= j < s.len() ==> s[j] != c,
    ensures
        last_index_of(s, c) == i,
{
    if let Some(k) = i {
        let w = choose|m: int| 0 <= m < s.len() && s[m] == c && forall|j: int| m < j < s.len() ==> s[j] != c;
        assert(0 <= k < s.len() && s[k] == c && forall|j: int| k < j < s.len() ==> s[j] != c);
        if w < k {
        } else if w > k {
        }
    }
}

/// The directory part of a path, with its trailing `/` (empty for a bare file name).
#[verifier::opaque]
pub open spec fn source_dir(path: Seq<char>) -> Seq<char> {
    match last_index_of(path, '/') {
        Some(i) => path.take(i + 1),
        None => Seq::empty(),
    }
}

/// The path of the artifact `name` generated for a definition in `source`.
#[verifier::opaque]
pub open spec fn artifact_path(source: Seq<char>, name: Seq<char>) -> Seq<char> {
    source_dir(source) + GENERATED_DIRECTORY@ + name
}

/// The last component of a path without its extension (a leading dot is no extension).
#[verifier::opaque]
pub open spec fn file_stem(path: Seq<char>) -> Seq<char> {
    let name = match last_index_of(path, '/') {
        Some(i) => path.skip(i + 1),
        None => path,
    };
    match last_index_of(name, '.') {
        Some(d) => if d > 0 {
            name.take(d)
        } else {
            name
        },
        None => name,
    }
}

/// The length of the longest common prefix of `b` and `t` from position `i`
/// on that ends with a `/`, or `last` if there is none.
pub open spec fn common_dir_from(b: Seq<char>, t: Seq<char>, i: int, last: int) -> int
    decreases b.len() - i,
{
    if 0 <= i < b.len() && i < t.len() && b[i] == t[i] {
        common_dir_from(b, t, i + 1, if b[i] == '/' { i + 1 } else { last })
    } else {
        last
    }
}

/// The number of `/` in `s`.
pub open spec fn count_slashes(s: Seq<char>) -> nat
    decreases s.len(),
{
    if s.len() == 0 {
        0
    } else {
        count_slashes(s.drop_last()) + if s.last() == '/' { 1nat } else { 0nat }
    }
}

/// `n` repetitions of `../`.
pub open spec fn parent_steps(n: nat) -> Seq<char>
    decreases n,
{
    if n == 0 {
        Seq::empty()
    } else {
        parent_steps((n - 1) as nat) + seq!['.', '.', '/']
    }
}

/// The path of `target` relative to directory `base` (which ends with `/`),
/// starting with `./`.
#[verifier::opaque]
pub open spec fn relative_path(base: Seq<char>, target: Seq<char>) -> Seq<char> {
    let k = common_dir_from(base, target, 0, 0);
    seq!['.', '/'] + parent_steps(count_slashes(base.skip(k))) + target.skip(k)
}

/// How the artifact of a definition in `from_source` imports module `target`:
/// with Haste, by the target's file stem; with CommonJS, by its path relative
/// to the artifact directory.
#[verifier::opaque]
pub open spec fn import_path(config: ProjectConfig, from_source: Seq<char>, target: Seq<char>) -> Seq<
    char,
> {
    match config.js_module_format {
        JsModuleFormat::Haste => file_stem(target),
        JsModuleFormat::CommonJS => relative_path(
            source_dir(from_source) + GENERATED_DIRECTORY@,
            target,
        ),
    }
}

/// The directory part of a path, with its trailing `/`.
pub fn source_directory(path: &str) -> (r: String)
    ensures
        r@ == source_dir(path@),
{
    reveal(source_dir);
    let _n = path.unicode_len();
    let found = rfind_char(path, '/');
    proof {
        lemma_last_index_of(path@, '/', match found { Some(i) => Some(i as int), None => None });
    }
    match found {
        Some(i) => substring(path, 0, i + 1),
        None => String::new(),
    }
}

/// The path of the artifact `name` generated for a definition in `source`.
pub fn create_path_for_artifact(source: &str, name: &str) -> (r: String)
    ensures
        r@ == artifact_path(source@, name@),
{
    reveal(artifact_path);
    let dir = source_directory(source);
    let with_dir = dir.concat(GENERATED_DIRECTORY);
    with_dir.concat(name)
}

/// The last component of a path without its extension.
pub fn path_file_stem(path: &str) -> (r: String)
    ensures
        r@ == file_stem(path@),
{
    reveal(file_stem);
    let n = path.unicode_len();
    let found = rfind_char(path, '/');
    proof {
        lemma_last_index_of(path@, '/', match found { Some(i) => Some(i as int), None => None });
    }
    let name = match found {
        Some(i) => substring(path, i + 1, n),
        None => String::from_str(path),
    };
    proof {
        if let Some(i) = found {
            assert(name@ =~= path@.skip(i + 1));
        }
    }
    let dot = rfind_char(name.as_str(), '.');
    proof {
        lemma_last_index_of(name@, '.', match dot { Some(i) => Some(i as int), None => None });
    }
    match dot {
        Some(d) => {
            if d > 0 {
                substring(name.as_str(), 0, d)
            } else {
                name
            }
        },
        None => name,
    }
}

fn count_slashes_exec(s: &str) -> (n: usize)
    ensures
        n == count_slashes(s@),
{
    let len = s.unicode_len();
    let mut i: usize = 0;
    let mut n: usize = 0;
    while i < len
        invariant
            len == s@.len(),
            i <= len,
            n == count_slashes(s@.take(i as int)),
            n <= i,
        decreases len - i,
    {
        proof {
            assert(s@.take(i + 1).drop_last() =~= s@.take(i as int));
        }
        if s.get_char(i) == '/' {
            n = n + 1;
        }
        i = i + 1;
    }
    assert(s@.take(len as int) =~= s@);
    n
}

fn parent_steps_exec(n: usize) -> (r: String)
    ensures
        r@ == parent_steps(n as nat),
{
    let mut r = String::new();
    let mut i: usize = 0;
    while i < n
        invariant
            i <= n,
            r@ == parent_steps(i as nat),
        decreases n - i,
    {
        proof {
            reveal_strlit("../");
        }
        r = r.concat("../");
        i = i + 1;
    }
    r
}

/// The path of `target` relative to directory `base`, starting with `./`.
pub fn relative_import_path(base: &str, target: &str) -> (r: String)
    ensures
        r@ == relative_path(base@, target@),
{
    reveal(relative_path);
    let bl = base.unicode_len();
    let tl = target.unicode_len();
    let mut i: usize = 0;
    let mut last: usize = 0;
    while i < bl && i < tl && base.get_char(i) == target.get_char(i)
        invariant
            bl == base@.len(),
            tl == target@.len(),
            i <= bl,
            i <= tl,
            last <= i,
            common_dir_from(base@, target@, 0, 0) == common_dir_from(
                base@,
                target@,
                i as int,
                last as int,
            ),
        decreases bl - i,
    {
        if base.get_char(i) == '/' {
            last = i + 1;
        }
        i = i + 1;
    }
    let base_rest = substring(base, last, bl);
    let target_rest = substring(target, last, tl);
    proof {
        assert(base_rest@ =~= base@.skip(last as int));
        assert(target_rest@ =~= target@.skip(last as int));
        reveal_strlit("./");
    }
    let steps = parent_steps_exec(count_slashes_exec(base_rest.as_str()));
    let head = concat("./", steps.as_str());
    let r = head.concat(target_rest.as_str());
    proof {
        assert(r@ =~= relative_path(base@, target@));
    }
    r
}

impl ProjectConfig {
    /// How the artifact of a definition in `from_source` imports module `target`.
    pub fn js_module_import_path(&self, from_source: &str, target: &str) -> (r: String)
        ensures
            r@ == import_path(*self, from_source@, target@),
    {
        reveal(import_path);
        match self.js_module_format {
            JsModuleFormat::Haste => path_file_stem(target),
            JsModuleFormat::CommonJS => {
                let dir = source_directory(from_source);
                let base = dir.concat(GENERATED_DIRECTORY);
                relative_import_path(base.as_str(), target)
            },
        }
    }
}

} // verus!
