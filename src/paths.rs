//! Paths as text with `/` separators: joining, parents, and the names of
//! cached manifests.
use vstd::prelude::*;
use vstd::string::StringExecFns;

verus! {

/// `name` under `base`: `name` itself where it is absolute or `base` is
/// empty, else `base` and `name` with one `/` between them.
pub open spec fn joined(base: Seq<char>, name: Seq<char>) -> Seq<char> {
    if base.len() == 0 || (name.len() > 0 && name[0] == '/') {
        name
    } else if base.last() == '/' {
        base + name
    } else {
        base + "/"@ + name
    }
}

/// Joins a name onto a base path.
pub fn join_path(base: &str, name: &str) -> (r: String)
    ensures
        r@ == joined(base@, name@),
{
    let bn = base.unicode_len();
    let nn = name.unicode_len();
    if bn == 0 || (nn > 0 && name.get_char(0) == '/') {
        return name.to_owned();
    }
    let mut r = base.to_owned();
    if base.get_char(bn - 1) != '/' {
        r.append("/");
    }
    r.append(name);
    r
}

/// The text before the last `/` of a path; empty where it has none.
pub open spec fn parent_of(path: Seq<char>) -> Seq<char>
    decreases path.len(),
{
    if path.len() == 0 {
        Seq::empty()
    } else if path.last() == '/' {
        path.drop_last()
    } else {
        parent_of(path.drop_last())
    }
}

/// The parent directory of a path.
pub fn parent_path(path: &str) -> (r: String)
    ensures
        r@ == parent_of(path@),
{
    let n = path.unicode_len();
    let mut end: usize = n;
    assert(path@.subrange(0, n as int) =~= path@);
    while end > 0 && path.get_char(end - 1) != '/'
        invariant
            n == path@.len(),
            end <= n,
            parent_of(path@.subrange(0, end as int)) == parent_of(path@),
        decreases end,
    {
        assert(path@.subrange(0, end as int).drop_last() =~= path@.subrange(0, end - 1));
        end = end - 1;
    }
    if end == 0 {
        assert(path@.subrange(0, 0) =~= Seq::<char>::empty());
        return String::new();
    }
    let mut r = String::new();
    let mut i: usize = 0;
    while i < end - 1
        invariant
            n == path@.len(),
            0 < end <= n,
            i <= end - 1,
            r@ == path@.subrange(0, i as int),
        decreases end - 1 - i,
    {
        r.push(path.get_char(i));
        i = i + 1;
        assert(r@ =~= path@.subrange(0, i as int));
    }
    assert(path@.subrange(0, end as int).drop_last() =~= path@.subrange(0, end - 1));
    r
}

/// The cache file name of a manifest of a build: `<build>_<kind>.csv`.
pub fn manifest_file_name(build_number: &str, kind: &str) -> (r: String)
    ensures
        r@ == build_number@ + "_"@ + kind@ + ".csv"@,
{
    let mut r = build_number.to_owned();
    r.append("_");
    r.append(kind);
    r.append(".csv");
    r
}

/// The version under which the delta between two builds is cached:
/// `<old>_<new>`.
pub fn delta_version(old_version: &str, new_version: &str) -> (r: String)
    ensures
        r@ == old_version@ + "_"@ + new_version@,
{
    let mut r = old_version.to_owned();
    r.append("_");
    r.append(new_version);
    r
}

/// Where a game is installed: the exact path where one is given, else the
/// slug under the given base path, else the slug under the default base.
pub fn choose_install_path(slug: &String, path: Option<String>, base_path: Option<String>, default_base: &String) -> (r: String)
    ensures
        r@ == match (path, base_path) {
            (Some(p), _) => p@,
            (None, Some(b)) => joined(b@, slug@),
            (None, None) => joined(default_base@, slug@),
        },
{
    match (path, base_path) {
        (Some(p), _) => p,
        (None, Some(b)) => join_path(b.as_str(), slug.as_str()),
        (None, None) => join_path(default_base.as_str(), slug.as_str()),
    }
}

} // verus!
