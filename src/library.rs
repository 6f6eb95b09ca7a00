//! The user's library and installed games: finding products and builds,
//! choosing what to install or update to, and listing updates.
use vstd::prelude::*;
use crate::error::InstallError;
use crate::product::{latest_index, BuildOs, Product, ProductVersion};

verus! {

/// What is kept of an installed game.
#[derive(Debug)]
pub struct InstallInfo {
    /// Directory the game was installed to.
    pub install_path: String,
    /// The build version that is installed.
    pub version: String,
    /// The operating system the build is for.
    pub os: BuildOs,
}

impl InstallInfo {
    pub fn new(install_path: String, version: String, os: BuildOs) -> (r: InstallInfo)
        ensures
            r.install_path == install_path,
            r.version == version,
            r.os == os,
    {
        InstallInfo { install_path, version, os }
    }
}

/// The first product of the library with the given slug.
pub open spec fn product_index(lib: Seq<Product>, slug: Seq<char>) -> Option<int>
    decreases lib.len(),
{
    if lib.len() == 0 {
        None
    } else {
        match product_index(lib.drop_last(), slug) {
            Some(i) => Some(i),
            None => if lib.last().slugged_name@ == slug {
                Some(lib.len() - 1)
            } else {
                None
            },
        }
    }
}

/// The first build with the given version string, for the given system
/// where one is given.
pub open spec fn version_index(vs: Seq<ProductVersion>, version: Seq<char>, os: Option<BuildOs>) -> Option<int>
    decreases vs.len(),
{
    if vs.len() == 0 {
        None
    } else {
        match version_index(vs.drop_last(), version, os) {
            Some(i) => Some(i),
            None => if vs.last().version@ == version && (os is None || os == Some(vs.last().os)) {
                Some(vs.len() - 1)
            } else {
                None
            },
        }
    }
}

proof fn lemma_product_index_in_range(lib: Seq<Product>, slug: Seq<char>)
    ensures
        product_index(lib, slug) matches Some(i) ==> 0 <= i < lib.len(),
    decreases lib.len(),
{
    if lib.len() > 0 {
        lemma_product_index_in_range(lib.drop_last(), slug);
    }
}

proof fn lemma_version_index_in_range(vs: Seq<ProductVersion>, v: Seq<char>, os: Option<BuildOs>)
    ensures
        version_index(vs, v, os) matches Some(i) ==> 0 <= i < vs.len(),
    decreases vs.len(),
{
    if vs.len() > 0 {
        lemma_version_index_in_range(vs.drop_last(), v, os);
    }
}

/// Position of the first product of the library with the given slug.
pub fn find_product(library: &[Product], slug: &String) -> (r: Option<usize>)
    ensures
        r is None ==> product_index(library@, slug@) is None,
        r matches Some(i) ==> product_index(library@, slug@) == Some(i as int),
{
    let mut i: usize = 0;
    while i < library.len()
        invariant
            i <= library@.len(),
            product_index(library@.subrange(0, i as int), slug@) is None,
        decreases library@.len() - i,
    {
        let ghost p = library@.subrange(0, i + 1);
        assert(p.drop_last() =~= library@.subrange(0, i as int));
        if library[i].slugged_name == *slug {
            proof {
                lemma_index_prefix(library@, slug@, i + 1);
            }
            return Some(i);
        }
        i = i + 1;
    }
    assert(library@.subrange(0, library@.len() as int) =~= library@);
    None
}

/// A match found in a prefix stays the first match of the whole.
proof fn lemma_index_prefix(lib: Seq<Product>, slug: Seq<char>, k: int)
    requires
        0 <= k <= lib.len(),
        product_index(lib.subrange(0, k), slug) is Some,
    ensures
        product_index(lib, slug) == product_index(lib.subrange(0, k), slug),
    decreases lib.len() - k,
{
    if k < lib.len() {
        assert(lib.subrange(0, k + 1).drop_last() =~= lib.subrange(0, k));
        lemma_index_prefix(lib, slug, k + 1);
    } else {
        assert(lib.subrange(0, k) =~= lib);
    }
}

/// A match found in a prefix stays the first match of the whole.
proof fn lemma_version_prefix(vs: Seq<ProductVersion>, v: Seq<char>, os: Option<BuildOs>, k: int)
    requires
        0 <= k <= vs.len(),
        version_index(vs.subrange(0, k), v, os) is Some,
    ensures
        version_index(vs, v, os) == version_index(vs.subrange(0, k), v, os),
    decreases vs.len() - k,
{
    if k < vs.len() {
        assert(vs.subrange(0, k + 1).drop_last() =~= vs.subrange(0, k));
        lemma_version_prefix(vs, v, os, k + 1);
    } else {
        assert(vs.subrange(0, k) =~= vs);
    }
}

/// Position of the first build of a product with the given version
/// string, for `os` where one is given.
pub fn find_version(product: &Product, version: &String, os: Option<BuildOs>) -> (r: Option<usize>)
    ensures
        r is None ==> version_index(product.version@, version@, os) is None,
        r matches Some(i) ==> version_index(product.version@, version@, os) == Some(i as int),
{
    let ghost vs = product.version@;
    let mut i: usize = 0;
    while i < product.version.len()
        invariant
            vs == product.version@,
            i <= vs.len(),
            version_index(vs.subrange(0, i as int), version@, os) is None,
        decreases vs.len() - i,
    {
        let ghost p = vs.subrange(0, i + 1);
        assert(p.drop_last() =~= vs.subrange(0, i as int));
        let v = &product.version[i];
        let os_ok = match os {
            None => true,
            Some(o) => v.os == o,
        };
        if v.version == *version && os_ok {
            proof {
                lemma_version_prefix(vs, version@, os, i + 1);
            }
            return Some(i);
        }
        i = i + 1;
    }
    assert(vs.subrange(0, vs.len() as int) =~= vs);
    None
}

/// The build that an install is for: with a version string, the first
/// build of that version (for `os` where one is given); else the latest
/// build for `os`, or for the host's default system `default_os` where none
/// is given. Positions of the product and of the build.
pub open spec fn install_target(lib: Seq<Product>, slug: Seq<char>, version: Option<Seq<char>>, os: Option<BuildOs>, default_os: BuildOs) -> Result<(int, int), InstallError> {
    match product_index(lib, slug) {
        None => Err(InstallError::NotInLibrary),
        Some(p) => {
            let v = match version {
                Some(v) => version_index(lib[p].version@, v, os),
                None => latest_index(
                    lib[p].version@,
                    match os {
                        Some(o) => o,
                        None => default_os,
                    },
                ),
            };
            match v {
                None => Err(InstallError::VersionNotFound),
                Some(v) => Ok((p, v)),
            }
        },
    }
}

/// Chooses the product and build to install: `NotInLibrary` where the
/// library has no product of the slug, `VersionNotFound` where it has no
/// matching build.
pub fn resolve_install(library: &[Product], slug: &String, version: Option<&String>, os: Option<BuildOs>, default_os: BuildOs) -> (r: Result<(usize, usize), InstallError>)
    ensures
        match (r, install_target(library@, slug@, match version {
            Some(v) => Some(v@),
            None => None,
        }, os, default_os)) {
            (Ok((p, v)), Ok((sp, sv))) => p == sp && v == sv,
            (Err(e), Err(se)) => e == se,
            _ => false,
        },
{
    let p = match find_product(library, slug) {
        None => return Err(InstallError::NotInLibrary),
        Some(p) => p,
    };
    proof {
        lemma_product_index_in_range(library@, slug@);
    }
    let product = &library[p];
    match version {
        Some(v) => match find_version(product, v, os) {
            None => Err(InstallError::VersionNotFound),
            Some(i) => Ok((p, i)),
        },
        None => {
            let target = match os {
                Some(o) => o,
                None => default_os,
            };
            let i = product.latest_position(target);
            match i {
                None => Err(InstallError::VersionNotFound),
                Some(i) => Ok((p, i)),
            }
        },
    }
}

/// The build that an update of an installed game goes to: with a version
/// string, the first build of that version; else the latest build for the
/// installed system. `None` where that build is the installed one.
pub open spec fn update_target(lib: Seq<Product>, slug: Seq<char>, info: InstallInfo, version: Option<Seq<char>>) -> Result<Option<(int, int)>, InstallError> {
    match product_index(lib, slug) {
        None => Err(InstallError::NotInLibrary),
        Some(p) => {
            let v = match version {
                Some(v) => version_index(lib[p].version@, v, None),
                None => latest_index(lib[p].version@, info.os),
            };
            match v {
                None => Err(InstallError::VersionNotFound),
                Some(v) => if lib[p].version@[v].version@ == info.version@ {
                    Ok(None)
                } else {
                    Ok(Some((p, v)))
                },
            }
        },
    }
}

/// Chooses the build to update an installed game to: `NotInLibrary` where
/// the library lacks its product, `VersionNotFound` where no build matches,
/// `Ok(None)` where the chosen build is already installed.
pub fn resolve_update(library: &[Product], slug: &String, info: &InstallInfo, version: Option<&String>) -> (r: Result<Option<(usize, usize)>, InstallError>)
    ensures
        match (r, update_target(library@, slug@, *info, match version {
            Some(v) => Some(v@),
            None => None,
        })) {
            (Ok(Some((p, v))), Ok(Some((sp, sv)))) => p == sp && v == sv,
            (Ok(None), Ok(None)) => true,
            (Err(e), Err(se)) => e == se,
            _ => false,
        },
{
    let p = match find_product(library, slug) {
        None => return Err(InstallError::NotInLibrary),
        Some(p) => p,
    };
    proof {
        lemma_product_index_in_range(library@, slug@);
    }
    let product = &library[p];
    let v = match version {
        Some(v) => find_version(product, v, None),
        None => product.latest_position(info.os),
    };
    proof {
        lemma_version_index_in_range(product.version@, match version {
            Some(v) => v@,
            None => Seq::empty(),
        }, None);
    }
    match v {
        None => Err(InstallError::VersionNotFound),
        Some(v) => {
            if product.version[v].version == info.version {
                Ok(None)
            } else {
                Ok(Some((p, v)))
            }
        },
    }
}

/// The update of one installed game, if any: the version string of the
/// latest build for its system, where its product is in the library, has
/// such a build, and that build is not the installed one.
pub open spec fn update_for(lib: Seq<Product>, slug: Seq<char>, info: InstallInfo) -> Option<Seq<char>> {
    match product_index(lib, slug) {
        None => None,
        Some(p) => match latest_index(lib[p].version@, info.os) {
            None => None,
            Some(v) => if lib[p].version@[v].version@ != info.version@ {
                Some(lib[p].version@[v].version@)
            } else {
                None
            },
        },
    }
}

/// The available updates of the installed games, in their order: slug and
/// version string of the latest build.
pub open spec fn available_updates(lib: Seq<Product>, installed: Seq<(String, InstallInfo)>) -> Seq<(Seq<char>, Seq<char>)>
    decreases installed.len(),
{
    if installed.len() == 0 {
        Seq::empty()
    } else {
        let (slug, info) = installed.last();
        available_updates(lib, installed.drop_last()) + match update_for(lib, slug@, info) {
            Some(v) => seq![(slug@, v)],
            None => Seq::empty(),
        }
    }
}

/// What a list of (slug, version) pairs holds.
pub open spec fn pair_views(s: Seq<(String, String)>) -> Seq<(Seq<char>, Seq<char>)> {
    s.map_values(|p: (String, String)| (p.0@, p.1@))
}

/// Lists the installed games whose latest build differs from the installed
/// one, with that build's version string.
pub fn check_updates(library: &[Product], installed: &[(String, InstallInfo)]) -> (r: Vec<(String, String)>)
    ensures
        pair_views(r@) == available_updates(library@, installed@),
{
    let mut r: Vec<(String, String)> = Vec::new();
    let mut i: usize = 0;
    while i < installed.len()
        invariant
            i <= installed@.len(),
            pair_views(r@) == available_updates(library@, installed@.subrange(0, i as int)),
        decreases installed@.len() - i,
    {
        let ghost p = installed@.subrange(0, i + 1);
        assert(p.drop_last() =~= installed@.subrange(0, i as int));
        let ghost before = r@;
        let (slug, info) = (&installed[i].0, &installed[i].1);
        match find_product(library, slug) {
            None => {},
            Some(k) => {
                proof {
                    lemma_product_index_in_range(library@, slug@);
                }
                match library[k].latest_position(info.os) {
                    None => {},
                    Some(v) => {
                        proof {
                            crate::product::lemma_latest_index_in_range(library@[k as int].version@, info.os);
                        }
                        let latest = &library[k].version[v].version;
                        if *latest != info.version {
                            r.push((slug.clone(), latest.clone()));
                        }
                    },
                }
            },
        }
        assert(pair_views(r@) =~= available_updates(library@, p));
        i = i + 1;
    }
    assert(installed@.subrange(0, installed@.len() as int) =~= installed@);
    r
}

} // verus!
