//! macOS application bundles: where their property list and executable lie.
use vstd::prelude::*;
use crate::paths::{join_path, joined, parent_of, parent_path};

verus! {

/// The property list of an application bundle, once one is known.
#[derive(Debug)]
pub struct MacAppExecutables {
    pub plist: Option<String>,
}

impl MacAppExecutables {
    pub fn new() -> (r: MacAppExecutables)
        ensures
            r.plist is None,
    {
        MacAppExecutables { plist: None }
    }

    pub fn with_plist(plist: String) -> (r: MacAppExecutables)
        ensures
            r.plist == Some(plist),
    {
        MacAppExecutables { plist: Some(plist) }
    }

    pub fn set_plist(&mut self, plist: String)
        ensures
            final(self).plist == Some(plist),
    {
        self.plist = Some(plist);
    }

    /// Where the bundle's executable lies, given the name that its property
    /// list declares: `MacOS/<name>` beside the property list.
    pub fn executable(&self, bundle_executable: &str) -> (r: Option<String>)
        ensures
            match self.plist {
                None => r is None,
                Some(p) => r matches Some(e) && e@ == joined(
                    joined(parent_of(p@), "MacOS"@),
                    bundle_executable@,
                ),
            },
    {
        match &self.plist {
            None => None,
            Some(p) => {
                let dir = parent_path(p.as_str());
                let macos = join_path(dir.as_str(), "MacOS");
                Some(join_path(macos.as_str(), bundle_executable))
            },
        }
    }
}

/// The property list of an application bundle: `Contents/Info.plist` under
/// it.
pub fn find_info_plist(app_path: &str) -> (r: String)
    ensures
        r@ == joined(joined(app_path@, "Contents"@), "Info.plist"@),
{
    let contents = join_path(app_path, "Contents");
    join_path(contents.as_str(), "Info.plist")
}

} // verus!
