//! Products of the library, their builds, and where their files are served.
use vstd::prelude::*;
use vstd::string::StringExecFns;

verus! {

/// Root of the content network.
pub const CONTENT_URL: &'static str = "https://content.indiegalacdn.com";

/// The operating system that a build targets.
#[derive(Clone, Copy, Debug, PartialEq, Eq, Structural)]
pub enum BuildOs {
    Windows,
    Linux,
    Mac,
}

/// The name of an operating system on the wire.
pub open spec fn os_wire_name(os: BuildOs) -> Seq<char> {
    match os {
        BuildOs::Windows => "win"@,
        BuildOs::Linux => "lin"@,
        BuildOs::Mac => "mac"@,
    }
}

/// The name of an operating system for people.
pub open spec fn os_platform_name(os: BuildOs) -> Seq<char> {
    match os {
        BuildOs::Windows => "Windows"@,
        BuildOs::Linux => "Linux"@,
        BuildOs::Mac => "macOS"@,
    }
}

impl BuildOs {
    /// The name on the wire: `win`, `lin` or `mac`.
    pub fn wire_name(&self) -> (r: String)
        ensures
            r@ == os_wire_name(*self),
    {
        match self {
            BuildOs::Windows => String::from_str("win"),
            BuildOs::Linux => String::from_str("lin"),
            BuildOs::Mac => String::from_str("mac"),
        }
    }

    /// The name for people: `Windows`, `Linux` or `macOS`.
    pub fn platform_name(&self) -> (r: String)
        ensures
            r@ == os_platform_name(*self),
    {
        match self {
            BuildOs::Windows => String::from_str("Windows"),
            BuildOs::Linux => String::from_str("Linux"),
            BuildOs::Mac => String::from_str("macOS"),
        }
    }
}

impl Default for BuildOs {
    fn default() -> (r: BuildOs)
        ensures
            r == BuildOs::Windows,
    {
        BuildOs::Windows
    }
}

/// When a build was made: whole seconds since the Unix epoch, and the
/// nanoseconds past them (a leap second runs past 10^9).
#[derive(Clone, Copy, Debug, PartialEq, Eq, Structural)]
pub struct BuildDate {
    pub secs: i64,
    pub nanos: u32,
}

/// Whether date `a` is strictly later than date `b`.
pub open spec fn later(a: BuildDate, b: BuildDate) -> bool {
    a.secs > b.secs || (a.secs == b.secs && a.nanos > b.nanos)
}

impl BuildDate {
    /// Whether this date is strictly later than `other`.
    pub fn is_later_than(&self, other: &BuildDate) -> (r: bool)
        ensures
            r == later(*self, *other),
    {
        self.secs > other.secs || (self.secs == other.secs && self.nanos > other.nanos)
    }
}

/// The text of a date, `YYYY-MM-DD HH:MM:SS` with any fraction of a
/// second; `None` for a date out of range.
pub uninterp spec fn date_text_of(secs: i64, nanos: u32) -> Option<Seq<char>>;

/// Relies on `chrono::DateTime::from_timestamp` and the `Display` of
/// `NaiveDateTime`: the date's text, or nothing for a date out of range.
#[verifier::external_body]
fn date_text(date: &BuildDate) -> (r: Option<String>)
    ensures
        match date_text_of(date.secs, date.nanos) {
            Some(t) => r matches Some(s) && s@ == t,
            None => r is None,
        },
{
    chrono::DateTime::from_timestamp(date.secs, date.nanos).map(|d| d.naive_utc().to_string())
}

/// One build of a product.
#[derive(Debug)]
pub struct ProductVersion {
    pub status: u16,
    pub enabled: u8,
    pub version: String,
    pub os: BuildOs,
    pub date: BuildDate,
    pub text: String,
}

/// The text that describes a build: its version, date, platform and, where
/// it has any, its release notes.
pub open spec fn version_text(v: &ProductVersion) -> Seq<char> {
    "["@ + v.version@ + "]\nBuild Date: "@ + match date_text_of(v.date.secs, v.date.nanos) {
        Some(t) => t,
        None => "unknown"@,
    } + "\nPlatform: "@ + os_platform_name(v.os) + "\n"@ + if v.text@.len() == 0 {
        Seq::empty()
    } else {
        "About:\n\n"@ + v.text@ + "\n"@
    }
}

impl ProductVersion {
    /// Describes the build in a few lines.
    pub fn describe(&self) -> (r: String)
        ensures
            r@ == version_text(self),
    {
        let mut r = String::from_str("[");
        r.append(self.version.as_str());
        r.append("]\nBuild Date: ");
        match date_text(&self.date) {
            Some(t) => r.append(t.as_str()),
            None => r.append("unknown"),
        }
        r.append("\nPlatform: ");
        let platform = self.os.platform_name();
        r.append(platform.as_str());
        r.append("\n");
        if self.text.as_str().unicode_len() > 0 {
            r.append("About:\n\n");
            r.append(self.text.as_str());
            r.append("\n");
        }
        r
    }
}

/// A product of the user's library.
#[derive(Debug)]
pub struct Product {
    pub namespace: String,
    pub slugged_name: String,
    pub id: u64,
    pub name: String,
    pub id_key_name: String,
    pub version: Vec<ProductVersion>,
}

/// The build that is latest for an operating system: of the builds for it,
/// the first one whose date no later build exceeds; `None` where it has no
/// build.
pub open spec fn latest_index(vs: Seq<ProductVersion>, os: BuildOs) -> Option<int>
    decreases vs.len(),
{
    if vs.len() == 0 {
        None
    } else {
        let prev = latest_index(vs.drop_last(), os);
        let v = vs.last();
        if v.os != os {
            prev
        } else {
            match prev {
                None => Some(vs.len() - 1),
                Some(p) => if later(v.date, vs[p].date) {
                    Some(vs.len() - 1)
                } else {
                    prev
                },
            }
        }
    }
}

/// The latest build lies in range and targets the operating system.
pub proof fn lemma_latest_index_in_range(vs: Seq<ProductVersion>, os: BuildOs)
    ensures
        latest_index(vs, os) matches Some(i) ==> 0 <= i < vs.len() && vs[i].os == os,
    decreases vs.len(),
{
    if vs.len() > 0 {
        lemma_latest_index_in_range(vs.drop_last(), os);
    }
}

/// The latest build is no older than any build for the same system, and
/// strictly newer than every one before it.
pub proof fn lemma_latest_is_newest(vs: Seq<ProductVersion>, os: BuildOs)
    ensures
        latest_index(vs, os) is None <==> (forall|j: int| 0 <= j < vs.len() ==> (#[trigger] vs[j]).os != os),
        latest_index(vs, os) matches Some(i) ==> forall|j: int|
            0 <= j < vs.len() && (#[trigger] vs[j]).os == os ==> !later(vs[j].date, vs[i].date)
                && (j < i ==> later(vs[i].date, vs[j].date)),
    decreases vs.len(),
{
    lemma_latest_index_in_range(vs, os);
    if vs.len() > 0 {
        let t = vs.drop_last();
        lemma_latest_is_newest(t, os);
        lemma_latest_index_in_range(t, os);
        assert forall|j: int| 0 <= j < t.len() implies t[j] == vs[j] by {}
        if latest_index(vs, os) is None {
            assert forall|j: int| 0 <= j < vs.len() implies (#[trigger] vs[j]).os != os by {
                if j < t.len() {
                    assert(t[j] == vs[j]);
                }
            }
        }
    }
}

impl Product {
    /// The latest build for `os`, or for the host's default system
    /// `default_os` where none is given; `None` where the product has no
    /// build for it.
    pub fn get_latest_version(&self, os: Option<&BuildOs>, default_os: BuildOs) -> (r: Option<&ProductVersion>)
        ensures
            ({
                let target = match os {
                    Some(o) => *o,
                    None => default_os,
                };
                match latest_index(self.version@, target) {
                    None => r is None,
                    Some(i) => r == Some(&self.version@[i]),
                }
            }),
    {
        let target = match os {
            Some(o) => *o,
            None => default_os,
        };
        match self.latest_position(target) {
            None => None,
            Some(b) => Some(&self.version[b]),
        }
    }

    /// Position of the latest build for `os`.
    pub fn latest_position(&self, os: BuildOs) -> (r: Option<usize>)
        ensures
            r is None ==> latest_index(self.version@, os) is None,
            r matches Some(i) ==> latest_index(self.version@, os) == Some(i as int) && i < self.version@.len(),
    {
        let ghost vs = self.version@;
        let mut best: Option<usize> = None;
        let mut i: usize = 0;
        while i < self.version.len()
            invariant
                vs == self.version@,
                i <= vs.len(),
                best matches Some(b) ==> latest_index(vs.subrange(0, i as int), os) == Some(b as int) && b < i,
                best is None ==> latest_index(vs.subrange(0, i as int), os) is None,
            decreases vs.len() - i,
        {
            let ghost p = vs.subrange(0, i + 1);
            assert(p.drop_last() =~= vs.subrange(0, i as int));
            let v = &self.version[i];
            if v.os == os {
                match best {
                    None => {
                        best = Some(i);
                    },
                    Some(b) => {
                        assert(p[b as int] == vs[b as int]);
                        if v.date.is_later_than(&self.version[b].date) {
                            best = Some(i);
                        }
                    },
                }
            }
            i = i + 1;
        }
        assert(vs.subrange(0, vs.len() as int) =~= vs);
        best
    }

    /// Where the product's files for `os` lie on the content network.
    pub fn content_root(&self, os: BuildOs) -> (r: String)
        ensures
            r@ == content_root_of(self, os),
    {
        let mut r = String::from_str(CONTENT_URL);
        r.append("/DevShowCaseSourceVolume/dev_fold_");
        r.append(self.namespace.as_str());
        r.append("/");
        r.append(self.id_key_name.as_str());
        r.append("/");
        let os_name = os.wire_name();
        r.append(os_name.as_str());
        r.append("/");
        r
    }

    /// The text "[slug] name" that stands for the product in listings.
    pub fn describe(&self) -> (r: String)
        ensures
            r@ == "["@ + self.slugged_name@ + "] "@ + self.name@,
    {
        let mut r = String::from_str("[");
        r.append(self.slugged_name.as_str());
        r.append("] ");
        r.append(self.name.as_str());
        r
    }
}

/// The directory URL of a product's files for an operating system.
pub open spec fn content_root_of(p: &Product, os: BuildOs) -> Seq<char> {
    CONTENT_URL@ + "/DevShowCaseSourceVolume/dev_fold_"@ + p.namespace@ + "/"@ + p.id_key_name@ + "/"@
        + os_wire_name(os) + "/"@
}

/// URL of a build's file manifest.
pub fn get_build_manifest_url(product: &Product, build_version: &ProductVersion) -> (r: String)
    ensures
        r@ == content_root_of(product, build_version.os) + build_version.version@ + "_manifest.csv"@,
{
    let mut r = product.content_root(build_version.os);
    r.append(build_version.version.as_str());
    r.append("_manifest.csv");
    r
}

/// URL of a build's chunk manifest.
pub fn get_build_manifest_chunks_url(product: &Product, build_version: &ProductVersion) -> (r: String)
    ensures
        r@ == content_root_of(product, build_version.os) + build_version.version@
            + "_manifest_chunks.csv"@,
{
    let mut r = product.content_root(build_version.os);
    r.append(build_version.version.as_str());
    r.append("_manifest_chunks.csv");
    r
}

/// URL of one chunk, by its identifier.
pub fn get_chunk_url(product: &Product, os: &BuildOs, chunk_sha: &String) -> (r: String)
    ensures
        r@ == content_root_of(product, *os) + chunk_sha@,
{
    let mut r = product.content_root(*os);
    r.append(chunk_sha.as_str());
    r
}

} // verus!
