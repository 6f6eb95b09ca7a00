//! Rows of the two manifests and their fields as the CSV tables hold them.
use vstd::prelude::*;
use crate::decimal::{
    decimal_of, digits_value, is_canonical_numeral, is_numeral, lemma_canonical_numeral,
    lemma_decimal_value, parse_decimal, write_decimal,
};
use crate::latin1::{
    from_latin1_str, lemma_latin1_round_trip, lemma_latin1_text_round_trip, narrowed, to_latin1_bytes, widened,
};
use crate::DIRECTORY_FLAGS;

verus! {

/// How a row of a delta manifest changed between two builds.
#[derive(Clone, Copy, Debug, PartialEq, Eq, Structural)]
pub enum ChangeTag {
    Added,
    Modified,
    Removed,
}

/// One row of a file manifest.
#[derive(Debug)]
pub struct BuildManifestRecord {
    pub size_in_bytes: usize,
    pub chunks: usize,
    pub sha: String,
    pub flags: u8,
    pub file_name: String,
    pub tag: Option<ChangeTag>,
}

/// What a file manifest row holds.
pub struct FileEntry {
    pub size_in_bytes: usize,
    pub chunks: usize,
    pub sha: Seq<char>,
    pub flags: u8,
    pub file_name: Seq<char>,
    pub tag: Option<ChangeTag>,
}

impl FileEntry {
    pub open spec fn is_directory(self) -> bool {
        self.flags == DIRECTORY_FLAGS
    }

    pub open spec fn is_empty(self) -> bool {
        self.size_in_bytes == 0
    }

    /// The same row under another tag.
    pub open spec fn with_tag(self, tag: Option<ChangeTag>) -> FileEntry {
        FileEntry { tag: tag, ..self }
    }
}

impl View for BuildManifestRecord {
    type V = FileEntry;

    open spec fn view(&self) -> FileEntry {
        FileEntry {
            size_in_bytes: self.size_in_bytes,
            chunks: self.chunks,
            sha: self.sha@,
            flags: self.flags,
            file_name: self.file_name@,
            tag: self.tag,
        }
    }
}

impl BuildManifestRecord {
    /// Whether the row stands for a directory.
    pub fn is_directory(&self) -> (r: bool)
        ensures
            r == self@.is_directory(),
    {
        self.flags == DIRECTORY_FLAGS
    }

    /// Whether the row stands for a file of no bytes.
    pub fn is_empty(&self) -> (r: bool)
        ensures
            r == self@.is_empty(),
    {
        self.size_in_bytes == 0
    }

    /// A copy of the row under another tag.
    pub fn with_tag(&self, tag: Option<ChangeTag>) -> (r: BuildManifestRecord)
        ensures
            r@ == self@.with_tag(tag),
    {
        BuildManifestRecord {
            size_in_bytes: self.size_in_bytes,
            chunks: self.chunks,
            sha: self.sha.clone(),
            flags: self.flags,
            file_name: self.file_name.clone(),
            tag,
        }
    }
}

/// One row of a chunk manifest.
#[derive(Debug)]
pub struct BuildManifestChunksRecord {
    pub id: u16,
    pub file_path: String,
    pub sha: String,
}

/// What a chunk manifest row holds.
pub struct ChunkEntry {
    pub id: u16,
    pub file_path: Seq<char>,
    pub sha: Seq<char>,
}

impl View for BuildManifestChunksRecord {
    type V = ChunkEntry;

    open spec fn view(&self) -> ChunkEntry {
        ChunkEntry { id: self.id, file_path: self.file_path@, sha: self.sha@ }
    }
}

impl BuildManifestChunksRecord {
    /// A copy of the row.
    pub fn copied(&self) -> (r: BuildManifestChunksRecord)
        ensures
            r@ == self@,
    {
        BuildManifestChunksRecord {
            id: self.id,
            file_path: self.file_path.clone(),
            sha: self.sha.clone(),
        }
    }
}

/// Whether every byte is ASCII.
pub open spec fn is_ascii_bytes(b: Seq<u8>) -> bool {
    forall|i: int| 0 <= i < b.len() ==> #[trigger] b[i] < 128
}

/// Whether every character is a Latin-1 code point (below 256).
pub open spec fn is_latin1_text(s: Seq<char>) -> bool {
    forall|i: int| 0 <= i < s.len() ==> (#[trigger] s[i] as u32) < 256
}

/// Whether every character is ASCII.
pub open spec fn is_ascii_text(s: Seq<char>) -> bool {
    forall|i: int| 0 <= i < s.len() ==> (#[trigger] s[i] as u32) < 128
}

/// The "Change Tag" field of each tag.
pub open spec fn tag_field(t: Option<ChangeTag>) -> Seq<u8> {
    match t {
        None => Seq::empty(),
        Some(ChangeTag::Added) => seq![65u8, 100, 100, 101, 100],
        Some(ChangeTag::Modified) => seq![77u8, 111, 100, 105, 102, 105, 101, 100],
        Some(ChangeTag::Removed) => seq![82u8, 101, 109, 111, 118, 101, 100],
    }
}

/// The tag that a "Change Tag" field reads as; `None` where it names none.
pub open spec fn parse_tag_field(b: Seq<u8>) -> Option<Option<ChangeTag>> {
    if b == tag_field(None) {
        Some(None)
    } else if b == tag_field(Some(ChangeTag::Added)) {
        Some(Some(ChangeTag::Added))
    } else if b == tag_field(Some(ChangeTag::Modified)) {
        Some(Some(ChangeTag::Modified))
    } else if b == tag_field(Some(ChangeTag::Removed)) {
        Some(Some(ChangeTag::Removed))
    } else {
        None
    }
}

/// Whether a field is a numeral of a value of at most `max`.
pub open spec fn is_number_field(b: Seq<u8>, max: nat) -> bool {
    is_numeral(b) && digits_value(b) <= max
}

/// What a file manifest row of five or six fields reads as; `None` where a
/// field does not parse. A missing sixth field reads as no tag.
pub open spec fn parse_file_fields(f: Seq<Seq<u8>>) -> Option<FileEntry> {
    if (f.len() == 5 || f.len() == 6) && is_number_field(f[0], usize::MAX as nat)
        && is_number_field(f[1], usize::MAX as nat) && is_ascii_bytes(f[2])
        && is_number_field(f[3], 255) && (f.len() == 5 || parse_tag_field(f[5]).is_some()) {
        Some(
            FileEntry {
                size_in_bytes: digits_value(f[0]) as usize,
                chunks: digits_value(f[1]) as usize,
                sha: widened(f[2]),
                flags: digits_value(f[3]) as u8,
                file_name: widened(f[4]),
                tag: if f.len() == 5 {
                    None
                } else {
                    parse_tag_field(f[5])->0
                },
            },
        )
    } else {
        None
    }
}

/// The six fields that a file manifest row is written as.
pub open spec fn file_fields(e: FileEntry) -> Seq<Seq<u8>> {
    seq![
        decimal_of(e.size_in_bytes as nat),
        decimal_of(e.chunks as nat),
        narrowed(e.sha),
        decimal_of(e.flags as nat),
        narrowed(e.file_name),
        tag_field(e.tag),
    ]
}

/// What a chunk manifest row of three fields reads as; `None` where a field
/// does not parse.
pub open spec fn parse_chunk_fields(f: Seq<Seq<u8>>) -> Option<ChunkEntry> {
    if f.len() == 3 && is_number_field(f[0], 65535) && is_ascii_bytes(f[2]) {
        Some(
            ChunkEntry {
                id: digits_value(f[0]) as u16,
                file_path: widened(f[1]),
                sha: widened(f[2]),
            },
        )
    } else {
        None
    }
}

/// The three fields that a chunk manifest row is written as.
pub open spec fn chunk_fields(e: ChunkEntry) -> Seq<Seq<u8>> {
    seq![decimal_of(e.id as nat), narrowed(e.file_path), narrowed(e.sha)]
}

/// Whether two byte strings are equal.
fn same_bytes(a: &[u8], b: &[u8]) -> (r: bool)
    ensures
        r == (a@ == b@),
{
    if a.len() != b.len() {
        return false;
    }
    let mut i: usize = 0;
    while i < a.len()
        invariant
            a@.len() == b@.len(),
            i <= a@.len(),
            forall|j: int| 0 <= j < i ==> a@[j] == b@[j],
        decreases a@.len() - i,
    {
        if a[i] != b[i] {
            return false;
        }
        i = i + 1;
    }
    assert(a@ =~= b@);
    true
}

/// Whether every byte is ASCII.
fn all_ascii(b: &[u8]) -> (r: bool)
    ensures
        r == is_ascii_bytes(b@),
{
    let mut i: usize = 0;
    while i < b.len()
        invariant
            i <= b@.len(),
            forall|j: int| 0 <= j < i ==> b@[j] < 128,
        decreases b@.len() - i,
    {
        if b[i] >= 128 {
            return false;
        }
        i = i + 1;
    }
    true
}

/// Writes a tag as its "Change Tag" field.
pub fn write_tag(t: Option<ChangeTag>) -> (r: Vec<u8>)
    ensures
        r@ == tag_field(t),
{
    let r: Vec<u8> = match t {
        None => Vec::new(),
        Some(ChangeTag::Added) => vec![65u8, 100, 100, 101, 100],
        Some(ChangeTag::Modified) => vec![77u8, 111, 100, 105, 102, 105, 101, 100],
        Some(ChangeTag::Removed) => vec![82u8, 101, 109, 111, 118, 101, 100],
    };
    assert(r@ =~= tag_field(t));
    r
}

/// Reads a "Change Tag" field.
pub fn parse_tag(b: &[u8]) -> (r: Option<Option<ChangeTag>>)
    ensures
        r == parse_tag_field(b@),
{
    if b.len() == 0 {
        assert(b@ =~= tag_field(None));
        return Some(None);
    }
    let added = write_tag(Some(ChangeTag::Added));
    if same_bytes(b, added.as_slice()) {
        return Some(Some(ChangeTag::Added));
    }
    let modified = write_tag(Some(ChangeTag::Modified));
    if same_bytes(b, modified.as_slice()) {
        return Some(Some(ChangeTag::Modified));
    }
    let removed = write_tag(Some(ChangeTag::Removed));
    if same_bytes(b, removed.as_slice()) {
        return Some(Some(ChangeTag::Removed));
    }
    None
}

/// Reads one file manifest row from its fields.
pub fn decode_file_row(f: &Vec<Vec<u8>>) -> (r: Option<BuildManifestRecord>)
    ensures
        r matches Some(rec) ==> parse_file_fields(f.deep_view()) == Some(rec@),
        r is None ==> parse_file_fields(f.deep_view()) is None,
{
    proof {
        assert forall|i: int| 0 <= i < f.len() implies f.deep_view()[i] == #[trigger] f@[i]@ by {}
    }
    if f.len() != 5 && f.len() != 6 {
        return None;
    }
    let size = parse_decimal(f[0].as_slice(), usize::MAX as u64);
    let chunks = parse_decimal(f[1].as_slice(), usize::MAX as u64);
    let flags = parse_decimal(f[3].as_slice(), 255);
    let sha_ok = all_ascii(f[2].as_slice());
    let tag = if f.len() == 6 {
        parse_tag(f[5].as_slice())
    } else {
        Some(None)
    };
    match (size, chunks, flags, tag) {
        (Some(size), Some(chunks), Some(flags), Some(tag)) => {
            if !sha_ok {
                return None;
            }
            let rec = BuildManifestRecord {
                size_in_bytes: size as usize,
                chunks: chunks as usize,
                sha: from_latin1_str(f[2].as_slice()),
                flags: flags as u8,
                file_name: from_latin1_str(f[4].as_slice()),
                tag,
            };
            Some(rec)
        },
        _ => None,
    }
}

/// Writes one file manifest row as its six fields.
pub fn encode_file_row(rec: &BuildManifestRecord) -> (r: Vec<Vec<u8>>)
    ensures
        r.deep_view() == file_fields(rec@),
{
    let mut r: Vec<Vec<u8>> = Vec::new();
    r.push(write_decimal(rec.size_in_bytes as u64));
    r.push(write_decimal(rec.chunks as u64));
    r.push(to_latin1_bytes(rec.sha.as_str()));
    r.push(write_decimal(rec.flags as u64));
    r.push(to_latin1_bytes(rec.file_name.as_str()));
    r.push(write_tag(rec.tag));
    assert forall|i: int| 0 <= i < r.len() implies r.deep_view()[i] == #[trigger] r@[i]@ by {}
    assert(r.deep_view() =~= file_fields(rec@));
    r
}

/// Reads one chunk manifest row from its fields.
pub fn decode_chunk_row(f: &Vec<Vec<u8>>) -> (r: Option<BuildManifestChunksRecord>)
    ensures
        r matches Some(rec) ==> parse_chunk_fields(f.deep_view()) == Some(rec@),
        r is None ==> parse_chunk_fields(f.deep_view()) is None,
{
    proof {
        assert forall|i: int| 0 <= i < f.len() implies f.deep_view()[i] == #[trigger] f@[i]@ by {}
    }
    if f.len() != 3 {
        return None;
    }
    let id = parse_decimal(f[0].as_slice(), 65535);
    if !all_ascii(f[2].as_slice()) {
        return None;
    }
    match id {
        Some(id) => Some(
            BuildManifestChunksRecord {
                id: id as u16,
                file_path: from_latin1_str(f[1].as_slice()),
                sha: from_latin1_str(f[2].as_slice()),
            },
        ),
        None => None,
    }
}

/// Writes one chunk manifest row as its three fields.
pub fn encode_chunk_row(rec: &BuildManifestChunksRecord) -> (r: Vec<Vec<u8>>)
    ensures
        r.deep_view() == chunk_fields(rec@),
{
    let mut r: Vec<Vec<u8>> = Vec::new();
    r.push(write_decimal(rec.id as u64));
    r.push(to_latin1_bytes(rec.file_path.as_str()));
    r.push(to_latin1_bytes(rec.sha.as_str()));
    assert forall|i: int| 0 <= i < r.len() implies r.deep_view()[i] == #[trigger] r@[i]@ by {}
    assert(r.deep_view() =~= chunk_fields(rec@));
    r
}

/// Narrowing ASCII text gives ASCII bytes.
proof fn lemma_ascii_narrowed(s: Seq<char>)
    requires
        is_ascii_text(s),
    ensures
        is_ascii_bytes(narrowed(s)),
        is_latin1_text(s),
{
    assert forall|i: int| 0 <= i < narrowed(s).len() implies #[trigger] narrowed(s)[i] < 128 by {
        assert((s[i] as u32) < 128);
    }
}

/// Every tag survives being written and read back.
pub proof fn lemma_tag_round_trip(t: Option<ChangeTag>)
    ensures
        parse_tag_field(tag_field(t)) == Some(t),
{
    let a = tag_field(Some(ChangeTag::Added));
    let m = tag_field(Some(ChangeTag::Modified));
    let r = tag_field(Some(ChangeTag::Removed));
    assert(a.len() != m.len() && a.len() != r.len() && m.len() != r.len());
    assert(a != tag_field(None) && m != tag_field(None) && r != tag_field(None));
}

/// Decoding undoes encoding: a file manifest row whose hash is ASCII and whose
/// name is Latin-1 text reads back as the same row.
pub proof fn lemma_file_row_round_trip(e: FileEntry)
    requires
        is_ascii_text(e.sha),
        is_latin1_text(e.file_name),
    ensures
        parse_file_fields(file_fields(e)) == Some(e),
{
    let f = file_fields(e);
    lemma_decimal_value(e.size_in_bytes as nat);
    lemma_decimal_value(e.chunks as nat);
    lemma_decimal_value(e.flags as nat);
    lemma_ascii_narrowed(e.sha);
    lemma_latin1_text_round_trip(e.sha);
    lemma_latin1_text_round_trip(e.file_name);
    lemma_tag_round_trip(e.tag);
    assert(f[0] == decimal_of(e.size_in_bytes as nat));
    assert(f[1] == decimal_of(e.chunks as nat));
    assert(f[3] == decimal_of(e.flags as nat));
    assert(f[5] == tag_field(e.tag));
}

/// Encoding undoes decoding: a file manifest row with canonical numerals
/// that reads as some row is written back field for field, with an empty
/// "Change Tag" field appended where the row had none.
pub proof fn lemma_file_fields_round_trip(f: Seq<Seq<u8>>)
    requires
        parse_file_fields(f) is Some,
        is_canonical_numeral(f[0]),
        is_canonical_numeral(f[1]),
        is_canonical_numeral(f[3]),
    ensures
        file_fields(parse_file_fields(f)->0) == (if f.len() == 6 {
            f
        } else {
            f.push(Seq::empty())
        }),
{
    let e = parse_file_fields(f)->0;
    lemma_canonical_numeral(f[0]);
    lemma_canonical_numeral(f[1]);
    lemma_canonical_numeral(f[3]);
    lemma_latin1_round_trip(f[2]);
    lemma_latin1_round_trip(f[4]);
    if f.len() == 6 {
        let t = parse_tag_field(f[5]);
        assert(tag_field(t->0) == f[5]);
        assert(file_fields(e) =~= f);
    } else {
        assert(file_fields(e) =~= f.push(Seq::empty()));
    }
}

/// A file name's bytes, 0x80 to 0xFF included, are written back exactly as
/// they were read.
pub proof fn lemma_file_name_bytes_survive(f: Seq<Seq<u8>>)
    requires
        parse_file_fields(f) is Some,
    ensures
        file_fields(parse_file_fields(f)->0)[4] == f[4],
{
    lemma_latin1_round_trip(f[4]);
}

/// Decoding undoes encoding for a chunk manifest row whose path is Latin-1
/// text and whose identifier is ASCII.
pub proof fn lemma_chunk_row_round_trip(e: ChunkEntry)
    requires
        is_latin1_text(e.file_path),
        is_ascii_text(e.sha),
    ensures
        parse_chunk_fields(chunk_fields(e)) == Some(e),
{
    lemma_decimal_value(e.id as nat);
    lemma_ascii_narrowed(e.sha);
    lemma_latin1_text_round_trip(e.sha);
    lemma_latin1_text_round_trip(e.file_path);
    assert(chunk_fields(e)[0] == decimal_of(e.id as nat));
}

/// Encoding undoes decoding for a chunk manifest row with a canonical id.
pub proof fn lemma_chunk_fields_round_trip(f: Seq<Seq<u8>>)
    requires
        parse_chunk_fields(f) is Some,
        is_canonical_numeral(f[0]),
    ensures
        chunk_fields(parse_chunk_fields(f)->0) == f,
{
    lemma_canonical_numeral(f[0]);
    lemma_latin1_round_trip(f[1]);
    lemma_latin1_round_trip(f[2]);
    assert(chunk_fields(parse_chunk_fields(f)->0) =~= f);
}

} // verus!
