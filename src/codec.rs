//! The two manifests as CSV tables: a header row, then one row per entry.
use vstd::prelude::*;
use crate::delta::{
    chunk_delta, chunk_entries, compute_chunk_delta, compute_file_delta, file_delta, file_entries,
};
use crate::error::InstallError;
use crate::latin1::{narrowed, to_latin1_bytes};
use crate::manifest::{
    chunk_fields, decode_chunk_row, decode_file_row, encode_chunk_row, encode_file_row,
    file_fields, parse_chunk_fields, parse_file_fields, BuildManifestChunksRecord,
    BuildManifestRecord, ChunkEntry, FileEntry,
};

verus! {

/// The records that a CSV text holds after its header row, each a sequence
/// of fields; `None` where the text is not well-formed CSV.
pub uninterp spec fn csv_rows_of(data: Seq<u8>) -> Option<Seq<Seq<Seq<u8>>>>;

/// The CSV text that a sequence of records is written as.
pub uninterp spec fn csv_text_of(rows: Seq<Seq<Seq<u8>>>) -> Seq<u8>;

/// Relies on `csv::Reader::byte_records`: the records after the header
/// row, their fields as bytes, or an error for malformed CSV.
#[verifier::external_body]
fn read_csv_rows(data: &[u8]) -> (r: Option<Vec<Vec<Vec<u8>>>>)
    ensures
        r matches Some(rows) ==> csv_rows_of(data@) == Some(rows.deep_view()),
        r is None ==> csv_rows_of(data@) is None,
{
    let mut rdr = csv::Reader::from_reader(data);
    let mut rows: Vec<Vec<Vec<u8>>> = Vec::new();
    for rec in rdr.byte_records() {
        match rec {
            Ok(rec) => rows.push(rec.iter().map(|f| f.to_vec()).collect()),
            Err(_) => return None,
        }
    }
    Some(rows)
}

/// Relies on `csv::Writer::write_record` and `Writer::into_inner`: each
/// record written as one CSV row. Into a `Vec` nothing fails on output, so
/// the writer fails only where a record's field count differs from the
/// first record's.
#[verifier::external_body]
fn write_csv_rows(rows: &Vec<Vec<Vec<u8>>>) -> (r: Option<Vec<u8>>)
    ensures
        r matches Some(b) ==> b@ == csv_text_of(rows.deep_view()),
        (forall|i: int|
            0 <= i < rows.deep_view().len() ==> (#[trigger] rows.deep_view()[i]).len()
                == rows.deep_view()[0].len()) ==> r is Some,
{
    let mut wtr = csv::Writer::from_writer(Vec::new());
    for row in rows.iter() {
        if wtr.write_record(row).is_err() {
            return None;
        }
    }
    wtr.into_inner().ok()
}

/// Whether every record reads as a file manifest row.
pub open spec fn all_file_rows(rows: Seq<Seq<Seq<u8>>>) -> bool {
    forall|i: int| 0 <= i < rows.len() ==> (#[trigger] parse_file_fields(rows[i])) is Some
}

/// Whether every record reads as a chunk manifest row.
pub open spec fn all_chunk_rows(rows: Seq<Seq<Seq<u8>>>) -> bool {
    forall|i: int| 0 <= i < rows.len() ==> (#[trigger] parse_chunk_fields(rows[i])) is Some
}

/// The file manifest that a CSV text holds; `None` where the text or a row
/// is malformed.
pub open spec fn decoded_file_manifest(data: Seq<u8>) -> Option<Seq<FileEntry>> {
    match csv_rows_of(data) {
        Some(rows) => if all_file_rows(rows) {
            Some(rows.map_values(|f: Seq<Seq<u8>>| parse_file_fields(f)->0))
        } else {
            None
        },
        None => None,
    }
}

/// The chunk manifest that a CSV text holds; `None` where the text or a row
/// is malformed.
pub open spec fn decoded_chunk_manifest(data: Seq<u8>) -> Option<Seq<ChunkEntry>> {
    match csv_rows_of(data) {
        Some(rows) => if all_chunk_rows(rows) {
            Some(rows.map_values(|f: Seq<Seq<u8>>| parse_chunk_fields(f)->0))
        } else {
            None
        },
        None => None,
    }
}

/// The header row of a file manifest.
pub open spec fn file_header() -> Seq<Seq<u8>> {
    seq![
        narrowed("Size in Bytes"@),
        narrowed("Chunks"@),
        narrowed("SHA"@),
        narrowed("Flags"@),
        narrowed("File Name"@),
        narrowed("Change Tag"@),
    ]
}

/// The header row of a chunk manifest.
pub open spec fn chunk_header() -> Seq<Seq<u8>> {
    seq![narrowed("ID"@), narrowed("Filepath"@), narrowed("Chunk SHA"@)]
}

/// The records that a file manifest is written as, header first.
pub open spec fn file_manifest_rows(fm: Seq<FileEntry>) -> Seq<Seq<Seq<u8>>> {
    seq![file_header()] + fm.map_values(|e: FileEntry| file_fields(e))
}

/// The records that a chunk manifest is written as, header first.
pub open spec fn chunk_manifest_rows(cm: Seq<ChunkEntry>) -> Seq<Seq<Seq<u8>>> {
    seq![chunk_header()] + cm.map_values(|e: ChunkEntry| chunk_fields(e))
}

/// Reads a file manifest; fails with `ManifestDecode` exactly where the CSV
/// text or one of its rows is malformed.
pub fn decode_build_manifest(data: &[u8]) -> (r: Result<Vec<BuildManifestRecord>, InstallError>)
    ensures
        match r {
            Ok(v) => decoded_file_manifest(data@) == Some(file_entries(v@)),
            Err(e) => e == InstallError::ManifestDecode && decoded_file_manifest(data@) is None,
        },
{
    let rows = match read_csv_rows(data) {
        Some(rows) => rows,
        None => return Err(InstallError::ManifestDecode),
    };
    let ghost dv = rows.deep_view();
    let mut out: Vec<BuildManifestRecord> = Vec::new();
    let mut i: usize = 0;
    while i < rows.len()
        invariant
            dv == rows.deep_view(),
            csv_rows_of(data@) == Some(dv),
            i <= rows@.len(),
            out@.len() == i,
            forall|j: int| 0 <= j < i ==> (#[trigger] parse_file_fields(dv[j])) == Some(out@[j]@),
        decreases rows@.len() - i,
    {
        match decode_file_row(&rows[i]) {
            Some(rec) => out.push(rec),
            None => {
                assert(dv[i as int] == rows@[i as int].deep_view());
                assert(parse_file_fields(dv[i as int]) is None);
                assert(!all_file_rows(dv));
                return Err(InstallError::ManifestDecode);
            },
        }
        assert(dv[i as int] == rows@[i as int].deep_view());
        i = i + 1;
    }
    assert(all_file_rows(dv));
    assert(file_entries(out@) =~= dv.map_values(|f: Seq<Seq<u8>>| parse_file_fields(f)->0));
    Ok(out)
}

/// Reads a chunk manifest; fails with `ManifestDecode` exactly where the
/// CSV text or one of its rows is malformed.
pub fn decode_build_manifest_chunks(data: &[u8]) -> (r: Result<
    Vec<BuildManifestChunksRecord>,
    InstallError,
>)
    ensures
        match r {
            Ok(v) => decoded_chunk_manifest(data@) == Some(chunk_entries(v@)),
            Err(e) => e == InstallError::ManifestDecode && decoded_chunk_manifest(data@) is None,
        },
{
    let rows = match read_csv_rows(data) {
        Some(rows) => rows,
        None => return Err(InstallError::ManifestDecode),
    };
    let ghost dv = rows.deep_view();
    let mut out: Vec<BuildManifestChunksRecord> = Vec::new();
    let mut i: usize = 0;
    while i < rows.len()
        invariant
            dv == rows.deep_view(),
            csv_rows_of(data@) == Some(dv),
            i <= rows@.len(),
            out@.len() == i,
            forall|j: int| 0 <= j < i ==> (#[trigger] parse_chunk_fields(dv[j])) == Some(out@[j]@),
        decreases rows@.len() - i,
    {
        match decode_chunk_row(&rows[i]) {
            Some(rec) => out.push(rec),
            None => {
                assert(dv[i as int] == rows@[i as int].deep_view());
                assert(parse_chunk_fields(dv[i as int]) is None);
                assert(!all_chunk_rows(dv));
                return Err(InstallError::ManifestDecode);
            },
        }
        assert(dv[i as int] == rows@[i as int].deep_view());
        i = i + 1;
    }
    assert(all_chunk_rows(dv));
    assert(chunk_entries(out@) =~= dv.map_values(|f: Seq<Seq<u8>>| parse_chunk_fields(f)->0));
    Ok(out)
}

/// Writes a file manifest as CSV, header first.
pub fn encode_build_manifest(records: &[BuildManifestRecord]) -> (r: Option<Vec<u8>>)
    ensures
        r is Some,
        r matches Some(b) ==> b@ == csv_text_of(file_manifest_rows(file_entries(records@))),
{
    let mut rows: Vec<Vec<Vec<u8>>> = Vec::new();
    let mut header: Vec<Vec<u8>> = Vec::new();
    header.push(to_latin1_bytes("Size in Bytes"));
    header.push(to_latin1_bytes("Chunks"));
    header.push(to_latin1_bytes("SHA"));
    header.push(to_latin1_bytes("Flags"));
    header.push(to_latin1_bytes("File Name"));
    header.push(to_latin1_bytes("Change Tag"));
    assert forall|k: int| 0 <= k < header.len() implies header.deep_view()[k] == #[trigger] header@[k]@ by {}
    assert(header.deep_view() =~= file_header());
    rows.push(header);
    let mut i: usize = 0;
    while i < records.len()
        invariant
            i <= records@.len(),
            rows.deep_view() =~= file_manifest_rows(file_entries(records@.subrange(0, i as int))),
        decreases records@.len() - i,
    {
        let ghost before = rows.deep_view();
        let row = encode_file_row(&records[i]);
        rows.push(row);
        assert forall|k: int| 0 <= k < rows.len() implies rows.deep_view()[k] == #[trigger] rows@[k].deep_view() by {}
        assert(rows.deep_view() =~= before.push(row.deep_view()));
        i = i + 1;
        assert(file_entries(records@.subrange(0, i as int)) =~= file_entries(
            records@.subrange(0, i - 1),
        ).push(records@[i - 1]@));
    }
    assert(records@.subrange(0, records@.len() as int) =~= records@);
    proof {
        let dv = rows.deep_view();
        assert forall|i: int| 0 <= i < dv.len() implies (#[trigger] dv[i]).len() == dv[0].len() by {
            if i > 0 {
                assert(dv[i] == dv.subrange(1, dv.len() as int)[i - 1]);
            }
        }
    }
    write_csv_rows(&rows)
}

/// Writes a chunk manifest as CSV, header first.
pub fn encode_build_manifest_chunks(records: &[BuildManifestChunksRecord]) -> (r: Option<Vec<u8>>)
    ensures
        r is Some,
        r matches Some(b) ==> b@ == csv_text_of(chunk_manifest_rows(chunk_entries(records@))),
{
    let mut rows: Vec<Vec<Vec<u8>>> = Vec::new();
    let mut header: Vec<Vec<u8>> = Vec::new();
    header.push(to_latin1_bytes("ID"));
    header.push(to_latin1_bytes("Filepath"));
    header.push(to_latin1_bytes("Chunk SHA"));
    assert forall|k: int| 0 <= k < header.len() implies header.deep_view()[k] == #[trigger] header@[k]@ by {}
    assert(header.deep_view() =~= chunk_header());
    rows.push(header);
    let mut i: usize = 0;
    while i < records.len()
        invariant
            i <= records@.len(),
            rows.deep_view() =~= chunk_manifest_rows(chunk_entries(records@.subrange(0, i as int))),
        decreases records@.len() - i,
    {
        let ghost before = rows.deep_view();
        let row = encode_chunk_row(&records[i]);
        rows.push(row);
        assert forall|k: int| 0 <= k < rows.len() implies rows.deep_view()[k] == #[trigger] rows@[k].deep_view() by {}
        assert(rows.deep_view() =~= before.push(row.deep_view()));
        i = i + 1;
        assert(chunk_entries(records@.subrange(0, i as int)) =~= chunk_entries(
            records@.subrange(0, i - 1),
        ).push(records@[i - 1]@));
    }
    assert(records@.subrange(0, records@.len() as int) =~= records@);
    proof {
        let dv = rows.deep_view();
        assert forall|i: int| 0 <= i < dv.len() implies (#[trigger] dv[i]).len() == dv[0].len() by {
            if i > 0 {
                assert(dv[i] == dv.subrange(1, dv.len() as int)[i - 1]);
            }
        }
    }
    write_csv_rows(&rows)
}

/// The delta manifest from one build's file manifest to another's, as CSV.
/// Fails with `ManifestDecode` exactly where either input is malformed.
pub fn generate_delta_manifest(old_manifest: &[u8], new_manifest: &[u8]) -> (r: Result<
    Vec<u8>,
    InstallError,
>)
    ensures
        (decoded_file_manifest(old_manifest@) is None || decoded_file_manifest(new_manifest@) is None)
            <==> r is Err,
        r matches Err(e) ==> e == InstallError::ManifestDecode,
        r matches Ok(b) ==> b@ == csv_text_of(
            file_manifest_rows(
                file_delta(
                    decoded_file_manifest(old_manifest@)->0,
                    decoded_file_manifest(new_manifest@)->0,
                ),
            ),
        ),
{
    let old = decode_build_manifest(old_manifest)?;
    let new = decode_build_manifest(new_manifest)?;
    let delta = compute_file_delta(old.as_slice(), new.as_slice());
    match encode_build_manifest(delta.as_slice()) {
        Some(b) => Ok(b),
        None => Err(InstallError::ManifestDecode),
    }
}

/// The chunk manifest of an update, as CSV: the rows of the new chunk
/// manifest that the delta manifest asks for. Fails with `ManifestDecode`
/// exactly where either input is malformed.
pub fn generate_delta_chunks_manifest(delta_manifest: &[u8], new_chunks: &[u8]) -> (r: Result<
    Vec<u8>,
    InstallError,
>)
    ensures
        (decoded_file_manifest(delta_manifest@) is None || decoded_chunk_manifest(new_chunks@) is None)
            <==> r is Err,
        r matches Err(e) ==> e == InstallError::ManifestDecode,
        r matches Ok(b) ==> b@ == csv_text_of(
            chunk_manifest_rows(
                chunk_delta(
                    decoded_file_manifest(delta_manifest@)->0,
                    decoded_chunk_manifest(new_chunks@)->0,
                ),
            ),
        ),
{
    let delta = decode_build_manifest(delta_manifest)?;
    let chunks = decode_build_manifest_chunks(new_chunks)?;
    let out = compute_chunk_delta(delta.as_slice(), chunks.as_slice());
    match encode_build_manifest_chunks(out.as_slice()) {
        Some(b) => Ok(b),
        None => Err(InstallError::ManifestDecode),
    }
}

} // verus!
