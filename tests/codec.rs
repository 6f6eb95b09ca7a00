use carnival::codec::{
    decode_build_manifest, decode_build_manifest_chunks, encode_build_manifest,
    encode_build_manifest_chunks, generate_delta_chunks_manifest, generate_delta_manifest,
};
use carnival::decimal::{parse_decimal, write_decimal};
use carnival::error::InstallError;
use carnival::latin1::{from_latin1_str, to_latin1_bytes};
use carnival::manifest::{
    decode_file_row, encode_file_row, BuildManifestRecord, ChangeTag,
};

const ABC_SHA: &str = "ba7816bf8f01cfea414140de5dae2223b00361a396177a9cb410ff61f20015ad";

fn fields(items: &[&[u8]]) -> Vec<Vec<u8>> {
    items.iter().map(|f| f.to_vec()).collect()
}

#[test]
fn latin1_bytes_round_trip() {
    let bytes: Vec<u8> = vec![b'a', 0x80, 0xe9, 0xff, b'/', b'x'];
    let text = from_latin1_str(&bytes);
    assert_eq!(text.chars().count(), 6);
    assert_eq!(text.chars().nth(2), Some('\u{e9}'));
    assert_eq!(to_latin1_bytes(&text), bytes);
}

#[test]
fn decimal_fields() {
    assert_eq!(parse_decimal(b"1048576", u64::MAX), Some(1048576));
    assert_eq!(parse_decimal(b"", 10), None);
    assert_eq!(parse_decimal(b"12a", 1000), None);
    assert_eq!(parse_decimal(b"256", 255), None);
    assert_eq!(parse_decimal(b"255", 255), Some(255));
    assert_eq!(parse_decimal(b"18446744073709551616", u64::MAX), None);
    assert_eq!(write_decimal(0), b"0".to_vec());
    assert_eq!(write_decimal(40), b"40".to_vec());
}

#[test]
fn file_row_with_and_without_tag() {
    let five = fields(&[b"3", b"1", ABC_SHA.as_bytes(), b"0", b"a.txt"]);
    let rec = decode_file_row(&five).unwrap();
    assert_eq!(rec.size_in_bytes, 3);
    assert_eq!(rec.chunks, 1);
    assert_eq!(rec.sha, ABC_SHA);
    assert_eq!(rec.file_name, "a.txt");
    assert_eq!(rec.tag, None);
    let mut six = five.clone();
    six.push(Vec::new());
    assert_eq!(encode_file_row(&rec), six);

    let tagged = fields(&[b"0", b"0", b"", b"40", b"sub", b"Removed"]);
    let rec = decode_file_row(&tagged).unwrap();
    assert!(rec.is_directory());
    assert!(rec.is_empty());
    assert_eq!(rec.tag, Some(ChangeTag::Removed));
    assert_eq!(encode_file_row(&rec), tagged);

    assert!(decode_file_row(&fields(&[b"x", b"1", b"", b"0", b"a"])).is_none());
    assert!(decode_file_row(&fields(&[b"1", b"1", b"", b"0", b"a", b"Gone"])).is_none());
    assert!(decode_file_row(&fields(&[b"1", b"1", b"", b"0"])).is_none());
    assert!(decode_file_row(&fields(&[b"1", b"1", b"", b"300", b"a"])).is_none());
}

#[test]
fn manifest_round_trip() {
    let csv = b"Size in Bytes,Chunks,SHA,Flags,File Name,Change Tag\n0,0,,40,sub,\n2,1,abc,0,sub/b.bin,Added\n".to_vec();
    let records = decode_build_manifest(&csv).unwrap();
    assert_eq!(records.len(), 2);
    assert_eq!(records[1].file_name, "sub/b.bin");
    assert_eq!(records[1].tag, Some(ChangeTag::Added));
    assert_eq!(encode_build_manifest(&records).unwrap(), csv);
}

#[test]
fn manifest_without_change_tag_column() {
    let csv = b"Size in Bytes,Chunks,SHA,Flags,File Name\n3,1,abc,0,a.txt\n".to_vec();
    let records = decode_build_manifest(&csv).unwrap();
    assert_eq!(records.len(), 1);
    assert_eq!(records[0].tag, None);
    let written = encode_build_manifest(&records).unwrap();
    assert_eq!(
        written,
        b"Size in Bytes,Chunks,SHA,Flags,File Name,Change Tag\n3,1,abc,0,a.txt,\n".to_vec()
    );
    let again = decode_build_manifest(&written).unwrap();
    assert_eq!(again[0].file_name, "a.txt");
    assert_eq!(again[0].tag, None);
}

#[test]
fn high_bytes_in_file_name_survive() {
    let mut csv = b"Size in Bytes,Chunks,SHA,Flags,File Name,Change Tag\n1,1,ff,0,caf".to_vec();
    csv.push(0xe9);
    csv.push(0x80);
    csv.extend_from_slice(b".txt,\n");
    let records = decode_build_manifest(&csv).unwrap();
    assert_eq!(records[0].file_name, "caf\u{e9}\u{80}.txt");
    let written = encode_build_manifest(&records).unwrap();
    let again = decode_build_manifest(&written).unwrap();
    assert_eq!(again[0].file_name, records[0].file_name);
    assert!(written.windows(2).any(|w| w == [0xe9, 0x80]));
}

#[test]
fn malformed_manifest_is_rejected() {
    let csv = b"Size in Bytes,Chunks,SHA,Flags,File Name\nthree,1,abc,0,a.txt\n".to_vec();
    assert_eq!(decode_build_manifest(&csv).err(), Some(InstallError::ManifestDecode));
    let ragged = b"Size in Bytes,Chunks,SHA,Flags,File Name\n3,1,abc\n".to_vec();
    assert_eq!(decode_build_manifest(&ragged).err(), Some(InstallError::ManifestDecode));
    let chunks = b"ID,Filepath,Chunk SHA\n70000,a.txt,x_0_y\n".to_vec();
    assert_eq!(decode_build_manifest_chunks(&chunks).err(), Some(InstallError::ManifestDecode));
}

#[test]
fn chunk_manifest_round_trip() {
    let csv = b"ID,Filepath,Chunk SHA\n0,a.txt,f_0_aa\n1,a.txt,f_1_bb\n".to_vec();
    let chunks = decode_build_manifest_chunks(&csv).unwrap();
    assert_eq!(chunks.len(), 2);
    assert_eq!(chunks[1].id, 1);
    assert_eq!(chunks[1].sha, "f_1_bb");
    assert_eq!(encode_build_manifest_chunks(&chunks).unwrap(), csv);
}

#[test]
fn delta_manifest_bytes() {
    let old = b"Size in Bytes,Chunks,SHA,Flags,File Name\n1,1,X,0,a.txt\n1,1,Y,0,b.txt\n".to_vec();
    let new = b"Size in Bytes,Chunks,SHA,Flags,File Name\n1,1,X,0,a.txt\n1,1,Z,0,b.txt\n1,1,W,0,c.txt\n".to_vec();
    let delta = generate_delta_manifest(&old, &new).unwrap();
    assert_eq!(
        delta,
        b"Size in Bytes,Chunks,SHA,Flags,File Name,Change Tag\n1,1,Z,0,b.txt,Modified\n1,1,W,0,c.txt,Added\n".to_vec()
    );
    let chunks = b"ID,Filepath,Chunk SHA\n0,a.txt,X_0_a\n0,b.txt,Z_0_b\n0,c.txt,W_0_c\n".to_vec();
    let delta_chunks = generate_delta_chunks_manifest(&delta, &chunks).unwrap();
    assert_eq!(delta_chunks, b"ID,Filepath,Chunk SHA\n0,b.txt,Z_0_b\n0,c.txt,W_0_c\n".to_vec());
    assert_eq!(
        generate_delta_manifest(b"bad\n\"", &new).err(),
        Some(InstallError::ManifestDecode)
    );
}

#[test]
fn record_with_tag_copies_fields() {
    let rec = BuildManifestRecord {
        size_in_bytes: 5,
        chunks: 1,
        sha: "s".to_string(),
        flags: 0,
        file_name: "f".to_string(),
        tag: None,
    };
    let tagged = rec.with_tag(Some(ChangeTag::Modified));
    assert_eq!(tagged.size_in_bytes, 5);
    assert_eq!(tagged.sha, "s");
    assert_eq!(tagged.file_name, "f");
    assert_eq!(tagged.tag, Some(ChangeTag::Modified));
}
