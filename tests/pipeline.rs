use carnival::delta::{compute_chunk_delta, compute_file_delta};
use carnival::error::InstallError;
use carnival::hash::{accept_chunk, chunk_content_sha, digest_matches, verify_chunk};
use carnival::manifest::{BuildManifestChunksRecord, BuildManifestRecord, ChangeTag};
use carnival::plan::{
    build_write_plan, default_max_download_workers, files_to_verify, manifest_sizes, memory_permits, plan_tree,
    FsActionKind,
};
use carnival::writer::{Arrival, OrderedWriter};
use carnival::{DEFAULT_MAX_MEMORY_USAGE, MAX_CHUNK_SIZE};

const ABC_SHA: &str = "ba7816bf8f01cfea414140de5dae2223b00361a396177a9cb410ff61f20015ad";
const DEAD_SHA: &str = "59ca84fb79f2a7447b9e82c7412df58c688910cba202b7d4e9bf329ce07f931c";

fn file(name: &str, size: usize, chunks: usize, sha: &str, flags: u8, tag: Option<ChangeTag>) -> BuildManifestRecord {
    BuildManifestRecord {
        size_in_bytes: size,
        chunks,
        sha: sha.to_string(),
        flags,
        file_name: name.to_string(),
        tag,
    }
}

fn chunk(id: u16, path: &str, sha: &str) -> BuildManifestChunksRecord {
    BuildManifestChunksRecord { id, file_path: path.to_string(), sha: sha.to_string() }
}

fn arrival(id: u16, path: &str, sha: &str, bytes: &[u8]) -> Arrival<Vec<u8>> {
    Arrival { id, sha: sha.to_string(), file_path: path.to_string(), payload: bytes.to_vec() }
}

fn names(rows: &[BuildManifestRecord]) -> Vec<(String, Option<ChangeTag>, String)> {
    rows.iter().map(|r| (r.file_name.clone(), r.tag, r.sha.clone())).collect()
}

#[test]
fn chunk_hash_checks() {
    assert!(verify_chunk(b"abc", ABC_SHA));
    assert!(!verify_chunk(b"abd", ABC_SHA));
    assert!(verify_chunk(&[0xde, 0xad], DEAD_SHA));
    let digest = vec![0x0f, 0xa0];
    assert!(digest_matches(&digest, "0fa0"));
    assert!(!digest_matches(&digest, "0FA0"));
    assert_eq!(chunk_content_sha("fdigest_0_abc"), "abc");
    assert_eq!(chunk_content_sha("plain"), "plain");
    assert_eq!(chunk_content_sha("ends_"), "");
    let id = format!("fdigest_0_{}", ABC_SHA);
    assert!(accept_chunk(b"abc", &id, false));
    assert!(!accept_chunk(b"xyz", &id, false));
    assert!(accept_chunk(b"xyz", &id, true));
}

#[test]
fn tiny_install() {
    let fm = vec![file("a.txt", 3, 1, ABC_SHA, 0, None)];
    let id = format!("fdigest_0_{}", ABC_SHA);
    let cm = vec![chunk(0, "a.txt", &id)];
    let tree = plan_tree(&fm);
    assert_eq!(tree.actions.len(), 1);
    assert_eq!(tree.actions[0].kind, FsActionKind::CreateFile);
    assert_eq!(tree.actions[0].path, "a.txt");
    assert_eq!(tree.total_bytes, 3);
    let plan = build_write_plan(&tree.files, &cm).unwrap();
    assert!(plan[0].is_last);
    assert!(accept_chunk(b"abc", &id, false));
    let mut writer = OrderedWriter::new(plan);
    let ops = writer.receive(arrival(0, "a.txt", &id, b"abc"));
    assert_eq!(ops.len(), 1);
    assert_eq!(ops[0].file_path, "a.txt");
    assert_eq!(ops[0].payload, vec![0x61, 0x62, 0x63]);
    assert!(ops[0].close);
    assert_eq!(writer.finish(), Ok(()));
    assert_eq!(writer.outcome(false, false), Ok(()));
    assert!(verify_chunk(&ops[0].payload, &fm[0].sha));
}

#[test]
fn directory_creation() {
    let fm = vec![file("sub", 0, 0, "", 40, None), file("sub/b.bin", 2, 1, DEAD_SHA, 0, None)];
    let tree = plan_tree(&fm);
    let kinds: Vec<(FsActionKind, String)> = tree.actions.iter().map(|a| (a.kind, a.path.clone())).collect();
    assert_eq!(
        kinds,
        vec![(FsActionKind::CreateDir, "sub".to_string()), (FsActionKind::CreateFile, "sub/b.bin".to_string())]
    );
    assert_eq!(tree.files.len(), 1);
    let cm = vec![chunk(0, "sub/b.bin", &format!("d_0_{}", DEAD_SHA))];
    let plan = build_write_plan(&tree.files, &cm).unwrap();
    let mut writer = OrderedWriter::new(plan);
    let ops = writer.receive(arrival(0, "sub/b.bin", &cm[0].sha, &[0xde, 0xad]));
    assert_eq!(ops[0].payload.len(), 2);
    assert_eq!(writer.finish(), Ok(()));
}

#[test]
fn two_chunk_ordering() {
    let fm = vec![file("big.bin", MAX_CHUNK_SIZE + 1, 2, "f", 0, None)];
    let cm = vec![chunk(0, "big.bin", "f_0_a"), chunk(1, "big.bin", "f_1_b")];
    let tree = plan_tree(&fm);
    let plan = build_write_plan(&tree.files, &cm).unwrap();
    assert!(!plan[0].is_last);
    assert!(plan[1].is_last);
    let mut writer = OrderedWriter::new(plan);
    let first = vec![1u8; MAX_CHUNK_SIZE];
    let ops = writer.receive(arrival(1, "big.bin", "f_1_b", &[2u8]));
    assert!(ops.is_empty());
    assert_eq!(writer.finish(), Err(InstallError::Truncated));
    let ops = writer.receive(arrival(0, "big.bin", "f_0_a", &first));
    assert_eq!(ops.len(), 2);
    assert_eq!(ops[0].payload, first);
    assert!(!ops[0].close);
    assert_eq!(ops[1].payload, vec![2u8]);
    assert!(ops[1].close);
    let mut assembled: Vec<u8> = Vec::new();
    for op in &ops {
        assembled.extend_from_slice(&op.payload);
    }
    assert_eq!(assembled.len(), MAX_CHUNK_SIZE + 1);
    assert_eq!(assembled[MAX_CHUNK_SIZE - 1], 1);
    assert_eq!(assembled[MAX_CHUNK_SIZE], 2);
    assert_eq!(writer.finish(), Ok(()));
}

#[test]
fn repeated_chunk_hash_in_one_file() {
    let fm = vec![file("pak", 3, 3, "f", 0, None)];
    let cm = vec![chunk(0, "pak", "same"), chunk(1, "pak", "same"), chunk(2, "pak", "other")];
    let tree = plan_tree(&fm);
    let plan = build_write_plan(&tree.files, &cm).unwrap();
    let mut writer = OrderedWriter::new(plan);
    assert!(writer.receive(arrival(2, "pak", "other", b"c")).is_empty());
    assert!(writer.receive(arrival(1, "pak", "same", b"b")).is_empty());
    let ops = writer.receive(arrival(0, "pak", "same", b"a"));
    let bytes: Vec<u8> = ops.iter().flat_map(|o| o.payload.clone()).collect();
    assert_eq!(bytes, b"abc".to_vec());
    assert!(ops[2].close);
}

#[test]
fn corrupted_chunk_is_refused() {
    let id = format!("fdigest_0_{}", ABC_SHA);
    assert!(!accept_chunk(b"abx", &id, false));
    let fm = vec![file("a.txt", 3, 1, ABC_SHA, 0, None)];
    let tree = plan_tree(&fm);
    let plan = build_write_plan(&tree.files, &[chunk(0, "a.txt", &id)]).unwrap();
    let writer: OrderedWriter<Vec<u8>> = OrderedWriter::new(plan);
    assert_eq!(writer.outcome(true, false), Err(InstallError::ChunkCorrupted));
    assert_eq!(writer.outcome(false, false), Err(InstallError::Truncated));
    assert_eq!(writer.outcome(true, true), Err(InstallError::ChunkFetch));
}

#[test]
fn verification_skips_directories() {
    let fm = vec![
        file("d", 0, 0, "", 40, None),
        file("d/a", 1, 1, "X", 0, None),
        file("e", 0, 0, "E", 0, None),
    ];
    assert_eq!(files_to_verify(&fm), vec![1, 2]);
}

#[test]
fn empty_files_get_no_chunks() {
    let fm = vec![file("empty.txt", 0, 0, "e3b0", 0, None), file("a.txt", 3, 1, ABC_SHA, 0, None)];
    let tree = plan_tree(&fm);
    assert_eq!(tree.actions[0].kind, FsActionKind::CreateFile);
    assert_eq!(tree.actions[0].path, "empty.txt");
    assert_eq!(tree.files.len(), 1);
    assert_eq!(tree.files[0].file_name, "a.txt");
    let stray = vec![chunk(0, "empty.txt", "x")];
    assert_eq!(build_write_plan(&tree.files, &stray).err(), Some(InstallError::ManifestDecode));
}

#[test]
fn single_small_chunk_is_last() {
    let fm = vec![file("small", 10, 1, "s", 0, None)];
    let tree = plan_tree(&fm);
    let plan = build_write_plan(&tree.files, &[chunk(0, "small", "s_0_x")]).unwrap();
    assert_eq!(plan.len(), 1);
    assert!(plan[0].is_last);
}

#[test]
fn update_plan_removes_and_recreates() {
    let delta = vec![
        file("b.txt", 1, 1, "Z", 0, Some(ChangeTag::Modified)),
        file("c.txt", 1, 1, "W", 0, Some(ChangeTag::Added)),
        file("old", 0, 0, "", 40, Some(ChangeTag::Removed)),
        file("gone.txt", 4, 1, "Q", 0, Some(ChangeTag::Removed)),
    ];
    let tree = plan_tree(&delta);
    let kinds: Vec<(FsActionKind, String)> = tree.actions.iter().map(|a| (a.kind, a.path.clone())).collect();
    assert_eq!(
        kinds,
        vec![
            (FsActionKind::RemoveFile, "b.txt".to_string()),
            (FsActionKind::CreateFile, "b.txt".to_string()),
            (FsActionKind::CreateFile, "c.txt".to_string()),
            (FsActionKind::RemoveDir, "old".to_string()),
            (FsActionKind::RemoveFile, "gone.txt".to_string()),
        ]
    );
    assert_eq!(tree.total_bytes, 2);
    assert_eq!(manifest_sizes(&delta), (2, 6));
}

#[test]
fn update_delta() {
    let old = vec![file("a.txt", 1, 1, "X", 0, None), file("b.txt", 1, 1, "Y", 0, None)];
    let new = vec![
        file("a.txt", 1, 1, "X", 0, None),
        file("b.txt", 1, 1, "Z", 0, None),
        file("c.txt", 1, 1, "W", 0, None),
    ];
    let delta = compute_file_delta(&old, &new);
    assert_eq!(
        names(&delta),
        vec![
            ("b.txt".to_string(), Some(ChangeTag::Modified), "Z".to_string()),
            ("c.txt".to_string(), Some(ChangeTag::Added), "W".to_string()),
        ]
    );
    let cm = vec![chunk(0, "a.txt", "X_0_a"), chunk(0, "b.txt", "Z_0_b"), chunk(0, "c.txt", "W_0_c")];
    let dc = compute_chunk_delta(&delta, &cm);
    let paths: Vec<&str> = dc.iter().map(|c| c.file_path.as_str()).collect();
    assert_eq!(paths, vec!["b.txt", "c.txt"]);
}

#[test]
fn delta_with_itself_is_empty() {
    let fm = vec![file("d", 0, 0, "", 40, None), file("d/a", 1, 1, "X", 0, None), file("e", 0, 0, "E", 0, None)];
    assert!(compute_file_delta(&fm, &fm).is_empty());
}

#[test]
fn reversed_delta_swaps_tags() {
    let a = vec![file("keep", 1, 1, "K", 0, None), file("mod", 1, 1, "A", 0, None), file("only_a", 1, 1, "O", 0, None)];
    let b = vec![file("mod", 1, 1, "B", 0, None), file("keep", 1, 1, "K", 0, None), file("only_b", 1, 1, "N", 0, None)];
    let ab = compute_file_delta(&a, &b);
    let ba = compute_file_delta(&b, &a);
    assert_eq!(
        names(&ab),
        vec![
            ("mod".to_string(), Some(ChangeTag::Modified), "B".to_string()),
            ("only_b".to_string(), Some(ChangeTag::Added), "N".to_string()),
            ("only_a".to_string(), Some(ChangeTag::Removed), "O".to_string()),
        ]
    );
    assert_eq!(
        names(&ba),
        vec![
            ("mod".to_string(), Some(ChangeTag::Modified), "A".to_string()),
            ("only_a".to_string(), Some(ChangeTag::Added), "O".to_string()),
            ("only_b".to_string(), Some(ChangeTag::Removed), "N".to_string()),
        ]
    );
}

#[test]
fn chunk_delta_skips_directories_and_stops_at_removed() {
    let delta = vec![
        file("dir", 0, 0, "", 40, Some(ChangeTag::Added)),
        file("empty", 0, 0, "", 0, Some(ChangeTag::Added)),
        file("x", 2, 2, "X", 0, Some(ChangeTag::Modified)),
        file("gone", 1, 1, "G", 0, Some(ChangeTag::Removed)),
    ];
    let cm = vec![
        chunk(0, "a", "a0"),
        chunk(0, "x", "x0"),
        chunk(1, "x", "x1"),
        chunk(0, "z", "z0"),
    ];
    let dc = compute_chunk_delta(&delta, &cm);
    let ids: Vec<(String, u16)> = dc.iter().map(|c| (c.file_path.clone(), c.id)).collect();
    assert_eq!(ids, vec![("x".to_string(), 0), ("x".to_string(), 1)]);
    assert!(compute_chunk_delta(&[], &cm).is_empty());
}

#[test]
fn memory_bound() {
    assert_eq!(memory_permits(2 * MAX_CHUNK_SIZE), 2);
    assert_eq!(memory_permits(2 * MAX_CHUNK_SIZE + MAX_CHUNK_SIZE - 1), 2);
    assert_eq!(memory_permits(MAX_CHUNK_SIZE - 1), 0);
    assert_eq!(memory_permits(DEFAULT_MAX_MEMORY_USAGE), 1024);
}

#[test]
fn default_workers() {
    assert_eq!(default_max_download_workers(1), 2);
    assert_eq!(default_max_download_workers(8), 16);
    assert_eq!(default_max_download_workers(64), 16);
}

#[test]
fn chunk_delta_passes_empty_file_between_files() {
    let delta = vec![
        file("a", 1, 1, "A", 0, Some(ChangeTag::Added)),
        file("e", 0, 0, "", 0, Some(ChangeTag::Added)),
        file("b", 2, 1, "B", 0, Some(ChangeTag::Modified)),
    ];
    let cm = vec![chunk(0, "a", "a0"), chunk(0, "b", "b0")];
    let dc = compute_chunk_delta(&delta, &cm);
    let ids: Vec<(String, u16)> = dc.iter().map(|c| (c.file_path.clone(), c.id)).collect();
    assert_eq!(ids, vec![("a".to_string(), 0), ("b".to_string(), 0)]);
}
