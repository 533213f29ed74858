use dupfinder::CompareDepth;
use dupfinder::digest::{
    SAMPLE_LIMIT, WINDOW_SIZE, empty_digest, full_digest, partial_digest_sampled,
    partial_digest_small, sample_offsets,
};
use dupfinder::exclude::is_excluded;
use dupfinder::group::{FileEntry, HashedFile, key_by_digest, key_by_size, stage_groups, survivors};
use dupfinder::output::{OutputEntry, assemble_output, hex_string, sort_entries};
use dupfinder::{runs_full_stage, runs_partial_stage};

fn entry(path: &str, size: u64) -> FileEntry {
    FileEntry { path: path.to_string(), size }
}

/// One full-depth run over in-memory files, as a caller would drive it.
fn run_full_depth(files: Vec<(FileEntry, Vec<u8>)>) -> Vec<OutputEntry> {
    let contents: Vec<(String, Vec<u8>)> =
        files.iter().map(|(f, c)| (f.path.clone(), c.clone())).collect();
    let content_of = |path: &str| -> Vec<u8> {
        contents.iter().find(|(p, _)| p == path).map(|(_, c)| c.clone()).unwrap()
    };
    let entries: Vec<FileEntry> = files.into_iter().map(|(f, _)| f).collect();
    // size stage
    let keyed = key_by_size(&entries);
    let groups = stage_groups(&keyed);
    let surv = survivors(&groups);
    // sampled-digest stage (every test file is small, so read whole)
    let hashed: Vec<HashedFile> = surv
        .into_iter()
        .map(|f| {
            let digest = partial_digest_small(&content_of(&f.path));
            HashedFile { file: f, digest }
        })
        .collect();
    let keyed = key_by_digest(&hashed);
    let groups = stage_groups(&keyed);
    let surv = survivors(&groups);
    // whole-content digest stage
    let hashed: Vec<HashedFile> = surv
        .into_iter()
        .map(|f| {
            let digest = full_digest(&content_of(&f.path));
            HashedFile { file: f, digest }
        })
        .collect();
    let keyed = key_by_digest(&hashed);
    let groups = stage_groups(&keyed);
    let out = assemble_output(&groups);
    sort_entries(&out)
}

#[test]
fn empty_file_digest_constant() {
    // Size-zero content: sampled digest and whole-content digest are both
    // the fixed empty-content constant.
    let empty: Vec<u8> = Vec::new();
    let d1 = full_digest(&empty);
    let d2 = partial_digest_small(&empty);
    let d3 = empty_digest();
    assert_eq!(d1, d3);
    assert_eq!(d2, d3);
    assert_eq!(hex_string(&d3), "d41d8cd98f00b204e9800998ecf8427e".to_string());
}

#[test]
fn known_digest_value() {
    // RFC 1321 test vector for the underlying MD5 function.
    let content: Vec<u8> = b"abc".to_vec();
    let d = full_digest(&content);
    assert_eq!(hex_string(&d), "900150983cd24fb0d6963f7d28e17f72".to_string());
}

#[test]
fn hex_encoding_exact() {
    let bytes: Vec<u8> = vec![0x00, 0xff, 0x0a];
    assert_eq!(hex_string(&bytes), "00ff0a".to_string());
}

#[test]
fn small_file_equivalence() {
    // Any content up to three windows: sampled digest equals whole digest.
    let content: Vec<u8> = b"some short file body".to_vec();
    assert_eq!(partial_digest_small(&content), full_digest(&content));
    let exactly_limit: Vec<u8> = vec![7u8; SAMPLE_LIMIT as usize];
    assert_eq!(partial_digest_small(&exactly_limit), full_digest(&exactly_limit));
}

#[test]
fn large_file_sampling_windows_only() {
    // A byte change strictly outside the three windows leaves the sampled
    // digest unchanged, while the whole-content digest moves.
    let size: usize = 300000;
    assert!(size as u64 > SAMPLE_LIMIT);
    let mut c1: Vec<u8> = vec![1u8; size];
    for (i, b) in c1.iter_mut().enumerate() {
        *b = (i % 251) as u8;
    }
    let mut c2 = c1.clone();
    let w = WINDOW_SIZE as usize;
    let (mid_off, tail_off) = sample_offsets(size as u64);
    let (mid_off, tail_off) = (mid_off as usize, tail_off as usize);
    // a spot after the head window and before the middle window
    let outside = (w + mid_off) / 2;
    assert!(outside >= w && outside < mid_off);
    c2[outside] ^= 0xff;
    let windows = |c: &Vec<u8>| -> (Vec<u8>, Vec<u8>, Vec<u8>) {
        (c[..w].to_vec(), c[mid_off..mid_off + w].to_vec(), c[tail_off..].to_vec())
    };
    let (h1, m1, t1) = windows(&c1);
    let (h2, m2, t2) = windows(&c2);
    let p1 = partial_digest_sampled(size as u64, &h1, &m1, &t1);
    let p2 = partial_digest_sampled(size as u64, &h2, &m2, &t2);
    assert_eq!(p1, p2);
    assert_ne!(full_digest(&c1), full_digest(&c2));
    // a change inside the middle window does move the sampled digest
    let mut c3 = c1.clone();
    c3[mid_off + 5] ^= 0xff;
    let (h3, m3, t3) = windows(&c3);
    let p3 = partial_digest_sampled(size as u64, &h3, &m3, &t3);
    assert_ne!(p1, p3);
}

fn assert_entries_equal(a: &[OutputEntry], b: &[OutputEntry]) {
    assert_eq!(a.len(), b.len());
    for (x, y) in a.iter().zip(b.iter()) {
        assert_eq!(x.hash, y.hash);
        assert_eq!(x.size, y.size);
        assert_eq!(x.paths, y.paths);
    }
}

#[test]
fn duplicate_pair_grouped() {
    // Two 10-byte files with identical content end in one group, paths in
    // discovery order, hash present.
    let content: Vec<u8> = b"duplicate!".to_vec();
    assert_eq!(content.len(), 10);
    let out = run_full_depth(vec![
        (entry("a.txt", 10), content.clone()),
        (entry("b.txt", 10), content.clone()),
    ]);
    assert_eq!(out.len(), 1);
    assert_eq!(out[0].size, Some(10));
    assert_eq!(out[0].paths, vec!["a.txt".to_string(), "b.txt".to_string()]);
    let expected = hex_string(&full_digest(&content));
    assert_eq!(out[0].hash, Some(expected));
}

#[test]
fn different_content_not_grouped() {
    // Same size, different bytes: the digest stages separate them.
    let out = run_full_depth(vec![
        (entry("a.bin", 4), b"aaaa".to_vec()),
        (entry("b.bin", 4), b"bbbb".to_vec()),
    ]);
    assert_eq!(out.len(), 0);
}

#[test]
fn size_only_depth_false_positive() {
    // Depth size-only: two 100-byte files of different content form one
    // group with no hash.
    let a: Vec<u8> = vec![1u8; 100];
    let b: Vec<u8> = vec![2u8; 100];
    assert_ne!(a, b);
    let entries = vec![entry("one.dat", 100), entry("two.dat", 100)];
    let keyed = key_by_size(&entries);
    let groups = stage_groups(&keyed);
    let out = sort_entries(&assemble_output(&groups));
    assert_eq!(out.len(), 1);
    assert_eq!(out[0].hash, None);
    assert_eq!(out[0].size, Some(100));
    assert_eq!(out[0].paths, vec!["one.dat".to_string(), "two.dat".to_string()]);
}

#[test]
fn exclude_pattern_removes_file() {
    // `*.tmp` excludes x.tmp but not x.tmp.bak; the survivor is alone in
    // its size group and pruned.
    let patterns = vec!["*.tmp".to_string()];
    assert!(is_excluded(&patterns, &"x.tmp".to_string()));
    assert!(!is_excluded(&patterns, &"x.tmp.bak".to_string()));
    let content: Vec<u8> = b"same bytes".to_vec();
    let scanned = vec![entry("x.tmp", 10), entry("x.tmp.bak", 10)];
    let kept: Vec<(FileEntry, Vec<u8>)> = scanned
        .into_iter()
        .filter(|f| !is_excluded(&patterns, &f.path))
        .map(|f| (f, content.clone()))
        .collect();
    assert_eq!(kept.len(), 1);
    let out = run_full_depth(kept);
    assert_eq!(out.len(), 0);
}

#[test]
fn exclude_star_does_not_cross_separator() {
    let patterns = vec!["*.tmp".to_string()];
    assert!(!is_excluded(&patterns, &"dir/x.tmp".to_string()));
    let deep = vec!["*/x.tmp".to_string()];
    assert!(is_excluded(&deep, &"dir/x.tmp".to_string()));
    assert!(!is_excluded(&deep, &"a/b/x.tmp".to_string()));
}

#[test]
fn exclude_empty_pattern_list() {
    let patterns: Vec<String> = Vec::new();
    assert!(!is_excluded(&patterns, &"anything".to_string()));
}

#[test]
fn idempotent_runs() {
    // The same tree twice: identical group membership and ordering.
    let files = || {
        vec![
            (entry("a", 3), b"xyz".to_vec()),
            (entry("b", 3), b"xyz".to_vec()),
            (entry("c", 5), b"hello".to_vec()),
            (entry("d", 5), b"hello".to_vec()),
            (entry("e", 5), b"world".to_vec()),
        ]
    };
    let out1 = run_full_depth(files());
    let out2 = run_full_depth(files());
    assert_entries_equal(&out1, &out2);
    assert_eq!(out1.len(), 2);
    assert_eq!(out1[0].size, Some(3));
    assert_eq!(out1[1].size, Some(5));
}

#[test]
fn sort_ascending_and_stable() {
    let mk = |size: u64, path: &str| OutputEntry {
        hash: None,
        size: Some(size),
        paths: vec![path.to_string()],
    };
    let entries = vec![mk(30, "c"), mk(10, "a"), mk(20, "b"), mk(10, "a2")];
    let sorted = sort_entries(&entries);
    let sizes: Vec<Option<u64>> = sorted.iter().map(|e| e.size).collect();
    assert_eq!(sizes, vec![Some(10), Some(10), Some(20), Some(30)]);
    // entries of equal size keep their relative order
    assert_eq!(sorted[0].paths, vec!["a".to_string()]);
    assert_eq!(sorted[1].paths, vec!["a2".to_string()]);
}

#[test]
fn depth_stage_selection() {
    assert!(!runs_partial_stage(CompareDepth::SizeOnly));
    assert!(runs_partial_stage(CompareDepth::PartialHash));
    assert!(runs_partial_stage(CompareDepth::FullHash));
    assert!(!runs_full_stage(CompareDepth::SizeOnly));
    assert!(!runs_full_stage(CompareDepth::PartialHash));
    assert!(runs_full_stage(CompareDepth::FullHash));
}

#[test]
fn three_way_duplicates_one_group() {
    // Three identical files form exactly one group holding all three paths.
    let content: Vec<u8> = b"threefold".to_vec();
    let out = run_full_depth(vec![
        (entry("p", 9), content.clone()),
        (entry("q", 9), content.clone()),
        (entry("r", 9), content.clone()),
    ]);
    assert_eq!(out.len(), 1);
    assert_eq!(out[0].paths, vec!["p".to_string(), "q".to_string(), "r".to_string()]);
}
