//! The store session end to end: opening an archive, loading windows,
//! looking variants up, and every error class, against archives built
//! in memory with the reference zip writer and block encoder.

use std::io::{Cursor, Write};

use echtvar::EchtError;
use echtvar::echtvar::EchtVars;
use echtvar::var32::encode;

use stream_vbyte::encode::encode as svb_encode;
use stream_vbyte::scalar::Scalar;

fn svb_bytes(nums: &[u32]) -> Vec<u8> {
    let mut out = vec![0u8; nums.len() * 5 + 16];
    let n = svb_encode::<Scalar>(nums, &mut out);
    out.truncate(n);
    out
}

fn block_bytes(nums: &[u32]) -> Vec<u8> {
    let mut b = (nums.len() as u32).to_le_bytes().to_vec();
    b.extend_from_slice(&svb_bytes(nums));
    b
}

fn deltas_of(keys: &[u32]) -> Vec<u32> {
    let mut out = Vec::new();
    let mut prev: u32 = 0;
    for &k in keys {
        out.push(k - prev);
        prev = k;
    }
    out
}

fn build_zip(entries: &[(&str, Vec<u8>)]) -> Vec<u8> {
    let mut w = zip::ZipWriter::new(Cursor::new(Vec::new()));
    let opts = zip::write::FileOptions::default()
        .compression_method(zip::CompressionMethod::Stored);
    for (name, data) in entries {
        w.start_file(*name, opts).unwrap();
        w.write_all(data).unwrap();
    }
    w.finish().unwrap().into_inner()
}

const CONFIG: &str = r#"[
  {"alias": "gnomad_af", "missing_value": -1},
  {alias: 'gnomad_ac', missing_value: 7, type: 'Integer'},
]"#;

/// An archive with the shape the store expects: chromosome chr21,
/// window index 4 (positions around 5030088), two fields of 46881
/// values, and one overflow record at 5030185.
fn fixture_archive() -> Vec<u8> {
    let n = 46881u32;
    let deltas: Vec<u32> = vec![1; n as usize];
    let af: Vec<u32> = (0..n).collect();
    let ac: Vec<u32> = (0..n).map(|i| i * 2).collect();
    build_zip(&[
        ("echtvar/config.json", CONFIG.as_bytes().to_vec()),
        ("echtvar/chr21/4/gnomad_af.bin", block_bytes(&af)),
        ("echtvar/chr21/4/gnomad_ac.bin", block_bytes(&ac)),
        ("echtvar/chr21/4/var32.bin", block_bytes(&deltas)),
        (
            "echtvar/chr21/4/too-long-for-var32.txt",
            br#"[{"position": 5030185, "ref": "CTTTTTTTTT", "alt": "C"}]"#.to_vec(),
        ),
    ])
}

/// A small archive on chromosome chrX, window 0, whose keys are planted
/// so that lookups can hit: positions 999 (A->C), 1000 (C->T, with the
/// sentinel in the second field) and 1200 (G->T).
fn small_archive() -> Vec<u8> {
    let keys = [encode(999, b"A", b"C"), encode(1000, b"C", b"T"), encode(1200, b"G", b"T")];
    assert!(keys[0] < keys[1] && keys[1] < keys[2]);
    build_zip(&[
        ("echtvar/config.json", CONFIG.as_bytes().to_vec()),
        ("echtvar/chrX/0/gnomad_af.bin", block_bytes(&[10, 20, 30])),
        ("echtvar/chrX/0/gnomad_ac.bin", block_bytes(&[5, u32::MAX, 9])),
        ("echtvar/chrX/0/var32.bin", block_bytes(&deltas_of(&keys))),
        ("echtvar/chrX/0/too-long-for-var32.txt", b"[]".to_vec()),
    ])
}

#[test]
fn test_read() {
    let mut e = EchtVars::open(fixture_archive()).unwrap();
    e.set_position("chr21".to_string(), 5030088).unwrap();

    assert_eq!(e.echts.len(), 2);
    assert_eq!(e.values[0].len(), 46881);
    assert_eq!(e.values[1].len(), e.var32s.len());

    assert_eq!(e.longs[0].position, 5030185);
}

#[test]
fn test_search() {
    let mut e = EchtVars::open(fixture_archive()).unwrap();
    e.set_position("chr21".to_string(), 5030088).unwrap();

    let mut vals = vec![];

    e.values(b"chr21", 5030087, b"C", b"T", &mut vals).unwrap();
    assert_eq!(vals.len(), 2);
}

#[test]
fn registry_comes_from_the_config() {
    let e = EchtVars::open(small_archive()).unwrap();
    assert_eq!(e.echts.len(), 2);
    assert_eq!(e.echts[0].name, "gnomad_af");
    assert_eq!(e.echts[0].missing, -1);
    assert_eq!(e.echts[0].values_i, 0);
    assert_eq!(e.echts[1].name, "gnomad_ac");
    assert_eq!(e.echts[1].missing, 7);
    assert_eq!(e.echts[1].values_i, 1);
    assert_eq!(e.chrom, "");
    assert_eq!(e.start, u32::MAX);
}

#[test]
fn keys_are_cumulative_sums_and_sorted() {
    let mut e = EchtVars::open(small_archive()).unwrap();
    e.set_position("chrX".to_string(), 1000).unwrap();
    let expected = [encode(999, b"A", b"C"), encode(1000, b"C", b"T"), encode(1200, b"G", b"T")];
    assert_eq!(e.var32s, expected);
    for w in e.var32s.windows(2) {
        assert!(w[0] <= w[1]);
    }
    assert_eq!(e.start, 0);
    assert_eq!(e.chrom, "chrX");
}

#[test]
fn hit_returns_field_values_in_registry_order() {
    let mut e = EchtVars::open(small_archive()).unwrap();
    let mut vals = vec![];
    e.values(b"chrX", 999, b"A", b"C", &mut vals).unwrap();
    assert_eq!(vals, vec![10, 5]);
}

#[test]
fn sentinel_raw_value_becomes_the_missing_value() {
    let mut e = EchtVars::open(small_archive()).unwrap();
    let mut vals = vec![];
    e.values(b"chrX", 1000, b"C", b"T", &mut vals).unwrap();
    // The first field holds 20; the second holds the all-ones sentinel,
    // so it answers its configured missing value.
    assert_eq!(vals, vec![20, 7]);
}

#[test]
fn absent_key_answers_every_missing_value() {
    let mut e = EchtVars::open(small_archive()).unwrap();
    let mut vals = vec![];
    e.values(b"chrX", 1001, b"C", b"T", &mut vals).unwrap();
    assert_eq!(vals, vec![-1, 7]);
    // Same position as a stored variant, different alleles: still absent.
    e.values(b"chrX", 1000, b"C", b"G", &mut vals).unwrap();
    assert_eq!(vals, vec![-1, 7]);
}

#[test]
fn repeated_lookup_is_idempotent() {
    let mut e = EchtVars::open(small_archive()).unwrap();
    let mut first = vec![];
    e.values(b"chrX", 1000, b"C", b"T", &mut first).unwrap();
    let chrom_before = e.chrom.clone();
    let start_before = e.start;
    let keys_before = e.var32s.clone();
    let mut second = vec![];
    e.values(b"chrX", 1000, b"C", b"T", &mut second).unwrap();
    assert_eq!(first, second);
    assert_eq!(e.chrom, chrom_before);
    assert_eq!(e.start, start_before);
    assert_eq!(e.var32s, keys_before);
}

#[test]
fn colliding_keys_answer_the_leftmost_entry() {
    // Two entries share one encoded key (a delta of zero); the lookup
    // deterministically answers the leftmost of them.
    let k = encode(500, b"A", b"C");
    let data = build_zip(&[
        ("echtvar/config.json", CONFIG.as_bytes().to_vec()),
        ("echtvar/chrX/0/gnomad_af.bin", block_bytes(&[100, 200])),
        ("echtvar/chrX/0/gnomad_ac.bin", block_bytes(&[1, 2])),
        ("echtvar/chrX/0/var32.bin", block_bytes(&[k, 0])),
        ("echtvar/chrX/0/too-long-for-var32.txt", b"[]".to_vec()),
    ]);
    let mut e = EchtVars::open(data).unwrap();
    let mut vals = vec![];
    e.values(b"chrX", 500, b"A", b"C", &mut vals).unwrap();
    assert_eq!(vals, vec![100, 1]);
}

#[test]
fn same_window_skips_the_reload() {
    let mut e = EchtVars::open(fixture_archive()).unwrap();
    e.set_position("chr21".to_string(), 5030088).unwrap();
    // Any position of the same window hits the cache, 5030087 included.
    assert_eq!(5030087 / 0x100000, 5030088 / 0x100000);
    e.set_position("chr21".to_string(), 5030087).unwrap();
    assert_eq!(e.var32s.len(), 46881);
}

#[test]
fn invalid_utf8_chromosome_is_a_caller_error() {
    let mut e = EchtVars::open(small_archive()).unwrap();
    let mut vals = vec![];
    let r = e.values(b"\xff\xfe", 1000, b"C", b"T", &mut vals);
    assert_eq!(r, Err(EchtError::BadChromosome));
    assert_eq!(vals.len(), 0);
}

#[test]
fn unknown_window_is_entry_not_found() {
    let mut e = EchtVars::open(small_archive()).unwrap();
    let mut vals = vec![];
    let r = e.values(b"chrY", 1000, b"C", b"T", &mut vals);
    assert_eq!(r, Err(EchtError::EntryNotFound));
    // A failed load leaves the cached window identity untouched.
    assert_eq!(e.chrom, "");
    assert_eq!(e.start, u32::MAX);
    let r2 = e.values(b"chrX", 2 * 0x100000, b"C", b"T", &mut vals);
    assert_eq!(r2, Err(EchtError::EntryNotFound));
}

#[test]
fn corrupt_key_block_fails_the_load() {
    let keys = [encode(999, b"A", b"C"), encode(1000, b"C", b"T")];
    let mut kblock = block_bytes(&deltas_of(&keys));
    kblock.pop();
    let data = build_zip(&[
        ("echtvar/config.json", CONFIG.as_bytes().to_vec()),
        ("echtvar/chrX/0/gnomad_af.bin", block_bytes(&[1, 2])),
        ("echtvar/chrX/0/gnomad_ac.bin", block_bytes(&[3, 4])),
        ("echtvar/chrX/0/var32.bin", kblock),
        ("echtvar/chrX/0/too-long-for-var32.txt", b"[]".to_vec()),
    ]);
    let mut e = EchtVars::open(data).unwrap();
    assert_eq!(e.set_position("chrX".to_string(), 0), Err(EchtError::CorruptBlock));
    assert_eq!(e.chrom, "");
}

#[test]
fn field_count_mismatch_fails_the_load() {
    let keys = [encode(999, b"A", b"C"), encode(1000, b"C", b"T")];
    let data = build_zip(&[
        ("echtvar/config.json", CONFIG.as_bytes().to_vec()),
        ("echtvar/chrX/0/gnomad_af.bin", block_bytes(&[1, 2, 3])),
        ("echtvar/chrX/0/gnomad_ac.bin", block_bytes(&[3, 4])),
        ("echtvar/chrX/0/var32.bin", block_bytes(&deltas_of(&keys))),
        ("echtvar/chrX/0/too-long-for-var32.txt", b"[]".to_vec()),
    ]);
    let mut e = EchtVars::open(data).unwrap();
    assert_eq!(e.set_position("chrX".to_string(), 0), Err(EchtError::CorruptBlock));
}

#[test]
fn malformed_overflow_list_is_corrupt() {
    let keys = [encode(999, b"A", b"C")];
    let data = build_zip(&[
        ("echtvar/config.json", CONFIG.as_bytes().to_vec()),
        ("echtvar/chrX/0/gnomad_af.bin", block_bytes(&[1])),
        ("echtvar/chrX/0/gnomad_ac.bin", block_bytes(&[2])),
        ("echtvar/chrX/0/var32.bin", block_bytes(&deltas_of(&keys))),
        ("echtvar/chrX/0/too-long-for-var32.txt", b"{not json".to_vec()),
    ]);
    let mut e = EchtVars::open(data).unwrap();
    assert_eq!(e.set_position("chrX".to_string(), 0), Err(EchtError::CorruptBlock));
}

#[test]
fn garbage_archive_fails_to_open() {
    assert!(matches!(EchtVars::open(b"not a zip at all".to_vec()), Err(EchtError::BadArchive)));
}

#[test]
fn missing_config_fails_to_open() {
    let data = build_zip(&[("echtvar/other.txt", b"x".to_vec())]);
    assert!(matches!(EchtVars::open(data), Err(EchtError::BadConfig)));
}

#[test]
fn malformed_config_fails_to_open() {
    let data = build_zip(&[("echtvar/config.json", b"[{\"alias\": 3}]".to_vec())]);
    assert!(matches!(EchtVars::open(data), Err(EchtError::BadConfig)));
    let data2 = build_zip(&[("echtvar/config.json", b"[{alias: 'x'}]".to_vec())]);
    // A field without a missing_value is refused too.
    assert!(matches!(EchtVars::open(data2), Err(EchtError::BadConfig)));
}

#[test]
fn switching_windows_reloads_the_state() {
    let w1keys = [encode(999, b"A", b"C")];
    let w2pos = 3 * 0x100000u32 + 50;
    let w2keys = [encode(w2pos, b"G", b"A")];
    let data = build_zip(&[
        ("echtvar/config.json", CONFIG.as_bytes().to_vec()),
        ("echtvar/chrX/0/gnomad_af.bin", block_bytes(&[10])),
        ("echtvar/chrX/0/gnomad_ac.bin", block_bytes(&[11])),
        ("echtvar/chrX/0/var32.bin", block_bytes(&deltas_of(&w1keys))),
        ("echtvar/chrX/0/too-long-for-var32.txt", b"[]".to_vec()),
        ("echtvar/chrX/3/gnomad_af.bin", block_bytes(&[77])),
        ("echtvar/chrX/3/gnomad_ac.bin", block_bytes(&[78])),
        ("echtvar/chrX/3/var32.bin", block_bytes(&deltas_of(&w2keys))),
        ("echtvar/chrX/3/too-long-for-var32.txt", br#"[{"position": 3145778}]"#.to_vec()),
    ]);
    let mut e = EchtVars::open(data).unwrap();
    let mut vals = vec![];
    e.values(b"chrX", 999, b"A", b"C", &mut vals).unwrap();
    assert_eq!(vals, vec![10, 11]);
    e.values(b"chrX", w2pos, b"G", b"A", &mut vals).unwrap();
    assert_eq!(vals, vec![77, 78]);
    assert_eq!(e.start, 3 * 0x100000);
    assert_eq!(e.longs.len(), 1);
    assert_eq!(e.longs[0].position, 3145778);
    e.values(b"chrX", 999, b"A", b"C", &mut vals).unwrap();
    assert_eq!(vals, vec![10, 11]);
    assert_eq!(e.start, 0);
}

#[test]
fn virgin_state_never_hits_the_cache() {
    // Before any window is loaded the session's start is u32::MAX,
    // which is not a window start, so even a query for the empty
    // chromosome in the top window tries a real load rather than
    // answering from the empty arrays.
    let mut e = EchtVars::open(small_archive()).unwrap();
    let mut vals = vec![];
    let r = e.values(b"", u32::MAX, b"C", b"T", &mut vals);
    assert_eq!(r, Err(EchtError::EntryNotFound));
    assert_eq!(e.start, u32::MAX);
    assert_eq!(e.var32s.len(), 0);
}

#[test]
fn deeply_nested_config_is_refused() {
    // The configuration parser recurses per nesting level, so a
    // document nested past the bound is refused outright.
    let mut cfg = String::new();
    for _ in 0..300 {
        cfg.push('[');
    }
    for _ in 0..300 {
        cfg.push(']');
    }
    let data = build_zip(&[("echtvar/config.json", cfg.into_bytes())]);
    assert!(matches!(EchtVars::open(data), Err(EchtError::BadConfig)));
}

#[test]
fn masked_nesting_is_still_refused() {
    // Closing brackets inside a string must not offset real nesting:
    // a document that hides stray closers in a string literal before
    // opening deeply is still refused.
    let mut cfg = String::from("[\"");
    for _ in 0..300 {
        cfg.push(']');
    }
    cfg.push_str("\", ");
    for _ in 0..300 {
        cfg.push('[');
    }
    let data = build_zip(&[("echtvar/config.json", cfg.into_bytes())]);
    assert!(matches!(EchtVars::open(data), Err(EchtError::BadConfig)));
}

#[test]
fn brackets_inside_strings_are_not_nesting() {
    // A shallow configuration whose strings are full of bracket
    // characters is well formed and must open; the depth guard counts
    // only structural brackets.
    let mut alias = String::from("a");
    for _ in 0..300 {
        alias.push(']');
    }
    for _ in 0..300 {
        alias.push('[');
    }
    let cfg = format!("[{{\"alias\": \"{}\", \"missing_value\": -1}}] // ]]]]", alias);
    let data = build_zip(&[
        ("echtvar/config.json", cfg.into_bytes()),
        ("echtvar/chrX/0/var32.bin", block_bytes(&[])),
        ("echtvar/chrX/0/too-long-for-var32.txt", b"[]".to_vec()),
    ]);
    let e = EchtVars::open(data).unwrap();
    assert_eq!(e.echts.len(), 1);
    assert_eq!(e.echts[0].name, alias);
}

#[test]
fn out_of_range_missing_value_is_refused() {
    // The missing sentinel is a 32-bit signed integer; a configuration
    // that declares one outside that range is malformed.
    let cfg = br#"[{"alias": "f", "missing_value": 4294967296}]"#.to_vec();
    let data = build_zip(&[("echtvar/config.json", cfg)]);
    assert!(matches!(EchtVars::open(data), Err(EchtError::BadConfig)));
}

#[test]
fn overflow_record_without_position_is_corrupt() {
    let keys = [encode(999, b"A", b"C")];
    let data = build_zip(&[
        ("echtvar/config.json", CONFIG.as_bytes().to_vec()),
        ("echtvar/chrX/0/gnomad_af.bin", block_bytes(&[1])),
        ("echtvar/chrX/0/gnomad_ac.bin", block_bytes(&[2])),
        ("echtvar/chrX/0/var32.bin", block_bytes(&deltas_of(&keys))),
        ("echtvar/chrX/0/too-long-for-var32.txt", br#"[{"ref": "C"}]"#.to_vec()),
    ]);
    let mut e = EchtVars::open(data).unwrap();
    assert_eq!(e.set_position("chrX".to_string(), 0), Err(EchtError::CorruptBlock));
}
