use kettle::rank::{fold, score, version_cmp};
use std::cmp::Ordering;

fn sc(needle: &str, hay: &str) -> Option<i32> {
    score(&fold(needle), &fold(hay), hay.as_bytes())
}

#[test]
fn non_subsequence_does_not_match() {
    assert!(sc("zzz", "ripgrep").is_none());
    assert!(sc("prg", "ripgrep").is_none());
    assert!(sc("ripgrepx", "ripgrep").is_none());
}

#[test]
fn exact_prefix_beats_scattered() {
    let exact = sc("rip", "ripgrep").unwrap();
    let scattered = sc("rip", "rust-in-peace").unwrap();
    assert!(exact > scattered, "{exact} !> {scattered}");
}

#[test]
fn boundary_matches_outrank_interior() {
    let boundary = sc("np", "nosey-parker").unwrap();
    let interior = sc("np", "unpack").unwrap();
    assert!(boundary > interior, "{boundary} !> {interior}");
}

#[test]
fn shorter_haystack_wins_on_ties() {
    let short = sc("git", "git").unwrap();
    let long = sc("git", "git-delta-extras").unwrap();
    assert!(short > long);
}

#[test]
fn empty_needle_matches_everything() {
    assert_eq!(sc("", "anything"), Some(0));
}

#[test]
fn exact_score_of_a_tight_prefix() {
    // Three matches (16 each), a start bonus (8 + 12), two consecutive
    // bonuses (8 each), less the length penalty 7 / 8 = 0.
    assert_eq!(sc("rip", "ripgrep"), Some(3 * 16 + 20 + 2 * 8));
}

#[test]
fn camel_case_start_earns_a_bonus() {
    assert!(sc("b", "fooBar").unwrap() > sc("b", "foobar").unwrap());
}

#[test]
fn fold_lowercases_ascii_only() {
    let mut expected = b"ripgrep-".to_vec();
    expected.extend_from_slice("Ä".as_bytes());
    expected.push(b'b');
    assert_eq!(fold("RipGrep-ÄB"), expected);
    assert_eq!(fold("ABC"), b"abc".to_vec());
}

#[test]
fn version_numeric_not_lexical() {
    assert_eq!(version_cmp("1.10", "1.9"), Ordering::Greater);
    assert_eq!(version_cmp("10.0", "9.0"), Ordering::Greater);
    assert_eq!(version_cmp("1.2.3", "1.2.3"), Ordering::Equal);
}

#[test]
fn version_prerelease_below_release() {
    assert_eq!(version_cmp("1.0", "1.0rc1"), Ordering::Greater);
    assert_eq!(version_cmp("1.0beta2", "1.0rc1"), Ordering::Less);
    assert_eq!(version_cmp("1.0alpha1", "1.0beta1"), Ordering::Less);
}

#[test]
fn version_revision_breaks_ties() {
    assert_eq!(version_cmp("1.2.3_1", "1.2.3"), Ordering::Greater);
    assert_eq!(version_cmp("1.2.3_2", "1.2.3_10"), Ordering::Less);
}

#[test]
fn version_real_homebrew_samples() {
    assert_eq!(version_cmp("20260817.0", "20260101.0"), Ordering::Greater);
    assert_eq!(version_cmp("1.3.30-stable", "1.3.9-stable"), Ordering::Greater);
    assert_eq!(version_cmp("2.36.34", "2.36.5"), Ordering::Greater);
}

#[test]
fn scoring_whole_catalog_is_frame_fast() {
    let corpus: Vec<(Vec<u8>, String)> = (0..16_291)
        .map(|i| {
            let s = format!("package-name-{i}-tool");
            (fold(&s), s)
        })
        .collect();
    let needle = fold("pnt");

    let t = std::time::Instant::now();
    let hits = corpus
        .iter()
        .filter_map(|(lc, raw)| score(&needle, lc, raw.as_bytes()))
        .count();
    let dt = t.elapsed();

    println!("scored {} entries in {:?} ({} hits)", corpus.len(), dt, hits);
    assert!(hits > 0, "sanity: needle should match this corpus");
    assert!(
        dt < std::time::Duration::from_millis(250),
        "catalog scoring regressed badly: {dt:?}"
    );
}

#[test]
fn version_ordering_is_antisymmetric() {
    let vs = [
        "1.0", "1.0rc1", "1.0_1", "1.10", "1.9", "2", "0.28.0", "20260817.0", "1.3.30-stable",
        "1.2.3_2",
    ];
    for a in vs {
        for b in vs {
            assert_eq!(version_cmp(a, b), version_cmp(b, a).reverse(), "asymmetry between {a} and {b}");
        }
    }
}

#[test]
fn long_needle_must_match_in_full() {
    let mut needle = "a".repeat(64);
    needle.push('b');
    let hay = "a".repeat(65);
    assert!(sc(&needle, &hay).is_none());
    let long = "a".repeat(70);
    assert!(sc(&long, &"a".repeat(80)).is_some());
    let mut hay_b = "a".repeat(64);
    hay_b.push('x');
    hay_b.push('b');
    assert!(sc(&needle, &hay_b).is_some());
}
