use kettle::domain::{Package, PackageId, PackageKind, Version};
use kettle::search::{fold, score, SearchIndex};

fn scored(needle: &str, haystack: &str) -> Option<i32> {
    score(&fold(needle), &fold(haystack), haystack.as_bytes())
}

#[test]
fn empty_query_reuses_the_canonical_view() {
    let candidates = vec![
        PackageId::new("a", PackageKind::Formula).unwrap(),
        PackageId::new("a", PackageKind::Cask).unwrap(),
    ];
    let ranked = SearchIndex::default().rank("", &candidates);
    assert_eq!(ranked, candidates);
}

#[test]
fn search_is_deterministic_and_boundary_aware() {
    assert!(scored("zzz", "ripgrep").is_none());
    assert!(scored("rip", "ripgrep").unwrap() > scored("rip", "rust-in-peace").unwrap());
    assert!(scored("np", "nosey-parker").unwrap() > scored("np", "unpack").unwrap());
    assert_eq!(scored("", "anything"), Some(0));
}

#[test]
fn rank_orders_by_score_then_candidate_order() {
    let ripgrep = PackageId::new("ripgrep", PackageKind::Formula).unwrap();
    let rip = PackageId::new("rip", PackageKind::Formula).unwrap();
    let peace = PackageId::new("rust-in-peace", PackageKind::Cask).unwrap();
    let other = PackageId::new("zsh", PackageKind::Formula).unwrap();
    let mut index = SearchIndex::default();
    index.rebuild(&[
        Package::catalog(ripgrep.clone(), Version::new("14"), Some("search tool")),
        Package::catalog(rip.clone(), Version::new("1"), None::<&str>),
        Package::catalog(peace.clone(), None, None::<&str>),
        Package::catalog(other.clone(), None, Some("shell")),
    ]);
    let ranked = index.rank("RIP", &[peace.clone(), other, ripgrep.clone(), rip.clone()]);
    // "rip" and "ripgrep" score alike (the length penalty is len / 8),
    // so candidate order decides between them.
    assert_eq!(ranked, vec![ripgrep, rip, peace]);
}

#[test]
fn description_matches_rank_below_name_matches() {
    let named = PackageId::new("clone-tool", PackageKind::Formula).unwrap();
    let described = PackageId::new("bat", PackageKind::Formula).unwrap();
    let mut index = SearchIndex::default();
    index.rebuild(&[
        Package::catalog(described.clone(), None, Some("cat clone")),
        Package::catalog(named.clone(), None, None::<&str>),
    ]);
    let ranked = index.rank("clone", &[described.clone(), named.clone()]);
    assert_eq!(ranked, vec![named, described]);
}

#[test]
fn long_needles_are_not_cut_short() {
    let mut needle = "a".repeat(64);
    needle.push('b');
    assert!(scored(&needle, &"a".repeat(65)).is_none());
}

#[test]
fn a_rebuild_forgets_earlier_documents() {
    let old = PackageId::new("ripgrep", PackageKind::Formula).unwrap();
    let new = PackageId::new("ripsecrets", PackageKind::Formula).unwrap();
    let mut index = SearchIndex::default();
    index.rebuild(&[Package::catalog(old.clone(), None, None::<&str>)]);
    index.rebuild(&[Package::catalog(new.clone(), None, None::<&str>)]);
    let ranked = index.rank("rip", &[old.clone(), new.clone()]);
    assert_eq!(ranked, vec![new.clone()]);
    assert_eq!(index.rank("ripsecrets", &[new.clone()]), vec![new]);
}
