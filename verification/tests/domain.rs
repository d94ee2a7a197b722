use kettle::domain::{version_cmp, BrewAction, Package, PackageId, PackageKind, UpdateState, Version};
use std::cmp::Ordering;

const REAL: &[&str] = &[
    "0.28.0",
    "1.0",
    "1.0rc1",
    "1.0_1",
    "1.2.3_10",
    "1.3.30-stable",
    "2.36.34",
    "26.825.41651",
    "20260817.0",
    "999999999999999999999999999999999999.2",
    "1..2---rc01",
];

#[test]
fn user_facing_grammar_is_explicit() {
    assert_eq!(BrewAction::Install.label(), "Install");
    assert_eq!(BrewAction::Install.progressive(), "Installing");
    assert_eq!(BrewAction::Install.completed(), "Installed");
    assert_eq!(BrewAction::Upgrade.label(), "Upgrade");
    assert_eq!(BrewAction::Upgrade.progressive(), "Upgrading");
    assert_eq!(BrewAction::Upgrade.completed(), "Upgraded");
}

#[test]
fn commands_are_the_literal_subcommands() {
    assert_eq!(BrewAction::Install.command(), "install");
    assert_eq!(BrewAction::Upgrade.command(), "upgrade");
}

#[test]
fn empty_versions_are_absent() {
    assert_eq!(Version::new(""), None);
    assert_eq!(Version::new("  "), None);
    assert_eq!(Version::new("1.2").unwrap().as_str(), "1.2");
}

#[test]
fn ordering_is_consistent_with_exact_equality() {
    let short = Version::new("1.0").unwrap();
    let padded = Version::new("1.00").unwrap();
    assert_ne!(short, padded);
    assert_ne!(short.cmp(&padded), Ordering::Equal);
    assert_eq!(short.partial_cmp(&padded), Some(short.cmp(&padded)));
    assert_eq!(short.cmp(&padded), padded.cmp(&short).reverse());
}

#[test]
fn versions_compare_with_operators() {
    let old = Version::new("1.9").unwrap();
    let new = Version::new("1.10").unwrap();
    assert!(old < new);
    assert!(new > old);
    assert_eq!(old.partial_cmp(&old.clone()), Some(Ordering::Equal));
}

#[test]
fn version_cmp_equal_only_for_identical_text() {
    let a = Version::new(" 2.1 ").unwrap();
    let b = Version::new("2.1").unwrap();
    assert_eq!(a.cmp(&b), Ordering::Equal);
    assert_eq!(Version::new("10.0").unwrap().cmp(&Version::new("9.0").unwrap()), Ordering::Greater);
}

#[test]
fn representative_ordering() {
    assert_eq!(version_cmp("1.10", "1.9"), Ordering::Greater);
    assert_eq!(version_cmp("1.0", "1.0rc1"), Ordering::Greater);
    assert_eq!(version_cmp("1.0_2", "1.0_10"), Ordering::Less);
    assert_eq!(
        version_cmp(
            "999999999999999999999999999999999999.2",
            "888888888888888888888888888888888888.9",
        ),
        Ordering::Greater
    );
    assert_eq!(version_cmp("1.3.30-stable", "1.3.9-stable"), Ordering::Greater);
}

#[test]
fn real_corpus_is_total_and_transitive() {
    for &a in REAL {
        for &b in REAL {
            assert_eq!(version_cmp(a, b), version_cmp(b, a).reverse());
            for &c in REAL {
                if version_cmp(a, b) != Ordering::Greater && version_cmp(b, c) != Ordering::Greater {
                    assert_ne!(version_cmp(a, c), Ordering::Greater, "{a} <= {b} <= {c}");
                }
            }
        }
    }
}

#[test]
fn package_ids_trim_and_reject_blank_names() {
    assert!(PackageId::new("   ", PackageKind::Formula).is_none());
    let id = PackageId::new(" wget ", PackageKind::Formula).unwrap();
    assert_eq!(id.name().as_str(), "wget");
    assert_eq!(id.kind(), PackageKind::Formula);
    assert_eq!(PackageKind::Cask.label(), "cask");
}

#[test]
fn catalog_descriptions_are_trimmed_and_blank_ones_dropped() {
    let id = PackageId::new("jq", PackageKind::Formula).unwrap();
    let with = Package::catalog(id.clone(), Version::new("1.7"), Some("  JSON processor "));
    assert_eq!(with.description(), Some("JSON processor"));
    let blank = Package::catalog(id, None, Some("   "));
    assert_eq!(blank.description(), None);
    assert_eq!(blank.update_state(), UpdateState::Unknown);
    assert!(!blank.is_installed());
}

#[test]
fn unicode_white_space_is_trimmed_too() {
    let id = PackageId::new("jq", PackageKind::Formula).unwrap();
    let spaced = Package::catalog(id.clone(), None, Some("\u{3000}\t JSON\u{a0}processor\u{2029}\u{85}"));
    assert_eq!(spaced.description(), Some("JSON\u{a0}processor"));
    assert_eq!(PackageId::new("\u{2003}wget\n", PackageKind::Formula).unwrap().name().as_str(), "wget");
    assert!(PackageId::new("\u{200a}\u{1680}", PackageKind::Cask).is_none());
}
