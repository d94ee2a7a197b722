use kettle::brew::{
    catalog_pkgs, detect_prefix, fold_all, installed_pkgs, newest_version, outdated_pkgs, plan,
    CatalogEntry, InstalledDir, OutdatedEntry, Pkg,
};

fn names(pkgs: &[Pkg]) -> Vec<&str> {
    pkgs.iter().map(|p| p.name.as_str()).collect()
}

#[test]
fn casks_and_formulae_are_separate_invocations() {
    let plan = plan(
        "upgrade",
        vec![("ripgrep".into(), false), ("ant".into(), true), ("bat".into(), false)],
    );
    assert_eq!(plan.len(), 2, "expected one formula cmd and one cask cmd");
    assert_eq!(plan[0], vec!["upgrade", "ripgrep", "bat"]);
    assert_eq!(plan[1], vec!["upgrade", "--cask", "ant"]);
    assert!(!plan[0].contains(&"ant".to_string()));
}

#[test]
fn plan_skips_empty_groups() {
    assert_eq!(plan("install", vec![]).len(), 0);
    let only_casks = plan("install", vec![("firefox".into(), true)]);
    assert_eq!(only_casks, vec![vec!["install", "--cask", "firefox"]]);
}

#[test]
fn prefix_prefers_apple_silicon() {
    assert_eq!(detect_prefix(true, true), Some("/opt/homebrew"));
    assert_eq!(detect_prefix(false, true), Some("/usr/local"));
    assert_eq!(detect_prefix(false, false), None);
}

#[test]
fn fold_all_fills_the_search_buffers() {
    let mut rows = vec![Pkg { name: "RipGrep".into(), desc: "Fast Search".into(), ..Default::default() }];
    fold_all(&mut rows);
    assert_eq!(rows[0].name_lc, b"ripgrep".to_vec());
    assert_eq!(rows[0].desc_lc, b"fast search".to_vec());
    assert_eq!(rows[0].name, "RipGrep");
}

#[test]
fn newest_version_is_numeric_and_skips_hidden_names() {
    let dirs: Vec<String> = ["9.0", ".DS_Store", "10.0", "1.2"].iter().map(|s| s.to_string()).collect();
    assert_eq!(newest_version(&dirs), Some("10.0".to_string()));
    let hidden: Vec<String> = vec![".keep".to_string()];
    assert_eq!(newest_version(&hidden), None);
}

#[test]
fn installed_rows_are_sorted_and_skip_hidden_directories() {
    let rows = installed_pkgs(vec![
        InstalledDir { name: "wget".into(), cask: false, versions: vec!["1.21".into(), "1.9".into()] },
        InstalledDir { name: ".hidden".into(), cask: false, versions: vec![] },
        InstalledDir { name: "firefox".into(), cask: true, versions: vec!["120.0".into()] },
    ]);
    assert_eq!(names(&rows), vec!["firefox", "wget"]);
    assert_eq!(rows[1].installed, "1.21");
    assert!(rows[0].cask);
    assert_eq!(rows[0].name_lc, b"firefox".to_vec());
}

#[test]
fn catalog_rows_keep_formula_before_cask_of_the_same_name() {
    let rows = catalog_pkgs(
        vec![
            CatalogEntry { name: "shared".into(), desc: Some("formula".into()), version: Some("1".into()) },
            CatalogEntry { name: "alpha".into(), desc: None, version: None },
        ],
        vec![CatalogEntry { name: "shared".into(), desc: Some("cask".into()), version: Some("2".into()) }],
    );
    assert_eq!(names(&rows), vec!["alpha", "shared", "shared"]);
    assert!(!rows[1].cask);
    assert_eq!(rows[1].desc, "formula");
    assert!(rows[2].cask);
    assert_eq!(rows[2].latest, "2");
    assert_eq!(rows[0].latest, "");
}

#[test]
fn outdated_rows_take_the_last_installed_version() {
    let rows = outdated_pkgs(
        vec![OutdatedEntry {
            name: "node".into(),
            installed_versions: vec!["20.1".into(), "20.2".into()],
            current_version: "21.0".into(),
            pinned: true,
        }],
        vec![OutdatedEntry {
            name: "arc".into(),
            installed_versions: vec![],
            current_version: "2.0".into(),
            pinned: false,
        }],
    );
    assert_eq!(names(&rows), vec!["arc", "node"]);
    assert_eq!(rows[1].installed, "20.2");
    assert_eq!(rows[1].latest, "21.0");
    assert!(rows[1].pinned && rows[1].outdated);
    assert_eq!(rows[0].installed, "");
    assert!(rows[0].cask);
}
