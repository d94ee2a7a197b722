use kettle::brew::{fold_all, Pkg};
use kettle::browser::{
    command_line, kind_label, log_tone, primary_verb, rows_listable, run_result, version_cell, Browser,
    KeyModifiers, LogTone, Tab,
};
use kettle::text::join_with;

fn pkg(name: &str, desc: &str) -> Pkg {
    let mut p = Pkg { name: name.into(), desc: desc.into(), ..Default::default() };
    fold_all(std::slice::from_mut(&mut p));
    p
}

fn cask(name: &str) -> Pkg {
    let mut p = pkg(name, "");
    p.cask = true;
    p
}

fn no_keys() -> KeyModifiers {
    KeyModifiers { platform: false, control: false, function: false, shift: false }
}

fn shift() -> KeyModifiers {
    KeyModifiers { shift: true, ..no_keys() }
}

fn names(b: &Browser) -> Vec<String> {
    (0..b.row_count()).map(|i| b.row_at(i).unwrap().0.name.clone()).collect()
}

/// A browser on the Installed tab listing `rows`, with nothing outdated.
fn installed(rows: Vec<Pkg>) -> Browser {
    let mut b = Browser::new();
    assert!(b.begin_refresh());
    b.scanned(rows, Ok(Vec::new()));
    b.outdated_checked(Ok(Vec::new()));
    b.select_tab(Tab::Installed);
    b
}

fn type_text(b: &mut Browser, text: &str) {
    b.key_down("x", Some(text), no_keys());
}

#[test]
fn a_new_browser_is_loading_and_empty() {
    let b = Browser::new();
    assert_eq!(b.tab(), Tab::Outdated);
    assert_eq!(b.status_line(), "Loading");
    assert_eq!(b.row_count(), 0);
    assert!(!b.is_busy());
    assert!(!b.is_log_open());
    assert_eq!(b.counts(), (0, 0, 0));
}

#[test]
fn a_scan_moves_through_its_statuses() {
    let mut b = Browser::new();
    assert!(b.begin_refresh());
    assert_eq!(b.status_line(), "Scanning…");
    assert!(!b.begin_refresh(), "a second scan is refused while busy");
    b.scanned(vec![pkg("wget", "")], Ok(vec![pkg("wget", "network downloader")]));
    assert_eq!(b.status_line(), "Checking for updates");
    assert!(b.is_busy());
    b.outdated_checked(Ok(vec![pkg("wget", "")]));
    assert!(!b.is_busy());
    assert_eq!(b.status_line(), "");
    assert_eq!(b.counts(), (1, 1, 1));
}

#[test]
fn outdated_rows_borrow_catalog_descriptions_and_drop_the_marker() {
    let mut b = Browser::new();
    b.begin_refresh();
    let mut stale = pkg("homebrew/core/wget", "");
    stale.outdated = true;
    b.scanned(vec![pkg("wget", "")], Ok(vec![pkg("wget", "network downloader")]));
    b.outdated_checked(Ok(vec![stale]));
    let (row, _) = b.row_at(0).unwrap();
    assert_eq!(row.desc, "network downloader");
    assert!(!row.outdated);
}

#[test]
fn installed_rows_are_marked_when_homebrew_reports_them_outdated() {
    let mut b = Browser::new();
    b.begin_refresh();
    b.scanned(vec![pkg("wget", ""), pkg("jq", "")], Ok(Vec::new()));
    b.outdated_checked(Ok(vec![pkg("wget", "")]));
    b.select_tab(Tab::Installed);
    assert!(b.row_at(0).unwrap().0.outdated);
    assert!(!b.row_at(1).unwrap().0.outdated);
}

#[test]
fn browse_keeps_catalog_rows_as_they_are() {
    let mut b = Browser::new();
    b.begin_refresh();
    b.scanned(Vec::new(), Ok(vec![pkg("wget", "network downloader")]));
    b.outdated_checked(Ok(vec![pkg("wget", "")]));
    b.select_tab(Tab::Browse);
    let (row, _) = b.row_at(0).unwrap();
    assert!(!row.outdated);
    assert_eq!(row.desc, "network downloader");
}

#[test]
fn failed_loads_are_logged_and_keep_what_was_there() {
    let mut b = Browser::new();
    b.begin_refresh();
    b.scanned(vec![pkg("wget", "")], Err("cache missing".into()));
    b.outdated_checked(Err("brew exited 1".into()));
    assert_eq!(
        b.log_tail(),
        vec!["Couldn't load the catalog. cache missing", "Couldn't read outdated packages. brew exited 1"]
    );
    assert_eq!(b.counts(), (0, 1, 0));
    assert_eq!(b.empty_message().as_deref(), Some("Everything is up to date"));
}

#[test]
fn the_log_keeps_its_newest_lines() {
    let mut b = Browser::new();
    for i in 0..4001 {
        b.push_log(format!("line {i}"));
    }
    assert_eq!(b.log_len(), 2000);
    let tail = b.log_tail();
    assert_eq!(tail.len(), 200);
    assert_eq!(tail[0], "line 3801");
    assert_eq!(tail[199], "line 4000");
}

#[test]
fn typing_filters_and_clears_the_selection() {
    let mut b = installed(vec![pkg("ripgrep", "search tool"), pkg("bat", "cat clone")]);
    assert_eq!(names(&b), vec!["ripgrep", "bat"]);
    b.move_cursor(1, false);
    assert_eq!(b.status_line(), "1 selected");
    type_text(&mut b, "clo");
    assert_eq!(b.query(), "clo");
    assert_eq!(names(&b), vec!["bat"]);
    assert_eq!(b.cursor(), None);
    assert_eq!(b.status_line(), "1 match");
    b.key_down("backspace", None, no_keys());
    assert_eq!(b.query(), "cl");
    b.key_down("escape", None, no_keys());
    assert_eq!(b.query(), "");
    assert_eq!(b.row_count(), 2);
}

#[test]
fn shortcuts_enter_and_control_text_leave_the_query_alone() {
    let mut b = installed(vec![pkg("ripgrep", "")]);
    b.key_down("r", Some("r"), KeyModifiers { platform: true, ..no_keys() });
    b.key_down("enter", Some("\r"), no_keys());
    b.key_down("x", Some("\u{7}"), no_keys());
    b.key_down("x", None, no_keys());
    assert_eq!(b.query(), "");
}

#[test]
fn no_match_says_so() {
    let mut b = installed(vec![pkg("ripgrep", "")]);
    type_text(&mut b, "zz");
    assert_eq!(b.row_count(), 0);
    assert_eq!(b.empty_message().as_deref(), Some("No packages match \u{201C}zz\u{201D}"));
    b.clear_search();
    assert_eq!(b.row_count(), 1);
    assert_eq!(b.empty_message(), None);
}

#[test]
fn arrows_move_and_select_without_touching_the_query() {
    let mut b = installed(vec![pkg("a", ""), pkg("b", ""), pkg("c", "")]);
    b.key_down("up", None, no_keys());
    assert_eq!(b.cursor(), Some(2));
    b.key_down("up", None, shift());
    assert_eq!(b.cursor(), Some(1));
    assert!(b.row_at(1).unwrap().1 && b.row_at(2).unwrap().1);
    b.key_down("down", None, no_keys());
    assert_eq!(b.cursor(), Some(2));
    assert!(!b.row_at(1).unwrap().1 && b.row_at(2).unwrap().1);
    assert_eq!(b.query(), "");
}

#[test]
fn clicks_select_toggle_and_deselect() {
    let mut b = installed(vec![pkg("a", ""), pkg("b", "")]);
    b.click_row(0, false);
    assert_eq!(b.cursor(), Some(0));
    assert!(b.row_at(0).unwrap().1);
    b.click_row(1, true);
    assert!(b.row_at(0).unwrap().1 && b.row_at(1).unwrap().1);
    b.click_row(0, true);
    assert!(!b.row_at(0).unwrap().1 && b.row_at(1).unwrap().1);
    b.click_row(1, false);
    assert!(!b.row_at(1).unwrap().1, "a plain click on the only selected row clears it");
    assert_eq!(b.status_line(), "");
}

#[test]
fn selected_items_skip_pinned_rows_and_come_sorted() {
    let mut pinned = pkg("aaa", "");
    pinned.pinned = true;
    let mut b = installed(vec![pkg("zsh", ""), cask("ant"), pkg("ant", ""), pinned]);
    for i in 0..4 {
        b.click_row(i, true);
    }
    assert_eq!(
        b.selected_items(),
        vec![("ant".to_string(), false), ("ant".to_string(), true), ("zsh".to_string(), false)]
    );
    assert_eq!(b.primary_label(), "Upgrade 4");
    assert!(b.can_act());
}

#[test]
fn upgrade_all_takes_every_unpinned_outdated_package_in_order() {
    let mut b = Browser::new();
    b.begin_refresh();
    let mut pinned = pkg("node", "");
    pinned.pinned = true;
    b.scanned(Vec::new(), Ok(Vec::new()));
    b.outdated_checked(Ok(vec![pkg("wget", ""), pinned, cask("firefox")]));
    assert_eq!(b.all_outdated_items(), vec![("wget".to_string(), false), ("firefox".to_string(), true)]);
    assert!(b.can_upgrade_all());
}

#[test]
fn a_run_reports_progress_and_its_end() {
    let mut b = installed(vec![pkg("wget", "")]);
    assert!(!b.begin_run("upgrade", 0), "nothing to do is refused");
    assert!(b.begin_run("upgrade", 2));
    assert_eq!(b.status_line(), "Upgrading 2 packages");
    assert!(b.is_log_open());
    assert!(!b.begin_run("upgrade", 1), "a second run is refused while busy");
    assert!(!b.can_refresh());
    b.run_finished("upgrade", 2, Ok(()));
    b.run_finished("install", 1, Ok(()));
    b.run_finished("upgrade", 1, Err("wget: boom; jq: bang".into()));
    assert_eq!(
        b.log_tail(),
        vec!["Finished. 2 packages upgraded.", "Finished. 1 package installd.", "Failed. wget: boom; jq: bang"]
    );
    b.rescanned(vec![pkg("wget", ""), pkg("jq", "")], Err("ignored".into()));
    assert!(!b.is_busy());
    assert_eq!(b.row_count(), 2);
    assert_eq!(b.log_len(), 3);
    b.toggle_log();
    assert!(!b.is_log_open());
}

#[test]
fn the_primary_action_installs_on_browse_only() {
    assert_eq!(primary_verb(Tab::Browse), "install");
    assert_eq!(primary_verb(Tab::Outdated), "upgrade");
    let mut b = Browser::new();
    b.select_tab(Tab::Browse);
    assert_eq!(b.primary_label(), "Install Selected");
}

#[test]
fn log_lines_take_their_tone_from_how_they_start() {
    assert_eq!(log_tone("Failed. x"), LogTone::Failure);
    assert_eq!(log_tone("Couldn't load the catalog. x"), LogTone::Failure);
    assert_eq!(log_tone("Finished. 1 package upgraded."), LogTone::Summary);
    assert_eq!(log_tone("$ brew upgrade wget"), LogTone::Command);
    assert_eq!(log_tone("==> Pouring"), LogTone::Output);
    assert_eq!(log_tone(""), LogTone::Output);
}

#[test]
fn the_version_column_shows_a_transition_only_when_both_ends_are_known() {
    let mut p = pkg("wget", "");
    p.installed = "1.0".into();
    p.latest = "1.1".into();
    let cell = version_cell(&p);
    assert_eq!(cell.version, "1.0");
    assert_eq!(cell.target.as_deref(), Some("1.1"));
    assert!(!cell.stale);

    p.latest = String::new();
    p.outdated = true;
    let cell = version_cell(&p);
    assert_eq!(cell.target, None);
    assert!(cell.stale);

    p.installed = String::new();
    p.latest = "2.0".into();
    assert_eq!(version_cell(&p).version, "2.0");
    assert_eq!(kind_label(&p), "formula");
    assert_eq!(kind_label(&cask("firefox")), "cask");
}

#[test]
fn runs_log_their_commands_and_join_failures() {
    assert_eq!(command_line(&vec!["upgrade".into(), "--cask".into(), "firefox".into()]), "$ brew upgrade --cask firefox");
    assert_eq!(run_result(&Vec::new()), Ok(()));
    assert_eq!(run_result(&vec!["a".into(), "b".into()]), Err("a; b".to_string()));
    assert_eq!(join_with(&vec!["x".into()], ", "), "x");
    assert_eq!(join_with(&Vec::new(), ", "), "");
}

#[test]
fn unfolded_rows_are_not_listable() {
    assert!(rows_listable(&vec![pkg("wget", "downloader")]));
    let raw = Pkg { name: "w".into(), name_lc: b"wget".to_vec(), ..Default::default() };
    assert!(!rows_listable(&vec![raw]));
}
