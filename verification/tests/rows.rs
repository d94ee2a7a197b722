use kettle::brew::{fold_all, Pkg};
use kettle::rank;
use kettle::rows::{next_cursor, progressive, rank_rows};

fn pkg(name: &str, desc: &str) -> Pkg {
    let mut p = Pkg { name: name.into(), desc: desc.into(), ..Default::default() };
    fold_all(std::slice::from_mut(&mut p));
    p
}

#[test]
fn empty_query_lists_every_package() {
    let pkgs = [pkg("ripgrep", "search tool"), pkg("bat", "cat clone")];
    assert_eq!(rank_rows(&[], &pkgs), vec![0, 1]);
    assert_eq!(rank_rows(&[], &[]), Vec::<u32>::new());
}

#[test]
fn query_narrows_to_matches() {
    let pkgs = [pkg("ripgrep", "search tool"), pkg("bat", "cat clone"), pkg("fd", "find alternative")];
    assert_eq!(rank_rows(&rank::fold("ripg"), &pkgs), vec![0]);
    assert_eq!(rank_rows(&rank::fold("clone"), &pkgs), vec![1]);
    assert!(rank_rows(&rank::fold("zzzznope"), &pkgs).is_empty());
}

#[test]
fn rank_rows_puts_better_matches_first() {
    let pkgs = [pkg("rust-in-peace", ""), pkg("ripgrep", "")];
    assert_eq!(rank_rows(&rank::fold("rip"), &pkgs), vec![1, 0]);
}

#[test]
fn progressive_drops_the_silent_e() {
    assert_eq!(progressive("upgrade"), "Upgrading");
    assert_eq!(progressive("install"), "Installing");
}

#[test]
fn progressive_of_nothing_is_nothing() {
    assert_eq!(progressive(""), "");
    assert_eq!(progressive("e"), "");
    assert_eq!(progressive("ärgere"), "Ärgering");
}

#[test]
fn arrows_clamp_and_never_wrap() {
    assert_eq!(next_cursor(Some(4), 1, 5), Some(4));
    assert_eq!(next_cursor(Some(0), -1, 5), Some(0));
    assert_eq!(next_cursor(Some(2), 1, 5), Some(3));
    assert_eq!(next_cursor(Some(2), -1, 5), Some(1));
}

#[test]
fn first_press_enters_from_the_matching_end() {
    assert_eq!(next_cursor(None, 1, 5), Some(0), "Down starts at the top");
    assert_eq!(next_cursor(None, -1, 5), Some(4), "Up starts at the bottom");
}

#[test]
fn empty_list_has_no_cursor() {
    assert_eq!(next_cursor(None, 1, 0), None);
    assert_eq!(next_cursor(Some(3), -1, 0), None);
}

#[test]
fn stale_cursor_is_clamped_into_the_new_list() {
    assert_eq!(next_cursor(Some(900), 1, 3), Some(2));
}

#[test]
fn extreme_steps_saturate() {
    assert_eq!(next_cursor(Some(usize::MAX), isize::MAX, 7), Some(6));
    assert_eq!(next_cursor(Some(3), isize::MIN, 7), Some(0));
    assert_eq!(next_cursor(None, 0, 7), Some(6));
}
