use kettle::application::state::{AppState, AuthState, LogEvent, LogLevel, LogSource, OperationState, RefreshStage};
use kettle::application::store::PackageStore;
use kettle::application::{AppController, ClickModifiers, SelectionModel, View};
use kettle::domain::{BrewAction, Package, PackageId, PackageKind, UpdateState, Version};

fn id(name: &str, kind: PackageKind) -> PackageId {
    PackageId::new(name, kind).unwrap()
}

fn visible() -> Vec<PackageId> {
    ["a", "b", "c", "d", "e"]
        .iter()
        .map(|name| id(name, PackageKind::Formula))
        .collect()
}

fn selected_has(selection: &SelectionModel, wanted: &PackageId) -> bool {
    selection.selected().iter().any(|candidate| candidate == wanted)
}

#[test]
fn superseding_refresh_cancels_old_generation() {
    let mut controller = AppController::default();
    let (first, first_token) = controller.begin_refresh();
    let (second, _) = controller.begin_refresh();
    assert!(first_token.is_cancelled());
    assert!(!controller.refresh_is_current(first));
    assert!(controller.refresh_is_current(second));
}

#[test]
fn authentication_is_cancellable() {
    let mut controller = AppController::default();
    let token = controller.begin_authentication();
    controller.cancel_authentication();
    assert!(token.is_cancelled());
    assert_eq!(controller.state.auth, AuthState::SignedOut);
}

#[test]
fn finished_refresh_goes_idle_only_when_current() {
    let mut controller = AppController::default();
    let (first, _) = controller.begin_refresh();
    let (second, _) = controller.begin_refresh();
    assert_eq!(controller.state.operation, OperationState::Refreshing(RefreshStage::InstalledState));
    controller.finish_refresh(first);
    assert_eq!(controller.state.operation, OperationState::Refreshing(RefreshStage::InstalledState));
    controller.finish_refresh(second);
    assert_eq!(controller.state.operation, OperationState::Idle);
    assert!(!controller.refresh_is_current(second));
}

#[test]
fn mutation_is_refused_while_busy_or_empty() {
    let mut controller = AppController::default();
    assert!(controller.begin_mutation(BrewAction::Upgrade, 0).is_none());
    let token = controller.begin_mutation(BrewAction::Upgrade, 2);
    assert!(token.is_some());
    assert_eq!(
        controller.state.operation,
        OperationState::Mutating { action: BrewAction::Upgrade, targets: 2 }
    );
    assert!(controller.begin_mutation(BrewAction::Install, 1).is_none());
    controller.finish_mutation();
    assert_eq!(controller.state.operation, OperationState::Idle);
}

#[test]
fn shutdown_cancels_every_live_token() {
    let mut controller = AppController::default();
    let (_, refresh) = controller.begin_refresh();
    let auth = controller.begin_authentication();
    controller.shutdown();
    assert!(refresh.is_cancelled());
    assert!(auth.is_cancelled());
}

#[test]
fn settled_sign_in_survives_cancellation() {
    let mut controller = AppController::default();
    let _ = controller.begin_authentication();
    controller.state.auth = AuthState::SignedIn(kettle::application::GitHubUser("octocat".to_owned()));
    controller.cancel_authentication();
    assert_eq!(
        controller.state.auth,
        AuthState::SignedIn(kettle::application::GitHubUser("octocat".to_owned()))
    );
}

#[test]
fn shift_arrow_expands_and_contracts_from_anchor() {
    let mut selection = SelectionModel::default();
    selection.set_visible(visible());
    selection.click(2, ClickModifiers::default());
    selection.move_cursor(1, true);
    selection.move_cursor(1, true);
    assert_eq!(selection.selected().len(), 3);
    selection.move_cursor(-1, true);
    assert_eq!(selection.selected().len(), 2);
    assert!(selected_has(&selection, &id("c", PackageKind::Formula)));
    assert!(selected_has(&selection, &id("d", PackageKind::Formula)));
}

#[test]
fn shift_click_selects_the_anchored_range() {
    let mut selection = SelectionModel::default();
    selection.set_visible(visible());
    selection.click(1, ClickModifiers::default());
    selection.click(4, ClickModifiers { command: false, shift: true });
    assert_eq!(selection.selected().len(), 4);
    assert!(!selected_has(&selection, &id("a", PackageKind::Formula)));
    assert!(selected_has(&selection, &id("e", PackageKind::Formula)));
}

#[test]
fn formula_and_cask_with_same_name_select_independently() {
    let formula = id("ant", PackageKind::Formula);
    let cask = id("ant", PackageKind::Cask);
    let mut selection = SelectionModel::default();
    selection.set_visible(vec![formula.clone(), cask.clone()]);
    selection.click(0, ClickModifiers::default());
    selection.click(1, ClickModifiers { command: true, shift: false });
    assert!(selected_has(&selection, &formula));
    assert!(selected_has(&selection, &cask));
}

#[test]
fn filtering_removes_stale_ids_and_keeps_cursor_safe() {
    let mut selection = SelectionModel::default();
    selection.set_visible(visible());
    selection.click(4, ClickModifiers::default());
    selection.set_visible(vec![id("a", PackageKind::Formula)]);
    assert_eq!(selection.cursor(), Some(0));
    assert!(selection.selected().is_empty());
    selection.set_visible(Vec::new());
    assert_eq!(selection.cursor(), None);
}

#[test]
fn command_click_toggles_and_select_all_covers_the_list() {
    let mut selection = SelectionModel::default();
    selection.set_visible(visible());
    selection.click(3, ClickModifiers { command: true, shift: false });
    assert_eq!(selection.selected().len(), 1);
    selection.click(3, ClickModifiers { command: true, shift: false });
    assert!(selection.selected().is_empty());
    selection.select_all();
    assert_eq!(selection.selected().len(), 5);
    assert_eq!(selection.cursor(), Some(0));
    selection.clear();
    assert!(selection.selected().is_empty());
}

#[test]
fn click_past_the_end_changes_nothing() {
    let mut selection = SelectionModel::default();
    selection.set_visible(visible());
    selection.click(1, ClickModifiers::default());
    selection.click(9, ClickModifiers::default());
    assert_eq!(selection.cursor(), Some(1));
    assert_eq!(selection.selected().len(), 1);
}

#[test]
fn cursor_follows_its_package_across_filtering() {
    let mut selection = SelectionModel::default();
    selection.set_visible(visible());
    selection.click(3, ClickModifiers::default());
    selection.set_visible(vec![id("c", PackageKind::Formula), id("d", PackageKind::Formula)]);
    assert_eq!(selection.cursor(), Some(1));
    assert_eq!(selection.visible().len(), 2);
}

#[test]
fn arrows_on_the_selection_clamp() {
    let mut selection = SelectionModel::default();
    selection.set_visible(visible());
    assert_eq!(selection.move_cursor(-1, false), Some(0));
    assert_eq!(selection.move_cursor(10, false), Some(4));
    assert_eq!(selection.move_cursor(1, false), Some(4));
    assert_eq!(selection.move_cursor(-10, false), Some(0));
    selection.set_visible(Vec::new());
    assert_eq!(selection.move_cursor(1, false), None);
}

#[test]
fn namespace_is_preserved_across_every_overlay() {
    let formula = id("shared", PackageKind::Formula);
    let cask = id("shared", PackageKind::Cask);
    let mut store = PackageStore::default();
    store.replace(
        vec![Package::installed(formula.clone(), Version::new("1"), true)],
        vec![
            Package::catalog(formula.clone(), Version::new("2"), Some("formula description")),
            Package::catalog(cask.clone(), Version::new("9"), Some("cask description")),
        ],
        vec![Package::outdated(cask.clone(), Version::new("8"), Version::new("9"), false)],
    );

    let formula_package = store.package(&formula).unwrap();
    let cask_package = store.package(&cask).unwrap();
    assert!(formula_package.is_pinned());
    assert_eq!(formula_package.update_state(), UpdateState::Unknown);
    assert_eq!(formula_package.description(), Some("formula description"));
    assert!(!cask_package.is_pinned());
    assert_eq!(cask_package.update_state(), UpdateState::UpdateAvailable);
    assert_eq!(cask_package.description(), Some("cask description"));
    assert_eq!(store.ids(View::Outdated), &[cask]);
    assert_eq!(store.ids(View::Installed), &[formula]);
}

#[test]
fn log_retention_is_a_real_ring_buffer() {
    let mut state = AppState::default();
    for index in 0..AppState::MAX_LOG_EVENTS + 5 {
        state.push_log(LogEvent {
            level: LogLevel::Info,
            source: LogSource::Application,
            message: index.to_string(),
        });
    }
    assert_eq!(state.logs().len(), AppState::MAX_LOG_EVENTS);
    assert_eq!(state.logs().front().unwrap().message, "5");
}

#[test]
fn selected_targets_skip_pinned_and_unknown_packages() {
    let free = id("free", PackageKind::Formula);
    let pinned = id("held", PackageKind::Formula);
    let unknown = id("ghost", PackageKind::Cask);
    let mut state = AppState::default();
    state.packages.replace(
        vec![
            Package::installed(free.clone(), Version::new("1"), false),
            Package::installed(pinned.clone(), Version::new("1"), true),
        ],
        Vec::new(),
        Vec::new(),
    );
    state.selection.set_visible(vec![free.clone(), pinned.clone(), unknown.clone()]);
    state.selection.select_all();
    assert_eq!(state.selected_targets(), vec![free]);
}

#[test]
fn switching_view_clears_the_selection_and_shows_that_list() {
    let installed = id("wget", PackageKind::Formula);
    let mut state = AppState::default();
    state.packages.replace(
        vec![Package::installed(installed.clone(), Version::new("1.21"), false)],
        Vec::new(),
        Vec::new(),
    );
    state.set_view(View::Installed);
    assert_eq!(state.selection.visible(), &[installed.clone()]);
    state.selection.select_all();
    state.set_view(View::Settings);
    assert!(state.selection.visible().is_empty());
    assert!(state.selection.selected().is_empty());
}

#[test]
fn query_filters_the_shown_rows() {
    let mut state = AppState::default();
    state.packages.replace(
        Vec::new(),
        vec![
            Package::catalog(id("ripgrep", PackageKind::Formula), Version::new("14"), Some("search tool")),
            Package::catalog(id("bat", PackageKind::Formula), Version::new("0.24"), Some("cat clone")),
        ],
        Vec::new(),
    );
    state.view = View::Browse;
    state.query = "ripg".to_owned();
    state.refilter();
    assert_eq!(state.selection.visible(), &[id("ripgrep", PackageKind::Formula)]);
}

#[test]
fn every_listed_id_has_a_package() {
    let mut store = PackageStore::default();
    store.preview_installed(&[Package::installed(id("wget", PackageKind::Formula), Version::new("1"), false)]);
    store.preview_catalog(&[
        Package::catalog(id("jq", PackageKind::Formula), Version::new("1.7"), None::<&str>),
        Package::catalog(id("arc", PackageKind::Cask), None, Some("browser")),
    ]);
    store.preview_outdated(&[Package::outdated(
        id("wget", PackageKind::Formula),
        Version::new("1"),
        Version::new("2"),
        false,
    )]);
    for view in [View::Installed, View::Browse, View::Outdated, View::Settings] {
        for listed in store.ids(view) {
            assert_eq!(store.package(listed).unwrap().id(), listed);
        }
    }
    assert!(store.ids(View::Settings).is_empty());
    assert_eq!(store.ids(View::Browse).len(), 2);
}

#[test]
fn cursor_is_present_exactly_when_rows_are() {
    let mut selection = SelectionModel::default();
    assert_eq!(selection.cursor(), None);
    selection.set_visible(visible());
    assert_eq!(selection.cursor(), Some(0));
    selection.move_cursor(10, false);
    assert_eq!(selection.cursor(), Some(4));
    selection.set_visible(Vec::new());
    assert_eq!(selection.cursor(), None);
    assert_eq!(selection.move_cursor(1, true), None);
    selection.set_visible(visible());
    selection.select_all();
    assert_eq!(selection.cursor(), Some(0));
    assert!(selection.selected().iter().all(|s| selection.visible().contains(s)));
}
