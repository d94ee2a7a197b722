use kettle::application::state::{AuthFailure, LogLevel};
use kettle::application::View;
use kettle::infrastructure::InfrastructureError;
use kettle::ui::messages::{
    auth_failure, auth_failure_message, display_args, empty_message, log_color, present_error,
    safe_message,
};
use kettle::ui::text_input::{
    clamp_content_index, floor_char_boundary, next_boundary, offset_from_utf16, offset_to_utf16,
    previous_boundary, range_from_utf16, replace_content,
};
use kettle::ui::{Appearance, Theme};

#[test]
fn composition_selection_is_relative_to_inserted_text() {
    let mut content = String::from("formula-cask");
    let inserted = replace_content(&mut content, 0..13, "");
    let relative = range_from_utf16("", &(0..13));
    let selected = inserted.start + relative.start..inserted.start + relative.end;

    assert_eq!(content.as_str(), "");
    assert_eq!(selected, 0..0);
    assert_eq!(replace_content(&mut content, selected, "🍺"), 0..4);
    assert_eq!(content.as_str(), "🍺");
}

#[test]
fn utf16_offsets_and_hit_tests_clamp_to_scalar_boundaries() {
    assert_eq!(offset_from_utf16("🍺x", 0), 0);
    assert_eq!(offset_from_utf16("🍺x", 1), 0);
    assert_eq!(offset_from_utf16("🍺x", 2), 4);
    assert_eq!(clamp_content_index("", 12), 0);
    assert_eq!(clamp_content_index("🍺", 2), 0);
    assert_eq!(clamp_content_index("🍺", 9), 4);
}

#[test]
fn utf8_offsets_map_back_to_utf16() {
    assert_eq!(offset_to_utf16("🍺x", 4), 2);
    assert_eq!(offset_to_utf16("🍺x", 2), 0);
    assert_eq!(offset_to_utf16("🍺x", 99), 3);
    assert_eq!(floor_char_boundary("aé", 2), 1);
    assert_eq!(offset_from_utf16("ab", 7), 2);
}

#[test]
fn replacing_inside_the_text_keeps_both_ends() {
    let mut content = String::from("ripgrep");
    assert_eq!(replace_content(&mut content, 3..7, "e"), 3..4);
    assert_eq!(content, "ripe");
    let mut reversed = String::from("abc");
    assert_eq!(replace_content(&mut reversed, 2..1, "X"), 2..3);
    assert_eq!(reversed, "abXc");
}

#[test]
fn grapheme_boundaries_step_over_clusters() {
    let text = "e\u{301}x";
    assert_eq!(next_boundary(text, 0), 3);
    assert_eq!(next_boundary(text, 3), 4);
    assert_eq!(previous_boundary(text, 4), 3);
    assert_eq!(previous_boundary(text, 3), 0);
    assert_eq!(previous_boundary(text, 0), 0);
}

#[test]
fn safe_messages_drop_controls_and_stay_short() {
    assert_eq!(safe_message("bad\u{7}\ncode\u{9b}!"), "badcode!");
    assert_eq!(safe_message(&"x".repeat(300)).len(), 240);
}

#[test]
fn presented_errors_name_the_failure() {
    assert_eq!(
        present_error(&InfrastructureError::OAuthDenied("nope\n".into())),
        "GitHub sign-in was denied: nope"
    );
    assert_eq!(present_error(&InfrastructureError::Cancelled), "The operation was cancelled.");
    assert_eq!(
        present_error(&InfrastructureError::HomebrewUnavailable),
        "Homebrew was not found in a supported prefix"
    );
}

#[test]
fn sign_in_failures_are_classified() {
    assert_eq!(auth_failure(&InfrastructureError::OAuthExpired), AuthFailure::Expired);
    assert_eq!(
        auth_failure(&InfrastructureError::NetworkTimeout),
        AuthFailure::Network("GitHub did not respond before the request deadline.".into())
    );
    assert!(matches!(auth_failure(&InfrastructureError::Keychain("x".into())), AuthFailure::Keychain(_)));
    assert!(matches!(auth_failure(&InfrastructureError::OAuthProtocol("x".into())), AuthFailure::Protocol(_)));
    assert_eq!(auth_failure_message(&AuthFailure::Expired), "The device code expired");
    assert_eq!(auth_failure_message(&AuthFailure::Denied("no".into())), "no");
}

#[test]
fn empty_lists_explain_themselves() {
    assert_eq!(empty_message(View::Browse, "zz"), "No packages match “zz”");
    assert_eq!(empty_message(View::Outdated, ""), "Everything is up to date");
    assert_eq!(empty_message(View::Settings, ""), "");
}

#[test]
fn command_lines_are_space_separated() {
    assert_eq!(display_args(&["upgrade".into(), "--cask".into(), "arc".into()]), "upgrade --cask arc");
    assert_eq!(display_args(&[]), "");
}

#[test]
fn palettes_follow_the_window() {
    let dark = Theme::for_appearance(Appearance::VibrantDark);
    assert_eq!(dark.background, 0x1E1E1E);
    let light = Theme::for_appearance(Appearance::Light);
    assert_eq!(light.failure, 0xB42318);
    assert_eq!(log_color(LogLevel::Error, light), 0xB42318);
    assert_eq!(log_color(LogLevel::Trace, dark), 0x686868);
}
