//! What the interface says: error presentation, sign-in failures, empty
//! lists, log colors.
use crate::application::action;
use crate::application::state::{AuthFailure, LogLevel};
use crate::infrastructure::error::error_text;
use crate::infrastructure::InfrastructureError;
use crate::text::{chars_of, concat, from_chars, owned};
use crate::ui::theme::Theme;
use vstd::prelude::*;

verus! {

/// Whether a character is a control code (Unicode category Cc), as
/// `char::is_control` answers.
pub open spec fn is_control(c: char) -> bool {
    (c as u32) <= 0x1F || (0x7F <= (c as u32) && (c as u32) <= 0x9F)
}

/// The characters of `s` that are not control codes, in order.
pub open spec fn without_controls(s: Seq<char>) -> Seq<char>
    decreases s.len(),
{
    if s.len() == 0 {
        Seq::empty()
    } else if is_control(s.last()) {
        without_controls(s.drop_last())
    } else {
        without_controls(s.drop_last()).push(s.last())
    }
}

/// The most characters of a server's message that are shown.
pub const MESSAGE_LIMIT: usize = 240;

/// A server's message made safe to show: control characters dropped, at
/// most 240 characters kept.
pub open spec fn safe_text(s: Seq<char>) -> Seq<char> {
    let clean = without_controls(s);
    if clean.len() > MESSAGE_LIMIT {
        clean.take(MESSAGE_LIMIT as int)
    } else {
        clean
    }
}

pub(crate) fn control(c: char) -> (r: bool)
    ensures
        r == is_control(c),
{
    let code = c as u32;
    code <= 0x1F || (0x7F <= code && code <= 0x9F)
}

/// Make a server's message safe to show.
pub fn safe_message(message: &str) -> (r: String)
    ensures
        r@ == safe_text(message@),
{
    let chars = chars_of(message);
    let mut kept: Vec<char> = Vec::new();
    let mut i: usize = 0;
    while i < chars.len() && kept.len() < MESSAGE_LIMIT
        invariant
            i <= chars.len(),
            kept.len() <= MESSAGE_LIMIT,
            chars@ == message@,
            kept@ == without_controls(chars@.take(i as int)),
        decreases chars.len() - i,
    {
        assert(chars@.take(i + 1).drop_last() =~= chars@.take(i as int));
        assert(chars@.take(i + 1).last() == chars@[i as int]);
        if !control(chars[i]) {
            kept.push(chars[i]);
        }
        i = i + 1;
    }
    proof {
        lemma_without_controls_prefix(chars@, i as int);
    }
    from_chars(kept.as_slice())
}

/// Cleaning a prefix cleans a prefix: once `MESSAGE_LIMIT` characters are
/// kept, the rest of the message does not change what is shown.
proof fn lemma_without_controls_prefix(s: Seq<char>, i: int)
    requires
        0 <= i <= s.len(),
        i == s.len() || without_controls(s.take(i)).len() >= MESSAGE_LIMIT,
        without_controls(s.take(i)).len() <= MESSAGE_LIMIT,
    ensures
        without_controls(s.take(i)) == safe_text(s),
    decreases s.len() - i,
{
    if i == s.len() {
        assert(s.take(i) =~= s);
    } else {
        lemma_extends(s, i, s.len() as int);
        assert(s.take(s.len() as int) =~= s);
    }
}

/// `without_controls` of a longer prefix extends that of a shorter one.
proof fn lemma_extends(s: Seq<char>, i: int, j: int)
    requires
        0 <= i <= j <= s.len(),
    ensures
        without_controls(s.take(j)).len() >= without_controls(s.take(i)).len(),
        without_controls(s.take(j)).take(without_controls(s.take(i)).len() as int) == without_controls(
            s.take(i),
        ),
    decreases j - i,
{
    if i < j {
        lemma_extends(s, i, j - 1);
        assert(s.take(j).drop_last() =~= s.take(j - 1));
        let a = without_controls(s.take(i));
        let b = without_controls(s.take(j - 1));
        let c = without_controls(s.take(j));
        if !is_control(s.take(j).last()) {
            assert(c == b.push(s.take(j).last()));
            assert(c.take(a.len() as int) =~= b.take(a.len() as int));
        }
    }
}

/// How an adapter failure is shown to the user.
pub open spec fn presented(e: InfrastructureError) -> Seq<char> {
    match e {
        InfrastructureError::NetworkTimeout => "GitHub did not respond before the request deadline."@,
        InfrastructureError::OAuthDenied(d) => "GitHub sign-in was denied: "@ + safe_text(d@),
        InfrastructureError::NetworkTransport(_) => "GitHub could not be reached because the network request failed."@,
        InfrastructureError::OAuthProtocol(d) => "GitHub sign-in failed: "@ + safe_text(d@),
        InfrastructureError::Keychain(_) => "The OAuth token could not be updated in the macOS Keychain."@,
        InfrastructureError::OAuthExpired => "The GitHub device code expired."@,
        InfrastructureError::Cancelled => "The operation was cancelled."@,
        _ => error_text(e),
    }
}

/// Show an adapter failure.
pub fn present_error(error: &InfrastructureError) -> (r: String)
    ensures
        r@ == presented(*error),
{
    match error {
        InfrastructureError::NetworkTimeout => owned("GitHub did not respond before the request deadline."),
        InfrastructureError::OAuthDenied(description) => concat(
            "GitHub sign-in was denied: ",
            safe_message(description.as_str()).as_str(),
        ),
        InfrastructureError::NetworkTransport(_) => owned(
            "GitHub could not be reached because the network request failed.",
        ),
        InfrastructureError::OAuthProtocol(description) => concat(
            "GitHub sign-in failed: ",
            safe_message(description.as_str()).as_str(),
        ),
        InfrastructureError::Keychain(_) => owned(
            "The OAuth token could not be updated in the macOS Keychain.",
        ),
        InfrastructureError::OAuthExpired => owned("The GitHub device code expired."),
        InfrastructureError::Cancelled => owned("The operation was cancelled."),
        _ => error.message(),
    }
}

/// Which sign-in failure an adapter failure is, with what is shown for it.
pub open spec fn failure_of(e: InfrastructureError, r: AuthFailure) -> bool {
    match e {
        InfrastructureError::OAuthDenied(d) => r matches AuthFailure::Denied(m) && m@ == safe_text(d@),
        InfrastructureError::OAuthExpired => r is Expired,
        InfrastructureError::NetworkTimeout | InfrastructureError::NetworkTransport(_) => r matches AuthFailure::Network(
            m,
        ) && m@ == presented(e),
        InfrastructureError::Keychain(_) => r matches AuthFailure::Keychain(m) && m@ == presented(e),
        _ => r matches AuthFailure::Protocol(m) && m@ == presented(e),
    }
}

/// Classify a sign-in failure.
pub fn auth_failure(error: &InfrastructureError) -> (r: AuthFailure)
    ensures
        failure_of(*error, r),
{
    match error {
        InfrastructureError::OAuthDenied(description) => AuthFailure::Denied(
            safe_message(description.as_str()),
        ),
        InfrastructureError::OAuthExpired => AuthFailure::Expired,
        InfrastructureError::NetworkTimeout => AuthFailure::Network(present_error(error)),
        InfrastructureError::NetworkTransport(_) => AuthFailure::Network(present_error(error)),
        InfrastructureError::Keychain(_) => AuthFailure::Keychain(present_error(error)),
        _ => AuthFailure::Protocol(present_error(error)),
    }
}

/// What a sign-in failure shows.
pub fn auth_failure_message(error: &AuthFailure) -> (r: String)
    ensures
        match error {
            AuthFailure::Denied(m) | AuthFailure::Network(m) | AuthFailure::Keychain(m)
            | AuthFailure::Protocol(m) => r@ == m@,
            AuthFailure::Expired => r@ == "The device code expired"@,
        },
{
    match error {
        AuthFailure::Denied(message) => message.clone(),
        AuthFailure::Network(message) => message.clone(),
        AuthFailure::Keychain(message) => message.clone(),
        AuthFailure::Protocol(message) => message.clone(),
        AuthFailure::Expired => owned("The device code expired"),
    }
}

/// What an empty list says: that nothing matches a query, else why the
/// view is empty.
pub open spec fn empty_text(view: action::View, query: Seq<char>) -> Seq<char> {
    if query.len() > 0 {
        "No packages match “"@ + query + "”"@
    } else {
        match view {
            action::View::Outdated => "Everything is up to date"@,
            action::View::Installed => "No packages installed"@,
            action::View::Browse => "Catalog unavailable; see Activity for the typed failure"@,
            action::View::Settings => Seq::empty(),
        }
    }
}

pub fn empty_message(view: action::View, query: &str) -> (r: String)
    ensures
        r@ == empty_text(view, query@),
{
    if chars_of(query).len() > 0 {
        let head = concat("No packages match “", query);
        return concat(head.as_str(), "”");
    }
    match view {
        action::View::Outdated => owned("Everything is up to date"),
        action::View::Installed => owned("No packages installed"),
        action::View::Browse => owned("Catalog unavailable; see Activity for the typed failure"),
        action::View::Settings => String::new(),
    }
}

/// Arguments joined with single spaces.
pub open spec fn spaced(args: Seq<Seq<char>>) -> Seq<char>
    decreases args.len(),
{
    if args.len() == 0 {
        Seq::empty()
    } else if args.len() == 1 {
        args[0]
    } else {
        spaced(args.drop_last()) + seq![' '] + args.last()
    }
}

/// A command line as the log shows it.
pub fn display_args(arguments: &[String]) -> (r: String)
    ensures
        r@ == spaced(arguments@.map_values(|a: String| a@)),
{
    let ghost args = arguments@.map_values(|a: String| a@);
    let mut out: Vec<char> = Vec::new();
    let mut i: usize = 0;
    while i < arguments.len()
        invariant
            i <= arguments.len(),
            args == arguments@.map_values(|a: String| a@),
            out@ == spaced(args.take(i as int)),
        decreases arguments.len() - i,
    {
        assert(args.take(i + 1).drop_last() =~= args.take(i as int));
        assert(args.take(i + 1).last() == args[i as int]);
        assert(args[i as int] == arguments@[i as int]@);
        if i > 0 {
            out.push(' ');
        }
        let word = chars_of(arguments[i].as_str());
        let ghost start = out@;
        let mut k: usize = 0;
        while k < word.len()
            invariant
                k <= word.len(),
                out@ =~= start + word@.take(k as int),
            decreases word.len() - k,
        {
            out.push(word[k]);
            k = k + 1;
        }
        assert(word@.take(k as int) =~= word@);
        if i == 0 {
            assert(args.take(1) =~= seq![args[0]]);
        }
        i = i + 1;
    }
    assert(args.take(i as int) =~= args);
    from_chars(out.as_slice())
}

/// The color of a log line.
pub fn log_color(level: LogLevel, theme: Theme) -> (r: u32)
    ensures
        r == match level {
            LogLevel::Trace => theme.faint,
            LogLevel::Info => theme.muted,
            LogLevel::Success => theme.text,
            LogLevel::Error => theme.failure,
        },
{
    match level {
        LogLevel::Trace => theme.faint,
        LogLevel::Info => theme.muted,
        LogLevel::Success => theme.text,
        LogLevel::Error => theme.failure,
    }
}

} // verus!
