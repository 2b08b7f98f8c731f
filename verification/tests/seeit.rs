//! The command line of the reproducing program, once it has been read.

use seer::command::Selector;
use seer::filter::{EventPredicate, Filter, FilterSyntax, Predicate};
use seer::seeit::{
    combine_filter, header_line, target_words, ArgValidateError, Args, ResolvedMode,
};
use seer::session::{HostnameDisplay, SessionId};

fn args() -> Args {
    Args {
        session: None,
        stream: None,
        tab: None,
        bookmark: None,
        count: None,
        before: None,
        filter: None,
        and_filter: None,
        header: false,
        show_extras: false,
        no_extras: false,
        hostname: None,
        show_date: false,
        no_date: false,
        show_pid: false,
        no_pid: false,
        show_name: false,
        no_name: false,
        show_raw: false,
        no_raw: false,
    }
}

fn in_session() -> Args {
    Args { session: Some(SessionId(0xdeadbeef)), ..args() }
}

fn required(a: &Args, expected: &str) {
    match a.validate() {
        Err(ArgValidateError::SessionRequired { flag }) => assert_eq!(flag, expected),
        Ok(()) => panic!("{expected} should need a session"),
    }
}

#[test]
fn rejects_selector_without_session() {
    required(&Args { stream: Some("Nexus".to_string()), ..args() }, "--stream");
    required(&Args { tab: Some("Tab 1".to_string()), ..args() }, "--tab");
    required(&Args { bookmark: Some("panic".to_string()), ..args() }, "--bookmark");
}

#[test]
fn rejects_and_filter_without_session() {
    required(&Args { and_filter: Some("level>=warn".to_string()), ..args() }, "--and-filter");
}

#[test]
fn rejects_before_without_session() {
    required(&Args { before: Some(5), ..args() }, "--before");
}

#[test]
fn validate_accepts_file_mode_and_session_mode() {
    args().validate().unwrap();
    Args { stream: Some("x".to_string()), ..in_session() }.validate().unwrap();
    Args { before: Some(5), ..in_session() }.validate().unwrap();
}

#[test]
fn missing_sessions_are_described_by_their_flag() {
    let err = Args { before: Some(5), ..args() }.validate().unwrap_err();
    let text = err.describe();
    assert!(text.contains("--before"), "{text}");
    assert!(text.contains("--session"), "{text}");
}

#[test]
fn rejects_invalid_session_id() {
    assert!(SessionId::parse("").is_none());
    assert!(SessionId::parse("abcdef-h").is_none());
}

#[test]
fn file_mode_defaults_match_legacy_maximalist_render() {
    let opts = Args::file_mode_defaults();
    assert!(opts.show_extras);
    assert!(opts.show_date);
    assert_eq!(opts.hostname, HostnameDisplay::Full);
    assert!(opts.show_pid);
    assert!(opts.show_name);
    assert!(!opts.show_raw);
}

#[test]
fn render_override_flags_flip_individual_fields() {
    let a = Args {
        no_extras: true,
        no_pid: true,
        hostname: Some(HostnameDisplay::Short),
        ..args()
    };
    let opts = a.apply_overrides(Args::file_mode_defaults());
    assert!(!opts.show_extras);
    assert!(!opts.show_pid);
    assert_eq!(opts.hostname, HostnameDisplay::Short);
    assert!(opts.show_date);
    assert!(opts.show_name);
}

#[test]
fn render_override_hostname_none() {
    let a = Args { hostname: Some(HostnameDisplay::Hidden), ..args() };
    let opts = a.apply_overrides(Args::file_mode_defaults());
    assert_eq!(opts.hostname, HostnameDisplay::Hidden);
}

#[test]
fn render_override_show_raw() {
    let a = Args { show_raw: true, ..args() };
    let opts = a.apply_overrides(Args::file_mode_defaults());
    assert!(opts.show_raw);
}

#[test]
fn overrides_settle() {
    let a = Args {
        show_raw: true,
        no_date: true,
        show_pid: true,
        no_name: true,
        hostname: Some(HostnameDisplay::Short),
        ..args()
    };
    let once = a.apply_overrides(Args::file_mode_defaults());
    assert_eq!(a.apply_overrides(once), once);
}

#[test]
fn the_target_is_the_selector_given() {
    assert!(matches!(in_session().selector(), Selector::WholeSession));
    let stream = Args { stream: Some("s".to_string()), ..in_session() };
    assert!(matches!(stream.selector(), Selector::Stream(n) if n == "s"));
    let tab = Args { tab: Some("t".to_string()), ..in_session() };
    assert!(matches!(tab.selector(), Selector::Tab(n) if n == "t"));
    let bookmark = Args { bookmark: Some("b".to_string()), ..in_session() };
    assert!(matches!(bookmark.selector(), Selector::Bookmark(n) if n == "b"));
}

/// One predicate per word; "bad" is none.
struct Words;

impl FilterSyntax for Words {
    fn parse(&self, text: &str) -> Result<Filter, String> {
        if text == "bad" {
            return Err("bad filter".to_string());
        }
        Ok(Filter::new(
            text.split_whitespace()
                .map(|w| Predicate::Event(EventPredicate::Other(w.to_string())))
                .collect(),
        ))
    }

    fn show(&self, filter: &Filter) -> String {
        let words: Vec<&str> = filter
            .predicates()
            .iter()
            .map(|p| match p {
                Predicate::Event(EventPredicate::Other(text)) => text.as_str(),
                _ => "?",
            })
            .collect();
        words.join(" ")
    }
}

fn combined(a: &Args) -> Result<String, String> {
    let base = Words.parse("base").unwrap();
    combine_filter(a, &base, &Words).map(|f| Words.show(&f))
}

#[test]
fn filters_replace_or_narrow_that_of_the_session() {
    assert_eq!(combined(&in_session()), Ok("base".to_string()));
    let replaced = Args { filter: Some("x y".to_string()), ..in_session() };
    assert_eq!(combined(&replaced), Ok("x y".to_string()));
    let narrowed = Args { and_filter: Some("x y".to_string()), ..in_session() };
    assert_eq!(combined(&narrowed), Ok("base x y".to_string()));
    let bad = Args { and_filter: Some("bad".to_string()), ..in_session() };
    assert_eq!(combined(&bad), Err("bad filter".to_string()));
}

#[test]
fn the_banner_says_what_is_reproduced() {
    let a = Args {
        bookmark: Some("a \"b\"".to_string()),
        count: Some(20),
        before: Some(5),
        ..in_session()
    };
    let line = header_line(
        SessionId(0xdeadbeef),
        &a,
        &a.selector(),
        Some("level>=warn".to_string()),
        ResolvedMode::Records,
        3,
    );
    assert!(line.contains("deadbeef"), "{line}");
    // the name is quoted as std quotes it
    assert!(line.contains(&format!("bookmark={:?}", "a \"b\"")), "{line}");
    assert!(line.contains("level>=warn"), "{line}");
    assert!(line.contains('3'), "{line}");
    assert!(line.contains("count=20"), "{line}");

    let whole = in_session();
    let summary = header_line(
        SessionId(1),
        &whole,
        &whole.selector(),
        None,
        ResolvedMode::Summary,
        1,
    );
    assert!(summary.contains("whole-session"), "{summary}");
    assert_eq!(target_words(&Selector::Tab("t".to_string()), "'t'"), "tab='t'");
}
