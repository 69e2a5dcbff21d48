//! Which log filter and format are taken.
use rust_knowledge::telemetry::{
    default_filter, env_nonempty, init, judged_filter, resolve_filter, resolve_format,
    FilterSource, LogFormat, TelemetryOptions, DEFAULT_FILTER, DEFAULT_FILTER_VERBOSE, FILTER_ENV,
    RUST_LOG_ENV, UNREADABLE,
};

#[test]
fn explicit_filter_wins_over_rust_log() {
    let r = resolve_filter(Some("debug"), Some("warn"), false);
    assert_eq!(r.directive, "debug");
    assert_eq!(r.source, FilterSource::RustKnowledgeLog);
    assert!(r.malformed.is_none());
}

#[test]
fn rust_log_wins_over_default() {
    let r = resolve_filter(None, Some("tantivy=debug"), false);
    assert_eq!(r.directive, "tantivy=debug");
    assert_eq!(r.source, FilterSource::RustLog);
}

#[test]
fn empty_explicit_falls_through_to_rust_log() {
    for empty in ["", "   	"] {
        let r = resolve_filter(Some(empty), Some("warn"), false);
        assert_eq!(r.source, FilterSource::RustLog, "explicit {empty:?}");
    }
}

#[test]
fn default_filter_depends_on_verbose() {
    let r = resolve_filter(None, None, false);
    assert_eq!(r.directive, DEFAULT_FILTER);
    assert_eq!(r.source, FilterSource::Default);

    let r = resolve_filter(None, None, true);
    assert_eq!(r.directive, DEFAULT_FILTER_VERBOSE);
}

#[test]
fn malformed_explicit_falls_back_to_default() {
    let r = resolve_filter(Some("info=bogus"), Some("debug"), true);
    // The fallback is the default, not the lower-priority RUST_LOG: a broken
    // override must not silently re-enable a level that nobody asked for.
    assert_eq!(r.directive, DEFAULT_FILTER_VERBOSE);
    assert_eq!(r.source, FilterSource::Default);
    let malformed = r.malformed.expect("malformed metadata");
    assert_eq!(malformed.env, FILTER_ENV);
    assert_eq!(malformed.value, "info=bogus");
    assert!(!malformed.error.is_empty());
}

#[test]
fn malformed_rust_log_falls_back_to_default() {
    let r = resolve_filter(None, Some("not=level!!"), false);
    assert_eq!(r.directive, DEFAULT_FILTER);
    assert_eq!(r.source, FilterSource::Default);
    let malformed = r.malformed.expect("malformed metadata");
    assert_eq!(malformed.env, RUST_LOG_ENV);
}

#[test]
fn unreadable_directives_fall_back_to_default() {
    for text in [
        "info, \u{e9}=debug",
        "info,\u{a0}\u{e9}=debug",
        "info, [\u{e9}]=debug",
        "info, a[b{\u{e9}}]",
    ] {
        let r = resolve_filter(Some(text), None, false);
        assert_eq!(r.directive, DEFAULT_FILTER, "{text:?}");
        assert_eq!(r.source, FilterSource::Default);
        let malformed = r.malformed.expect("malformed metadata");
        assert_eq!(malformed.value, text);
        assert_eq!(malformed.error, UNREADABLE);
    }
    let plain = format!("[span{{field={}}}]=debug", "a".repeat(50));
    let wild = "info,[span{field=\".*a.......\"}]=debug";
    let long = format!("info,[span{{field=.*{}}}]=debug", "a".repeat(50));
    for text in [
        wild,
        long.as_str(),
        "[index_workspace{manifest=/home/user/work/rust-knowledge/Cargo.toml}]=debug",
        // Nothing is cut, or nowhere inside a character.
        "info, \u{e9}",
        "info, \u{e9}]{}",
        "info, [\u{e9}=x]",
        "info, warn",
        "info,\u{e9}=debug",
        "a=debug,\u{4e2d}\u{6587}=warn ",
        "[span{field=.*a}]=debug",
        plain.as_str(),
    ] {
        let r = resolve_filter(Some(text), None, false);
        assert_eq!(r.directive, text.trim(), "{text:?}");
        assert!(r.malformed.is_none());
    }
}

#[test]
fn verbose_is_ignored_when_a_directive_is_set() {
    for (explicit, rust_log) in [(Some("info"), None), (None, Some("info"))] {
        let r = resolve_filter(explicit, rust_log, true);
        assert_eq!(r.directive, "info", "verbose must not override env");
    }
}

#[test]
fn format_parsing() {
    assert_eq!(resolve_format(None), (LogFormat::Human, None));
    assert_eq!(resolve_format(Some("")), (LogFormat::Human, None));
    assert_eq!(resolve_format(Some("human")), (LogFormat::Human, None));
    assert_eq!(resolve_format(Some(" JSON ")), (LogFormat::Json, None));
    let (format, unknown) = resolve_format(Some("xml"));
    assert_eq!(format, LogFormat::Human);
    assert_eq!(unknown.as_deref(), Some("xml"));
}

#[test]
fn default_filters() {
    assert_eq!(default_filter(false), DEFAULT_FILTER);
    assert_eq!(default_filter(true), DEFAULT_FILTER_VERBOSE);
}

#[test]
fn blank_values_count_as_unset() {
    assert_eq!(env_nonempty(None), None);
    assert_eq!(env_nonempty(Some(" \t ")), None);
    assert_eq!(env_nonempty(Some(" info ")).as_deref(), Some("info"));
}

#[test]
fn a_judged_filter_keeps_or_drops_the_directive() {
    let kept = judged_filter(RUST_LOG_ENV, FilterSource::RustLog, "warn".into(), Ok(()), false);
    assert_eq!(kept.directive, "warn");
    assert_eq!(kept.source, FilterSource::RustLog);
    assert!(kept.malformed.is_none());
    let dropped =
        judged_filter(RUST_LOG_ENV, FilterSource::RustLog, "x".into(), Err("bad".into()), false);
    assert_eq!(dropped.directive, DEFAULT_FILTER);
    assert_eq!(dropped.source, FilterSource::Default);
    let malformed = dropped.malformed.expect("malformed");
    assert_eq!(malformed.env, RUST_LOG_ENV);
    assert_eq!(malformed.value, "x");
    assert_eq!(malformed.error, "bad");
}

#[test]
fn init_resolves_filter_and_format() {
    let status = init(&TelemetryOptions { verbose: true }, None, None, Some("JSON"));
    assert_eq!(status.filter_directive, DEFAULT_FILTER_VERBOSE);
    assert_eq!(status.format, LogFormat::Json);
    assert_eq!(status.unknown_format, None);
    assert!(!status.installed);
    assert!(status.with_installed(true).installed);

    let status = init(&TelemetryOptions { verbose: false }, Some("warn"), Some("info"), Some("xml"));
    assert_eq!(status.filter_directive, "warn");
    assert_eq!(status.filter_source, FilterSource::RustKnowledgeLog);
    assert_eq!(status.format, LogFormat::Human);
    assert_eq!(status.unknown_format.as_deref(), Some("xml"));
}
