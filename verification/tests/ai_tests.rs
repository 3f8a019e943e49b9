use sekai_core::ai::{
    backoff_ms, build_prompt, commit_success, endpoint_for, extract_error_message, plan_batches,
    record_failure, should_retry_http, AiConfig, AiRunReport, AttemptOutcome, StepAction,
    UnitAttempt,
};
use sekai_core::entry::{CoreEntry, EntryStatus};

fn unit(id: &str, original: &str, translatable: bool) -> CoreEntry {
    CoreEntry {
        entry_id: id.to_string(),
        original: original.to_string(),
        translation: String::new(),
        status: EntryStatus::Untranslated,
        is_translatable: translatable,
        line_number: 1,
        raw_line: None,
        prefix: None,
        suffix: None,
        speaker: None,
    }
}

fn cfg() -> AiConfig {
    AiConfig {
        provider: "openai".to_string(),
        api_key: "test-key".to_string(),
        model: "gpt-4o-mini".to_string(),
        source_lang: "ja".to_string(),
        target_lang: "en".to_string(),
    }
}

#[test]
fn endpoints_for_the_known_providers() {
    assert_eq!(endpoint_for("openai").unwrap(), "https://api.openai.com/v1/chat/completions");
    assert_eq!(endpoint_for("deepseek").unwrap(), "https://api.deepseek.com/v1/chat/completions");
    assert_eq!(endpoint_for("other").unwrap_err(), "Unsupported provider");
    assert_eq!(endpoint_for("").unwrap_err(), "Unsupported provider");
}

#[test]
fn retryable_statuses() {
    for s in [408u16, 429, 500, 502, 599] {
        assert!(should_retry_http(s));
    }
    for s in [200u16, 201, 301, 400, 401, 403, 404, 600] {
        assert!(!should_retry_http(s));
    }
}

#[test]
fn backoff_grows_exponentially_with_bounded_jitter() {
    for (attempt, base) in [(0usize, 800u64), (1, 1600), (2, 3200)] {
        let d = backoff_ms(attempt);
        assert!(base <= d && d < base + 200, "attempt {attempt} gave {d}");
    }
}

#[test]
fn prompt_carries_languages_speaker_and_trimmed_text() {
    let mut e = unit("1-text", "  Konnichiwa  ", true);
    e.speaker = Some(" Yuki ".to_string());
    let p = build_prompt(&e, &cfg());
    let expected = format!("{}{}", "Translate", " from ja to en.\nSpeaker: Yuki\nText:\nKonnichiwa");
    assert_eq!(p, expected);
}

#[test]
fn prompt_skips_missing_or_blank_speaker() {
    let expected = format!("{}{}", "Translate", " from ja to en.\nText:\nHi");
    let e = unit("1-text", "Hi", true);
    assert_eq!(build_prompt(&e, &cfg()), expected);
    let mut b = unit("1-text", "Hi", true);
    b.speaker = Some("   ".to_string());
    assert_eq!(build_prompt(&b, &cfg()), expected);
}

#[test]
fn error_message_prefers_the_structured_field() {
    let m = extract_error_message(429, "{\"error\":{\"message\":\"rate limited\"}}");
    assert_eq!(m, "HTTP 429: rate limited");
    let m2 = extract_error_message(500, "{\"message\":\"oops\"}");
    assert_eq!(m2, "HTTP 500: oops");
}

#[test]
fn error_message_falls_back_to_the_trimmed_body() {
    assert_eq!(extract_error_message(502, "  bad gateway  "), "HTTP 502: bad gateway");
}

#[test]
fn error_message_truncates_long_bodies() {
    let body = "x".repeat(500);
    let m = extract_error_message(500, &body);
    let expected = format!("HTTP 500: {}...", "x".repeat(400));
    assert_eq!(m, expected);
}

fn ok_body(text: &str) -> String {
    format!("{{\"choices\":[{{\"message\":{{\"content\":\"{text}\"}}}}]}}")
}

#[test]
fn rate_limited_twice_then_success_sleeps_twice_and_succeeds() {
    let mut m = UnitAttempt::new();
    let mut sleeps = 0;
    let a1 = m.step(AttemptOutcome::Response(429, "{}".to_string()));
    match a1 {
        StepAction::Retry(d) => {
            sleeps += 1;
            assert!((800..1000).contains(&d));
        },
        _ => panic!("expected a retry"),
    }
    let a2 = m.step(AttemptOutcome::Response(429, "{}".to_string()));
    match a2 {
        StepAction::Retry(d) => {
            sleeps += 1;
            assert!((1600..1800).contains(&d));
        },
        _ => panic!("expected a retry"),
    }
    let a3 = m.step(AttemptOutcome::Response(200, ok_body(" Ol\u{e1} ")));
    match a3 {
        StepAction::Done(text) => assert_eq!(text, "Ol\u{e1}"),
        _ => panic!("expected success"),
    }
    assert_eq!(sleeps, 2);

    let mut e = unit("1-text", "Hello", true);
    let mut report = AiRunReport::new();
    commit_success(&mut e, &mut report, "Ol\u{e1}".to_string());
    assert_eq!(e.translation, "Ol\u{e1}");
    assert_eq!(e.status, EntryStatus::Translated);
    assert_eq!(report.succeeded, 1);
    assert_eq!(report.failed, 0);
    assert_eq!(report.items.len(), 1);
    assert!(report.items[0].ok);
    assert!(report.items[0].error.is_none());
}

#[test]
fn three_server_errors_exhaust_the_attempts_with_the_last_message() {
    let mut m = UnitAttempt::new();
    let body = "{\"error\":{\"message\":\"server down\"}}".to_string();
    assert!(matches!(m.step(AttemptOutcome::Response(500, body.clone())), StepAction::Retry(_)));
    assert!(matches!(m.step(AttemptOutcome::Response(500, body.clone())), StepAction::Retry(_)));
    match m.step(AttemptOutcome::Response(500, body)) {
        StepAction::GiveUp(err) => {
            assert_eq!(err.as_deref(), Some("HTTP 500: server down"));
            let e = unit("1-text", "Hello", true);
            let mut report = AiRunReport::new();
            record_failure(&e, &mut report, err);
            assert_eq!(report.failed, 1);
            assert_eq!(report.succeeded, 0);
            assert_eq!(report.items.len(), 1);
            assert!(!report.items[0].ok);
            assert_eq!(report.items[0].error.as_deref(), Some("HTTP 500: server down"));
            assert_eq!(e.translation, "");
            assert_eq!(e.status, EntryStatus::Untranslated);
        },
        _ => panic!("expected exhaustion"),
    }
}

#[test]
fn a_non_retryable_status_gives_up_at_once() {
    let mut m = UnitAttempt::new();
    match m.step(AttemptOutcome::Response(403, "{\"message\":\"forbidden\"}".to_string())) {
        StepAction::GiveUp(err) => assert_eq!(err.as_deref(), Some("HTTP 403: forbidden")),
        _ => panic!("a client error other than rate limiting is not retried"),
    }
}

#[test]
fn transport_errors_are_retried_then_reported() {
    let mut m = UnitAttempt::new();
    assert!(matches!(
        m.step(AttemptOutcome::TransportError("timed out".to_string())),
        StepAction::Retry(_)
    ));
    assert!(matches!(
        m.step(AttemptOutcome::TransportError("timed out".to_string())),
        StepAction::Retry(_)
    ));
    match m.step(AttemptOutcome::TransportError("timed out".to_string())) {
        StepAction::GiveUp(err) => assert_eq!(err.as_deref(), Some("timed out")),
        _ => panic!("expected exhaustion"),
    }
}

#[test]
fn unusable_success_bodies_are_retried_with_their_messages() {
    let mut m = UnitAttempt::new();
    assert!(matches!(
        m.step(AttemptOutcome::Response(200, "not json".to_string())),
        StepAction::Retry(_)
    ));
    assert!(matches!(
        m.step(AttemptOutcome::Response(200, "{\"choices\":[]}".to_string())),
        StepAction::Retry(_)
    ));
    match m.step(AttemptOutcome::Response(200, "not json".to_string())) {
        StepAction::GiveUp(err) => assert_eq!(err.as_deref(), Some("Invalid JSON from AI")),
        _ => panic!("expected exhaustion"),
    }
    let mut m2 = UnitAttempt::new();
    m2.step(AttemptOutcome::Response(200, "{\"choices\":[]}".to_string()));
    m2.step(AttemptOutcome::Response(200, "{\"choices\":[]}".to_string()));
    match m2.step(AttemptOutcome::Response(200, "{\"choices\":[]}".to_string())) {
        StepAction::GiveUp(err) => assert_eq!(
            err.as_deref(),
            Some("Invalid AI response: missing choices[0].message.content")
        ),
        _ => panic!("expected exhaustion"),
    }
}

#[test]
fn batches_are_filled_five_at_a_time_in_order() {
    let mut entries: Vec<CoreEntry> = Vec::new();
    for i in 0..13 {
        let translatable = i % 2 == 0;
        entries.push(unit(&format!("{i}-x"), "t", translatable));
    }
    // translatable indices: 0 2 4 6 8 10 12
    let batches = plan_batches(&entries);
    assert_eq!(batches.len(), 2);
    assert_eq!(batches[0], vec![0, 2, 4, 6, 8]);
    assert_eq!(batches[1], vec![10, 12]);
}

#[test]
fn no_translatable_units_means_no_batches() {
    let entries = vec![unit("1-raw", "", false)];
    assert!(plan_batches(&entries).is_empty());
}
