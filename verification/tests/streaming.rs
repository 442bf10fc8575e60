use ircgrep::engine::{count_matches, process_lines, Engine, OutputEvent};
use ircgrep::settings::Settings;
use ircgrep::GrepError;

/// A compact rendering of one event, for comparing expectations.
fn render(e: &OutputEvent) -> String {
    match e {
        OutputEvent::Text(s) => format!("text {}", s),
        OutputEvent::MatchLine { timestamp, nick, message, spans } => {
            format!("match {}|{}|{}|{:?}", timestamp, nick, message, spans)
        }
        OutputEvent::Separator => String::from("--"),
    }
}

fn rendered(events: &[OutputEvent]) -> Vec<String> {
    events.iter().map(render).collect()
}

fn lines(raw: &[&str]) -> Vec<String> {
    raw.iter().map(|s| s.to_string()).collect()
}

#[test]
fn context_window_flush_is_capped() {
    let mut settings = Settings::default();
    settings.fixed = true;
    settings.pattern_string = String::from("needle");
    settings.context = 2;

    let input = lines(&[
        "t1\ta\tx1",
        "t2\ta\tx2",
        "t3\ta\tx3",
        "t4\ta\tneedle here",
    ]);
    let events = process_lines(&settings, &input).unwrap();
    // Three lines accumulated, but only the two most recent are flushed.
    assert_eq!(
        rendered(&events),
        vec![
            "text t2\ta\tx2".to_string(),
            "text t3\ta\tx3".to_string(),
            "match t4|a|needle here|[(0, 6)]".to_string(),
        ]
    );
}

#[test]
fn after_match_echo_and_separator() {
    let mut settings = Settings::default();
    settings.fixed = true;
    settings.pattern_string = String::from("needle");
    settings.context = 2;

    let input = lines(&[
        "t1\ta\tneedle",
        "t2\ta\tx2",
        "t3\ta\tx3",
        "t4\ta\tx4",
    ]);
    let events = process_lines(&settings, &input).unwrap();
    // Two echoes after the match, one separator, and the third line is
    // handled as an ordinary non-match (silently buffered).
    assert_eq!(
        rendered(&events),
        vec![
            "match t1|a|needle|[(0, 6)]".to_string(),
            "text t2\ta\tx2".to_string(),
            "text t3\ta\tx3".to_string(),
            "--".to_string(),
        ]
    );
}

#[test]
fn nick_match_flushes_and_echoes() {
    let mut settings = Settings::default();
    settings.nickname = String::from("osse");
    settings.context = 1;

    let input = lines(&[
        "t1\tother\tbefore",
        "t2\tosse\thello",
        "t3\tother\tafter",
        "t4\tother\tquiet",
    ]);
    let events = process_lines(&settings, &input).unwrap();
    // The speaker-only match flushes the window and is emitted verbatim;
    // one echo follows, closed by the separator; the next line is silent.
    assert_eq!(
        rendered(&events),
        vec![
            "text t1\tother\tbefore".to_string(),
            "text t2\tosse\thello".to_string(),
            "text t3\tother\tafter".to_string(),
            "--".to_string(),
        ]
    );
}

#[test]
fn skipped_lines_are_invisible() {
    let mut settings = Settings::default();
    settings.fixed = true;
    settings.pattern_string = String::from("needle");
    settings.strip_joins = true;
    settings.context = 2;

    let input = lines(&[
        "t1\ta\tx1",
        "t2\t<--\ta has quit",
        "t3\t-->\tb has joined",
        "t4\ta\tneedle",
    ]);
    let events = process_lines(&settings, &input).unwrap();
    // The join notices neither enter the window nor appear in the output.
    assert_eq!(
        rendered(&events),
        vec![
            "text t1\ta\tx1".to_string(),
            "match t4|a|needle|[(0, 6)]".to_string(),
        ]
    );
}

#[test]
fn zero_context_prints_matches_only() {
    let mut settings = Settings::default();
    settings.fixed = true;
    settings.pattern_string = String::from("needle");

    let input = lines(&[
        "t1\ta\tx1",
        "t2\ta\tneedle",
        "t3\ta\tx3",
    ]);
    let events = process_lines(&settings, &input).unwrap();
    // No context, no echo, no separator.
    assert_eq!(rendered(&events), vec!["match t2|a|needle|[(0, 6)]".to_string()]);
}

#[test]
fn consecutive_matches_flush_nothing_between() {
    let mut settings = Settings::default();
    settings.fixed = true;
    settings.pattern_string = String::from("x");
    settings.context = 3;

    let input = lines(&["t1\ta\tx", "t2\ta\tx"]);
    let events = process_lines(&settings, &input).unwrap();
    assert_eq!(
        rendered(&events),
        vec![
            "match t1|a|x|[(0, 1)]".to_string(),
            "match t2|a|x|[(0, 1)]".to_string(),
        ]
    );
}

#[test]
fn streaming_aborts_on_malformed_line() {
    let mut settings = Settings::default();
    settings.fixed = true;
    settings.pattern_string = String::from("needle");

    let input = lines(&["t1\ta\tneedle", "no tabs here", "t3\ta\tneedle"]);
    assert!(matches!(process_lines(&settings, &input), Err(GrepError::MalformedLine)));

    let input = lines(&["only one\ttab", "t2\ta\tneedle"]);
    assert!(matches!(process_lines(&settings, &input), Err(GrepError::MalformedLine)));
}

#[test]
fn streaming_rejects_an_invalid_configuration() {
    let settings = Settings::default();
    let input = lines(&["t1\ta\tx"]);
    assert!(matches!(process_lines(&settings, &input), Err(GrepError::ConfigConflict)));

    let mut settings = Settings::default();
    settings.pattern_string = String::from("(unclosed");
    assert!(matches!(process_lines(&settings, &input), Err(GrepError::InvalidPattern)));
}

#[test]
fn engine_steps_line_by_line() {
    let mut settings = Settings::default();
    settings.fixed = true;
    settings.pattern_string = String::from("hit");
    settings.context = 1;

    let mut engine = Engine::new(&settings);
    let quiet = String::from("t1\ta\tnothing");
    assert_eq!(rendered(&engine.step(&quiet).unwrap()), Vec::<String>::new());
    let hit = String::from("t2\ta\ta hit");
    assert_eq!(
        rendered(&engine.step(&hit).unwrap()),
        vec![
            "text t1\ta\tnothing".to_string(),
            "match t2|a|a hit|[(2, 5)]".to_string(),
        ]
    );
    let bad = String::from("malformed");
    assert!(matches!(engine.step(&bad), Err(GrepError::MalformedLine)));
}

#[test]
fn count_mode_totals_spans_and_nick_matches() {
    // Two content-matching lines contribute one count per occurrence.
    let mut settings = Settings::default();
    settings.fixed = true;
    settings.pattern_string = String::from("re");
    settings.count = true;

    let input = lines(&[
        "t1\ta\tred and real",
        "t2\ta\tmore",
        "t3\ta\tnothing at all",
    ]);
    assert_eq!(count_matches(&settings, &input), Ok(3));

    // Speaker-only matches contribute exactly one each.
    let mut settings = Settings::default();
    settings.nickname = String::from("osse");
    settings.count = true;

    let input = lines(&[
        "t1\tosse\tred and real",
        "t2\tother\tmore",
        "t3\tosse\tnothing at all",
    ]);
    assert_eq!(count_matches(&settings, &input), Ok(2));
}

#[test]
fn count_mode_counts_only_matching_lines() {
    // A pseudo-speaker line simply fails the filter and contributes zero.
    let mut settings = Settings::default();
    settings.nickname = String::from("osse");
    settings.count = true;

    let input = lines(&["t1\tosse\thi", "t2\t<--\tosse has quit", "t3\tosse\tbye"]);
    assert_eq!(count_matches(&settings, &input), Ok(2));
}

#[test]
fn count_mode_aborts_on_malformed_line() {
    let mut settings = Settings::default();
    settings.nickname = String::from("osse");
    settings.count = true;

    let input = lines(&["t1\tosse\thi", "broken line"]);
    assert_eq!(count_matches(&settings, &input), Err(GrepError::MalformedLine));
}
