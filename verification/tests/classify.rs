use ircgrep::line_view::LineView;
use ircgrep::matching::{match_line, MatchType};
use ircgrep::settings::{validate_settings, Settings};
use ircgrep::GrepError;

const LINE: &str = "2020-06-22 11:18:46\tosse\tcheck-ignore is for diagnosing .gitignore issues. it doesn't really have an effect on the repo";

#[test]
fn test_match_line() {
    let mut settings = Settings::default();
    settings.nickname = String::from("osse");
    settings.fixed = true;
    settings.pattern_string = String::from("diagnosing");

    let line = LINE;
    let lv = LineView::new(&line);

    let m = match_line(&settings, &lv);

    let v = vec![(20, 30)];
    assert_eq!(m, MatchType::Match(v));

    settings.nickname = String::from("foo");

    let m = match_line(&settings, &lv);

    assert_eq!(m, MatchType::NoMatch);
}

#[test]
fn test_match_line_many_matches() {
    let mut settings = Settings::default();
    settings.nickname = String::from("osse");
    settings.fixed = true;
    settings.pattern_string = String::from("re");

    let line = LINE;
    let lv = LineView::new(&line);

    let m = match_line(&settings, &lv);

    let v = vec![(10, 12), (39, 41), (61, 63), (90, 92)];
    assert_eq!(m, MatchType::Match(v));
}

#[test]
fn regex_mode_spans() {
    let mut settings = Settings::default();
    settings.pattern_string = String::from("re");

    let lv = LineView::new(&LINE);
    let m = match_line(&settings, &lv);
    // The same literal as a regex finds the same four occurrences.
    assert_eq!(m, MatchType::Match(vec![(10, 12), (39, 41), (61, 63), (90, 92)]));
}

#[test]
fn regex_mode_classes() {
    let mut settings = Settings::default();
    settings.pattern_string = String::from("[0-9]+");

    let line = "ts\tosse\tport 8080 and 443";
    let lv = LineView::new(&line);
    let m = match_line(&settings, &lv);
    assert_eq!(m, MatchType::Match(vec![(5, 9), (14, 17)]));
}

#[test]
fn fixed_mode_non_overlapping() {
    let mut settings = Settings::default();
    settings.fixed = true;
    settings.pattern_string = String::from("aa");

    // "aaaa" holds two non-overlapping occurrences of "aa", not three.
    let line = "ts\tosse\taaaa";
    let lv = LineView::new(&line);
    assert_eq!(match_line(&settings, &lv), MatchType::Match(vec![(0, 2), (2, 4)]));
}

#[test]
fn nick_only_match() {
    let mut settings = Settings::default();
    settings.nickname = String::from("osse");

    let lv = LineView::new(&LINE);
    assert_eq!(match_line(&settings, &lv), MatchType::MatchNick);
}

#[test]
fn nick_filter_strips_status_prefix() {
    let mut settings = Settings::default();
    settings.nickname = String::from("osse");

    let line = "ts\t@osse\thi";
    let lv = LineView::new(&line);
    assert_eq!(match_line(&settings, &lv), MatchType::MatchNick);

    let line = "ts\t+osse\thi";
    let lv = LineView::new(&line);
    assert_eq!(match_line(&settings, &lv), MatchType::MatchNick);
}

#[test]
fn join_suppression_wins_over_everything() {
    let mut settings = Settings::default();
    settings.strip_joins = true;
    settings.nickname = String::from("<--");
    settings.fixed = true;
    settings.pattern_string = String::from("quit");

    // The speaker filter matches and the pattern occurs, yet the line is
    // skipped: join suppression is checked first.
    let line = "ts\t<--\tosse has quit";
    let lv = LineView::new(&line);
    assert_eq!(match_line(&settings, &lv), MatchType::Skip);

    // Without suppression the same line is an ordinary content match.
    settings.strip_joins = false;
    assert_eq!(match_line(&settings, &lv), MatchType::Match(vec![(9, 13)]));
}

#[test]
fn no_match_without_occurrence() {
    let mut settings = Settings::default();
    settings.fixed = true;
    settings.pattern_string = String::from("absent");

    let lv = LineView::new(&LINE);
    assert_eq!(match_line(&settings, &lv), MatchType::NoMatch);
}

#[test]
fn validate_accepts_a_plain_filter() {
    let mut settings = Settings::default();
    settings.nickname = String::from("osse");
    assert_eq!(validate_settings(&settings), Ok(()));

    settings.pattern_string = String::from("a|b");
    assert_eq!(validate_settings(&settings), Ok(()));
}

#[test]
fn validate_rejects_count_with_output_options() {
    let mut settings = Settings::default();
    settings.nickname = String::from("osse");
    settings.count = true;
    assert_eq!(validate_settings(&settings), Ok(()));

    settings.context = 2;
    assert_eq!(validate_settings(&settings), Err(GrepError::ConfigConflict));

    settings.context = 0;
    settings.strip_joins = true;
    assert_eq!(validate_settings(&settings), Err(GrepError::ConfigConflict));

    settings.strip_joins = false;
    settings.strip_time_stamps = true;
    assert_eq!(validate_settings(&settings), Err(GrepError::ConfigConflict));
}

#[test]
fn validate_rejects_missing_filters() {
    let settings = Settings::default();
    assert_eq!(validate_settings(&settings), Err(GrepError::ConfigConflict));
}

#[test]
fn validate_rejects_a_broken_regex() {
    let mut settings = Settings::default();
    settings.pattern_string = String::from("(unclosed");
    assert_eq!(validate_settings(&settings), Err(GrepError::InvalidPattern));

    // The same pattern is fine as a fixed string.
    settings.fixed = true;
    assert_eq!(validate_settings(&settings), Ok(()));
}
