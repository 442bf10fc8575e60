use ircgrep::line_view::LineView;
use ircgrep::GrepError;

#[test]
fn basic_parsing() {
    let line = "2020-06-22 11:18:46\tosse\tcheck-ignore is for diagnosing .gitignore issues. it doesn't really have an effect on the repo";
    let lv = LineView::new(&line);

    assert_eq!(lv.timestamp(), "2020-06-22 11:18:46");
    assert_eq!(lv.nick(), "osse");
    assert_eq!(lv.is_join(), false);
    assert_eq!(
        lv.message(),
        "check-ignore is for diagnosing .gitignore issues. it doesn't really have an effect on the repo"
    );
}

#[test]
fn basic_parsing2() {
    let line = "2020-06-22 11:40:05\t<--\troadie (~user@2a02:8108:ec0:1427:38ed:3aa7:170e:5e4e) has quit (Remote host closed the connection)";
    let lv = LineView::new(&line);

    assert_eq!(lv.timestamp(), "2020-06-22 11:40:05");
    assert_eq!(lv.nick(), "<--");
    assert_eq!(lv.is_join(), true);
    assert_eq!(
        lv.message(),
        "roadie (~user@2a02:8108:ec0:1427:38ed:3aa7:170e:5e4e) has quit (Remote host closed the connection)"
    );
}

#[test]
fn round_trip_of_fields() {
    let line = "12:00\t@osse\thello\tworld";
    let lv = LineView::new(&line);
    // The speaker is reported post-strip; with the prefix restored, the
    // three fields joined by tabs give back the line.
    let rebuilt = format!("{}\t@{}\t{}", lv.timestamp(), lv.nick(), lv.message());
    assert_eq!(rebuilt, line);
}

#[test]
fn message_may_contain_tabs() {
    let line = "ts\tnick\ta\tb\tc";
    let lv = LineView::new(&line);
    assert_eq!(lv.timestamp(), "ts");
    assert_eq!(lv.nick(), "nick");
    assert_eq!(lv.message(), "a\tb\tc");
}

#[test]
fn status_prefixes_are_stripped() {
    let op = LineView::new("ts\t@osse\thi");
    assert_eq!(op.nick(), "osse");
    let voice = LineView::new("ts\t+osse\thi");
    assert_eq!(voice.nick(), "osse");
    // Only a single prefix character is stripped.
    let double = LineView::new("ts\t@@osse\thi");
    assert_eq!(double.nick(), "@osse");
    // An unprefixed speaker is untouched.
    let plain = LineView::new("ts\tosse\thi");
    assert_eq!(plain.nick(), "osse");
}

#[test]
fn join_pseudo_speakers() {
    assert!(LineView::new("ts\t<--\tgone").is_join());
    assert!(LineView::new("ts\t-->\there").is_join());
    assert!(LineView::new("ts\t--\ttopic").is_join());
    assert!(!LineView::new("ts\t---\tnope").is_join());
    assert!(!LineView::new("ts\tosse\thi").is_join());
}

#[test]
fn empty_fields_parse() {
    let lv = LineView::new("\t\t");
    assert_eq!(lv.timestamp(), "");
    assert_eq!(lv.nick(), "");
    assert_eq!(lv.message(), "");
}

#[test]
fn malformed_lines_are_rejected() {
    assert_eq!(LineView::parse("no tabs at all").unwrap_err(), GrepError::MalformedLine);
    assert_eq!(LineView::parse("just one\ttab").unwrap_err(), GrepError::MalformedLine);
    assert_eq!(LineView::parse("").unwrap_err(), GrepError::MalformedLine);
    assert!(LineView::parse("two\ttabs\there").is_ok());
}

#[test]
fn error_descriptions() {
    assert_eq!(GrepError::MalformedLine.describe(), "malformed log line: fewer than two tabs");
    assert_eq!(GrepError::InvalidPattern.describe(), "invalid regex");
    assert_eq!(GrepError::ConfigConflict.describe(), "conflicting or missing options");
}
