use rewind::codec::{parse_reminders, render_reminders, ParseError};
use rewind::reminder::Reminder;

fn rem(name: &str, time: &str) -> Reminder {
    Reminder { name: String::from(name), time: String::from(time) }
}

#[test]
fn render_matches_stored_shape() {
    let rs = vec![rem("Pay rent", "2025-06-01T14:30:00")];
    let text = render_reminders(&rs);
    assert_eq!(
        text,
        "<reminders>\n  <reminder>\n    <name>Pay rent</name>\n    <time>2025-06-01T14:30:00</time>\n  </reminder>\n</reminders>\n"
    );
}

#[test]
fn render_empty_collection() {
    let rs: Vec<Reminder> = Vec::new();
    assert_eq!(render_reminders(&rs), "<reminders>\n</reminders>\n");
}

#[test]
fn save_then_load_round_trips() {
    let rs = vec![
        rem("Pay rent", "2025-06-01T14:30:00"),
        rem("Call home", "2025-06-02T09:00:00"),
        rem("Water plants", "2025-06-03T18:15:00"),
    ];
    let text = render_reminders(&rs);
    let back = parse_reminders(&text).unwrap();
    assert_eq!(back, rs);
}

#[test]
fn save_then_load_round_trips_empty() {
    let rs: Vec<Reminder> = Vec::new();
    let text = render_reminders(&rs);
    let back = parse_reminders(&text).unwrap();
    assert!(back.is_empty());
}

#[test]
fn parse_trims_surrounding_whitespace() {
    let doc = "<reminders>\n  <reminder>\n    <name>\n      Pay rent\n    </name>\n    <time>  2025-06-01T14:30:00  </time>\n  </reminder>\n</reminders>\n";
    let back = parse_reminders(doc).unwrap();
    assert_eq!(back, vec![rem("Pay rent", "2025-06-01T14:30:00")]);
}

#[test]
fn parse_ignores_unknown_elements() {
    let doc = "<reminders>\n  <version>2</version>\n  <reminder>\n    <name>A</name>\n    <note>ignored</note>\n    <time>2025-06-01T14:30:00</time>\n  </reminder>\n</reminders>\n";
    let back = parse_reminders(doc).unwrap();
    assert_eq!(back, vec![rem("A", "2025-06-01T14:30:00")]);
}

#[test]
fn parse_keeps_stored_order() {
    let doc = "<reminders><reminder><name>B</name><time>t2</time></reminder><reminder><name>A</name><time>t1</time></reminder></reminders>";
    let back = parse_reminders(doc).unwrap();
    assert_eq!(back, vec![rem("B", "t2"), rem("A", "t1")]);
}

#[test]
fn parse_empty_fields_stay_empty() {
    let doc = "<reminders><reminder><name></name><time></time></reminder></reminders>";
    let back = parse_reminders(doc).unwrap();
    assert_eq!(back, vec![rem("", "")]);
}

#[test]
fn parse_reports_unclosed_tag() {
    let doc = "<reminders>\n  <reminder>\n    <name>A</name";
    assert_eq!(parse_reminders(doc).unwrap_err(), ParseError::UnclosedTag);
}

#[test]
fn markup_in_a_name_breaks_the_round_trip() {
    // The format writes fields through unescaped, so a tag opener inside a
    // name corrupts the stored document: the documented limitation that the
    // round-trip guarantee excludes.
    let rs = vec![rem("a<b", "2025-06-01T14:30:00")];
    let text = render_reminders(&rs);
    let back = parse_reminders(&text).unwrap();
    assert_ne!(back, rs);
}

#[test]
fn element_left_open_yields_only_completed_reminders() {
    let doc = "<reminders><reminder><name>A</name><time>t1</time></reminder><reminder><name>B</name>";
    let back = parse_reminders(doc).unwrap();
    assert_eq!(back, vec![rem("A", "t1")]);
}

#[test]
fn parse_empty_input_is_empty_collection() {
    let back = parse_reminders("").unwrap();
    assert!(back.is_empty());
}
