use rewind::text::{str_eq, trim_str};

#[test]
fn trim_removes_ascii_whitespace_at_both_ends() {
    assert_eq!(trim_str("  Pay rent \t\r\n"), "Pay rent");
    assert_eq!(trim_str("no-edges"), "no-edges");
    assert_eq!(trim_str("   "), "");
    assert_eq!(trim_str(""), "");
    assert_eq!(trim_str("\ninner space kept\n"), "inner space kept");
}

#[test]
fn str_eq_compares_characters() {
    assert!(str_eq("reminder", "reminder"));
    assert!(!str_eq("reminder", "reminders"));
    assert!(!str_eq("name", "time"));
    assert!(str_eq("", ""));
}
