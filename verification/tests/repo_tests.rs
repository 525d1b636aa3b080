use rewind::codec::render_reminders;
use rewind::datetime::parse_datetime;
use rewind::reminder::Reminder;
use rewind::repo::{RepoError, Repository};

fn rem(name: &str, time: &str) -> Reminder {
    Reminder { name: String::from(name), time: String::from(time) }
}

fn ts(time: &str) -> i64 {
    parse_datetime(time).unwrap().timestamp()
}

#[test]
fn add_future_reminder_is_accepted() {
    let mut repo = Repository::new(Vec::new());
    let now = ts("2025-06-01T12:00:00");
    let r = repo.add(rem("Pay rent", "2025-06-01T14:30:00"), now);
    assert!(r.is_ok());
    assert_eq!(repo.len(), 1);
    assert_eq!(repo.get(0).name, "Pay rent");
}

#[test]
fn add_past_reminder_is_rejected() {
    let mut repo = Repository::new(Vec::new());
    let now = ts("2025-06-01T12:00:00");
    let r = repo.add(rem("Too late", "2025-06-01T11:59:59"), now);
    assert_eq!(r.unwrap_err(), RepoError::DueNotInFuture);
    assert_eq!(repo.len(), 0);
}

#[test]
fn add_reminder_due_exactly_now_is_rejected() {
    let mut repo = Repository::new(Vec::new());
    let now = ts("2025-06-01T12:00:00");
    let r = repo.add(rem("On the dot", "2025-06-01T12:00:00"), now);
    assert_eq!(r.unwrap_err(), RepoError::DueNotInFuture);
    assert_eq!(repo.len(), 0);
}

#[test]
fn add_unparseable_time_is_rejected() {
    let mut repo = Repository::new(Vec::new());
    let r = repo.add(rem("Bad clock", "tomorrowish"), 0);
    assert_eq!(r.unwrap_err(), RepoError::InvalidTimestamp);
    assert_eq!(repo.len(), 0);
}

#[test]
fn add_one_second_in_future_is_accepted() {
    let mut repo = Repository::new(Vec::new());
    let now = ts("2025-06-01T12:00:00");
    let r = repo.add(rem("Just ahead", "2025-06-01T12:00:01"), now);
    assert!(r.is_ok());
    assert_eq!(repo.len(), 1);
}

#[test]
fn remove_first_of_three_keeps_order() {
    let initial = vec![
        rem("A", "2025-06-01T10:00:00"),
        rem("B", "2025-06-01T11:00:00"),
        rem("C", "2025-06-01T12:00:00"),
    ];
    let mut repo = Repository::new(initial);
    let removed = repo.remove(0).unwrap();
    assert_eq!(removed.name, "A");
    assert_eq!(repo.len(), 2);
    assert_eq!(repo.get(0).name, "B");
    assert_eq!(repo.get(1).name, "C");
    let persisted = render_reminders(repo.reminders());
    assert!(!persisted.contains("<name>A</name>"));
    assert!(persisted.contains("<name>B</name>"));
    assert!(persisted.contains("<name>C</name>"));
}

#[test]
fn remove_out_of_range_is_rejected() {
    let initial = vec![
        rem("A", "2025-06-01T10:00:00"),
        rem("B", "2025-06-01T11:00:00"),
        rem("C", "2025-06-01T12:00:00"),
    ];
    let mut repo = Repository::new(initial);
    let r = repo.remove(5);
    assert_eq!(r.unwrap_err(), RepoError::IndexOutOfRange);
    assert_eq!(repo.len(), 3);
    assert_eq!(repo.get(0).name, "A");
    assert_eq!(repo.get(1).name, "B");
    assert_eq!(repo.get(2).name, "C");
}
