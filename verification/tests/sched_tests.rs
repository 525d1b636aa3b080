use rewind::datetime::parse_datetime;
use rewind::reminder::Reminder;
use rewind::sched::Scheduler;

fn rem(name: &str, time: &str) -> Reminder {
    Reminder { name: String::from(name), time: String::from(time) }
}

fn ts(time: &str) -> i64 {
    parse_datetime(time).unwrap().timestamp()
}

#[test]
fn identity_joins_name_and_time() {
    let r = rem("Pay rent", "2025-06-01T14:30:00");
    assert_eq!(r.identity(), "Pay rent_2025-06-01T14:30:00");
}

#[test]
fn pay_rent_scenario() {
    // One reminder due thirty seconds from the first tick.
    let due = "2025-06-01T12:00:30";
    let r = rem("Pay rent", due);
    let now = ts(due) - 30;
    let mut sched = Scheduler::new();

    // Tick at `now`: delta is 30, inside the window, so a delivery is owed.
    assert!(sched.scan_one(&r, now));
    sched.mark_notified(&r);

    // Tick at `now + 35`: delta is -5, still inside the window, but the
    // identity is already notified.
    assert!(!sched.scan_one(&r, now + 35));

    // Tick at `now + 120`: delta is -90, past the grace window; the
    // identity moves to `past` with no delivery.
    assert!(!sched.scan_one(&r, now + 120));

    // Tick at `now + 200`: skipped, the identity is already past.
    assert!(!sched.scan_one(&r, now + 200));

    // Even a clock rolled back inside the window cannot revive it.
    assert!(!sched.scan_one(&r, now));
}

#[test]
fn delivery_failure_is_retried_next_tick() {
    let due = "2025-06-01T12:00:30";
    let r = rem("Flaky", due);
    let now = ts(due) - 10;
    let mut sched = Scheduler::new();
    // The first scan asks for a delivery; the caller fails to deliver and
    // records nothing, so the next tick asks again.
    assert!(sched.scan_one(&r, now));
    assert!(sched.scan_one(&r, now + 5));
    sched.mark_notified(&r);
    assert!(!sched.scan_one(&r, now + 10));
}

#[test]
fn window_boundaries() {
    let due = "2025-06-01T12:05:00";
    let r = rem("Edges", due);
    let due_ts = ts(due);
    // Not yet due: delta of 301 is just outside the window.
    let mut early = Scheduler::new();
    assert!(!early.scan_one(&r, due_ts - 301));
    // Delta of exactly 300 is inside.
    let mut at_window = Scheduler::new();
    assert!(at_window.scan_one(&r, due_ts - 300));
    // Delta of exactly -60 is still inside.
    let mut at_grace = Scheduler::new();
    assert!(at_grace.scan_one(&r, due_ts + 60));
    // Delta of -61 is past the grace window: no delivery, and the identity
    // is now terminal even back inside the window.
    let mut over = Scheduler::new();
    assert!(!over.scan_one(&r, due_ts + 61));
    assert!(!over.scan_one(&r, due_ts));
}

#[test]
fn not_yet_due_keeps_no_state() {
    let due = "2025-06-01T12:05:00";
    let r = rem("Later", due);
    let due_ts = ts(due);
    let mut sched = Scheduler::new();
    // Far in the future: nothing happens, and the reminder still notifies
    // once it enters the window.
    assert!(!sched.scan_one(&r, due_ts - 10_000));
    assert!(sched.scan_one(&r, due_ts - 100));
}

#[test]
fn unparseable_time_is_skipped() {
    let r = rem("Broken", "not-a-timestamp");
    let mut sched = Scheduler::new();
    assert!(!sched.scan_one(&r, 0));
    assert!(!sched.scan_one(&r, i64::MAX));
}

#[test]
fn startup_seeding_suppresses_stale_reminders() {
    let now = ts("2025-06-01T12:00:00");
    let stale = rem("Old", "2025-06-01T11:59:30");
    let fresh = rem("New", "2025-06-01T12:00:20");
    let loaded = vec![stale.clone(), fresh.clone()];
    let mut sched = Scheduler::new();
    sched.seed_past(&loaded, now);
    // The stale one was due 30 seconds before startup — inside the notify
    // window, but seeding already placed it in `past`.
    assert!(!sched.scan_one(&stale, now));
    // The fresh one still notifies normally.
    assert!(sched.scan_one(&fresh, now));
}

#[test]
fn seeding_ignores_future_and_unparseable() {
    let now = ts("2025-06-01T12:00:00");
    let future = rem("Ahead", "2025-06-01T12:03:00");
    let broken = rem("Broken", "???");
    let loaded = vec![future.clone(), broken.clone()];
    let mut sched = Scheduler::new();
    sched.seed_past(&loaded, now);
    assert!(sched.scan_one(&future, now));
    assert!(!sched.scan_one(&broken, now));
}

#[test]
fn past_state_survives_recreation_of_the_same_identity() {
    // The store is re-read every tick; deleting a reminder and writing an
    // identical one back produces the same identity, which stays terminal.
    let due = "2025-06-01T12:00:30";
    let original = rem("Rent", due);
    let now = ts(due);
    let mut sched = Scheduler::new();
    // Aged past the grace window: terminal.
    assert!(!sched.scan_one(&original, now + 120));
    // A freshly constructed reminder with the same name and time is the
    // same identity to the ledger, even back inside the window.
    let recreated = rem("Rent", due);
    assert!(!sched.scan_one(&recreated, now));
}

#[test]
fn identical_name_and_time_share_one_identity() {
    // Two reminders with the same name and time collide in the ledger: a
    // delivery recorded for one suppresses the other.
    let a = rem("Twin", "2025-06-01T12:00:30");
    let b = rem("Twin", "2025-06-01T12:00:30");
    let now = ts("2025-06-01T12:00:30") - 30;
    let mut sched = Scheduler::new();
    assert!(sched.scan_one(&a, now));
    sched.mark_notified(&a);
    assert!(!sched.scan_one(&b, now));
}
