//! The due-scan engine: classifies each stored reminder against a fixed
//! wall-clock snapshot and keeps the dedup ledger — the pair of identity
//! sets (`notified`, `past`) that makes repeated scans idempotent and the
//! past state terminal.
//!
//! Delivery itself is an external collaborator: [`Scheduler::scan_one`]
//! decides whether a delivery is owed, the caller attempts it, and only a
//! successful attempt is recorded with [`Scheduler::mark_notified`]. A
//! failed attempt leaves the ledger unchanged, so the next tick retries.

use vstd::prelude::*;

use crate::datetime::{parse_datetime, spec_parse_datetime, timestamp_of, valid_datetime};
use crate::reminder::{id_of, views_of, RemView, Reminder};
use crate::{GRACE_SECONDS, NOTIFY_WINDOW_SECONDS};

verus! {

/// The mathematical image of the dedup ledger: two sets of reminder
/// identities.
#[verifier::ext_equal]
pub struct LedgerView {
    /// Identities already delivered during this process's lifetime.
    pub notified: Set<Seq<char>>,
    /// Identities classified as permanently elapsed.
    pub past: Set<Seq<char>>,
}

/// The identities held in a vector of identity strings.
pub open spec fn ids_of(v: Seq<String>) -> Set<Seq<char>> {
    Set::new(|x: Seq<char>| exists|i: int| 0 <= i < v.len() && v[i]@ == x)
}

/// The ledger at process start: both sets empty, whatever was notified in a
/// previous run is forgotten.
pub open spec fn empty_ledger() -> LedgerView {
    LedgerView { notified: Set::empty(), past: Set::empty() }
}

/// What one scan of one reminder does to the ledger, and whether it asks for
/// a delivery. `now` is the tick's single wall-clock snapshot, in seconds.
///
/// An identity already in `past` is skipped outright; an unparseable time
/// skips the reminder for this tick; inside the window `[-G, W]` around the
/// due time a delivery is requested unless already notified; more than `G`
/// seconds overdue, the identity moves to `past` without notification;
/// otherwise the reminder is not yet due and nothing changes.
pub open spec fn scan_spec(st: LedgerView, r: RemView, now: int) -> (LedgerView, bool) {
    let id = id_of(r);
    if st.past.contains(id) {
        (st, false)
    } else {
        match spec_parse_datetime(r.time) {
            Option::None => (st, false),
            Option::Some(dt) => {
                let delta = timestamp_of(dt) - now;
                if -(GRACE_SECONDS as int) <= delta && delta <= NOTIFY_WINDOW_SECONDS as int {
                    (st, !st.notified.contains(id))
                } else if delta < 0 {
                    (LedgerView { past: st.past.insert(id), ..st }, false)
                } else {
                    (st, false)
                }
            },
        }
    }
}

/// Recording one successful delivery: the identity enters `notified`.
pub open spec fn mark_spec(st: LedgerView, r: RemView) -> LedgerView {
    LedgerView { notified: st.notified.insert(id_of(r)), ..st }
}

/// Startup reconciliation for one loaded reminder: one already strictly
/// before `now` goes straight to `past`, bypassing notification.
pub open spec fn seed_one(st: LedgerView, r: RemView, now: int) -> LedgerView {
    match spec_parse_datetime(r.time) {
        Option::Some(dt) => {
            if timestamp_of(dt) < now {
                LedgerView { past: st.past.insert(id_of(r)), ..st }
            } else {
                st
            }
        },
        Option::None => st,
    }
}

/// Startup reconciliation over a whole loaded collection, in order.
pub open spec fn seed_spec(st: LedgerView, rs: Seq<RemView>, now: int) -> LedgerView
    decreases rs.len(),
{
    if rs.len() == 0 {
        st
    } else {
        seed_spec(seed_one(st, rs[0], now), rs.drop_first(), now)
    }
}

/// Seeding one more reminder is one more reconciliation step.
proof fn lemma_seed_snoc(st: LedgerView, rs: Seq<RemView>, r: RemView, now: int)
    ensures
        seed_spec(st, rs.push(r), now) == seed_one(seed_spec(st, rs, now), r, now),
    decreases rs.len(),
{
    if rs.len() == 0 {
        reveal_with_fuel(seed_spec, 3);
        assert(rs.push(r)[0] == r);
        assert(rs.push(r).drop_first() =~= Seq::<RemView>::empty());
    } else {
        assert(rs.push(r)[0] == rs[0]);
        assert(rs.push(r).drop_first() =~= rs.drop_first().push(r));
        lemma_seed_snoc(seed_one(st, rs[0], now), rs.drop_first(), r, now);
    }
}

/// Appending an identity string to a ledger vector inserts it into the set
/// of identities.
proof fn lemma_ids_push(v: Seq<String>, s: String)
    ensures
        ids_of(v.push(s)) == ids_of(v).insert(s@),
{
    assert forall|x: Seq<char>| ids_of(v.push(s)).contains(x) implies ids_of(v).insert(
        s@,
    ).contains(x) by {
        let i = choose|i: int| 0 <= i < v.push(s).len() && v.push(s)[i]@ == x;
        if i < v.len() {
            assert(v[i]@ == x);
        } else {
            assert(x == s@);
        }
    }
    assert forall|x: Seq<char>| ids_of(v).insert(s@).contains(x) implies ids_of(
        v.push(s),
    ).contains(x) by {
        if x == s@ {
            assert(v.push(s)[v.len() as int]@ == x);
        } else {
            let i = choose|i: int| 0 <= i < v.len() && v[i]@ == x;
            assert(v.push(s)[i]@ == x);
        }
    }
    assert(ids_of(v.push(s)) =~= ids_of(v).insert(s@));
}

/// Whether the vector holds an identity equal to `id`.
fn contains_id(v: &Vec<String>, id: &String) -> (r: bool)
    ensures
        r == ids_of(v@).contains(id@),
{
    let mut j: usize = 0;
    while j < v.len()
        invariant
            0 <= j <= v@.len(),
            forall|k: int| 0 <= k < j ==> v@[k]@ != id@,
        decreases v@.len() - j,
    {
        if v[j].eq(id) {
            proof {
                assert(v@[j as int]@ == id@);
            }
            return true;
        }
        j = j + 1;
    }
    proof {
        if ids_of(v@).contains(id@) {
            let k = choose|k: int| 0 <= k < v@.len() && v@[k]@ == id@;
            assert(false);
        }
    }
    false
}

/// The due-scan scheduler: owns the dedup ledger for this process. The sets
/// are not persisted; a restart forgets them and reseeds from the clock.
pub struct Scheduler {
    notified: Vec<String>,
    past: Vec<String>,
}

impl View for Scheduler {
    type V = LedgerView;

    closed spec fn view(&self) -> LedgerView {
        LedgerView { notified: ids_of(self.notified@), past: ids_of(self.past@) }
    }
}

impl Scheduler {
    /// A fresh ledger with nothing notified and nothing past.
    pub fn new() -> (s: Scheduler)
        ensures
            s@ == empty_ledger(),
    {
        let s = Scheduler { notified: Vec::new(), past: Vec::new() };
        proof {
            assert(ids_of(Seq::<String>::empty()) =~= Set::<Seq<char>>::empty());
            assert(s@ =~= empty_ledger());
        }
        s
    }

    /// Classifies one reminder against the tick's clock snapshot `now`
    /// (seconds since the epoch) and updates the ledger; returns whether the
    /// caller should attempt a delivery. Mirrors [`scan_spec`].
    pub fn scan_one(&mut self, r: &Reminder, now: i64) -> (notify: bool)
        ensures
            final(self)@ == scan_spec(old(self)@, r@, now as int).0,
            notify == scan_spec(old(self)@, r@, now as int).1,
    {
        let id = r.identity();
        if contains_id(&self.past, &id) {
            return false;
        }
        match parse_datetime(r.time.as_str()) {
            None => false,
            Some(dt) => {
                proof {
                    assert(valid_datetime(dt));
                }
                let ts = dt.timestamp();
                let delta: i128 = ts as i128 - now as i128;
                if -(GRACE_SECONDS as i128) <= delta && delta <= NOTIFY_WINDOW_SECONDS as i128 {
                    !contains_id(&self.notified, &id)
                } else if delta < 0 {
                    proof {
                        lemma_ids_push(self.past@, id);
                    }
                    self.past.push(id);
                    proof {
                        assert(final(self)@ =~= scan_spec(old(self)@, r@, now as int).0);
                    }
                    false
                } else {
                    false
                }
            },
        }
    }

    /// Records one successful delivery, making later scans of the same
    /// identity idempotent. Mirrors [`mark_spec`].
    pub fn mark_notified(&mut self, r: &Reminder)
        ensures
            final(self)@ == mark_spec(old(self)@, r@),
    {
        let id = r.identity();
        proof {
            lemma_ids_push(self.notified@, id);
        }
        self.notified.push(id);
        proof {
            assert(final(self)@ =~= mark_spec(old(self)@, r@));
        }
    }

    /// Startup reconciliation: every loaded reminder whose due time is
    /// already strictly before `now` is placed directly into `past`, so no
    /// stale notification is ever sent for it. Mirrors [`seed_spec`].
    pub fn seed_past(&mut self, reminders: &Vec<Reminder>, now: i64)
        ensures
            final(self)@ == seed_spec(old(self)@, views_of(reminders@), now as int),
    {
        let ghost rv = views_of(reminders@);
        proof {
            assert(rv.take(0) =~= Seq::<RemView>::empty());
        }
        let mut i: usize = 0;
        while i < reminders.len()
            invariant
                0 <= i <= reminders@.len(),
                rv == views_of(reminders@),
                self@ == seed_spec(old(self)@, rv.take(i as int), now as int),
            decreases reminders@.len() - i,
        {
            proof {
                lemma_seed_snoc(old(self)@, rv.take(i as int), rv[i as int], now as int);
                assert(rv.take(i + 1) =~= rv.take(i as int).push(rv[i as int]));
            }
            let r = &reminders[i];
            match parse_datetime(r.time.as_str()) {
                Some(dt) => {
                    proof {
                        assert(valid_datetime(dt));
                    }
                    let ts = dt.timestamp();
                    if ts < now {
                        let id = r.identity();
                        proof {
                            lemma_ids_push(self.past@, id);
                        }
                        self.past.push(id);
                        proof {
                            assert(self@ =~= seed_spec(
                                old(self)@,
                                rv.take(i + 1),
                                now as int,
                            ));
                        }
                    }
                },
                None => {},
            }
            i = i + 1;
        }
        proof {
            assert(rv.take(reminders@.len() as int) =~= rv);
        }
    }
}

/// One thing that can happen to the ledger after startup: a scan of some
/// reminder against some clock snapshot, or the record of a successful
/// delivery.
pub enum LedgerEvent {
    /// One reminder was scanned during a tick whose clock read `now`.
    Scan { rem: RemView, now: int },
    /// A delivery for a reminder succeeded and was recorded.
    Delivered { rem: RemView },
}

/// The ledger after one event.
pub open spec fn apply_event(st: LedgerView, e: LedgerEvent) -> LedgerView {
    match e {
        LedgerEvent::Scan { rem, now } => scan_spec(st, rem, now).0,
        LedgerEvent::Delivered { rem } => mark_spec(st, rem),
    }
}

/// The ledger after a whole history of events, in order.
pub open spec fn apply_events(st: LedgerView, es: Seq<LedgerEvent>) -> LedgerView
    decreases es.len(),
{
    if es.len() == 0 {
        st
    } else {
        apply_events(apply_event(st, es[0]), es.drop_first())
    }
}

/// No event ever removes an identity from either ledger set.
proof fn lemma_events_monotone(st: LedgerView, es: Seq<LedgerEvent>)
    ensures
        forall|id: Seq<char>|
            st.notified.contains(id) ==> #[trigger] apply_events(
                st,
                es,
            ).notified.contains(id),
        forall|id: Seq<char>|
            st.past.contains(id) ==> #[trigger] apply_events(st, es).past.contains(id),
    decreases es.len(),
{
    if es.len() > 0 {
        let st1 = apply_event(st, es[0]);
        assert(forall|id: Seq<char>|
            st.notified.contains(id) ==> #[trigger] st1.notified.contains(id));
        assert(forall|id: Seq<char>| st.past.contains(id) ==> #[trigger] st1.past.contains(id));
        lemma_events_monotone(st1, es.drop_first());
        assert(apply_events(st, es) == apply_events(st1, es.drop_first()));
    }
}

/// Idempotent notification: once an identity stands in `notified`, it stays
/// there, and no later scan of that identity — whatever other scans and
/// deliveries come in between, and whatever the clock then reads — asks for
/// another delivery.
pub proof fn lemma_idempotent_notification(
    st: LedgerView,
    es: Seq<LedgerEvent>,
    r: RemView,
    now: int,
)
    requires
        st.notified.contains(id_of(r)),
    ensures
        apply_events(st, es).notified.contains(id_of(r)),
        !scan_spec(apply_events(st, es), r, now).1,
{
    lemma_events_monotone(st, es);
}

/// Absorbing past state: once an identity stands in `past`, it stays there,
/// and every later scan of that identity leaves the ledger unchanged and
/// asks for no delivery, whatever the clock says or the store then holds
/// for that identity's due time.
pub proof fn lemma_past_absorbing(st: LedgerView, es: Seq<LedgerEvent>, r: RemView, now: int)
    requires
        st.past.contains(id_of(r)),
    ensures
        apply_events(st, es).past.contains(id_of(r)),
        scan_spec(apply_events(st, es), r, now) == (apply_events(st, es), false),
{
    lemma_events_monotone(st, es);
}

/// Seeding never removes identities and never touches `notified`.
proof fn lemma_seed_monotone(st: LedgerView, rs: Seq<RemView>, now: int)
    ensures
        forall|id: Seq<char>|
            st.past.contains(id) ==> #[trigger] seed_spec(st, rs, now).past.contains(id),
        seed_spec(st, rs, now).notified == st.notified,
    decreases rs.len(),
{
    if rs.len() > 0 {
        lemma_seed_monotone(seed_one(st, rs[0], now), rs.drop_first(), now);
    }
}

/// Seeding puts every parseable reminder already strictly overdue at `now`
/// into `past`.
proof fn lemma_seed_contains(st: LedgerView, rs: Seq<RemView>, k: int, now: int)
    requires
        0 <= k < rs.len(),
        spec_parse_datetime(rs[k].time) is Some,
        timestamp_of(spec_parse_datetime(rs[k].time)->0) < now,
    ensures
        seed_spec(st, rs, now).past.contains(id_of(rs[k])),
    decreases rs.len(),
{
    if k == 0 {
        lemma_seed_monotone(seed_one(st, rs[0], now), rs.drop_first(), now);
    } else {
        assert(rs.drop_first()[k - 1] == rs[k]);
        lemma_seed_contains(seed_one(st, rs[0], now), rs.drop_first(), k - 1, now);
    }
}

/// Startup suppression: a reminder loaded with a due time already strictly
/// before the seeding clock is placed in `past` before the first tick, and
/// no later scan of it — after any history of scans and deliveries — ever
/// asks for a delivery.
pub proof fn lemma_startup_suppression(
    st0: LedgerView,
    rs: Seq<RemView>,
    k: int,
    now0: int,
    es: Seq<LedgerEvent>,
    now: int,
)
    requires
        0 <= k < rs.len(),
        spec_parse_datetime(rs[k].time) is Some,
        timestamp_of(spec_parse_datetime(rs[k].time)->0) < now0,
    ensures
        seed_spec(st0, rs, now0).past.contains(id_of(rs[k])),
        !scan_spec(apply_events(seed_spec(st0, rs, now0), es), rs[k], now).1,
{
    lemma_seed_contains(st0, rs, k, now0);
    lemma_past_absorbing(seed_spec(st0, rs, now0), es, rs[k], now);
}

} // verus!
