//! The reminder repository: the authoritative in-memory collection for the
//! running process. Creation validates that the due time is strictly in the
//! future; deletion is by position. After every accepted mutation the caller
//! is expected to rewrite the whole persisted file from
//! [`crate::codec::render_reminders`]; on a rejected mutation nothing may be
//! written.

use vstd::prelude::*;

use crate::datetime::{parse_datetime, spec_parse_datetime, timestamp_of, valid_datetime};
use crate::reminder::{lemma_views_of_push, lemma_views_of_remove, views_of, RemView, Reminder};

verus! {

/// Why a repository mutation was rejected.
#[derive(Clone, Copy, Debug, PartialEq, Eq, Structural)]
pub enum RepoError {
    /// The due time of a new reminder does not parse as a stored timestamp.
    InvalidTimestamp,
    /// The due time of a new reminder is at or before the creation clock.
    DueNotInFuture,
    /// A deletion named a position at or past the end of the collection.
    IndexOutOfRange,
}

/// When a creation is accepted: the stored time parses and lies strictly
/// after the creation clock `now`.
pub open spec fn creation_allowed(r: RemView, now: int) -> bool {
    &&& spec_parse_datetime(r.time) is Some
    &&& timestamp_of(spec_parse_datetime(r.time)->0) > now
}

/// The in-memory reminder collection, in creation order, which is also the
/// stored order and the display order.
pub struct Repository {
    reminders: Vec<Reminder>,
}

impl View for Repository {
    type V = Seq<RemView>;

    closed spec fn view(&self) -> Seq<RemView> {
        views_of(self.reminders@)
    }
}

impl Repository {
    /// Wraps a loaded collection, keeping its order.
    pub fn new(initial: Vec<Reminder>) -> (r: Repository)
        ensures
            r@ == views_of(initial@),
    {
        Repository { reminders: initial }
    }

    /// The collection for display, in order.
    pub fn reminders(&self) -> (r: &Vec<Reminder>)
        ensures
            views_of(r@) == self@,
    {
        &self.reminders
    }

    /// How many reminders are held.
    pub fn len(&self) -> (n: usize)
        ensures
            n == self@.len(),
    {
        self.reminders.len()
    }

    /// The reminder at a position.
    pub fn get(&self, index: usize) -> (r: &Reminder)
        requires
            index < self@.len(),
        ensures
            r@ == self@[index as int],
    {
        &self.reminders[index]
    }

    /// Appends a new reminder, provided its due time parses and is strictly
    /// after the creation clock `now` (seconds since the epoch). On
    /// rejection the collection is unchanged and nothing must be persisted.
    pub fn add(&mut self, rem: Reminder, now: i64) -> (r: Result<(), RepoError>)
        ensures
            r is Ok <==> creation_allowed(rem@, now as int),
            r is Ok ==> final(self)@ == old(self)@.push(rem@),
            r is Err ==> final(self)@ == old(self)@,
            r == Err::<(), RepoError>(RepoError::InvalidTimestamp) <==> spec_parse_datetime(
                rem@.time,
            ) is None,
            r == Err::<(), RepoError>(RepoError::DueNotInFuture) <==> (spec_parse_datetime(
                rem@.time,
            ) is Some && timestamp_of(spec_parse_datetime(rem@.time)->0) <= now as int),
    {
        match parse_datetime(rem.time.as_str()) {
            None => Err(RepoError::InvalidTimestamp),
            Some(dt) => {
                proof {
                    assert(valid_datetime(dt));
                }
                let ts = dt.timestamp();
                if ts <= now {
                    Err(RepoError::DueNotInFuture)
                } else {
                    proof {
                        lemma_views_of_push(self.reminders@, rem);
                    }
                    self.reminders.push(rem);
                    Ok(())
                }
            },
        }
    }

    /// Removes the reminder at a position, keeping the relative order of the
    /// rest. An out-of-range position is reported and nothing changes.
    pub fn remove(&mut self, index: usize) -> (r: Result<Reminder, RepoError>)
        ensures
            index < old(self)@.len() ==> r is Ok && final(self)@ == old(self)@.remove(
                index as int,
            ) && r->Ok_0@ == old(self)@[index as int],
            index >= old(self)@.len() ==> r == Err::<Reminder, RepoError>(
                RepoError::IndexOutOfRange,
            ) && final(self)@ == old(self)@,
    {
        if index < self.reminders.len() {
            proof {
                lemma_views_of_remove(self.reminders@, index as int);
            }
            let rem = self.reminders.remove(index);
            Ok(rem)
        } else {
            Err(RepoError::IndexOutOfRange)
        }
    }
}

} // verus!
