//! The reminder record: a human-readable name and a due timestamp kept as the
//! raw stored string, plus the identity used by the notification ledger.

use vstd::prelude::*;
use vstd::string::*;

verus! {

/// A reminder as the rest of the system sees it: a label and the raw
/// `YYYY-MM-DDTHH:MM:SS` string it was stored with.
#[derive(Debug, PartialEq, Eq)]
pub struct Reminder {
    pub name: String,
    pub time: String,
}

/// The mathematical image of a [`Reminder`]: both fields as character
/// sequences.
#[verifier::ext_equal]
pub struct RemView {
    pub name: Seq<char>,
    pub time: Seq<char>,
}

impl View for Reminder {
    type V = RemView;

    open spec fn view(&self) -> RemView {
        RemView { name: self.name@, time: self.time@ }
    }
}

/// The images of a sequence of reminders.
pub open spec fn views_of(v: Seq<Reminder>) -> Seq<RemView> {
    v.map_values(|r: Reminder| r@)
}

/// The ledger identity of a reminder: its name and raw time string joined by
/// an underscore. Two reminders with the same name and time are
/// indistinguishable to the ledger.
pub open spec fn id_of(r: RemView) -> Seq<char> {
    r.name + seq!['_'] + r.time
}

/// Taking images commutes with appending one reminder.
pub proof fn lemma_views_of_push(v: Seq<Reminder>, r: Reminder)
    ensures
        views_of(v.push(r)) == views_of(v).push(r@),
{
    assert(views_of(v.push(r)) =~= views_of(v).push(r@));
}

/// Taking images commutes with removing one reminder.
pub proof fn lemma_views_of_remove(v: Seq<Reminder>, i: int)
    requires
        0 <= i < v.len(),
    ensures
        views_of(v.remove(i)) == views_of(v).remove(i),
{
    assert(views_of(v.remove(i)) =~= views_of(v).remove(i));
}

impl Reminder {
    /// Builds the ledger identity string; mirrors [`id_of`].
    pub fn identity(&self) -> (r: String)
        ensures
            r@ == id_of(self@),
    {
        proof {
            reveal_strlit("_");
        }
        let mut id = String::new();
        id.append(self.name.as_str());
        id.append("_");
        id.append(self.time.as_str());
        proof {
            assert(id@ =~= id_of(self@));
        }
        id
    }
}

impl Clone for Reminder {
    /// A field-for-field copy.
    fn clone(&self) -> (r: Self)
        ensures
            r == *self,
    {
        Reminder { name: self.name.clone(), time: self.time.clone() }
    }
}

} // verus!
