//! The ledger as plain mathematics: a sequence of records in the order in
//! which their owners first wrote, a counter of accepted updates, and the
//! ledger that a history of updates leads to.

use vstd::prelude::*;

use crate::record::{updated_record, Record};

verus! {

/// One update as submitted: who sent it, the message, the amount attached
/// to it and the time at which it arrived.
pub struct Update {
    pub owner: Seq<char>,
    pub message: Seq<char>,
    pub amount: nat,
    pub now: nat,
}

impl Update {
    /// The update that `owner` submits at time `now`, with `message` and
    /// with `amount` attached.
    pub open spec fn new(owner: Seq<char>, message: Seq<char>, amount: nat, now: nat) -> Update {
        Update { owner, message, amount, now }
    }

    /// An update is accepted unless its message is empty.
    pub open spec fn accepted(self) -> bool {
        self.message.len() > 0
    }
}

/// The record at index `i` of `records` belongs to `owner`.
pub open spec fn held_at(records: Seq<Record>, owner: Seq<char>, i: int) -> bool {
    0 <= i < records.len() && records[i].owner == owner
}

/// An index at which `records` holds a record of `owner`, if there is one.
pub open spec fn index_of(records: Seq<Record>, owner: Seq<char>) -> int {
    choose|i: int| held_at(records, owner, i)
}

/// The state of a ledger.
pub struct Ledger {
    /// One record per owner, in the order of the owners' first accepted
    /// updates.
    pub records: Seq<Record>,
    /// How many updates have been accepted so far.
    pub total_updates: nat,
}

impl Ledger {
    /// The ledger before any update.
    pub open spec fn empty() -> Ledger {
        Ledger { records: Seq::empty(), total_updates: 0 }
    }

    /// The owners of the records, in the records' order.
    pub open spec fn owners(self) -> Seq<Seq<char>> {
        self.records.map_values(|record: Record| record.owner)
    }

    /// `owner` has a record.
    pub open spec fn contains(self, owner: Seq<char>) -> bool {
        exists|i: int| held_at(self.records, owner, i)
    }

    /// Where the record of `owner` stands, if there is one.
    pub open spec fn position(self, owner: Seq<char>) -> int {
        index_of(self.records, owner)
    }

    /// The record of `owner`, if there is one.
    pub open spec fn get(self, owner: Seq<char>) -> Option<Record> {
        if self.contains(owner) {
            Some(self.records[self.position(owner)])
        } else {
            None
        }
    }

    /// What `owner` has accumulated: nothing, for an owner without a record.
    pub open spec fn accumulated(self, owner: Seq<char>) -> nat {
        match self.get(owner) {
            Some(record) => record.accumulated,
            None => 0,
        }
    }

    /// The ledger with `record` stored under its owner: in the place of the
    /// owner's earlier record, or at the end if the owner had none.
    pub open spec fn put(self, record: Record) -> Ledger {
        if self.contains(record.owner) {
            Ledger {
                records: self.records.update(self.position(record.owner), record),
                total_updates: self.total_updates,
            }
        } else {
            Ledger { records: self.records.push(record), total_updates: self.total_updates }
        }
    }

    /// The ledger after an accepted update: the owner's record is replaced
    /// by one that carries the new message and time and the attached amount
    /// on top of the old sum, and the counter goes up by one.
    pub open spec fn apply(self, update: Update) -> Ledger {
        let record = updated_record(
            self.get(update.owner),
            update.owner,
            update.message,
            update.amount,
            update.now,
        );
        Ledger { records: self.put(record).records, total_updates: self.total_updates + 1 }
    }

    /// The ledger after an update as submitted: a rejected update changes
    /// nothing.
    pub open spec fn step(self, update: Update) -> Ledger {
        if update.accepted() {
            self.apply(update)
        } else {
            self
        }
    }

    /// No owner has two records.
    pub open spec fn distinct_owners(self) -> bool {
        forall|owner: Seq<char>, i: int, j: int|
            held_at(self.records, owner, i) && held_at(self.records, owner, j) ==> i == j
    }

    /// What holds of every ledger that updates have built: no owner has two
    /// records, no stored message is empty, and there are at most as many
    /// records as accepted updates.
    pub open spec fn well_formed(self) -> bool {
        &&& self.distinct_owners()
        &&& forall|i: int|
            0 <= i < self.records.len() ==> (#[trigger] self.records[i]).message.len() > 0
        &&& self.records.len() <= self.total_updates
    }
}

/// The ledger that a history of updates leads to, starting from the empty
/// ledger.
pub open spec fn replay(history: Seq<Update>) -> Ledger
    decreases history.len(),
{
    if history.len() == 0 {
        Ledger::empty()
    } else {
        replay(history.drop_last()).step(history.last())
    }
}

/// The update at index `k` of `history` came from `owner` and was accepted.
pub open spec fn accepted_at(history: Seq<Update>, owner: Seq<char>, k: int) -> bool {
    0 <= k < history.len() && history[k].owner == owner && history[k].accepted()
}

/// The owners with at least one accepted update in `history`.
pub open spec fn contributors(history: Seq<Update>) -> Set<Seq<char>> {
    Set::new(|owner: Seq<char>| exists|k: int| accepted_at(history, owner, k))
}

/// The number of accepted updates in `history`.
pub open spec fn accepted_count(history: Seq<Update>) -> nat
    decreases history.len(),
{
    if history.len() == 0 {
        0
    } else if history.last().accepted() {
        accepted_count(history.drop_last()) + 1
    } else {
        accepted_count(history.drop_last())
    }
}

/// The sum of the amounts that the accepted updates of `owner` in `history`
/// carried.
pub open spec fn donated(history: Seq<Update>, owner: Seq<char>) -> nat
    decreases history.len(),
{
    if history.len() == 0 {
        0
    } else if history.last().accepted() && history.last().owner == owner {
        donated(history.drop_last(), owner) + history.last().amount
    } else {
        donated(history.drop_last(), owner)
    }
}

/// The last accepted update of `owner` in `history`, if there is one.
pub open spec fn latest(history: Seq<Update>, owner: Seq<char>) -> Option<Update>
    decreases history.len(),
{
    if history.len() == 0 {
        None
    } else if history.last().accepted() && history.last().owner == owner {
        Some(history.last())
    } else {
        latest(history.drop_last(), owner)
    }
}

} // verus!
