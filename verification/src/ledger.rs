//! The ledger itself: the records in a vector, in the order in which their
//! owners first wrote, and the counter of accepted updates.

use vstd::prelude::*;

use crate::laws::{
    lemma_accepted_count_full, lemma_lookup_by_records, lemma_put, lemma_replay, lemma_replay_push,
};
use crate::model::{contributors, held_at, replay, Ledger, Update};
use crate::record::{updated_record, Messenger, Record, ValidationError};

verus! {

/// The views of a run of stored records, in the same order.
pub open spec fn views(records: Seq<Messenger>) -> Seq<Record> {
    records.map_values(|record: Messenger| record@)
}

/// A ledger of messages and donations, one record per account.
pub struct HelloNear {
    records: Vec<Messenger>,
    total_mess: u64,
    history: Ghost<Seq<Update>>,
}

impl View for HelloNear {
    type V = Ledger;

    closed spec fn view(&self) -> Ledger {
        Ledger { records: views(self.records@), total_updates: self.total_mess as nat }
    }
}

impl HelloNear {
    /// The accepted updates that this ledger has taken so far, oldest first.
    pub closed spec fn history(&self) -> Seq<Update> {
        self.history@
    }

    /// The ledger holds exactly what its history of accepted updates leads
    /// to.
    pub open spec fn well_formed(&self) -> bool {
        &&& self@ == replay(self.history())
        &&& forall|k: int|
            0 <= k < self.history().len() ==> (#[trigger] self.history()[k]).accepted()
    }

    /// An empty ledger.
    pub fn new() -> (ledger: Self)
        ensures
            ledger.well_formed(),
            ledger@.well_formed(),
            ledger@ == Ledger::empty(),
            ledger.history() == Seq::<Update>::empty(),
    {
        let ledger = HelloNear { records: Vec::new(), total_mess: 0, history: Ghost(Seq::empty()) };
        assert(ledger@.records =~= Ledger::empty().records);
        ledger
    }

    /// The index of the record of `account_id`, if it has one.
    fn find(&self, account_id: &String) -> (found: Option<usize>)
        ensures
            match found {
                Some(i) => held_at(self@.records, account_id@, i as int),
                None => !self@.contains(account_id@),
            },
    {
        let mut i: usize = 0;
        while i < self.records.len()
            invariant
                i <= self.records.len(),
                forall|k: int| 0 <= k < i ==> !held_at(self@.records, account_id@, k),
            decreases self.records.len() - i,
        {
            if self.records[i].owner_id == *account_id {
                return Some(i);
            }
            i += 1;
        }
        None
    }

    /// Stores `record` under its owner: over the owner's earlier record, or
    /// at the end if the owner had none.
    fn put(&mut self, record: Messenger)
        requires
            old(self)@.distinct_owners(),
        ensures
            final(self)@ == old(self)@.put(record@),
            final(self).history() == old(self).history(),
    {
        let ghost stored = record@;
        match self.find(&record.owner_id) {
            Some(i) => {
                self.records.set(i, record);
            },
            None => {
                self.records.push(record);
            },
        }
        proof {
            lemma_put(old(self)@, stored);
            assert(self@.records =~= old(self)@.put(stored).records);
        }
    }

    /// The record of `account_id`, if it has one.
    pub fn get(&self, account_id: &String) -> (found: Option<&Messenger>)
        requires
            self.well_formed(),
        ensures
            match found {
                Some(record) => self@.get(account_id@) == Some(record@),
                None => self@.get(account_id@) is None,
            },
    {
        proof {
            lemma_replay(self.history());
        }
        match self.find(account_id) {
            Some(i) => Some(&self.records[i]),
            None => None,
        }
    }

    /// The number of accounts with a record.
    pub fn len(&self) -> (count: usize)
        requires
            self.well_formed(),
        ensures
            count == self@.records.len(),
            count == contributors(self.history()).len(),
    {
        proof {
            lemma_replay(self.history());
        }
        self.records.len()
    }

    /// The number of updates accepted so far.
    pub fn total_mess(&self) -> (count: u64)
        requires
            self.well_formed(),
        ensures
            count == self@.total_updates,
            count == self.history().len(),
    {
        proof {
            lemma_replay(self.history());
            lemma_accepted_count_full(self.history());
        }
        self.total_mess
    }

    /// All records, in the order in which their owners first wrote. The
    /// result is a copy: later updates do not reach it.
    pub fn get_leaderboard_donate(&self) -> (listing: Vec<Messenger>)
        requires
            self.well_formed(),
        ensures
            views(listing@) == self@.records,
            listing@.len() == contributors(self.history()).len(),
    {
        let mut listing: Vec<Messenger> = Vec::new();
        let mut i: usize = 0;
        while i < self.records.len()
            invariant
                i <= self.records.len(),
                listing@ == self.records@.take(i as int),
            decreases self.records.len() - i,
        {
            listing.push(self.records[i].clone());
            i += 1;
            assert(listing@ =~= self.records@.take(i as int));
        }
        proof {
            assert(listing@ =~= self.records@);
            lemma_replay(self.history());
        }
        listing
    }

    /// Takes one update from `account_id`: an empty message is turned down
    /// and nothing changes; otherwise the account's record gets the new
    /// message and time, `deposit` is added to what the account had
    /// accumulated, and the update is counted. Returns the record as it now
    /// stands.
    pub fn add_mess_and_donate(
        &mut self,
        account_id: String,
        message: String,
        deposit: u128,
        now: u64,
    ) -> (outcome: Result<Messenger, ValidationError>)
        requires
            old(self).well_formed(),
            message@.len() > 0 ==> old(self)@.total_updates < u64::MAX,
            message@.len() > 0 ==> old(self)@.accumulated(account_id@) + deposit <= u128::MAX,
        ensures
            final(self).well_formed(),
            final(self)@.well_formed(),
            final(self)@ == old(self)@.step(
                Update::new(account_id@, message@, deposit as nat, now as nat),
            ),
            message@.len() == 0 ==> outcome == Err::<Messenger, ValidationError>(
                ValidationError::EmptyMessage,
            ),
            message@.len() == 0 ==> *final(self) == *old(self),
            message@.len() > 0 ==> outcome is Ok,
            message@.len() > 0 ==> outcome->Ok_0@ == updated_record(
                old(self)@.get(account_id@),
                account_id@,
                message@,
                deposit as nat,
                now as nat,
            ),
            message@.len() > 0 ==> final(self)@.get(account_id@) == Some(outcome->Ok_0@),
            message@.len() > 0 ==> final(self).history() == old(self).history().push(
                Update::new(account_id@, message@, deposit as nat, now as nat),
            ),
    {
        let ghost update = Update::new(account_id@, message@, deposit as nat, now as nat);
        proof {
            lemma_replay(self.history());
        }
        let previous = self.get(&account_id);
        let record = match Messenger::updated(previous, account_id, message, deposit, now) {
            Ok(record) => record,
            Err(error) => {
                return Err(error);
            },
        };
        let copy = record.clone();
        self.put(record);
        self.total_mess = self.total_mess + 1;
        self.history = Ghost(self.history@.push(update));
        proof {
            lemma_replay_push(old(self).history(), update);
            lemma_replay(self.history());
            lemma_put(old(self)@, copy@);
            lemma_lookup_by_records(self@, old(self)@.put(copy@));
        }
        Ok(copy)
    }
}

impl Default for HelloNear {
    /// An empty ledger.
    fn default() -> (ledger: Self)
        ensures
            ledger.well_formed(),
            ledger@.well_formed(),
            ledger@ == Ledger::empty(),
            ledger.history() == Seq::<Update>::empty(),
    {
        HelloNear::new()
    }
}

} // verus!
