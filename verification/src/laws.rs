//! What holds of every ledger, proved of the model: of one update, and of
//! whole histories of updates.

use vstd::prelude::*;

use crate::model::{
    accepted_at, accepted_count, contributors, donated, held_at, latest, replay, Ledger, Update,
};
use crate::record::{updated_record, Record};

verus! {

/// Storing a record keeps every earlier record's owner in its place, adds
/// the record's owner to the owners and no other, and keeps owners apart.
pub proof fn lemma_put(ledger: Ledger, record: Record)
    requires
        ledger.distinct_owners(),
    ensures
        ledger.put(record).distinct_owners(),
        ledger.put(record).total_updates == ledger.total_updates,
        ledger.contains(record.owner) ==> ledger.put(record).records == ledger.records.update(
            ledger.position(record.owner),
            record,
        ) && held_at(ledger.records, record.owner, ledger.position(record.owner)),
        !ledger.contains(record.owner) ==> ledger.put(record).records == ledger.records.push(
            record,
        ),
        forall|k: int|
            0 <= k < ledger.records.len() ==> (#[trigger] ledger.put(record).records[k]).owner
                == ledger.records[k].owner,
        forall|owner: Seq<char>| #[trigger]
            ledger.put(record).contains(owner) <==> ledger.contains(owner) || owner
                == record.owner,
        ledger.put(record).get(record.owner) == Some(record),
        forall|owner: Seq<char>|
            owner != record.owner ==> #[trigger] ledger.put(record).get(owner) == ledger.get(
                owner,
            ),
{
    let after = ledger.put(record);
    if ledger.contains(record.owner) {
        let at = ledger.position(record.owner);
        assert(held_at(ledger.records, record.owner, at));
        assert(held_at(after.records, record.owner, at));
        assert forall|owner: Seq<char>, i: int| held_at(after.records, owner, i) implies held_at(
            ledger.records,
            owner,
            i,
        ) by {}
        assert forall|owner: Seq<char>, i: int| held_at(ledger.records, owner, i) implies held_at(
            after.records,
            owner,
            i,
        ) by {}
        assert forall|owner: Seq<char>| owner != record.owner implies #[trigger] after.get(owner)
            == ledger.get(owner) by {
            if ledger.contains(owner) {
                let i = ledger.position(owner);
                assert(held_at(after.records, owner, i));
                assert(held_at(ledger.records, owner, after.position(owner)));
            } else if after.contains(owner) {
                assert(held_at(ledger.records, owner, after.position(owner)));
            }
        }
    } else {
        let end = ledger.records.len() as int;
        assert(held_at(after.records, record.owner, end));
        assert forall|owner: Seq<char>, i: int| held_at(ledger.records, owner, i) implies held_at(
            after.records,
            owner,
            i,
        ) by {}
        assert forall|owner: Seq<char>, i: int| held_at(after.records, owner, i) implies held_at(
            ledger.records,
            owner,
            i,
        ) || (i == end && owner == record.owner) by {}
        assert forall|owner: Seq<char>| owner != record.owner implies #[trigger] after.get(owner)
            == ledger.get(owner) by {
            if ledger.contains(owner) {
                let i = ledger.position(owner);
                assert(held_at(after.records, owner, i));
                assert(held_at(ledger.records, owner, after.position(owner)));
            } else if after.contains(owner) {
                assert(held_at(ledger.records, owner, after.position(owner)));
            }
        }
    }
    assert(held_at(after.records, record.owner, after.position(record.owner)));
}

/// What a ledger answers about an owner depends on its records alone, not
/// on its counter.
pub proof fn lemma_lookup_by_records(left: Ledger, right: Ledger)
    requires
        left.records == right.records,
    ensures
        forall|owner: Seq<char>| #[trigger] left.contains(owner) == right.contains(owner),
        forall|owner: Seq<char>| #[trigger] left.position(owner) == right.position(owner),
        forall|owner: Seq<char>| #[trigger] left.get(owner) == right.get(owner),
        forall|owner: Seq<char>| #[trigger] left.accumulated(owner) == right.accumulated(owner),
        left.distinct_owners() == right.distinct_owners(),
{
}

/// One more update at the end of a history is one more step of the ledger.
pub proof fn lemma_replay_push(history: Seq<Update>, update: Update)
    ensures
        replay(history.push(update)) == replay(history).step(update),
{
    assert(history.push(update).drop_last() =~= history);
}

/// Where every update was accepted, the accepted updates are all of them.
pub proof fn lemma_accepted_count_full(history: Seq<Update>)
    requires
        forall|k: int| 0 <= k < history.len() ==> (#[trigger] history[k]).accepted(),
    ensures
        accepted_count(history) == history.len(),
    decreases history.len(),
{
    if history.len() > 0 {
        lemma_accepted_count_full(history.drop_last());
    }
}

/// What a history leads to is well formed, holds a record for exactly the
/// owners with an accepted update, and has counted the accepted updates.
pub proof fn lemma_replay(history: Seq<Update>)
    ensures
        replay(history).well_formed(),
        forall|owner: Seq<char>| #[trigger]
            replay(history).contains(owner) <==> contributors(history).contains(owner),
        replay(history).total_updates == accepted_count(history),
        contributors(history).finite(),
        replay(history).records.len() == contributors(history).len(),
    decreases history.len(),
{
    let ledger = replay(history);
    if history.len() == 0 {
        assert forall|owner: Seq<char>| !contributors(history).contains(owner) by {
            assert forall|k: int| !accepted_at(history, owner, k) by {}
        }
    } else {
        let earlier = history.drop_last();
        let update = history.last();
        let before = replay(earlier);
        lemma_replay(earlier);
        if update.accepted() {
            let record = updated_record(
                before.get(update.owner),
                update.owner,
                update.message,
                update.amount,
                update.now,
            );
            lemma_put(before, record);
            assert(ledger.records == before.put(record).records);
            assert forall|owner: Seq<char>, i: int| held_at(ledger.records, owner, i) implies held_at(
                before.put(record).records,
                owner,
                i,
            ) by {}
            assert forall|owner: Seq<char>| #[trigger]
                ledger.contains(owner) <==> contributors(history).contains(owner) by {
                if ledger.contains(owner) {
                    let i = ledger.position(owner);
                    assert(held_at(before.put(record).records, owner, i));
                    if owner == update.owner {
                        assert(accepted_at(history, owner, history.len() - 1));
                    } else {
                        assert(before.put(record).contains(owner));
                        assert(before.contains(owner));
                        assert(contributors(earlier).contains(owner));
                        let k = choose|k: int| accepted_at(earlier, owner, k);
                        assert(accepted_at(history, owner, k));
                    }
                }
                if contributors(history).contains(owner) {
                    let k = choose|k: int| accepted_at(history, owner, k);
                    if owner != update.owner {
                        assert(accepted_at(earlier, owner, k));
                        assert(contributors(earlier).contains(owner));
                        assert(before.contains(owner));
                    }
                    assert(before.put(record).contains(owner));
                    let i = before.put(record).position(owner);
                    assert(held_at(ledger.records, owner, i));
                }
            }
        } else {
            assert forall|owner: Seq<char>| #[trigger]
                ledger.contains(owner) <==> contributors(history).contains(owner) by {
                if contributors(earlier).contains(owner) {
                    let k = choose|k: int| accepted_at(earlier, owner, k);
                    assert(accepted_at(history, owner, k));
                }
                if contributors(history).contains(owner) {
                    let k = choose|k: int| accepted_at(history, owner, k);
                    assert(accepted_at(earlier, owner, k));
                }
            }
        }
    }
    let names = ledger.owners();
    assert forall|i: int, j: int|
        0 <= i < names.len() && 0 <= j < names.len() && i != j implies names[i] != names[j] by {
        if names[i] == names[j] {
            assert(held_at(ledger.records, names[i], i));
            assert(held_at(ledger.records, names[i], j));
        }
    }
    names.unique_seq_to_set();
    vstd::seq_lib::seq_to_set_is_finite(names);
    assert forall|owner: Seq<char>| names.to_set().contains(owner) <==> contributors(
        history,
    ).contains(owner) by {
        if names.contains(owner) {
            let i = choose|i: int| 0 <= i < names.len() && names[i] == owner;
            assert(held_at(ledger.records, owner, i));
        }
        if ledger.contains(owner) {
            let i = ledger.position(owner);
            assert(names[i] == owner);
        }
    }
    assert(names.to_set() =~= contributors(history));
}

/// An accepted update from an owner without a record adds exactly one
/// record, at the end, holding the update's message, amount and time; every
/// earlier record stays as it was.
pub proof fn law_first_update_creates_record(ledger: Ledger, update: Update)
    requires
        update.accepted(),
        !ledger.contains(update.owner),
    ensures
        ledger.step(update).records == ledger.records.push(
            updated_record(None, update.owner, update.message, update.amount, update.now),
        ),
        ledger.step(update).records.last().accumulated == update.amount,
        ledger.step(update).total_updates == ledger.total_updates + 1,
{
}

/// An accepted update from an owner with a record replaces that record in
/// its place: the amount is added to what the owner had accumulated, the
/// message and the time are those of the update, and nothing of the old
/// message is kept. No record is added and no other record changes.
pub proof fn law_later_update_accumulates(ledger: Ledger, update: Update)
    requires
        ledger.distinct_owners(),
        update.accepted(),
        ledger.contains(update.owner),
    ensures
        ledger.step(update).get(update.owner) == Some(
            updated_record(
                ledger.get(update.owner),
                update.owner,
                update.message,
                update.amount,
                update.now,
            ),
        ),
        ledger.step(update).get(update.owner)->0.message == update.message,
        ledger.step(update).get(update.owner)->0.updated_at == update.now,
        ledger.step(update).accumulated(update.owner) == ledger.accumulated(update.owner)
            + update.amount,
        ledger.step(update).position(update.owner) == ledger.position(update.owner),
        ledger.step(update).records.len() == ledger.records.len(),
        forall|owner: Seq<char>|
            owner != update.owner ==> #[trigger] ledger.step(update).get(owner) == ledger.get(
                owner,
            ),
        ledger.step(update).total_updates == ledger.total_updates + 1,
{
    let record = updated_record(
        ledger.get(update.owner),
        update.owner,
        update.message,
        update.amount,
        update.now,
    );
    lemma_put(ledger, record);
    let after = ledger.step(update);
    lemma_lookup_by_records(after, ledger.put(record));
    assert forall|owner: Seq<char>| owner != update.owner implies #[trigger] after.get(owner)
        == ledger.get(owner) by {
        assert(ledger.put(record).get(owner) == ledger.get(owner));
    }
    assert(after.position(update.owner) == ledger.position(update.owner)) by {
        assert(held_at(after.records, update.owner, ledger.position(update.owner)));
        assert(held_at(after.records, update.owner, after.position(update.owner)));
    }
}

/// An accepted update that attaches nothing changes the owner's message and
/// time and leaves the accumulated amount as it was.
pub proof fn law_zero_amount_keeps_accumulated(ledger: Ledger, update: Update)
    requires
        ledger.distinct_owners(),
        update.accepted(),
        update.amount == 0,
    ensures
        ledger.step(update).accumulated(update.owner) == ledger.accumulated(update.owner),
        ledger.step(update).get(update.owner) is Some,
        ledger.step(update).get(update.owner)->0.message == update.message,
        ledger.step(update).get(update.owner)->0.updated_at == update.now,
{
    let record = updated_record(
        ledger.get(update.owner),
        update.owner,
        update.message,
        update.amount,
        update.now,
    );
    lemma_put(ledger, record);
    lemma_lookup_by_records(ledger.step(update), ledger.put(record));
}

/// A rejected update changes nothing.
pub proof fn law_rejected_update_changes_nothing(ledger: Ledger, update: Update)
    requires
        !update.accepted(),
    ensures
        ledger.step(update) == ledger,
{
}

/// The listing has one record for each owner with an accepted update, and
/// for no one else: it is as long as there are such owners, and the updates
/// counted are the accepted ones.
pub proof fn law_one_record_per_contributor(history: Seq<Update>)
    ensures
        contributors(history).finite(),
        replay(history).records.len() == contributors(history).len(),
        forall|owner: Seq<char>| #[trigger]
            replay(history).contains(owner) <==> contributors(history).contains(owner),
        replay(history).distinct_owners(),
        replay(history).total_updates == accepted_count(history),
{
    lemma_replay(history);
}

/// No update makes the listing shorter, and an update adds at most one
/// record.
pub proof fn law_listing_never_shrinks(ledger: Ledger, update: Update)
    ensures
        ledger.records.len() <= ledger.step(update).records.len() <= ledger.records.len() + 1,
{
}

/// An update moves no record: every owner with a record keeps its place,
/// and a new owner comes in behind all of them.
pub proof fn lemma_step_keeps_places(ledger: Ledger, update: Update)
    requires
        ledger.distinct_owners(),
    ensures
        ledger.step(update).distinct_owners(),
        forall|owner: Seq<char>|
            ledger.contains(owner) ==> #[trigger] ledger.step(update).contains(owner)
                && ledger.step(update).position(owner) == ledger.position(owner),
        update.accepted() && !ledger.contains(update.owner) ==> ledger.step(update).contains(
            update.owner,
        ) && ledger.step(update).position(update.owner) == ledger.records.len(),
{
    let after = ledger.step(update);
    if update.accepted() {
        let record = updated_record(
            ledger.get(update.owner),
            update.owner,
            update.message,
            update.amount,
            update.now,
        );
        lemma_put(ledger, record);
        lemma_lookup_by_records(after, ledger.put(record));
        assert forall|owner: Seq<char>| ledger.contains(owner) implies #[trigger] after.contains(
            owner,
        ) && after.position(owner) == ledger.position(owner) by {
            let at = ledger.position(owner);
            assert(held_at(ledger.records, owner, at));
            assert(after.records[at].owner == ledger.records[at].owner);
            assert(held_at(after.records, owner, at));
            assert(held_at(after.records, owner, after.position(owner)));
        }
        if !ledger.contains(update.owner) {
            let end = ledger.records.len() as int;
            assert(held_at(after.records, update.owner, end));
            assert(held_at(after.records, update.owner, after.position(update.owner)));
        }
    } else {
        assert forall|owner: Seq<char>| ledger.contains(owner) implies #[trigger] after.contains(
            owner,
        ) && after.position(owner) == ledger.position(owner) by {}
    }
}

/// Owners are listed in the order of their first accepted updates: where
/// `first` has an accepted update before any accepted update of `second`,
/// the record of `first` stands before that of `second`, whatever further
/// updates the history holds.
pub proof fn law_first_come_first_listed(
    history: Seq<Update>,
    first: Seq<char>,
    second: Seq<char>,
    i: int,
    j: int,
)
    requires
        first != second,
        accepted_at(history, first, i),
        accepted_at(history, second, j),
        forall|k: int| 0 <= k < i ==> !accepted_at(history, second, k),
    ensures
        replay(history).contains(first),
        replay(history).contains(second),
        replay(history).position(first) < replay(history).position(second),
    decreases history.len(),
{
    let earlier = history.drop_last();
    let update = history.last();
    let before = replay(earlier);
    let last = history.len() - 1;
    let after = before.step(update);
    assert(replay(history) == after);
    lemma_replay(earlier);
    lemma_replay(history);
    lemma_step_keeps_places(before, update);
    assert(i < j) by {
        if j < i {
            assert(!accepted_at(history, second, j));
        }
    }
    assert(accepted_at(earlier, first, i));
    assert(contributors(earlier).contains(first));
    assert(before.contains(first));
    assert(held_at(before.records, first, before.position(first)));
    if before.contains(second) {
        assert(contributors(earlier).contains(second));
        let seen = choose|k: int| accepted_at(earlier, second, k);
        assert(accepted_at(history, second, seen));
        assert forall|k: int| 0 <= k < i implies !accepted_at(earlier, second, k) by {
            if accepted_at(earlier, second, k) {
                assert(accepted_at(history, second, k));
            }
        }
        law_first_come_first_listed(earlier, first, second, i, seen);
        assert(after.contains(second));
    } else {
        assert(j == last) by {
            if j < last {
                assert(accepted_at(earlier, second, j));
                assert(contributors(earlier).contains(second));
            }
        }
        assert(after.position(second) == before.records.len());
    }
    assert(after.contains(first));
}

/// What an owner has accumulated never goes down.
pub proof fn law_accumulated_never_decreases(ledger: Ledger, update: Update, owner: Seq<char>)
    requires
        ledger.distinct_owners(),
    ensures
        ledger.accumulated(owner) <= ledger.step(update).accumulated(owner),
{
    if update.accepted() {
        let record = updated_record(
            ledger.get(update.owner),
            update.owner,
            update.message,
            update.amount,
            update.now,
        );
        lemma_put(ledger, record);
        lemma_lookup_by_records(ledger.step(update), ledger.put(record));
        if owner != update.owner {
            assert(ledger.put(record).get(owner) == ledger.get(owner));
        }
    }
}

/// A record sums up its owner's accepted updates: it holds the message and
/// the time of the last of them and the sum of the amounts of all of them,
/// in whatever order other owners' updates came in between. An owner
/// without an accepted update has no record.
pub proof fn law_record_sums_up_history(history: Seq<Update>, owner: Seq<char>)
    ensures
        latest(history, owner) is None ==> replay(history).get(owner) is None,
        latest(history, owner) is Some ==> replay(history).get(owner) is Some,
        latest(history, owner) is Some ==> replay(history).get(owner)->0.owner == owner,
        latest(history, owner) is Some ==> replay(history).get(owner)->0.message == latest(
            history,
            owner,
        )->0.message,
        latest(history, owner) is Some ==> replay(history).get(owner)->0.updated_at == latest(
            history,
            owner,
        )->0.now,
        latest(history, owner) is Some ==> replay(history).get(owner)->0.accumulated == donated(
            history,
            owner,
        ),
        replay(history).accumulated(owner) == donated(history, owner),
    decreases history.len(),
{
    if history.len() > 0 {
        let earlier = history.drop_last();
        let update = history.last();
        let before = replay(earlier);
        law_record_sums_up_history(earlier, owner);
        lemma_replay(earlier);
        if update.accepted() {
            let record = updated_record(
                before.get(update.owner),
                update.owner,
                update.message,
                update.amount,
                update.now,
            );
            lemma_put(before, record);
            lemma_lookup_by_records(replay(history), before.put(record));
            if owner != update.owner {
                assert(before.put(record).get(owner) == before.get(owner));
            }
        }
    }
}

} // verus!
