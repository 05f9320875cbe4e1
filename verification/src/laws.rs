//! What holds of the store whatever it contains, proved from the ledger
//! model that the contracts of [`Bills`](crate::bills::Bills) are stated in.

use crate::bill::{bill_of, BillView};
use crate::ledger::{
    add_outcome, after_add, after_remove, after_update, keys_are_trimmed, lookup, remove_outcome,
    update_outcome, BillError, Ledger,
};
use crate::text::{lemma_trimmed_idempotent, trimmed};
use vstd::prelude::*;

verus! {

/// A bill added under a name that is not in the ledger is accepted, and
/// looking that name up afterwards gives the bill back as it was added.
pub proof fn law_add_then_find(ledger: Ledger, name: Seq<char>, amount: int)
    requires
        lookup(ledger, name) is None,
    ensures
        add_outcome(ledger, bill_of(name, amount)) is Ok,
        lookup(after_add(ledger, bill_of(name, amount)), name) == Some(bill_of(name, amount)),
{
}

/// Once a bill has been added under a name, adding another under the same
/// trimmed name is refused as a duplicate and changes nothing: if the first
/// bill was accepted, the name still carries the first amount.
pub proof fn law_second_add_is_refused(
    ledger: Ledger,
    name: Seq<char>,
    amount: int,
    again: Seq<char>,
    other_amount: int,
)
    requires
        trimmed(again) == trimmed(name),
    ensures
        ({
            let once = after_add(ledger, bill_of(name, amount));
            let twice = after_add(once, bill_of(again, other_amount));
            &&& add_outcome(once, bill_of(again, other_amount)) == Err::<(), BillError>(
                BillError::DuplicateName,
            )
            &&& twice == once
            &&& lookup(ledger, name) is None ==> lookup(twice, name) == Some(bill_of(name, amount))
        }),
{
}

/// Removing a name that is not in the ledger is refused and changes
/// nothing. Removing a name that is there succeeds, takes that bill and no
/// other out of the ledger, and the name is not found afterwards.
pub proof fn law_remove(ledger: Ledger, name: Seq<char>)
    ensures
        lookup(ledger, name) is None ==> {
            &&& remove_outcome(ledger, name) == Err::<(), BillError>(BillError::NotFound)
            &&& after_remove(ledger, name) == ledger
        },
        lookup(ledger, name) is Some ==> {
            &&& remove_outcome(ledger, name) is Ok
            &&& lookup(after_remove(ledger, name), name) is None
            &&& forall|other: Seq<char>|
                trimmed(other) != trimmed(name) ==> #[trigger] lookup(
                    after_remove(ledger, name),
                    other,
                ) == lookup(ledger, other)
        },
{
}

/// Two names that are equal once trimmed name the same bill: they make the
/// same bill, find the same bill and remove the same bill. A bill added
/// under one is found under the other.
pub proof fn law_names_match_when_trimmed(
    ledger: Ledger,
    name: Seq<char>,
    other: Seq<char>,
    amount: int,
)
    requires
        trimmed(name) == trimmed(other),
    ensures
        bill_of(name, amount) == bill_of(other, amount),
        lookup(ledger, name) == lookup(ledger, other),
        remove_outcome(ledger, name) == remove_outcome(ledger, other),
        after_remove(ledger, name) == after_remove(ledger, other),
        lookup(ledger, name) is None ==> lookup(after_add(ledger, bill_of(name, amount)), other)
            == Some(bill_of(name, amount)),
{
}

/// The name of every bill, as [`bill_of`] makes it, is already trimmed:
/// trimming it again changes nothing. So a bill added with whitespace around
/// its name is found under the bare name.
pub proof fn law_bill_name_is_trimmed(ledger: Ledger, name: Seq<char>, amount: int)
    ensures
        trimmed(bill_of(name, amount).name) == bill_of(name, amount).name,
        lookup(ledger, name) is None ==> lookup(
            after_add(ledger, bill_of(name, amount)),
            bill_of(name, amount).name,
        ) == Some(bill_of(name, amount)),
{
    lemma_trimmed_idempotent(name);
}

/// In a ledger whose names are all trimmed, as those of a store are, every
/// bill is found under its own name.
pub proof fn law_listed_bill_is_found(ledger: Ledger, name: Seq<char>)
    requires
        keys_are_trimmed(ledger),
        ledger.contains_key(name),
    ensures
        lookup(ledger, name) == Some(BillView { name, amount: ledger[name] }),
{
}

/// What an update does in each case. Without a bill under the old name it
/// is refused as not found. If the new name belongs to another bill it is
/// refused as a duplicate. Either way the ledger stays as it was. Otherwise
/// the old name is gone, unless it is the new name too, and the new name
/// carries the new amount.
pub proof fn law_update(
    ledger: Ledger,
    name: Seq<char>,
    new_name: Seq<char>,
    new_amount: int,
)
    ensures
        ({
            let outcome = update_outcome(ledger, name, new_name, new_amount);
            let after = after_update(ledger, name, new_name, new_amount);
            let renamed = trimmed(new_name) != trimmed(name);
            &&& lookup(ledger, name) is None ==> outcome == Err::<(), BillError>(
                BillError::NotFound,
            ) && after == ledger
            &&& lookup(ledger, name) is Some && renamed && lookup(ledger, new_name) is Some
                ==> outcome == Err::<(), BillError>(BillError::DuplicateName) && after == ledger
            &&& lookup(ledger, name) is Some && !(renamed && lookup(ledger, new_name) is Some) ==> {
                &&& outcome is Ok
                &&& lookup(after, new_name) == Some(bill_of(new_name, new_amount))
                &&& renamed ==> lookup(after, name) is None
                &&& after.dom() == ledger.dom().remove(trimmed(name)).insert(trimmed(new_name))
            }
        }),
{
    let after = after_update(ledger, name, new_name, new_amount);
    if lookup(ledger, name) is Some && !(trimmed(new_name) != trimmed(name) && lookup(
        ledger,
        new_name,
    ) is Some) {
        assert(after.dom() =~= ledger.dom().remove(trimmed(name)).insert(trimmed(new_name)));
    }
}

/// One operation on the ledger.
pub enum Step {
    /// An attempt to add a bill.
    Add { bill: BillView },
    /// An attempt to remove the bill of a name.
    Remove { name: Seq<char> },
    /// An attempt to replace the bill of a name.
    Update { name: Seq<char>, new_name: Seq<char>, new_amount: int },
}

/// Whether `step` succeeds on `ledger`.
pub open spec fn succeeds(ledger: Ledger, step: Step) -> bool {
    match step {
        Step::Add { bill } => add_outcome(ledger, bill) is Ok,
        Step::Remove { name } => remove_outcome(ledger, name) is Ok,
        Step::Update { name, new_name, new_amount } => update_outcome(
            ledger,
            name,
            new_name,
            new_amount,
        ) is Ok,
    }
}

/// The ledger after `step`.
pub open spec fn after(ledger: Ledger, step: Step) -> Ledger {
    match step {
        Step::Add { bill } => after_add(ledger, bill),
        Step::Remove { name } => after_remove(ledger, name),
        Step::Update { name, new_name, new_amount } => after_update(
            ledger,
            name,
            new_name,
            new_amount,
        ),
    }
}

/// The ledger of a store that started empty and went through `steps`.
pub open spec fn after_all(steps: Seq<Step>) -> Ledger
    decreases steps.len(),
{
    if steps.len() == 0 {
        Map::empty()
    } else {
        after(after_all(steps.drop_last()), steps.last())
    }
}

/// How many bills were added in the course of `steps`: one for each
/// addition and each update that succeeded.
pub open spec fn additions(steps: Seq<Step>) -> nat
    decreases steps.len(),
{
    if steps.len() == 0 {
        0
    } else {
        let before = after_all(steps.drop_last());
        let counted = (steps.last() is Add || steps.last() is Update) && succeeds(
            before,
            steps.last(),
        );
        additions(steps.drop_last()) + if counted { 1nat } else { 0nat }
    }
}

/// How many bills were removed in the course of `steps`: one for each
/// removal and each update that succeeded.
pub open spec fn removals(steps: Seq<Step>) -> nat
    decreases steps.len(),
{
    if steps.len() == 0 {
        0
    } else {
        let before = after_all(steps.drop_last());
        let counted = (steps.last() is Remove || steps.last() is Update) && succeeds(
            before,
            steps.last(),
        );
        removals(steps.drop_last()) + if counted { 1nat } else { 0nat }
    }
}

/// A store that started empty holds as many bills as were added to it less
/// those that were removed from it. An update that succeeds removes one bill
/// and adds one; an operation that is refused does neither.
pub proof fn law_len_is_additions_less_removals(steps: Seq<Step>)
    ensures
        after_all(steps).dom().finite(),
        after_all(steps).len() == additions(steps) - removals(steps),
    decreases steps.len(),
{
    if steps.len() > 0 {
        law_len_is_additions_less_removals(steps.drop_last());
    }
}

} // verus!
