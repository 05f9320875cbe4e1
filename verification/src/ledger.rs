//! The ledger as mathematics: a map from bill names to amounts, and what
//! each operation of the store makes of it.
//!
//! The contracts of [`Bills`](crate::bills::Bills) are stated with the
//! functions of this module.

use crate::bill::{bill_of, BillView};
use crate::text::trimmed;
use vstd::prelude::*;

verus! {

/// Why the store refused an operation.
#[derive(Debug, Clone, Copy, PartialEq, Eq, Structural)]
pub enum BillError {
    /// A bill with this name is already in the store.
    DuplicateName,
    /// No bill with this name is in the store.
    NotFound,
}

/// A ledger: the amount due under each bill name.
pub type Ledger = Map<Seq<char>, int>;

/// Whether every name in the ledger is trimmed, as the name of every
/// [`Bill`](crate::bill::Bill) is.
pub open spec fn keys_are_trimmed(ledger: Ledger) -> bool {
    forall|name: Seq<char>| #[trigger] ledger.contains_key(name) ==> trimmed(name) == name
}

/// The bill that the ledger holds under `name`, trimmed, if there is one.
pub open spec fn lookup(ledger: Ledger, name: Seq<char>) -> Option<BillView> {
    let key = trimmed(name);
    if ledger.contains_key(key) {
        Some(BillView { name: key, amount: ledger[key] })
    } else {
        None
    }
}

/// Whether adding `bill` succeeds: it does unless its name is taken.
pub open spec fn add_outcome(ledger: Ledger, bill: BillView) -> Result<(), BillError> {
    if ledger.contains_key(bill.name) {
        Err(BillError::DuplicateName)
    } else {
        Ok(())
    }
}

/// The ledger after an attempt to add `bill`: unchanged if the name is taken.
pub open spec fn after_add(ledger: Ledger, bill: BillView) -> Ledger {
    if ledger.contains_key(bill.name) {
        ledger
    } else {
        ledger.insert(bill.name, bill.amount)
    }
}

/// Whether removing the bill called `name` succeeds: it does if there is one.
pub open spec fn remove_outcome(ledger: Ledger, name: Seq<char>) -> Result<(), BillError> {
    if ledger.contains_key(trimmed(name)) {
        Ok(())
    } else {
        Err(BillError::NotFound)
    }
}

/// The ledger after an attempt to remove the bill called `name`.
pub open spec fn after_remove(ledger: Ledger, name: Seq<char>) -> Ledger {
    if ledger.contains_key(trimmed(name)) {
        ledger.remove(trimmed(name))
    } else {
        ledger
    }
}

/// Whether replacing the bill called `name` by one called `new_name`
/// succeeds. An update is a removal followed by an addition, and succeeds
/// only if both do: the old name must be present, and the new name must not
/// belong to another bill.
pub open spec fn update_outcome(
    ledger: Ledger,
    name: Seq<char>,
    new_name: Seq<char>,
    new_amount: int,
) -> Result<(), BillError> {
    match remove_outcome(ledger, name) {
        Ok(_) => add_outcome(after_remove(ledger, name), bill_of(new_name, new_amount)),
        Err(e) => Err(e),
    }
}

/// The ledger after an attempt to update: the removal and the addition both
/// applied, or, if either is refused, neither.
pub open spec fn after_update(
    ledger: Ledger,
    name: Seq<char>,
    new_name: Seq<char>,
    new_amount: int,
) -> Ledger {
    if update_outcome(ledger, name, new_name, new_amount) is Ok {
        after_add(after_remove(ledger, name), bill_of(new_name, new_amount))
    } else {
        ledger
    }
}

/// Whether `bills` lists the ledger: every listed bill is an entry of the
/// ledger, no name is listed twice, and every entry is listed.
pub open spec fn is_listing(bills: Seq<BillView>, ledger: Ledger) -> bool {
    &&& forall|i: int|
        0 <= i < bills.len() ==> ledger.contains_pair(
            (#[trigger] bills[i]).name,
            bills[i].amount,
        )
    &&& forall|i: int, j: int|
        0 <= i < j < bills.len() ==> (#[trigger] bills[i]).name != (#[trigger] bills[j]).name
    &&& forall|k: Seq<char>| #[trigger]
        ledger.contains_key(k) ==> exists|i: int| 0 <= i < bills.len() && (#[trigger] bills[i]).name == k
}

} // verus!
