//! A single bill: a name and an amount.

use crate::text::{lemma_trimmed_idempotent, trim, trimmed};
use vstd::prelude::*;

verus! {

/// What a [`Bill`] holds, as mathematical values.
pub struct BillView {
    pub name: Seq<char>,
    pub amount: int,
}

/// The bill that [`Bill::new`] makes of a name and an amount: the name is
/// trimmed, the amount is kept.
pub open spec fn bill_of(name: Seq<char>, amount: int) -> BillView {
    BillView { name: trimmed(name), amount }
}

/// A named amount to pay. The name never starts or ends with whitespace.
#[derive(Debug)]
pub struct Bill {
    pub(crate) name: String,
    pub(crate) amount: i32,
}

impl View for Bill {
    type V = BillView;

    open(crate) spec fn view(&self) -> BillView {
        BillView { name: self.name@, amount: self.amount as int }
    }
}

impl Bill {
    #[verifier::type_invariant]
    pub(crate) open spec fn name_is_trimmed(self) -> bool {
        trimmed(self.name@) == self.name@
    }

    /// Makes a bill of `amount` under `name` with its surrounding whitespace removed.
    pub fn new(name: String, amount: i32) -> (bill: Bill)
        ensures
            bill@ == bill_of(name@, amount as int),
    {
        proof {
            lemma_trimmed_idempotent(name@);
        }
        Bill { name: trim(name.as_str()).to_owned(), amount }
    }

    /// The bill's name.
    pub fn name(&self) -> (name: &str)
        ensures
            name@ == self@.name,
            trimmed(name@) == name@,
    {
        proof {
            use_type_invariant(self);
        }
        self.name.as_str()
    }

    /// The amount to pay.
    pub fn amount(&self) -> (amount: i32)
        ensures
            amount == self@.amount,
    {
        self.amount
    }
}

} // verus!
