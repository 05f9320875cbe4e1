//! The store of bills.

use crate::bill::{Bill, BillView};
use crate::ledger::{
    add_outcome, after_add, after_remove, after_update, is_listing, keys_are_trimmed, lookup,
    remove_outcome, update_outcome, BillError, Ledger,
};
use crate::text::{trim, trimmed};
use vstd::prelude::*;

verus! {

/// The ledger that a sequence of bills amounts to: each bill entered under
/// its name, one after the other.
spec fn ledger_of(bills: Seq<BillView>) -> Ledger
    decreases bills.len(),
{
    if bills.len() == 0 {
        Map::empty()
    } else {
        ledger_of(bills.drop_last()).insert(bills.last().name, bills.last().amount)
    }
}

/// No two bills of the sequence have the same name.
spec fn distinct_names(bills: Seq<BillView>) -> bool {
    forall|i: int, j: int|
        0 <= i < j < bills.len() ==> (#[trigger] bills[i]).name != (#[trigger] bills[j]).name
}

/// Every bill of the sequence has a trimmed name.
spec fn trimmed_names(bills: Seq<BillView>) -> bool {
    forall|i: int| 0 <= i < bills.len() ==> trimmed((#[trigger] bills[i]).name) == bills[i].name
}

/// A sequence of bills with distinct names lists its own ledger, which has
/// as many entries as the sequence has bills.
proof fn lemma_ledger_of(bills: Seq<BillView>)
    requires
        distinct_names(bills),
    ensures
        ledger_of(bills).dom().finite(),
        ledger_of(bills).len() == bills.len(),
        is_listing(bills, ledger_of(bills)),
    decreases bills.len(),
{
    if bills.len() > 0 {
        let rest = bills.drop_last();
        let last = bills.last();
        lemma_ledger_of(rest);
        let smaller = ledger_of(rest);
        let ledger = ledger_of(bills);
        assert(!smaller.contains_key(last.name)) by {
            if smaller.contains_key(last.name) {
                let i = choose|i: int| 0 <= i < rest.len() && (#[trigger] rest[i]).name == last.name;
                assert(bills[i].name == bills[bills.len() - 1].name);
            }
        }
        assert forall|i: int| 0 <= i < bills.len() implies ledger.contains_pair(
            (#[trigger] bills[i]).name,
            bills[i].amount,
        ) by {
            if i < rest.len() {
                assert(smaller.contains_pair(rest[i].name, rest[i].amount));
            }
        }
        assert forall|k: Seq<char>| #[trigger] ledger.contains_key(k) implies
            exists|i: int| 0 <= i < bills.len() && (#[trigger] bills[i]).name == k by {
            if k == last.name {
                assert(bills[bills.len() - 1].name == k);
            } else {
                assert(smaller.contains_key(k));
                let i = choose|i: int| 0 <= i < rest.len() && (#[trigger] rest[i]).name == k;
                assert(bills[i].name == k);
            }
        }
    }
}

/// Taking one bill out of a sequence with distinct names takes its name out
/// of the ledger and leaves the rest as it was.
proof fn lemma_ledger_of_remove(bills: Seq<BillView>, at: int)
    requires
        distinct_names(bills),
        0 <= at < bills.len(),
    ensures
        distinct_names(bills.remove(at)),
        ledger_of(bills.remove(at)) == ledger_of(bills).remove(bills[at].name),
{
    let fewer = bills.remove(at);
    assert forall|i: int, j: int| 0 <= i < j < fewer.len() implies
        (#[trigger] fewer[i]).name != (#[trigger] fewer[j]).name by {
        let from_i = if i < at { i } else { i + 1 };
        let from_j = if j < at { j } else { j + 1 };
        assert(fewer[i] == bills[from_i] && fewer[j] == bills[from_j]);
    }
    lemma_ledger_of(bills);
    lemma_ledger_of(fewer);
    let left = ledger_of(fewer);
    let right = ledger_of(bills).remove(bills[at].name);
    assert forall|k: Seq<char>| left.contains_key(k) implies right.contains_pair(k, left[k]) by {
        let i = choose|i: int| 0 <= i < fewer.len() && (#[trigger] fewer[i]).name == k;
        let from_i = if i < at { i } else { i + 1 };
        assert(fewer[i] == bills[from_i]);
        assert(left.contains_pair(fewer[i].name, fewer[i].amount));
        assert(ledger_of(bills).contains_pair(bills[from_i].name, bills[from_i].amount));
        if from_i < at {
            assert(bills[from_i].name != bills[at].name);
        } else {
            assert(bills[at].name != bills[from_i].name);
        }
    }
    assert forall|k: Seq<char>| right.contains_key(k) implies left.contains_key(k) by {
        assert(ledger_of(bills).contains_key(k));
        let i = choose|i: int| 0 <= i < bills.len() && (#[trigger] bills[i]).name == k;
        let to_i = if i < at { i } else { i - 1 };
        assert(fewer[to_i] == bills[i]);
        assert(left.contains_pair(fewer[to_i].name, fewer[to_i].amount));
    }
    assert(left =~= right);
}

/// A store of bills that holds at most one bill under each name.
///
/// Seen as a value, the store is its [`Ledger`]: the map from each stored
/// name to the amount under it.
pub struct Bills {
    inner: Vec<Bill>,
}

impl View for Bills {
    type V = Ledger;

    closed spec fn view(&self) -> Ledger {
        ledger_of(self.entries())
    }
}

impl Bills {
    /// The stored bills, in the order in which they are kept.
    spec fn entries(self) -> Seq<BillView> {
        self.inner@.map_values(|bill: Bill| bill@)
    }

    #[verifier::type_invariant]
    spec fn names_are_trimmed_and_distinct(self) -> bool {
        trimmed_names(self.entries()) && distinct_names(self.entries())
    }

    /// Makes an empty store.
    pub fn new() -> (bills: Bills)
        ensures
            bills@ == Map::<Seq<char>, int>::empty(),
    {
        Bills { inner: Vec::new() }
    }

    /// Where the bill called `key` is kept, if there is one.
    fn position(&self, key: &String) -> (found: Option<usize>)
        ensures
            match found {
                Some(at) => {
                    &&& at < self.entries().len()
                    &&& self.entries()[at as int].name == key@
                    &&& self@.contains_key(key@)
                },
                None => !self@.contains_key(key@),
            },
    {
        proof {
            use_type_invariant(self);
            lemma_ledger_of(self.entries());
        }
        let mut at: usize = 0;
        while at < self.inner.len()
            invariant
                at <= self.inner@.len(),
                forall|j: int| 0 <= j < at ==> (#[trigger] self.entries()[j]).name != key@,
                is_listing(self.entries(), self@),
            decreases self.inner@.len() - at,
        {
            if self.inner[at].name == *key {
                proof {
                    let entry = self.entries()[at as int];
                    assert(self@.contains_pair(entry.name, entry.amount));
                }
                return Some(at);
            }
            at += 1;
        }
        None
    }

    /// Adds `bill` unless a bill with the same name is already stored.
    pub fn add(&mut self, bill: Bill) -> (outcome: Result<(), BillError>)
        ensures
            outcome == add_outcome(old(self)@, bill@),
            final(self)@ == after_add(old(self)@, bill@),
    {
        match self.position(&bill.name) {
            Some(_) => Err(BillError::DuplicateName),
            None => {
                proof {
                    use_type_invariant(&*self);
                    use_type_invariant(&bill);
                    lemma_ledger_of(self.entries());
                    let longer = self.entries().push(bill@);
                    assert(self.inner@.push(bill).map_values(|bill: Bill| bill@) =~= longer);
                    assert(longer.drop_last() =~= self.entries());
                    assert(distinct_names(longer));
                }
                let mut inner = Vec::new();
                std::mem::swap(&mut inner, &mut self.inner);
                inner.push(bill);
                self.inner = inner;
                Ok(())
            }
        }
    }

    /// Looks up the bill called `name`, ignoring whitespace around `name`.
    pub fn search_by_name(&self, name: &str) -> (found: Option<&Bill>)
        ensures
            match found {
                Some(bill) => lookup(self@, name@) == Some(bill@),
                None => lookup(self@, name@) is None,
            },
    {
        let key = trim(name).to_owned();
        match self.position(&key) {
            Some(at) => {
                proof {
                    use_type_invariant(self);
                    lemma_ledger_of(self.entries());
                    let entry = self.entries()[at as int];
                    assert(self@.contains_pair(entry.name, entry.amount));
                }
                Some(&self.inner[at])
            },
            None => None,
        }
    }

    /// Lists every stored bill once, in no particular order.
    pub fn find_all(&self) -> (all: Vec<&Bill>)
        ensures
            self@.dom().finite(),
            keys_are_trimmed(self@),
            all@.len() == self@.len(),
            is_listing(all@.map_values(|bill: &Bill| bill@), self@),
    {
        proof {
            use_type_invariant(self);
            lemma_ledger_of(self.entries());
        }
        let mut all: Vec<&Bill> = Vec::new();
        let mut at: usize = 0;
        while at < self.inner.len()
            invariant
                at <= self.inner@.len(),
                all@.len() == at,
                forall|j: int| 0 <= j < at ==> *(#[trigger] all@[j]) == self.inner@[j],
            decreases self.inner@.len() - at,
        {
            all.push(&self.inner[at]);
            at += 1;
        }
        proof {
            assert(all@.map_values(|bill: &Bill| bill@) =~= self.entries());
        }
        all
    }

    /// Removes the bill called `name`, ignoring whitespace around `name`.
    pub fn remove_bill(&mut self, name: &str) -> (outcome: Result<(), BillError>)
        ensures
            outcome == remove_outcome(old(self)@, name@),
            final(self)@ == after_remove(old(self)@, name@),
    {
        let key = trim(name).to_owned();
        match self.position(&key) {
            Some(at) => {
                proof {
                    use_type_invariant(&*self);
                    lemma_ledger_of_remove(self.entries(), at as int);
                    assert(self.inner@.remove(at as int).map_values(|bill: Bill| bill@)
                        =~= self.entries().remove(at as int));
                }
                let mut inner = Vec::new();
                std::mem::swap(&mut inner, &mut self.inner);
                inner.remove(at);
                self.inner = inner;
                Ok(())
            },
            None => Err(BillError::NotFound),
        }
    }

    /// Replaces the bill called `name` by a bill of `new_amount` called
    /// `new_name`, both names taken without the whitespace around them.
    ///
    /// The store changes only if the update succeeds. It is refused if no
    /// bill is called `name`, and if `new_name` is the name of another bill.
    pub fn update_bill(
        &mut self,
        name: &str,
        new_name: &str,
        new_amount: i32,
    ) -> (outcome: Result<(), BillError>)
        ensures
            outcome == update_outcome(old(self)@, name@, new_name@, new_amount as int),
            final(self)@ == after_update(old(self)@, name@, new_name@, new_amount as int),
    {
        let key = trim(name).to_owned();
        let bill = Bill::new(new_name.to_owned(), new_amount);
        let at = match self.position(&key) {
            Some(at) => at,
            None => {
                return Err(BillError::NotFound);
            },
        };
        let taken = match self.position(&bill.name) {
            Some(other) => other != at,
            None => false,
        };
        proof {
            use_type_invariant(&*self);
            lemma_ledger_of(self.entries());
            lemma_ledger_of_remove(self.entries(), at as int);
        }
        if taken {
            return Err(BillError::DuplicateName);
        }
        proof {
            use_type_invariant(&bill);
            let fewer = self.entries().remove(at as int);
            let longer = fewer.push(bill@);
            lemma_ledger_of(fewer);
            assert(self.inner@.remove(at as int).push(bill).map_values(|bill: Bill| bill@)
                =~= longer);
            assert(longer.drop_last() =~= fewer);
            assert(distinct_names(longer));
        }
        let mut inner = Vec::new();
        std::mem::swap(&mut inner, &mut self.inner);
        inner.remove(at);
        inner.push(bill);
        self.inner = inner;
        Ok(())
    }
}

} // verus!
