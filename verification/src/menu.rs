//! What a line typed at the menu asks for.

use crate::bill::Bill;
use crate::bills::Bills;
use crate::ledger::{is_listing, lookup};
use crate::text::{trim, trimmed};
use vstd::prelude::*;

verus! {

/// An entry of the menu.
#[derive(Debug, Clone, Copy, PartialEq, Eq, Structural)]
pub enum Choice {
    /// Add a bill.
    Add,
    /// Search for one bill, or list them all.
    Search,
    /// Remove a bill.
    Remove,
    /// Edit a bill.
    Edit,
    /// End the session.
    Quit,
}

/// The menu entry that `line` picks: the digits `1` to `5`, whitespace
/// around them aside, stand for the five entries in order; nothing else
/// picks an entry.
pub open spec fn choice_of(line: Seq<char>) -> Option<Choice> {
    let text = trimmed(line);
    if text == seq!['1'] {
        Some(Choice::Add)
    } else if text == seq!['2'] {
        Some(Choice::Search)
    } else if text == seq!['3'] {
        Some(Choice::Remove)
    } else if text == seq!['4'] {
        Some(Choice::Edit)
    } else if text == seq!['5'] {
        Some(Choice::Quit)
    } else {
        None
    }
}

/// Reads a menu choice from `line`; `None` for a line that picks no entry.
pub fn parse_choice(line: &str) -> (choice: Option<Choice>)
    ensures
        choice == choice_of(line@),
{
    let text = trim(line);
    if text.unicode_len() != 1 {
        return None;
    }
    let c = text.get_char(0);
    proof {
        assert(text@ =~= seq![c]);
    }
    if c == '1' {
        Some(Choice::Add)
    } else if c == '2' {
        Some(Choice::Search)
    } else if c == '3' {
        Some(Choice::Remove)
    } else if c == '4' {
        Some(Choice::Edit)
    } else if c == '5' {
        Some(Choice::Quit)
    } else {
        None
    }
}

/// Whether a search line asks for every bill: it does if it reads `all`,
/// whitespace around it aside.
pub open spec fn asks_for_all(query: Seq<char>) -> bool {
    trimmed(query) == seq!['a', 'l', 'l']
}

/// What a search brought up.
pub enum Found<'a> {
    /// Every bill of the store, for a query that asks for all.
    All(Vec<&'a Bill>),
    /// The bill that the query names.
    One(&'a Bill),
    /// The query names no bill of the store.
    Nothing,
}

/// Answers a search line: with every bill if the line asks for all, and
/// else with the bill it names, if there is one.
pub fn search<'a>(bills: &'a Bills, query: &str) -> (found: Found<'a>)
    ensures
        asks_for_all(query@) ==> {
            &&& found matches Found::All(all)
            &&& all@.len() == bills@.len()
            &&& is_listing(all@.map_values(|bill: &Bill| bill@), bills@)
        },
        !asks_for_all(query@) ==> match lookup(bills@, query@) {
            Some(bill) => found matches Found::One(one) && one@ == bill,
            None => found is Nothing,
        },
{
    let text = trim(query);
    let all = text.unicode_len() == 3 && text.get_char(0) == 'a' && text.get_char(1) == 'l'
        && text.get_char(2) == 'l';
    proof {
        if all {
            assert(text@ =~= seq!['a', 'l', 'l']);
        }
    }
    if all {
        Found::All(bills.find_all())
    } else {
        match bills.search_by_name(query) {
            Some(bill) => Found::One(bill),
            None => Found::Nothing,
        }
    }
}

} // verus!
