use bill_tracker::{Bill, BillError, Bills};

fn bill(name: &str, amount: i32) -> Bill {
    Bill::new(name.to_owned(), amount)
}

fn amount_of(bills: &Bills, name: &str) -> Option<i32> {
    bills.search_by_name(name).map(|b| b.amount())
}

fn sorted_entries(bills: &Bills) -> Vec<(String, i32)> {
    let mut entries: Vec<(String, i32)> =
        bills.find_all().into_iter().map(|b| (b.name().to_owned(), b.amount())).collect();
    entries.sort();
    entries
}

#[test]
fn new_store_is_empty() {
    let bills = Bills::new();
    assert!(bills.find_all().is_empty());
    assert!(bills.search_by_name("Rent").is_none());
}

#[test]
fn bill_new_trims_the_name_and_keeps_the_amount() {
    let b = bill("  Water bill \n", -35);
    assert_eq!(b.name(), "Water bill");
    assert_eq!(b.amount(), -35);
    let empty = bill(" \t ", 0);
    assert_eq!(empty.name(), "");
}

#[test]
fn added_bill_is_found_unchanged() {
    let mut bills = Bills::new();
    assert_eq!(bills.add(bill("Gas", 80)), Ok(()));
    assert_eq!(bills.add(bill("Rent", 1200)), Ok(()));
    let found = bills.search_by_name("Rent").expect("Rent was added");
    assert_eq!(found.name(), "Rent");
    assert_eq!(found.amount(), 1200);
    assert_eq!(amount_of(&bills, "Gas"), Some(80));
}

#[test]
fn second_add_under_the_same_name_is_a_duplicate() {
    let mut bills = Bills::new();
    assert_eq!(bills.add(bill("Rent", 1200)), Ok(()));
    assert_eq!(bills.add(bill(" Rent\t", 500)), Err(BillError::DuplicateName));
    assert_eq!(sorted_entries(&bills), vec![("Rent".to_owned(), 1200)]);
}

#[test]
fn remove_of_an_absent_name_changes_nothing() {
    let mut bills = Bills::new();
    assert_eq!(bills.add(bill("Rent", 1200)), Ok(()));
    assert_eq!(bills.add(bill("Gas", 80)), Ok(()));
    assert_eq!(bills.remove_bill("Power"), Err(BillError::NotFound));
    assert_eq!(
        sorted_entries(&bills),
        vec![("Gas".to_owned(), 80), ("Rent".to_owned(), 1200)]
    );
}

#[test]
fn remove_of_a_present_name_takes_only_that_bill() {
    let mut bills = Bills::new();
    assert_eq!(bills.add(bill("Rent", 1200)), Ok(()));
    assert_eq!(bills.add(bill("Gas", 80)), Ok(()));
    assert_eq!(bills.add(bill("Power", 60)), Ok(()));
    assert_eq!(bills.remove_bill(" Gas "), Ok(()));
    assert!(bills.search_by_name("Gas").is_none());
    assert_eq!(
        sorted_entries(&bills),
        vec![("Power".to_owned(), 60), ("Rent".to_owned(), 1200)]
    );
}

#[test]
fn find_all_counts_adds_less_removes() {
    let mut bills = Bills::new();
    let mut expected: usize = 0;
    for (name, amount) in [("a", 1), ("b", 2), ("a", 3), ("c", 4), ("b ", 5), ("d", 6)] {
        if bills.add(bill(name, amount)).is_ok() {
            expected += 1;
        }
        assert_eq!(bills.find_all().len(), expected);
    }
    assert_eq!(expected, 4);
    for name in ["a", "x", "a", " c", "d", "d"] {
        if bills.remove_bill(name).is_ok() {
            expected -= 1;
        }
        assert_eq!(bills.find_all().len(), expected);
    }
    assert_eq!(expected, 1);
    assert_eq!(sorted_entries(&bills), vec![("b".to_owned(), 2)]);
}

#[test]
fn find_all_lists_every_bill_once() {
    let mut bills = Bills::new();
    for (name, amount) in [("Rent", 1200), ("Gas", 80), ("Power", 60)] {
        assert_eq!(bills.add(bill(name, amount)), Ok(()));
    }
    assert_eq!(
        sorted_entries(&bills),
        vec![
            ("Gas".to_owned(), 80),
            ("Power".to_owned(), 60),
            ("Rent".to_owned(), 1200)
        ]
    );
}

#[test]
fn names_match_whatever_whitespace_surrounds_them() {
    let mut bills = Bills::new();
    assert_eq!(bills.add(bill(" Rent ", 1200)), Ok(()));
    assert_eq!(amount_of(&bills, "Rent"), Some(1200));
    assert_eq!(amount_of(&bills, "\tRent\n"), Some(1200));
    assert_eq!(bills.search_by_name("Rent").map(|b| b.name().to_owned()), Some("Rent".to_owned()));
    assert_eq!(bills.remove_bill("  Rent"), Ok(()));
    assert!(bills.find_all().is_empty());
}

#[test]
fn whitespace_inside_a_name_counts() {
    let mut bills = Bills::new();
    assert_eq!(bills.add(bill("Car loan", 300)), Ok(()));
    assert!(bills.search_by_name("Carloan").is_none());
    assert!(bills.search_by_name("Car  loan").is_none());
    assert_eq!(amount_of(&bills, " Car loan "), Some(300));
}

#[test]
fn names_are_case_sensitive() {
    let mut bills = Bills::new();
    assert_eq!(bills.add(bill("Rent", 1200)), Ok(()));
    assert_eq!(bills.add(bill("rent", 1)), Ok(()));
    assert_eq!(amount_of(&bills, "Rent"), Some(1200));
    assert_eq!(amount_of(&bills, "rent"), Some(1));
}

#[test]
fn scenario_add_duplicate_remove() {
    let mut bills = Bills::new();
    assert_eq!(bills.add(bill("Rent", 1200)), Ok(()));
    assert_eq!(bills.add(bill("Rent", 500)), Err(BillError::DuplicateName));
    assert_eq!(amount_of(&bills, "Rent"), Some(1200));
    assert_eq!(bills.remove_bill("Rent"), Ok(()));
    assert!(bills.search_by_name("Rent").is_none());
    assert_eq!(bills.remove_bill("Rent"), Err(BillError::NotFound));
}

#[test]
fn scenario_update_of_an_absent_bill() {
    let mut bills = Bills::new();
    assert_eq!(bills.add(bill("Gas", 80)), Ok(()));
    assert_eq!(bills.update_bill("Rent", "Lease", 1300), Err(BillError::NotFound));
    assert_eq!(sorted_entries(&bills), vec![("Gas".to_owned(), 80)]);
    let mut empty = Bills::new();
    assert_eq!(empty.update_bill("Rent", "Lease", 1300), Err(BillError::NotFound));
    assert!(empty.find_all().is_empty());
}

#[test]
fn update_renames_and_reprices() {
    let mut bills = Bills::new();
    assert_eq!(bills.add(bill("Rent", 1200)), Ok(()));
    assert_eq!(bills.add(bill("Gas", 80)), Ok(()));
    assert_eq!(bills.update_bill(" Rent ", " Lease ", 1300), Ok(()));
    assert!(bills.search_by_name("Rent").is_none());
    assert_eq!(
        sorted_entries(&bills),
        vec![("Gas".to_owned(), 80), ("Lease".to_owned(), 1300)]
    );
}

#[test]
fn update_may_keep_the_name() {
    let mut bills = Bills::new();
    assert_eq!(bills.add(bill("Rent", 1200)), Ok(()));
    assert_eq!(bills.update_bill("Rent", "Rent ", 1250), Ok(()));
    assert_eq!(sorted_entries(&bills), vec![("Rent".to_owned(), 1250)]);
}

#[test]
fn update_onto_another_bill_is_refused_and_changes_nothing() {
    let mut bills = Bills::new();
    assert_eq!(bills.add(bill("Rent", 1200)), Ok(()));
    assert_eq!(bills.add(bill("Gas", 80)), Ok(()));
    assert_eq!(bills.update_bill("Rent", "Gas", 5), Err(BillError::DuplicateName));
    assert_eq!(
        sorted_entries(&bills),
        vec![("Gas".to_owned(), 80), ("Rent".to_owned(), 1200)]
    );
}

#[test]
fn update_of_an_absent_bill_onto_a_present_one_is_not_found() {
    let mut bills = Bills::new();
    assert_eq!(bills.add(bill("Gas", 80)), Ok(()));
    assert_eq!(bills.update_bill("Rent", "Gas", 5), Err(BillError::NotFound));
    assert_eq!(sorted_entries(&bills), vec![("Gas".to_owned(), 80)]);
}

#[test]
fn amounts_may_be_negative_or_extreme() {
    let mut bills = Bills::new();
    assert_eq!(bills.add(bill("refund", -20)), Ok(()));
    assert_eq!(bills.add(bill("max", i32::MAX)), Ok(()));
    assert_eq!(bills.add(bill("min", i32::MIN)), Ok(()));
    assert_eq!(amount_of(&bills, "refund"), Some(-20));
    assert_eq!(amount_of(&bills, "max"), Some(i32::MAX));
    assert_eq!(amount_of(&bills, "min"), Some(i32::MIN));
}

#[test]
fn the_empty_name_is_a_name() {
    let mut bills = Bills::new();
    assert_eq!(bills.add(bill("   ", 7)), Ok(()));
    assert_eq!(bills.add(bill("", 8)), Err(BillError::DuplicateName));
    assert_eq!(amount_of(&bills, "\n"), Some(7));
    assert_eq!(bills.remove_bill(""), Ok(()));
    assert!(bills.find_all().is_empty());
}
