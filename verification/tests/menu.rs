use bill_tracker::menu::{parse_choice, search, Choice, Found};
use bill_tracker::{Bill, Bills};

fn sample() -> Bills {
    let mut bills = Bills::new();
    for (name, amount) in [("Rent", 1200), ("Gas", 80)] {
        assert!(bills.add(Bill::new(name.to_owned(), amount)).is_ok());
    }
    bills
}

#[test]
fn digits_pick_the_menu_entries() {
    assert_eq!(parse_choice("1"), Some(Choice::Add));
    assert_eq!(parse_choice("2"), Some(Choice::Search));
    assert_eq!(parse_choice("3"), Some(Choice::Remove));
    assert_eq!(parse_choice("4"), Some(Choice::Edit));
    assert_eq!(parse_choice("5"), Some(Choice::Quit));
}

#[test]
fn whitespace_around_a_choice_is_ignored() {
    assert_eq!(parse_choice("1\n"), Some(Choice::Add));
    assert_eq!(parse_choice("  5\r\n"), Some(Choice::Quit));
}

#[test]
fn other_lines_pick_nothing() {
    for line in ["", "\n", "0", "6", "11", "1 1", "one", "+1", "01", "１", "all"] {
        assert_eq!(parse_choice(line), None, "{:?}", line);
    }
}

#[test]
fn search_for_all_lists_the_store() {
    let bills = sample();
    for query in ["all", " all\n"] {
        match search(&bills, query) {
            Found::All(all) => {
                let mut names: Vec<&str> = all.iter().map(|b| b.name()).collect();
                names.sort();
                assert_eq!(names, vec!["Gas", "Rent"]);
            }
            _ => panic!("expected every bill for {:?}", query),
        }
    }
}

#[test]
fn search_for_all_in_an_empty_store_lists_nothing() {
    let bills = Bills::new();
    match search(&bills, "all") {
        Found::All(all) => assert!(all.is_empty()),
        _ => panic!("expected an empty listing"),
    }
}

#[test]
fn search_for_a_name_finds_that_bill() {
    let bills = sample();
    match search(&bills, " Rent\n") {
        Found::One(bill) => {
            assert_eq!(bill.name(), "Rent");
            assert_eq!(bill.amount(), 1200);
        }
        _ => panic!("expected one bill"),
    }
}

#[test]
fn search_for_an_unknown_name_finds_nothing() {
    let bills = sample();
    for query in ["Power", "", "All", "a ll", "alll"] {
        assert!(matches!(search(&bills, query), Found::Nothing), "{:?}", query);
    }
}

#[test]
fn a_bill_called_all_is_listed_with_the_rest() {
    let mut bills = sample();
    assert!(bills.add(Bill::new("all".to_owned(), 1)).is_ok());
    match search(&bills, "all") {
        Found::All(all) => assert_eq!(all.len(), 3),
        _ => panic!("expected every bill"),
    }
}
