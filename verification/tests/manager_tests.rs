use libfund::Fund;
use libfund::FundManager;
use libfund::FundManagerError;

#[test]
fn duplicate_add_keeps_the_existing_fund() {
    let mut funds = FundManager::new();
    funds
        .add_fund("A", Fund::new().with_amount(100).with_goal(200).build())
        .unwrap();
    let e = funds
        .add_fund("A", Fund::new().with_amount(999).with_goal(999).build())
        .unwrap_err();
    assert_eq!(e.name, "A");
    assert_eq!(e.message(), "fund 'A' already exists. Please choose a different name");
    assert_eq!(funds.len(), 1);
    assert_eq!(funds.fund("A").unwrap().amount, 100);
    assert_eq!(funds.fund("A").unwrap().goal, 200);
}

#[test]
fn missing_lookup_creates_nothing() {
    let mut funds = FundManager::new();
    funds
        .add_fund("A", Fund::new().with_amount(1).with_goal(2).build())
        .unwrap();
    let e = funds.fund("B").unwrap_err();
    assert_eq!(e.name, "B");
    assert_eq!(e.message(), "fund 'B' not found");
    assert!(funds.fund_mut("B").is_err());
    assert!(funds.get_fund_by_name("B").is_err());
    assert_eq!(funds.get_fund_by_name("B").unwrap_err(), "cannot find the fund");
    assert_eq!(funds.len(), 1);
    assert!(!funds.contains("B"));
}

#[test]
fn get_fund_by_name_finds_and_mutates() {
    let mut funds = FundManager::new();
    funds
        .add_fund("A", Fund::new().with_amount(1).with_goal(2).build())
        .unwrap();
    funds.get_fund_by_name("A").unwrap().deposit(9);
    assert_eq!(funds.fund("A").unwrap().amount, 10);
}

#[test]
fn merge_keeps_existing_and_adds_new() {
    let mut funds = FundManager::new();
    funds
        .add_fund("A", Fund::new().with_amount(100).with_goal(200).build())
        .unwrap();
    funds.extend(vec![
        (String::from("A"), Fund::new().with_amount(999).with_goal(999).build()),
        (String::from("B"), Fund::new().with_amount(5).with_goal(5).build()),
    ]);
    assert_eq!(funds.len(), 2);
    assert_eq!(funds.fund("A").unwrap().amount, 100);
    assert_eq!(funds.fund("A").unwrap().goal, 200);
    assert_eq!(funds.fund("B").unwrap().amount, 5);
    assert_eq!(funds.fund("B").unwrap().goal, 5);
}

#[test]
fn merge_ignores_a_later_duplicate_within_the_batch() {
    let mut funds = FundManager::new();
    funds.extend(vec![
        (String::from("A"), Fund::new().with_amount(1).with_goal(1).build()),
        (String::from("A"), Fund::new().with_amount(2).with_goal(2).build()),
    ]);
    assert_eq!(funds.len(), 1);
    assert_eq!(funds.fund("A").unwrap().amount, 1);
}

#[test]
fn from_pairs_lets_later_pairs_override() {
    let funds = FundManager::from_pairs(vec![
        (String::from("A"), Fund::new().with_amount(1).with_goal(1).build()),
        (String::from("A"), Fund::new().with_amount(2).with_goal(2).build()),
    ]);
    assert_eq!(funds.len(), 1);
    assert_eq!(funds.fund("A").unwrap().amount, 2);
}

#[test]
fn store_overwrites_in_place() {
    let mut funds = FundManager::new();
    funds.store(String::from("A"), Fund::new().with_amount(1).with_goal(2).build());
    funds.store(String::from("A"), Fund::new().with_amount(3).with_goal(4).build());
    assert_eq!(funds.len(), 1);
    assert_eq!(funds.fund("A").unwrap().amount, 3);
    assert_eq!(funds.fund("A").unwrap().goal, 4);
}

#[test]
fn rename_is_transactional_on_collision() {
    let mut funds = FundManager::new();
    funds
        .add_fund("old", Fund::new().with_amount(10).with_goal(20).build())
        .unwrap();
    funds
        .add_fund("taken", Fund::new().with_amount(1).with_goal(2).build())
        .unwrap();
    let e = funds.rename("old", "taken").unwrap_err();
    match e {
        FundManagerError::DuplicateFund(d) => assert_eq!(d.name, "taken"),
        _ => panic!("expected a duplicate-name error"),
    }
    // Nothing was lost: the old entry is still there, untouched.
    assert_eq!(funds.fund("old").unwrap().amount, 10);
    assert_eq!(funds.fund("taken").unwrap().amount, 1);
}

#[test]
fn rename_to_the_same_name_succeeds() {
    let mut funds = FundManager::new();
    funds
        .add_fund("only", Fund::new().with_amount(10).with_goal(20).build())
        .unwrap();
    funds.rename("only", "only").unwrap();
    assert_eq!(funds.fund("only").unwrap().amount, 10);
}

#[test]
fn to_pairs_reports_storage_order() {
    let mut funds = FundManager::new();
    funds.add_fund("b", Fund::new().with_amount(1).with_goal(1).build()).unwrap();
    funds.add_fund("a", Fund::new().with_amount(2).with_goal(2).build()).unwrap();
    let pairs = funds.to_pairs();
    assert_eq!(pairs.len(), 2);
    assert_eq!(pairs[0].0, "b");
    assert_eq!(pairs[1].0, "a");
}

#[test]
fn default_manager_is_empty() {
    let funds = FundManager::default();
    assert_eq!(funds.len(), 0);
    assert_eq!(Fund::default().amount, 0);
    assert_eq!(Fund::default().goal, 0);
}

#[test]
fn deposit_then_spend_returns_to_start() {
    for &(start, x) in &[(0, 5), (100, -40), (-250, 250), (7, 0)] {
        let mut fund = Fund::new().with_amount(start).with_goal(1000).build();
        fund.deposit(x);
        fund.spend(x);
        assert_eq!(fund.amount, start);
    }
}

#[test]
fn deposits_add_up() {
    let mut once = Fund::new().with_amount(10).with_goal(0).build();
    once.deposit(30);
    once.deposit(12);
    let mut combined = Fund::new().with_amount(10).with_goal(0).build();
    combined.deposit(42);
    assert_eq!(once.amount, combined.amount);
}

#[test]
fn funds_are_ordered_by_amount_alone() {
    let small = Fund::new().with_amount(1).with_goal(100).build();
    let large = Fund::new().with_amount(2).with_goal(0).build();
    let same = Fund::new().with_amount(1).with_goal(0).build();
    assert!(small < large);
    assert_eq!(small.partial_cmp(&same), Some(std::cmp::Ordering::Equal));
}
