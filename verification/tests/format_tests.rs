use libfund::display_dollars;
use libfund::Fund;
use libfund::FundManager;

#[test]
fn dollar_display_small_and_negative() {
    assert_eq!(display_dollars(5), "$0.05");
    assert_eq!(display_dollars(0), "$0.00");
    assert_eq!(display_dollars(-5), "-$0.05");
    assert_eq!(display_dollars(-100), "-$1.00");
    assert_eq!(display_dollars(123456), "$1234.56");
    assert_eq!(display_dollars(i32::MIN), "-$21474836.48");
    assert_eq!(display_dollars(i32::MAX), "$21474836.47");
}

#[test]
fn dollar_display_reparses() {
    for &amount in &[0, 5, 99, 100, 123456, -1, -99, -100, -123456, i32::MIN, i32::MAX] {
        let shown = display_dollars(amount);
        let cents: String = shown.chars().filter(|c| *c != '$' && *c != '.').collect();
        let last_two: Vec<char> = shown.chars().rev().take(2).collect();
        assert!(last_two.iter().all(|c| c.is_ascii_digit()));
        assert_eq!(cents.parse::<i32>().unwrap(), amount);
    }
}

#[test]
fn serializes_one_line_per_fund() {
    let mut funds = FundManager::new();
    funds
        .add_fund("rent", Fund::new().with_amount(150).with_goal(2000).build())
        .unwrap();
    funds
        .add_fund("food", Fund::new().with_amount(-25).with_goal(0).build())
        .unwrap();
    assert_eq!(funds.to_text(), "rent:150:2000\nfood:-25:0\n");
}

#[test]
fn parses_stored_text() {
    let funds = FundManager::from_text("rent:150:2000\nfood:-25:0\n").unwrap();
    assert_eq!(funds.len(), 2);
    assert_eq!(funds.fund("rent").unwrap().amount, 150);
    assert_eq!(funds.fund("rent").unwrap().goal, 2000);
    assert_eq!(funds.fund("food").unwrap().amount, -25);
    assert_eq!(funds.fund("food").unwrap().goal, 0);
}

#[test]
fn parses_without_trailing_newline() {
    let funds = FundManager::from_text("a:1:2").unwrap();
    assert_eq!(funds.len(), 1);
    assert_eq!(funds.fund("a").unwrap().amount, 1);
}

#[test]
fn empty_text_is_empty_manager() {
    let funds = FundManager::from_text("").unwrap();
    assert_eq!(funds.len(), 0);
}

#[test]
fn extra_fields_are_ignored() {
    let funds = FundManager::from_text("a:1:2:ignored:also\n").unwrap();
    assert_eq!(funds.fund("a").unwrap().amount, 1);
    assert_eq!(funds.fund("a").unwrap().goal, 2);
}

#[test]
fn later_duplicate_line_wins() {
    let funds = FundManager::from_text("a:1:2\na:30:40\n").unwrap();
    assert_eq!(funds.len(), 1);
    assert_eq!(funds.fund("a").unwrap().amount, 30);
    assert_eq!(funds.fund("a").unwrap().goal, 40);
}

#[test]
fn malformed_line_is_a_parse_error() {
    let e = FundManager::from_text("justtext\n").unwrap_err();
    assert_eq!(e.line, 1);
    let e = FundManager::from_text("a:1\n").unwrap_err();
    assert_eq!(e.line, 1);
    let e = FundManager::from_text("a:1:2\nb:oops:3\n").unwrap_err();
    assert_eq!(e.line, 2);
    let e = FundManager::from_text("a:1:2\n\n").unwrap_err();
    assert_eq!(e.line, 2);
    assert_eq!(e.message(), "fund file line 2 is invalid");
}

#[test]
fn integer_fields_follow_machine_parsing() {
    let funds = FundManager::from_text("a:+1:007\n").unwrap();
    assert_eq!(funds.fund("a").unwrap().amount, 1);
    assert_eq!(funds.fund("a").unwrap().goal, 7);
    let funds = FundManager::from_text("b:-0:2147483647\n").unwrap();
    assert_eq!(funds.fund("b").unwrap().amount, 0);
    assert_eq!(funds.fund("b").unwrap().goal, i32::MAX);
    let funds = FundManager::from_text("c:-2147483648:0\n").unwrap();
    assert_eq!(funds.fund("c").unwrap().amount, i32::MIN);
    assert!(FundManager::from_text("d:2147483648:0\n").is_err());
    assert!(FundManager::from_text("d: 1:0\n").is_err());
    assert!(FundManager::from_text("d:+:0\n").is_err());
}

#[test]
fn non_integer_amount_is_a_parse_error() {
    assert!(FundManager::from_text("a:1.5:2\n").is_err());
    assert!(FundManager::from_text("a::2\n").is_err());
    assert!(FundManager::from_text("a:9999999999:2\n").is_err());
}

#[test]
fn trailing_colon_drops_the_goal_field() {
    // split_terminator semantics: "a:1:" has only two fields.
    assert!(FundManager::from_text("a:1:\n").is_err());
    // ...but a colon after the third field merely ends it.
    assert!(FundManager::from_text("a:1:2:\n").is_ok());
}

#[test]
fn save_load_round_trip() {
    let mut funds = FundManager::new();
    funds
        .add_fund("rent", Fund::new().with_amount(150).with_goal(2000).build())
        .unwrap();
    funds
        .add_fund("food", Fund::new().with_amount(-25).with_goal(0).build())
        .unwrap();
    funds
        .add_fund("", Fund::new().with_amount(7).with_goal(8).build())
        .unwrap();
    let reloaded = FundManager::from_text(&funds.to_text()).unwrap();
    assert_eq!(reloaded.len(), 3);
    for (name, fund) in funds.to_pairs() {
        let found = reloaded.fund(&name).unwrap();
        assert_eq!(found.amount, fund.amount);
        assert_eq!(found.goal, fund.goal);
    }
}

#[test]
fn whole_lifecycle_keeps_a_deposit() {
    // Load an empty store, create a fund, deposit, save, and reload.
    let mut funds = FundManager::from_text("").unwrap();
    funds
        .add_fund("rent", Fund::new().with_amount(0).with_goal(100000).build())
        .unwrap();
    funds.fund_mut("rent").unwrap().deposit(50000);
    let saved = funds.to_text();
    let reloaded = FundManager::from_text(&saved).unwrap();
    assert_eq!(reloaded.fund("rent").unwrap().amount, 50000);
    assert_eq!(reloaded.fund("rent").unwrap().goal, 100000);
}
