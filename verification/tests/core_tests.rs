use libfund::display_dollars;
use libfund::Fund;
use libfund::FundManager;

#[test]
fn create_fund() {
    let fund = Fund::new();
    assert_eq!(fund.amount, 0);
    assert_eq!(fund.goal, 0);
    let fund_with_args = Fund::new().with_amount(500).with_goal(1000).build();
    assert_eq!(fund_with_args.amount, 500);
    assert_eq!(fund_with_args.goal, 1000);
}

#[test]
fn fund_deposit() {
    let mut fund = Fund::new().with_amount(500).with_goal(1000).build();
    fund.deposit(500);
    assert_eq!(fund.amount, 1000);
}

#[test]
fn fund_spend() {
    let mut fund = Fund::new().with_amount(500).with_goal(1000).build();
    fund.spend(250);
    assert_eq!(fund.amount, 250);
}

#[test]
fn dollar_display() {
    let amount = 100;
    assert_eq!(display_dollars(amount), "$1.00");
}

#[test]
fn display() {
    let fund = Fund::new().with_amount(500).with_goal(1000).build();
    assert_eq!(
        fund.display(),
        format!(
            "{:^8} / {:<8} -- {} away from goal",
            display_dollars(fund.amount),
            display_dollars(fund.goal),
            display_dollars(fund.goal - fund.amount)
        )
    );
}

#[test]
fn adding_funds() {
    let mut funds = FundManager::new();
    let result = funds.add_fund("Test", Fund::new().with_amount(100).with_goal(500).build());
    assert!(result.is_ok());
    assert_eq!(funds.len(), 1);
    assert!(funds.contains("Test"));
    assert!(funds.add_fund("Test", Fund::new()).is_err());
}

#[test]
fn getting_funds() {
    let mut funds = FundManager::new();
    funds
        .add_fund("Test", Fund::new().with_amount(100).with_goal(500).build())
        .unwrap();
    assert!(funds.fund("Test").is_ok());
    assert!(funds.fund("NotHere").is_err());
}

#[test]
fn get_mutable() {
    let mut funds = FundManager::new();
    funds
        .add_fund("Test", Fund::new().with_amount(100).with_goal(500).build())
        .unwrap();
    assert!(funds.fund("Test").is_ok());
    assert!(funds.fund("NotHere").is_err());
    funds.fund_mut("Test").unwrap().amount = 200;
    assert_eq!(funds.fund("Test").unwrap().amount, 200);
}

#[test]
fn renames_fund() {
    let mut funds = FundManager::new();
    funds
        .add_fund("test", Fund::new().with_amount(100).with_goal(200).build())
        .unwrap();
    funds.rename("test", "success").unwrap();
    assert!(funds.fund("test").is_err());
    assert!(funds.fund("success").is_ok());
    assert!(funds.rename("test", "success").is_err());
    funds
        .add_fund("test", Fund::new().with_amount(100).with_goal(200).build())
        .unwrap();
    assert!(funds.rename("success", "test").is_err());
}
