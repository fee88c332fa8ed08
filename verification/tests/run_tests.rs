use libfund::display_dollars;
use libfund::run;
use libfund::Config;
use libfund::Fund;
use libfund::FundManager;
use libfund::FundManagerError;

fn config(command: &str) -> Config {
    Config {
        command: String::from(command),
        fund_name: None,
        transfer_name: None,
        field: None,
        amount: None,
        goal: None,
    }
}

fn expected_line(name: &str, fund: &Fund) -> String {
    format!(
        "{:>10} {:^8} / {:<8} -- {} away from goal",
        format!("{}:", name),
        display_dollars(fund.amount),
        display_dollars(fund.goal),
        display_dollars(fund.goal - fund.amount)
    )
}

#[test]
fn run_new_then_info() {
    let mut funds = FundManager::new();
    let mut c = config("new");
    c.fund_name = Some(String::from("rent"));
    c.amount = Some(150);
    c.goal = Some(2000);
    let lines = run(&c, &mut funds).unwrap();
    let rent = Fund::new().with_amount(150).with_goal(2000).build();
    assert_eq!(lines, vec![expected_line("rent", &rent)]);

    let mut c = config("info");
    c.fund_name = Some(String::from("rent"));
    let lines = run(&c, &mut funds).unwrap();
    assert_eq!(lines, vec![expected_line("rent", &rent)]);

    let c = config("info");
    let lines = run(&c, &mut funds).unwrap();
    assert_eq!(lines.len(), 1);
}

#[test]
fn run_spend_and_deposit() {
    let mut funds = FundManager::new();
    funds
        .add_fund("rent", Fund::new().with_amount(100).with_goal(2000).build())
        .unwrap();
    let mut c = config("deposit");
    c.fund_name = Some(String::from("rent"));
    c.amount = Some(50);
    run(&c, &mut funds).unwrap();
    assert_eq!(funds.fund("rent").unwrap().amount, 150);

    let mut c = config("spend");
    c.fund_name = Some(String::from("rent"));
    c.amount = Some(30);
    let lines = run(&c, &mut funds).unwrap();
    assert_eq!(funds.fund("rent").unwrap().amount, 120);
    let shown = Fund::new().with_amount(120).with_goal(2000).build();
    assert_eq!(lines, vec![expected_line("rent", &shown)]);
}

#[test]
fn run_transfer_moves_money() {
    let mut funds = FundManager::new();
    funds
        .add_fund("a", Fund::new().with_amount(100).with_goal(0).build())
        .unwrap();
    funds
        .add_fund("b", Fund::new().with_amount(10).with_goal(0).build())
        .unwrap();
    let mut c = config("transfer");
    c.fund_name = Some(String::from("a"));
    c.transfer_name = Some(String::from("b"));
    c.amount = Some(40);
    let lines = run(&c, &mut funds).unwrap();
    assert_eq!(lines.len(), 2);
    assert_eq!(funds.fund("a").unwrap().amount, 60);
    assert_eq!(funds.fund("b").unwrap().amount, 50);
}

#[test]
fn run_transfer_to_missing_fund_changes_nothing() {
    let mut funds = FundManager::new();
    funds
        .add_fund("a", Fund::new().with_amount(100).with_goal(0).build())
        .unwrap();
    let mut c = config("transfer");
    c.fund_name = Some(String::from("a"));
    c.transfer_name = Some(String::from("missing"));
    c.amount = Some(40);
    let e = run(&c, &mut funds).unwrap_err();
    match e {
        FundManagerError::FundNotFound(nf) => assert_eq!(nf.name, "missing"),
        _ => panic!("expected a missing-fund error"),
    }
    assert_eq!(funds.fund("a").unwrap().amount, 100);
}

#[test]
fn run_rename_and_set() {
    let mut funds = FundManager::new();
    funds
        .add_fund("old", Fund::new().with_amount(5).with_goal(6).build())
        .unwrap();
    let mut c = config("rename");
    c.fund_name = Some(String::from("old"));
    c.transfer_name = Some(String::from("new"));
    run(&c, &mut funds).unwrap();
    assert!(funds.fund("old").is_err());
    assert_eq!(funds.fund("new").unwrap().amount, 5);

    let mut c = config("set");
    c.fund_name = Some(String::from("new"));
    c.field = Some(String::from("goal"));
    c.amount = Some(77);
    run(&c, &mut funds).unwrap();
    assert_eq!(funds.fund("new").unwrap().goal, 77);
    assert_eq!(funds.fund("new").unwrap().amount, 5);

    let mut c = config("set");
    c.fund_name = Some(String::from("new"));
    c.field = Some(String::from("amount"));
    c.amount = Some(88);
    run(&c, &mut funds).unwrap();
    assert_eq!(funds.fund("new").unwrap().amount, 88);
    assert_eq!(funds.fund("new").unwrap().goal, 77);
}

#[test]
fn run_rejects_incomplete_commands() {
    let mut funds = FundManager::new();
    let usage = |e: FundManagerError| -> String {
        match e {
            FundManagerError::Io(io) => io.message,
            _ => panic!("expected a usage error"),
        }
    };
    let e = run(&config("new"), &mut funds).unwrap_err();
    assert_eq!(usage(e), "can't create a new struct with no name");
    let e = run(&config("spend"), &mut funds).unwrap_err();
    assert_eq!(usage(e), "please supply a fund to spend from");
    let mut c = config("deposit");
    c.fund_name = Some(String::from("a"));
    let e = run(&c, &mut funds).unwrap_err();
    assert_eq!(usage(e), "please supply an amount to deposit");
    let e = run(&config("transfer"), &mut funds).unwrap_err();
    assert_eq!(usage(e), "please supply a fund to transfer from");
    let e = run(&config("rename"), &mut funds).unwrap_err();
    assert_eq!(usage(e), "please supply the name of the fund to rename");
    let e = run(&config("set"), &mut funds).unwrap_err();
    assert_eq!(usage(e), "please provide a fund name");
    let e = run(&config("bogus"), &mut funds).unwrap_err();
    assert_eq!(usage(e), "not a valid command");
    let mut c = config("set");
    c.fund_name = Some(String::from("a"));
    c.amount = Some(1);
    c.field = Some(String::from("neither"));
    let e = run(&c, &mut funds).unwrap_err();
    assert_eq!(usage(e), "invalid field name");
}
