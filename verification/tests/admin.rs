use roulette::coins::Coin;
use roulette::contract::{execute, instantiate, ExecuteError, Instruction, Table};
use roulette::msg::{ExecuteMsg, InstantiateMsg};
use roulette::types::{Bet, GameResult};

fn block_seed() -> Option<Vec<u8>> {
    Some(vec![
        192, 187, 10, 117, 255, 236, 98, 171, 210, 48, 141, 6, 209, 165, 145, 142, 134, 246, 230,
        106, 200, 7, 69, 80, 86, 52, 227, 13, 121, 195, 105, 249,
    ])
}

fn instantiate_contract() -> Table {
    let msg = InstantiateMsg {
        min_bet: None,
        max_bet: None,
        max_total: None,
        supported_denoms: Some(vec!["token".to_string()]),
        admin: None,
    };
    instantiate("creator".to_string(), msg)
}

#[test]
fn new_game_loser() {
    let table = instantiate_contract();
    let funds = vec![Coin::new(200, "token")];

    let bet = Bet {
        amount: Coin::new(200, "token"),
        result: GameResult::Black,
    };

    let execute_msg = ExecuteMsg::Bet { bets: vec![bet] };

    let res = execute(&table, "creator".to_string(), &funds, &block_seed(), execute_msg).unwrap();

    assert_eq!(res.messages.len(), 0)
}

#[test]
fn new_game_winner() {
    let table = instantiate_contract();
    let funds = vec![Coin::new(200, "token")];

    let bet = Bet {
        amount: Coin::new(200, "token"),
        result: GameResult::Line { nums: (1, 2) },
    };

    let execute_msg = ExecuteMsg::Bet { bets: vec![bet] };

    let res = execute(&table, "creator".to_string(), &funds, &block_seed(), execute_msg).unwrap();

    // the payment and the closing of the transaction
    assert_eq!(res.messages.len(), 2)
}

#[test]
fn change_admin() {
    let mut table = instantiate_contract();

    let funds = vec![Coin::new(200, "token")];
    let change_admin_msg = ExecuteMsg::ChangeAdmin {
        admin: "creator2".to_string(),
    };
    let res = execute(&table, "creator".to_string(), &funds, &block_seed(), change_admin_msg);

    assert!(res.is_ok());
    table.admin = res.unwrap().new_admin.unwrap();

    let funds = vec![Coin::new(1, "token")];
    let withdraw = ExecuteMsg::AdminWithdraw {
        coin: Coin::new(200, "token"),
    };
    let res = execute(&table, "creator2".to_string(), &funds, &block_seed(), withdraw);

    assert!(res.is_ok());
}

#[test]
fn change_admin_fail() {
    let table = instantiate_contract();

    let funds = vec![Coin::new(200, "token")];
    let change_admin_msg = ExecuteMsg::ChangeAdmin {
        admin: "creator2".to_string(),
    };
    let res = execute(&table, "creator2".to_string(), &funds, &block_seed(), change_admin_msg);

    assert!(res.is_err());
}

#[test]
fn admin_withdraw() {
    let table = instantiate_contract();
    let funds = vec![Coin::new(200, "token")];

    let bet = Bet {
        amount: Coin::new(200, "token"),
        result: GameResult::Line { nums: (1, 2) },
    };

    let execute_msg = ExecuteMsg::Bet { bets: vec![bet] };

    let res = execute(&table, "creator".to_string(), &funds, &block_seed(), execute_msg).unwrap();

    // the payment and the closing of the transaction
    assert_eq!(res.messages.len(), 2);

    let withdraw = ExecuteMsg::AdminWithdraw {
        coin: Coin::new(200, "token"),
    };
    let res = execute(&table, "creator".to_string(), &funds, &block_seed(), withdraw).unwrap();

    // the payment
    assert_eq!(res.messages.len(), 1);

    let withdraw = ExecuteMsg::AdminWithdraw {
        coin: Coin::new(200, "token"),
    };
    let res = execute(&table, "creator2".to_string(), &funds, &block_seed(), withdraw);

    assert!(res.is_err());
}

#[test]
fn a_winning_request_is_paid_to_its_sender() {
    let table = instantiate_contract();
    let funds = vec![Coin::new(200, "token")];
    let bet = Bet {
        amount: Coin::new(200, "token"),
        result: GameResult::Line { nums: (1, 2) },
    };
    let res = execute(
        &table,
        "player".to_string(),
        &funds,
        &block_seed(),
        ExecuteMsg::Bet { bets: vec![bet] },
    )
    .unwrap();
    match &res.messages[0] {
        Instruction::Send { to_address, amount } => {
            assert_eq!(to_address, "player");
            assert_eq!(amount.len(), 1);
            assert_eq!(amount[0].denom, "token");
            assert_eq!(amount[0].amount, 3600);
        }
        Instruction::FinalizeTx => panic!("the payment comes first"),
    }
    assert!(matches!(res.messages[1], Instruction::FinalizeTx));
    let settlement = res.settlement.unwrap();
    assert_eq!(settlement.payouts[0].amount, 3600);
    assert!(settlement.drawn_number == 1 || settlement.drawn_number == 2);
    assert!(res.new_admin.is_none());
}

#[test]
fn a_withdrawal_pays_the_coin_to_the_administrator() {
    let table = instantiate_contract();
    let none: Vec<Coin> = Vec::new();
    let res = execute(
        &table,
        "creator".to_string(),
        &none,
        &None,
        ExecuteMsg::AdminWithdraw { coin: Coin::new(7, "token") },
    )
    .unwrap();
    assert_eq!(res.messages.len(), 1);
    match &res.messages[0] {
        Instruction::Send { to_address, amount } => {
            assert_eq!(to_address, "creator");
            assert_eq!(amount.len(), 1);
            assert_eq!(amount[0].amount, 7);
        }
        Instruction::FinalizeTx => panic!("a withdrawal is a payment"),
    }
    assert!(res.settlement.is_none());
}

#[test]
fn errors_say_why_a_message_is_turned_down() {
    let table = instantiate_contract();
    let funds = vec![Coin::new(5, "token")];
    let bet = Bet {
        amount: Coin::new(3, "token"),
        result: GameResult::Red,
    };
    let res = execute(
        &table,
        "player".to_string(),
        &funds,
        &block_seed(),
        ExecuteMsg::Bet { bets: vec![bet] },
    );
    assert_eq!(
        res.unwrap_err(),
        ExecuteError::Rejected(roulette::errors::BetError::FundsMismatch)
    );
    let res = execute(
        &table,
        "player".to_string(),
        &funds,
        &block_seed(),
        ExecuteMsg::ChangeAdmin { admin: "player".to_string() },
    );
    assert_eq!(res.unwrap_err(), ExecuteError::Unauthorized);
}

#[test]
fn a_named_administrator_takes_the_place_of_the_sender() {
    let msg = InstantiateMsg {
        min_bet: Some(1),
        max_bet: Some(10),
        max_total: Some(100),
        supported_denoms: None,
        admin: Some("owner".to_string()),
    };
    let table = instantiate("creator".to_string(), msg);
    assert_eq!(table.admin, "owner");
    assert_eq!(table.config.min_bet, 1);
    assert_eq!(table.config.max_bet, 10);
    assert_eq!(table.config.max_total, 100);
    assert_eq!(table.config.supported_denoms, vec!["uscrt".to_string()]);
}
