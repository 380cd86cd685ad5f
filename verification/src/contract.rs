//! The table as a whole: how it is set up, and what it answers to each
//! message. What it answers is a plan: the instructions for the ledger, and
//! what is to be stored. Carrying the plan out is left to the caller.

use vstd::prelude::*;
use crate::coins::Coin;
use crate::errors::BetError;
use crate::msg::{initial_admin, initial_config, is_admin, ExecuteMsg, InstantiateMsg};
use crate::settlement::{handle_game_result, resolves, SettlementResult};
use crate::state::Config;

verus! {

/// What a table stores: its limits and its administrator.
#[derive(Clone, Debug)]
pub struct Table {
    pub config: Config,
    pub admin: String,
}

/// What the table asks of the ledger.
#[derive(Clone, Debug)]
pub enum Instruction {
    /// Pay the coins out to the address.
    Send { to_address: String, amount: Vec<Coin> },
    /// Close the transaction.
    FinalizeTx,
}

/// What the table answers to a message that it accepts.
#[derive(Clone, Debug)]
pub struct Outcome {
    /// The instructions for the ledger, in their order.
    pub messages: Vec<Instruction>,
    /// The settlement, where the message was a request of bets.
    pub settlement: Option<SettlementResult>,
    /// The administrator to store, where the message names a new one.
    pub new_admin: Option<String>,
}

/// Why the table turns a message down.
#[derive(Clone, Copy, Debug, PartialEq, Eq, Structural)]
pub enum ExecuteError {
    /// The sender is not the administrator.
    Unauthorized,
    /// The request of bets fails.
    Rejected(BetError),
}

/// Sets a table up: its limits are those of the message, its administrator
/// the one that the message names or else the sender.
pub fn instantiate(sender: String, msg: InstantiateMsg) -> (table: Table)
    ensures
        table.admin == (match msg.admin {
            Some(a) => a,
            None => sender,
        }),
        table.config.min_bet == (match msg.min_bet {
            Some(v) => v,
            None => 0,
        }),
        table.config.max_bet == (match msg.max_bet {
            Some(v) => v,
            None => u64::MAX,
        }),
        table.config.max_total == (match msg.max_total {
            Some(v) => v,
            None => u64::MAX,
        }),
        match msg.supported_denoms {
            Some(v) => table.config.supported_denoms == v,
            None => table.config.supported_denoms.len() == 1
                && table.config.supported_denoms[0]@ == "uscrt"@,
        },
{
    let InstantiateMsg { min_bet, max_bet, max_total, supported_denoms, admin } = msg;
    let admin = initial_admin(admin, sender);
    let config = initial_config(
        InstantiateMsg { min_bet, max_bet, max_total, supported_denoms, admin: None },
    );
    Table { config, admin }
}

/// `messages` pays the coins out to the recipient and closes the transaction,
/// or is empty where there is nothing to pay out.
pub open spec fn pays_out(
    messages: Seq<Instruction>,
    payouts: Seq<Coin>,
    recipient: Seq<char>,
) -> bool {
    if payouts.len() == 0 {
        messages.len() == 0
    } else {
        &&& messages.len() == 2
        &&& messages[0] matches Instruction::Send { to_address, amount }
        &&& to_address@ == recipient
        &&& amount@ == payouts
        &&& messages[1] is FinalizeTx
    }
}

/// A list of the same coins.
fn copy_coins(coins: &Vec<Coin>) -> (copy: Vec<Coin>)
    ensures
        copy@ == coins@,
{
    let mut copy: Vec<Coin> = Vec::new();
    let mut i: usize = 0;
    while i < coins.len()
        invariant
            i <= coins.len(),
            copy@ == coins@.take(i as int),
        decreases coins.len() - i,
    {
        copy.push(Coin { denom: coins[i].denom.clone(), amount: coins[i].amount });
        proof {
            assert(copy@ =~= coins@.take(i as int + 1));
        }
        i += 1;
    }
    proof {
        assert(coins@.take(i as int) =~= coins@);
    }
    copy
}

/// The instructions that pay the winnings out: none where nothing was won,
/// else the payment to the recipient and the closing of the transaction.
pub fn payout_instructions(payouts: &Vec<Coin>, recipient: String) -> (messages: Vec<Instruction>)
    ensures
        pays_out(messages@, payouts@, recipient@),
{
    let mut messages: Vec<Instruction> = Vec::new();
    if payouts.len() > 0 {
        messages.push(Instruction::Send { to_address: recipient, amount: copy_coins(payouts) });
        messages.push(Instruction::FinalizeTx);
    }
    messages
}

/// `r` is the table's answer to the message.
///
/// A request of bets is resolved against the funds and the seed, and its
/// winnings are paid out to the sender. A withdrawal pays the coin out to the
/// sender, and a change of the administrator names the new one; either is
/// turned down unless the sender is the administrator.
pub open spec fn answers(
    table: Table,
    sender: Seq<char>,
    funds: Seq<Coin>,
    seed: Option<Vec<u8>>,
    msg: ExecuteMsg,
    r: Result<Outcome, ExecuteError>,
) -> bool {
    match msg {
        ExecuteMsg::Bet { bets } => match r {
            Ok(outcome) => {
                &&& outcome.settlement matches Some(s)
                &&& resolves(bets@, funds, seed, table.config, Ok(s))
                &&& pays_out(outcome.messages@, s.payouts@, sender)
                &&& outcome.new_admin is None
            },
            Err(ExecuteError::Rejected(e)) => resolves(
                bets@,
                funds,
                seed,
                table.config,
                Err(e),
            ),
            Err(ExecuteError::Unauthorized) => false,
        },
        ExecuteMsg::AdminWithdraw { coin } => if table.admin@ == sender {
            &&& r matches Ok(outcome)
            &&& outcome.messages@.len() == 1
            &&& outcome.messages@[0] matches Instruction::Send { to_address, amount }
            &&& to_address@ == sender
            &&& amount@ == seq![coin]
            &&& outcome.settlement is None
            &&& outcome.new_admin is None
        } else {
            r == Err::<Outcome, ExecuteError>(ExecuteError::Unauthorized)
        },
        ExecuteMsg::ChangeAdmin { admin } => if table.admin@ == sender {
            &&& r matches Ok(outcome)
            &&& outcome.messages@.len() == 0
            &&& outcome.settlement is None
            &&& outcome.new_admin == Some(admin)
        } else {
            r == Err::<Outcome, ExecuteError>(ExecuteError::Unauthorized)
        },
    }
}

/// Answers one message.
pub fn execute(
    table: &Table,
    sender: String,
    funds: &Vec<Coin>,
    seed: &Option<Vec<u8>>,
    msg: ExecuteMsg,
) -> (r: Result<Outcome, ExecuteError>)
    ensures
        answers(*table, sender@, funds@, *seed, msg, r),
{
    match msg {
        ExecuteMsg::Bet { bets } => {
            match handle_game_result(&bets, funds, seed, &table.config) {
                Ok(settlement) => {
                    let messages = payout_instructions(&settlement.payouts, sender);
                    Ok(Outcome { messages, settlement: Some(settlement), new_admin: None })
                },
                Err(e) => Err(ExecuteError::Rejected(e)),
            }
        },
        ExecuteMsg::AdminWithdraw { coin } => {
            if !is_admin(&table.admin, &sender) {
                return Err(ExecuteError::Unauthorized);
            }
            let mut amount: Vec<Coin> = Vec::new();
            amount.push(coin);
            let mut messages: Vec<Instruction> = Vec::new();
            messages.push(Instruction::Send { to_address: sender, amount });
            Ok(Outcome { messages, settlement: None, new_admin: None })
        },
        ExecuteMsg::ChangeAdmin { admin } => {
            if !is_admin(&table.admin, &sender) {
                return Err(ExecuteError::Unauthorized);
            }
            Ok(Outcome { messages: Vec::new(), settlement: None, new_admin: Some(admin) })
        },
    }
}

} // verus!
