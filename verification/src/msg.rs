//! The messages that the table answers to.

use vstd::prelude::*;
use crate::coins::Coin;
use crate::state::Config;
use crate::types::Bet;

verus! {

/// What a table is set up with. Whatever is left out takes its default.
#[derive(Clone, Debug)]
pub struct InstantiateMsg {
    pub min_bet: Option<u64>,
    pub max_bet: Option<u64>,
    pub max_total: Option<u64>,
    pub supported_denoms: Option<Vec<String>>,
    pub admin: Option<String>,
}

/// What can be asked of a table.
#[derive(Clone, Debug)]
pub enum ExecuteMsg {
    Bet { bets: Vec<Bet> },
    AdminWithdraw { coin: Coin },
    ChangeAdmin { admin: String },
}

/// The limits of a new table: no minimum bet, no maximum and no limit for a
/// request unless the message names one, and the currency `uscrt` alone unless
/// the message names the currencies.
pub fn initial_config(msg: InstantiateMsg) -> (config: Config)
    ensures
        config.min_bet == (match msg.min_bet {
            Some(v) => v,
            None => 0,
        }),
        config.max_bet == (match msg.max_bet {
            Some(v) => v,
            None => u64::MAX,
        }),
        config.max_total == (match msg.max_total {
            Some(v) => v,
            None => u64::MAX,
        }),
        match msg.supported_denoms {
            Some(v) => config.supported_denoms == v,
            None => config.supported_denoms.len() == 1 && config.supported_denoms[0]@ == "uscrt"@,
        },
{
    let min_bet = match msg.min_bet {
        Some(v) => v,
        None => 0,
    };
    let max_bet = match msg.max_bet {
        Some(v) => v,
        None => u64::MAX,
    };
    let max_total = match msg.max_total {
        Some(v) => v,
        None => u64::MAX,
    };
    let supported_denoms = match msg.supported_denoms {
        Some(v) => v,
        None => {
            let mut v: Vec<String> = Vec::new();
            v.push(String::from_str("uscrt"));
            v
        },
    };
    Config { min_bet, max_bet, max_total, supported_denoms }
}

/// The administrator of a new table: the one that the message names, or else
/// whoever set the table up.
pub fn initial_admin(named: Option<String>, sender: String) -> (admin: String)
    ensures
        admin == (match named {
            Some(a) => a,
            None => sender,
        }),
{
    match named {
        Some(a) => a,
        None => sender,
    }
}

/// Whether `sender` is the administrator: only the administrator may withdraw
/// from the table or hand it to another.
pub fn is_admin(admin: &String, sender: &String) -> (r: bool)
    ensures
        r == (admin@ == sender@),
{
    *admin == *sender
}

} // verus!
