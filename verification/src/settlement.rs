//! The settlement of a request: the validation of bets and funds against the
//! table's limits, the matching of the bets against the categories that win on
//! the drawn number, and the sum of the winnings in each currency.

use vstd::prelude::*;
use crate::board::{all_well_formed, covers, distinct, listed, return_winning_numbers};
use crate::coins::{
    add_to_tally, currencies, denoms, has_denom, is_tally, is_tally_of, lemma_is_tally_of,
    lemma_total_absent, lemma_total_of_entry, lemma_total_push, stakes, total, total_of, Coin,
    Stake,
};
use crate::errors::BetError;
use crate::rng::{draw, drawn_number};
use crate::state::Config;
use crate::types::{Bet, Category, GameResult};

verus! {

/// The stakes of the bets, in their order.
pub open spec fn bet_stakes(bets: Seq<Bet>) -> Seq<Stake> {
    Seq::new(bets.len(), |i: int| bets[i].amount@)
}

/// What is wrong with the bet at `i`, if anything, given the bets before it:
/// its currency, then its quantity, then the sum of the bets in its currency
/// up to and with it.
pub open spec fn bet_fault(bets: Seq<Bet>, config: Config, i: int) -> Option<BetError> {
    let stake = bets[i].amount@;
    if !config.supports(stake.denom) {
        Some(BetError::UnsupportedCurrency)
    } else if stake.amount > config.max_bet || stake.amount < config.min_bet {
        Some(BetError::BetOutOfLimits)
    } else if total(bet_stakes(bets).take(i + 1), stake.denom) > u128::MAX {
        Some(BetError::Overflow)
    } else {
        None
    }
}

/// No bet is at fault.
pub open spec fn bets_in_order(bets: Seq<Bet>, config: Config) -> bool {
    forall|i: int| 0 <= i < bets.len() ==> (#[trigger] bet_fault(bets, config, i)) is None
}

/// `e` is what is wrong with the first bet that is at fault.
pub open spec fn first_bet_fault(bets: Seq<Bet>, config: Config, e: BetError) -> bool {
    exists|i: int|
        0 <= i < bets.len() && #[trigger] bet_fault(bets, config, i) == Some(e) && forall|j: int|
            0 <= j < i ==> (#[trigger] bet_fault(bets, config, j)) is None
}

/// What is wrong with the attached coin at `i`, if anything: the funds
/// attached in its currency are over the limit for a request, or they are not
/// zero and under the minimum bet, or the table does not take the currency.
pub open spec fn fund_fault(funds: Seq<Coin>, config: Config, i: int) -> Option<BetError> {
    let denom = funds[i].denom@;
    let sum = total(stakes(funds), denom);
    if sum > config.max_total {
        Some(BetError::TotalExceedsLimit)
    } else if sum != 0 && sum < config.min_bet {
        Some(BetError::TotalExceedsLimit)
    } else if !config.supports(denom) {
        Some(BetError::UnsupportedCurrency)
    } else {
        None
    }
}

/// No attached coin is at fault.
pub open spec fn funds_in_order(funds: Seq<Coin>, config: Config) -> bool {
    forall|i: int| 0 <= i < funds.len() ==> (#[trigger] fund_fault(funds, config, i)) is None
}

/// `e` is what is wrong with the first attached coin that is at fault.
pub open spec fn first_fund_fault(funds: Seq<Coin>, config: Config, e: BetError) -> bool {
    exists|i: int|
        0 <= i < funds.len() && #[trigger] fund_fault(funds, config, i) == Some(e) && forall|
            j: int,
        | 0 <= j < i ==> (#[trigger] fund_fault(funds, config, j)) is None
}

/// The two lists hold the same sum in every currency.
pub open spec fn balanced(a: Seq<Stake>, b: Seq<Stake>) -> bool {
    forall|d: Seq<char>| total(a, d) == total(b, d)
}

/// Every bet is on a category that is consistent in itself.
pub open spec fn shapes_valid(bets: Seq<Bet>) -> bool {
    forall|i: int| 0 <= i < bets.len() ==> (#[trigger] bets[i]).result.well_formed()
}

/// The tally of the stakes: the sum of the bets in each currency, in the
/// order in which the currencies first occur, after each bet was held against
/// the currencies and the limits of the table. The first bet that is at fault
/// fails the whole.
pub fn calculate_sum_coins_of_bets(bets: &Vec<Bet>, config: &Config) -> (r: Result<
    Vec<Coin>,
    BetError,
>)
    ensures
        match r {
            Ok(sums) => {
                &&& bets_in_order(bets@, *config)
                &&& is_tally_of(stakes(sums@), bet_stakes(bets@))
                &&& is_tally(stakes(sums@))
                &&& balanced(stakes(sums@), bet_stakes(bets@))
            },
            Err(e) => first_bet_fault(bets@, *config, e),
        },
{
    let ghost all = bet_stakes(bets@);
    let mut coins: Vec<Coin> = Vec::new();
    let mut i: usize = 0;
    while i < bets.len()
        invariant
            i <= bets.len(),
            all == bet_stakes(bets@),
            is_tally(stakes(coins@)),
            balanced(stakes(coins@), all.take(i as int)),
            forall|d: Seq<char>| has_denom(stakes(coins@), d) <==> has_denom(all.take(i as int), d),
            denoms(stakes(coins@)) == currencies(all.take(i as int)),
            forall|j: int| 0 <= j < i ==> (#[trigger] bet_fault(bets@, *config, j)) is None,
        decreases bets.len() - i,
    {
        let bet = &bets[i];
        let ghost here = all.take(i as int);
        let ghost next = all.take(i as int + 1);
        proof {
            assert(next.drop_last() =~= here);
            assert(next.last() == bet.amount@);
        }
        let fault = if !config.is_supported(&bet.amount.denom) {
            Some(BetError::UnsupportedCurrency)
        } else if bet.amount.amount > config.max_bet as u128 {
            Some(BetError::BetOutOfLimits)
        } else if bet.amount.amount < config.min_bet as u128 {
            Some(BetError::BetOutOfLimits)
        } else if !add_to_tally(&mut coins, &bet.amount.denom, bet.amount.amount) {
            Some(BetError::Overflow)
        } else {
            None
        };
        assert(fault == bet_fault(bets@, *config, i as int));
        if let Some(e) = fault {
            return Err(e);
        }
        proof {
            assert forall|d: Seq<char>| has_denom(stakes(coins@), d) <==> has_denom(next, d) by {
                if has_denom(here, d) {
                    let j = choose|j: int| 0 <= j < here.len() && (#[trigger] here[j]).denom == d;
                    assert(next[j].denom == d);
                }
                if d == bet.amount.denom@ {
                    assert(next[i as int].denom == d);
                }
                if has_denom(next, d) {
                    let j = choose|j: int| 0 <= j < next.len() && (#[trigger] next[j]).denom == d;
                    if j < i {
                        assert(here[j].denom == d);
                    }
                }
            }
        }
        i += 1;
    }
    proof {
        assert(all.take(i as int) =~= all);
        lemma_is_tally_of(stakes(coins@), all);
    }
    Ok(coins)
}

/// Holds the funds attached to a request against the table: in each currency
/// they may not pass the limit for a request nor, unless they are zero, stay
/// under the minimum bet, and the table must take the currency. The first
/// coin that is at fault fails the whole.
pub fn validate_amounts(sent_funds: &Vec<Coin>, config: &Config) -> (r: Result<(), BetError>)
    ensures
        match r {
            Ok(_) => funds_in_order(sent_funds@, *config),
            Err(e) => first_fund_fault(sent_funds@, *config, e),
        },
{
    let max_total = config.max_total as u128;
    let min_bet = config.min_bet as u128;
    let mut i: usize = 0;
    while i < sent_funds.len()
        invariant
            i <= sent_funds.len(),
            max_total == config.max_total,
            min_bet == config.min_bet,
            forall|j: int| 0 <= j < i ==> (#[trigger] fund_fault(sent_funds@, *config, j)) is None,
        decreases sent_funds.len() - i,
    {
        let denom = &sent_funds[i].denom;
        let fault = match total_of(sent_funds, denom) {
            None => Some(BetError::TotalExceedsLimit),
            Some(sum) => {
                if sum > max_total {
                    Some(BetError::TotalExceedsLimit)
                } else if sum != 0 && sum < min_bet {
                    Some(BetError::TotalExceedsLimit)
                } else if !config.is_supported(denom) {
                    Some(BetError::UnsupportedCurrency)
                } else {
                    None
                }
            },
        };
        assert(fault == fund_fault(sent_funds@, *config, i as int));
        if let Some(e) = fault {
            return Err(e);
        }
        i += 1;
    }
    Ok(())
}

/// Whether every currency of `of` has the same sum in both lists.
fn sums_agree(of: &Vec<Coin>, coins: &Vec<Coin>, sent_funds: &Vec<Coin>) -> (r: bool)
    requires
        is_tally(stakes(coins@)),
    ensures
        r == forall|i: int|
            0 <= i < of.len() ==> total(stakes(coins@), (#[trigger] of[i]).denom@) == total(
                stakes(sent_funds@),
                of[i].denom@,
            ),
{
    let mut i: usize = 0;
    while i < of.len()
        invariant
            i <= of.len(),
            is_tally(stakes(coins@)),
            forall|j: int|
                0 <= j < i ==> total(stakes(coins@), (#[trigger] of[j]).denom@) == total(
                    stakes(sent_funds@),
                    of[j].denom@,
                ),
        decreases of.len() - i,
    {
        let denom = &of[i].denom;
        proof {
            lemma_tally_total_fits(stakes(coins@), denom@);
        }
        let staked = total_of(coins, denom);
        let sent = total_of(sent_funds, denom);
        let same = match (staked, sent) {
            (Some(a), Some(b)) => a == b,
            _ => false,
        };
        if !same {
            return false;
        }
        i += 1;
    }
    true
}

/// In a tally every total is a quantity that a coin can hold.
pub proof fn lemma_tally_total_fits(s: Seq<Stake>, d: Seq<char>)
    requires
        is_tally(s),
        forall|i: int| 0 <= i < s.len() ==> (#[trigger] s[i]).amount <= u128::MAX,
    ensures
        total(s, d) <= u128::MAX,
{
    if has_denom(s, d) {
        let i = choose|i: int| 0 <= i < s.len() && (#[trigger] s[i]).denom == d;
        lemma_total_of_entry(s, i);
    } else {
        lemma_total_absent(s, d);
    }
}

/// Whether the sums of the bets agree with the funds that were attached: in
/// every currency the tally and the funds hold the same sum, so that a
/// currency that only one of them names must have a sum of zero there.
pub fn check_coins_match_input(coins: &Vec<Coin>, sent_funds: &Vec<Coin>) -> (r: bool)
    requires
        is_tally(stakes(coins@)),
    ensures
        r == balanced(stakes(coins@), stakes(sent_funds@)),
{
    let by_funds = sums_agree(sent_funds, coins, sent_funds);
    let by_coins = sums_agree(coins, coins, sent_funds);
    proof {
        let a = stakes(coins@);
        let b = stakes(sent_funds@);
        if by_funds && by_coins {
            assert forall|d: Seq<char>| total(a, d) == total(b, d) by {
                if has_denom(b, d) {
                    let i = choose|i: int| 0 <= i < b.len() && (#[trigger] b[i]).denom == d;
                    assert(sent_funds@[i].denom@ == d);
                } else if has_denom(a, d) {
                    let i = choose|i: int| 0 <= i < a.len() && (#[trigger] a[i]).denom == d;
                    assert(coins@[i].denom@ == d);
                } else {
                    lemma_total_absent(a, d);
                    lemma_total_absent(b, d);
                }
            }
        }
    }
    by_funds && by_coins
}

/// A bet of nothing is at fault at a table whose minimum bet is not zero.
pub proof fn lemma_empty_bet_rejected(bets: Seq<Bet>, funds: Seq<Coin>, config: Config, i: int)
    requires
        0 <= i < bets.len(),
        bets[i].amount.amount == 0,
        config.min_bet > 0,
    ensures
        bet_fault(bets, config, i) is Some,
        !bets_in_order(bets, config),
        request_fault(config, funds, bets) is Some,
{
}

/// A single bet in a currency that the table takes is in order at the
/// minimum bet and at the maximum bet, and in order exactly where its
/// quantity lies from the one to the other.
pub proof fn lemma_limits_inclusive(bet: Bet, config: Config)
    requires
        config.supports(bet.amount.denom@),
    ensures
        bets_in_order(seq![bet], config) <==> config.min_bet <= bet.amount.amount
            <= config.max_bet,
        (config.min_bet <= config.max_bet && (bet.amount.amount == config.min_bet
            || bet.amount.amount == config.max_bet)) ==> bets_in_order(seq![bet], config),
{
    let bets = seq![bet];
    let all = bet_stakes(bets);
    assert(all.take(1) =~= all);
    assert(all.drop_last() =~= Seq::<Stake>::empty());
    assert(total(all.drop_last(), bet.amount.denom@) == 0);
    assert(total(all, bet.amount.denom@) == bet.amount.amount);
    assert(bets[0] == bet);
    if config.min_bet <= bet.amount.amount <= config.max_bet {
        assert(bet_fault(bets, config, 0) is None);
    } else {
        assert(bet_fault(bets, config, 0) is Some);
    }
}

/// Why the request is turned down before a number is drawn, if it is: the
/// bets are held against the table first, then the attached funds, then the
/// sums of the two against each other, then the categories of the bets.
pub open spec fn request_fault(config: Config, funds: Seq<Coin>, bets: Seq<Bet>) -> Option<
    BetError,
> {
    if !bets_in_order(bets, config) {
        Some(choose|e: BetError| first_bet_fault(bets, config, e))
    } else if !funds_in_order(funds, config) {
        Some(choose|e: BetError| first_fund_fault(funds, config, e))
    } else if !balanced(bet_stakes(bets), stakes(funds)) {
        Some(BetError::FundsMismatch)
    } else if !shapes_valid(bets) {
        Some(BetError::InvalidBetShape)
    } else {
        None
    }
}

/// The first fault of a list of bets is one error and no other.
pub proof fn lemma_first_bet_fault_unique(bets: Seq<Bet>, config: Config, e: BetError, f: BetError)
    requires
        first_bet_fault(bets, config, e),
        first_bet_fault(bets, config, f),
    ensures
        e == f,
        !bets_in_order(bets, config),
{
    let i = choose|i: int|
        0 <= i < bets.len() && #[trigger] bet_fault(bets, config, i) == Some(e) && forall|j: int|
            0 <= j < i ==> (#[trigger] bet_fault(bets, config, j)) is None;
    let k = choose|k: int|
        0 <= k < bets.len() && #[trigger] bet_fault(bets, config, k) == Some(f) && forall|j: int|
            0 <= j < k ==> (#[trigger] bet_fault(bets, config, j)) is None;
    assert(i == k) by {
        if i < k {
            assert(bet_fault(bets, config, i) is None);
        }
        if k < i {
            assert(bet_fault(bets, config, k) is None);
        }
    }
}

/// The first fault of a list of attached coins is one error and no other.
pub proof fn lemma_first_fund_fault_unique(
    funds: Seq<Coin>,
    config: Config,
    e: BetError,
    f: BetError,
)
    requires
        first_fund_fault(funds, config, e),
        first_fund_fault(funds, config, f),
    ensures
        e == f,
        !funds_in_order(funds, config),
{
    let i = choose|i: int|
        0 <= i < funds.len() && #[trigger] fund_fault(funds, config, i) == Some(e) && forall|
            j: int,
        | 0 <= j < i ==> (#[trigger] fund_fault(funds, config, j)) is None;
    let k = choose|k: int|
        0 <= k < funds.len() && #[trigger] fund_fault(funds, config, k) == Some(f) && forall|
            j: int,
        | 0 <= j < k ==> (#[trigger] fund_fault(funds, config, j)) is None;
    assert(i == k) by {
        if i < k {
            assert(fund_fault(funds, config, i) is None);
        }
        if k < i {
            assert(fund_fault(funds, config, k) is None);
        }
    }
}

/// Whether every bet is on a category that is consistent in itself.
pub fn validate_shapes(bets: &Vec<Bet>) -> (r: bool)
    ensures
        r == shapes_valid(bets@),
{
    let mut i: usize = 0;
    while i < bets.len()
        invariant
            i <= bets.len(),
            forall|j: int| 0 <= j < i ==> (#[trigger] bets[j]).result.well_formed(),
        decreases bets.len() - i,
    {
        if !bets[i].result.validate() {
            return false;
        }
        i += 1;
    }
    true
}

/// Holds a request against the table before any number is drawn.
pub fn validate_request(config: &Config, funds: &Vec<Coin>, bets: &Vec<Bet>) -> (r: Result<
    (),
    BetError,
>)
    ensures
        r == (match request_fault(*config, funds@, bets@) {
            Some(e) => Err::<(), BetError>(e),
            None => Ok(()),
        }),
{
    let sums = match calculate_sum_coins_of_bets(bets, config) {
        Ok(sums) => sums,
        Err(e) => {
            proof {
                let f = choose|f: BetError| first_bet_fault(bets@, *config, f);
                lemma_first_bet_fault_unique(bets@, *config, e, f);
            }
            return Err(e);
        },
    };
    match validate_amounts(funds, config) {
        Ok(_) => {},
        Err(e) => {
            proof {
                let f = choose|f: BetError| first_fund_fault(funds@, *config, f);
                lemma_first_fund_fault_unique(funds@, *config, e, f);
            }
            return Err(e);
        },
    }
    if !check_coins_match_input(&sums, funds) {
        return Err(BetError::FundsMismatch);
    }
    if !validate_shapes(bets) {
        return Err(BetError::InvalidBetShape);
    }
    Ok(())
}

/// What a request comes to: the number that was drawn, every category that
/// wins on it, and the winnings in each currency.
#[derive(Clone, Debug)]
pub struct SettlementResult {
    pub drawn_number: u32,
    pub winning_categories: Vec<GameResult>,
    pub payouts: Vec<Coin>,
}

/// What a bet wins when a number that its category covers is drawn: its
/// stake times the multiplier of its category, in the currency of the stake.
pub open spec fn prize(bet: Bet) -> Stake {
    Stake {
        denom: bet.amount.denom@,
        amount: bet.amount.amount as nat * bet.result.multiplier(),
    }
}

/// The prizes of the bets that win when `n` is drawn, in the order of the
/// bets. A bet wins where its category covers `n`.
pub open spec fn winnings(bets: Seq<Bet>, n: int) -> Seq<Stake>
    decreases bets.len(),
{
    if bets.len() == 0 {
        Seq::empty()
    } else if covers(bets.last().result@, n) {
        winnings(bets.drop_last(), n).push(prize(bets.last()))
    } else {
        winnings(bets.drop_last(), n)
    }
}

/// Whether the winnings in every currency are a quantity that a coin can hold.
pub open spec fn prizes_fit(bets: Seq<Bet>, n: int) -> bool {
    forall|d: Seq<char>| total(winnings(bets, n), d) <= u128::MAX
}

/// `s` is the settlement of the bets on the drawn number `n`: it lists every
/// category that covers `n` once, and its payouts are the tally of the
/// winnings.
pub open spec fn settled(bets: Seq<Bet>, n: int, s: SettlementResult) -> bool {
    &&& s.drawn_number == n
    &&& forall|c: Category|
        #![trigger listed(s.winning_categories@, c)]
        #![trigger covers(c, n)]
        listed(s.winning_categories@, c) <==> covers(c, n)
    &&& distinct(s.winning_categories@)
    &&& all_well_formed(s.winning_categories@)
    &&& is_tally_of(stakes(s.payouts@), winnings(bets, n))
}

/// The winnings of the first bets of a list are part of the winnings of the
/// list: no total of them is larger.
pub proof fn lemma_winnings_grow(bets: Seq<Bet>, n: int, k: int, d: Seq<char>)
    requires
        0 <= k <= bets.len(),
    ensures
        total(winnings(bets.take(k), n), d) <= total(winnings(bets, n), d),
    decreases bets.len() - k,
{
    if k < bets.len() {
        let next = bets.take(k + 1);
        assert(next.drop_last() =~= bets.take(k));
        lemma_total_push(winnings(bets.take(k), n), prize(next.last()), d);
        lemma_winnings_grow(bets, n, k + 1, d);
    } else {
        assert(bets.take(k) =~= bets);
    }
}

/// Whether the list holds a category that names the same region as `g`.
pub fn is_winner(winners: &Vec<GameResult>, g: &GameResult) -> (r: bool)
    ensures
        r == listed(winners@, g@),
{
    let mut i: usize = 0;
    while i < winners.len()
        invariant
            i <= winners.len(),
            forall|j: int| 0 <= j < i ==> (#[trigger] winners[j])@ != g@,
        decreases winners.len() - i,
    {
        if winners[i] == *g {
            return true;
        }
        i += 1;
    }
    false
}

/// Settles the bets on a number that was drawn: expands the number into the
/// categories that win on it, and adds up, currency by currency, the stake of
/// each winning bet times the multiplier of its category. Winnings that no
/// coin can hold fail the whole.
pub fn settle(bets: &Vec<Bet>, drawn: u32) -> (r: Result<SettlementResult, BetError>)
    requires
        drawn <= 36,
    ensures
        match r {
            Ok(s) => prizes_fit(bets@, drawn as int) && settled(bets@, drawn as int, s),
            Err(e) => e == BetError::Overflow && !prizes_fit(bets@, drawn as int),
        },
{
    let ghost n = drawn as int;
    let winners = return_winning_numbers(drawn);
    let mut payouts: Vec<Coin> = Vec::new();
    let mut i: usize = 0;
    while i < bets.len()
        invariant
            i <= bets.len(),
            n == drawn as int,
            forall|c: Category|
                #![trigger listed(winners@, c)]
                #![trigger covers(c, n)]
                listed(winners@, c) <==> covers(c, n),
            is_tally(stakes(payouts@)),
            balanced(stakes(payouts@), winnings(bets@.take(i as int), n)),
            forall|d: Seq<char>|
                has_denom(stakes(payouts@), d) <==> has_denom(
                    winnings(bets@.take(i as int), n),
                    d,
                ),
            denoms(stakes(payouts@)) == currencies(winnings(bets@.take(i as int), n)),
        decreases bets.len() - i,
    {
        let bet = &bets[i];
        let ghost won_before = winnings(bets@.take(i as int), n);
        let ghost next = bets@.take(i as int + 1);
        proof {
            assert(next.drop_last() =~= bets@.take(i as int));
            assert(next.last() == bets@[i as int]);
        }
        if is_winner(&winners, &bet.result) {
            proof {
                lemma_total_push(won_before, prize(*bet), bet.amount.denom@);
                lemma_winnings_grow(bets@, n, i as int + 1, bet.amount.denom@);
            }
            let won = match bet.amount.amount.checked_mul(bet.result.payout() as u128) {
                Some(won) => won,
                None => {
                    return Err(BetError::Overflow);
                },
            };
            if !add_to_tally(&mut payouts, &bet.amount.denom, won) {
                return Err(BetError::Overflow);
            }
            proof {
                let x = prize(*bet);
                let won_after = won_before.push(x);
                assert(winnings(next, n) == won_after);
                assert(won_after.drop_last() =~= won_before);
                assert forall|d: Seq<char>|
                    total(stakes(payouts@), d) == total(won_after, d) by {
                    lemma_total_push(won_before, x, d);
                }
                assert forall|d: Seq<char>|
                    has_denom(stakes(payouts@), d) <==> has_denom(won_after, d) by {
                    if has_denom(won_before, d) {
                        let j = choose|j: int|
                            0 <= j < won_before.len() && (#[trigger] won_before[j]).denom == d;
                        assert(won_after[j].denom == d);
                    }
                    if d == x.denom {
                        assert(won_after[won_before.len() as int].denom == d);
                    }
                    if has_denom(won_after, d) {
                        let j = choose|j: int|
                            0 <= j < won_after.len() && (#[trigger] won_after[j]).denom == d;
                        if j < won_before.len() {
                            assert(won_before[j].denom == d);
                        }
                    }
                }
            }
        }
        i += 1;
    }
    proof {
        assert(bets@.take(i as int) =~= bets@);
        lemma_is_tally_of(stakes(payouts@), winnings(bets@, n));
        assert forall|d: Seq<char>| total(winnings(bets@, n), d) <= u128::MAX by {
            lemma_tally_total_fits(stakes(payouts@), d);
        }
    }
    Ok(SettlementResult { drawn_number: drawn, winning_categories: winners, payouts })
}

/// `r` is what a request comes to. A request that the table turns down fails
/// with the reason, whatever the seed; one that is in order fails without a
/// seed; with a seed it is settled on the number drawn from the seed, unless
/// the winnings are more than a coin can hold.
pub open spec fn resolves(
    bets: Seq<Bet>,
    funds: Seq<Coin>,
    seed: Option<Vec<u8>>,
    config: Config,
    r: Result<SettlementResult, BetError>,
) -> bool {
    match request_fault(config, funds, bets) {
        Some(e) => r == Err::<SettlementResult, BetError>(e),
        None => match seed {
            None => r == Err::<SettlementResult, BetError>(BetError::RandomnessUnavailable),
            Some(bytes) => match r {
                Ok(s) => prizes_fit(bets, drawn_number(bytes@)) && settled(
                    bets,
                    drawn_number(bytes@),
                    s,
                ),
                Err(e) => e == BetError::Overflow && !prizes_fit(bets, drawn_number(bytes@)),
            },
        },
    }
}

/// Settles one request from end to end. The request is held against the table
/// first, so that a request that is turned down draws no number; then the
/// number is drawn from the seed, and the bets are settled on it.
pub fn handle_game_result(
    bets: &Vec<Bet>,
    funds: &Vec<Coin>,
    seed: &Option<Vec<u8>>,
    config: &Config,
) -> (r: Result<SettlementResult, BetError>)
    ensures
        resolves(bets@, funds@, *seed, *config, r),
{
    match validate_request(config, funds, bets) {
        Ok(_) => {},
        Err(e) => {
            return Err(e);
        },
    }
    match seed {
        None => Err(BetError::RandomnessUnavailable),
        Some(bytes) => {
            let drawn = draw(bytes.as_slice());
            settle(bets, drawn)
        },
    }
}

} // verus!
