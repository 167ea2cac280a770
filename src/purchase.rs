//! Buying shares: pricing, validation, and crediting the buyer's position.

use crate::address::{investment_address, investment_seeds, program_address, same_address, Address};
use crate::error::EstateError;
use crate::state::{
    held_by, lemma_shares_held_update, price_per_share, shares_held, Ledger, LedgerView, Property, UserInvestment,
    Vault,
};
use crate::table::{find_index, has_key, index_of, keys_unique, lemma_index_of, lemma_index_of_push, lemma_index_of_same_keys};
use vstd::prelude::*;

verus! {

/// The token account that a buyer pays from.
#[derive(Debug, Clone, Copy)]
pub struct PaymentAccount {
    pub key: Address,
    pub mint: Address,
    pub owner: Address,
}

/// The accounts of a purchase: the property, the buyer, and the buyer's payment account.
#[derive(Debug, Clone, Copy)]
pub struct BuyShare {
    pub property: Address,
    pub buyer: Address,
    pub user_usdc_account: PaymentAccount,
}

/// A purchase that passed validation: the payment to transfer and the shares to credit.
#[derive(Debug, Clone, Copy)]
pub struct Purchase {
    pub property: Address,
    /// The account the payment is taken from.
    pub from: Address,
    /// The property's vault, which receives the payment.
    pub vault: Address,
    pub total_cost: u64,
    pub shares: u64,
    /// The address of the buyer's position.
    pub investment: Address,
}

/// Where a valid purchase reads and writes: positions in the ledger's tables, the
/// position's derived address, and the payment due.
pub struct PurchasePlan {
    pub property_index: int,
    pub vault_index: int,
    /// The buyer's position, or -1 where this is the buyer's first purchase.
    pub investment_index: int,
    pub investment: Seq<u8>,
    pub investment_bump: u8,
    pub cost: int,
}

/// The payment for `shares` shares: the price per share, truncated, times the shares.
pub open spec fn purchase_cost(p: Property, shares: u64) -> int {
    price_per_share(p) * shares
}

/// The outcome of validating a purchase of `shares` shares: where it reads and writes,
/// or the error.
pub open spec fn purchase_outcome(v: LedgerView, ctx: BuyShare, shares: u64) -> Result<PurchasePlan, EstateError> {
    let k = index_of(v.properties, ctx.property@);
    if k < 0 {
        Err(EstateError::UnknownProperty)
    } else {
        let p = v.properties[k].1;
        if shares == 0 || shares > p.total_shares - p.shares_sold {
            Err(EstateError::Oversold)
        } else if ctx.user_usdc_account.mint@ != p.usdc_mint@ {
            Err(EstateError::AssetMismatch)
        } else if ctx.user_usdc_account.owner@ != ctx.buyer@ {
            Err(EstateError::OwnerMismatch)
        } else {
            match program_address(investment_seeds(ctx.property@, ctx.buyer@), v.program_id) {
                None => Err(EstateError::AddressUnavailable),
                Some((ia, ib)) => {
                    let j = index_of(v.investments, ia);
                    if j >= 0 && (v.investments[j].1.property@ != ctx.property@ || v.investments[j].1.owner@
                        != ctx.buyer@) {
                        Err(EstateError::AddressUnavailable)
                    } else {
                        Ok(
                            PurchasePlan {
                                property_index: k,
                                vault_index: index_of(v.vaults, p.vault_account@),
                                investment_index: j,
                                investment: ia,
                                investment_bump: ib,
                                cost: purchase_cost(p, shares),
                            },
                        )
                    }
                },
            }
        }
    }
}

/// `new` is `old` after the purchase `plan` of `shares` shares was paid: the property
/// has sold them, its vault holds the payment, and the buyer's position holds them,
/// created empty on the first purchase.
pub open spec fn purchased(old: LedgerView, new: LedgerView, ctx: BuyShare, shares: u64, plan: PurchasePlan) -> bool {
    let (pa, p) = old.properties[plan.property_index];
    let (va, vault) = old.vaults[plan.vault_index];
    let j = plan.investment_index;
    &&& new.program_id == old.program_id
    &&& new.properties == old.properties.update(
        plan.property_index,
        (pa, Property { shares_sold: (p.shares_sold + shares) as u64, ..p }),
    )
    &&& new.vaults == old.vaults.update(plan.vault_index, (va, Vault { amount: (vault.amount + plan.cost) as u64, ..vault }))
    &&& if j >= 0 {
        let (ia, i) = old.investments[j];
        new.investments == old.investments.update(j, (ia, UserInvestment { shares_owned: (i.shares_owned + shares) as u64, ..i }))
    } else {
        &&& new.investments.len() == old.investments.len() + 1
        &&& new.investments.drop_last() == old.investments
        &&& new.investments.last().0@ == plan.investment
        &&& new.investments.last().1 == UserInvestment {
            owner: ctx.buyer,
            property: ctx.property,
            shares_owned: shares,
            total_claimed: 0,
            bump: plan.investment_bump,
        }
    }
}

/// The truncated price per share, times any share count up to the total, stays within the price.
pub proof fn lemma_cost_bound(price: int, total: int, sold: int, shares: int)
    requires
        0 < total,
        0 <= price,
        0 <= sold,
        0 <= shares,
        sold + shares <= total,
    ensures
        0 <= (price / total) * shares,
        (price / total) * sold + (price / total) * shares == (price / total) * (sold + shares),
        (price / total) * (sold + shares) <= price,
{
    let q = price / total;
    assert(q * total <= price) by (nonlinear_arith)
        requires
            q == price / total,
            0 < total,
            0 <= price,
    ;
    assert(0 <= q * shares && q * (sold + shares) <= q * total && q * sold + q * shares == q * (sold + shares))
        by (nonlinear_arith)
        requires
            0 <= q,
            0 <= sold,
            0 <= shares,
            sold + shares <= total,
    ;
}

/// One position holds no more of a property than all positions together.
pub proof fn lemma_held_by_le(s: Seq<(Address, UserInvestment)>, j: int, property: Seq<u8>)
    requires
        0 <= j < s.len(),
    ensures
        0 <= held_by(s[j].1, property) <= shares_held(s, property),
    decreases s.len(),
{
    lemma_shares_held_nonneg(s.drop_last(), property);
    if j < s.len() - 1 {
        lemma_held_by_le(s.drop_last(), j, property);
        assert(s.drop_last()[j] == s[j]);
    }
}

/// Positions hold a non-negative number of shares.
pub proof fn lemma_shares_held_nonneg(s: Seq<(Address, UserInvestment)>, property: Seq<u8>)
    ensures
        0 <= shares_held(s, property),
    decreases s.len(),
{
    if s.len() > 0 {
        lemma_shares_held_nonneg(s.drop_last(), property);
    }
}

/// What a valid purchase finds: the property at its address, its vault, and the
/// buyer's position where there is one.
pub proof fn lemma_purchase_check(v: LedgerView, ctx: BuyShare, shares: u64, plan: PurchasePlan)
    requires
        v.wf(),
        purchase_outcome(v, ctx, shares) == Ok::<PurchasePlan, EstateError>(plan),
    ensures
        0 <= plan.property_index < v.properties.len(),
        v.properties[plan.property_index].0@ == ctx.property@,
        0 <= plan.vault_index < v.vaults.len(),
        v.vaults[plan.vault_index].0@ == v.properties[plan.property_index].1.vault_account@,
        v.vault_of(plan.property_index) == v.vaults[plan.vault_index].1,
        -1 <= plan.investment_index < v.investments.len(),
        plan.investment_index >= 0 ==> v.investments[plan.investment_index].0@ == plan.investment
            && v.investments[plan.investment_index].1.property@ == ctx.property@
            && v.investments[plan.investment_index].1.owner@ == ctx.buyer@,
        plan.investment_index < 0 ==> forall|m: int| 0 <= m < v.investments.len() ==> v.investments[m].0@ != plan.investment,
{
    let k = plan.property_index;
    lemma_index_of(v.properties, ctx.property@);
    let acc = v.properties[k].1.vault_account@;
    assert(has_key(v.vaults, v.properties[k].1.vault_account@));
    lemma_index_of(v.vaults, acc);
    lemma_index_of(v.investments, plan.investment);
}

/// A paid purchase keeps the ledger's invariant.
pub proof fn lemma_purchase_keeps_wf(old: LedgerView, new: LedgerView, ctx: BuyShare, shares: u64, plan: PurchasePlan)
    requires
        old.wf(),
        purchase_outcome(old, ctx, shares) == Ok::<PurchasePlan, EstateError>(plan),
        purchased(old, new, ctx, shares, plan),
    ensures
        new.wf(),
{
    lemma_purchase_check(old, ctx, shares, plan);
    let k = plan.property_index;
    let vi = plan.vault_index;
    let j = plan.investment_index;
    let (pa, p) = old.properties[k];
    let pv = old.vaults[vi].1;
    assert(p.total_shares > 0 && p.shares_sold <= p.total_shares);
    lemma_cost_bound(p.price as int, p.total_shares as int, p.shares_sold as int, shares as int);
    assert(old.vault_of(k).amount as int == price_per_share(old.properties[k].1) * old.properties[k].1.shares_sold);
    assert(old.properties[k].1.shares_sold as int == shares_held(old.investments, old.properties[k].0@));
    // the properties keep their addresses and vaults
    assert forall|i: int| 0 <= i < new.properties.len() implies #[trigger] new.properties[i].0@ == old.properties[i].0@
        && new.properties[i].1.vault_account@ == old.properties[i].1.vault_account@
        && new.properties[i].1.usdc_mint@ == old.properties[i].1.usdc_mint@
        && new.properties[i].1.total_shares == old.properties[i].1.total_shares
        && new.properties[i].1.price == old.properties[i].1.price
        && (i != k ==> new.properties[i] == old.properties[i]) by {}
    assert forall|i: int| 0 <= i < new.vaults.len() implies #[trigger] new.vaults[i].0@ == old.vaults[i].0@
        && (i != vi ==> new.vaults[i] == old.vaults[i]) by {}
    assert(keys_unique(new.properties));
    assert(keys_unique(new.vaults));
    if j >= 0 {
        lemma_held_by_le(old.investments, j, ctx.property@);
    }
    // the shares held in each property after the purchase
    assert forall|a: Seq<u8>| #[trigger] shares_held(new.investments, a) == shares_held(old.investments, a) + if a
        == ctx.property@ {
        shares as int
    } else {
        0
    } by {
        if j >= 0 {
            let e = new.investments[j];
            assert(new.investments == old.investments.update(j, e));
            lemma_shares_held_update(old.investments, j, e, a);
        } else {
            assert(new.investments.drop_last() =~= old.investments);
        }
    }
    if j >= 0 {
        assert forall|m: int| 0 <= m < new.investments.len() implies #[trigger] new.investments[m].0@ == old.investments[m].0@
            && new.investments[m].1.property == old.investments[m].1.property
            && new.investments[m].1.owner == old.investments[m].1.owner
            && new.investments[m].1.bump == old.investments[m].1.bump by {}
        assert(keys_unique(new.investments));
    } else {
        let n = old.investments.len();
        assert forall|m: int| 0 <= m < n implies #[trigger] new.investments[m] == old.investments[m] by {
            assert(new.investments.drop_last()[m] == new.investments[m]);
        }
        assert(keys_unique(new.investments));
    }
    assert forall|i: int| 0 <= i < new.properties.len() implies #[trigger] new.properties[i].1.shares_sold as int
        == shares_held(new.investments, new.properties[i].0@) by {
        assert(old.properties[i].1.shares_sold as int == shares_held(old.investments, old.properties[i].0@));
        if i != k {
            assert(old.properties[i].0@ != old.properties[k].0@);
        }
    }
    assert(new.shares_balanced());
    assert forall|i: int| 0 <= i < new.properties.len() implies 0 < #[trigger] new.properties[i].1.total_shares
        && new.properties[i].1.shares_sold <= new.properties[i].1.total_shares by {
        assert(0 < old.properties[i].1.total_shares);
    }
    assert(new.within_supply());
    assert forall|i: int| #![trigger new.properties[i]] 0 <= i < new.properties.len() implies has_key(new.vaults, new.properties[i].1.vault_account@)
        && new.vault_of(i).amount as int == price_per_share(new.properties[i].1) * new.properties[i].1.shares_sold
        && new.vault_of(i).mint@ == new.properties[i].1.usdc_mint@ by {
        let acc = old.properties[i].1.vault_account@;
        assert(has_key(old.vaults, old.properties[i].1.vault_account@));
        assert(old.vault_of(i).amount as int == price_per_share(old.properties[i].1) * old.properties[i].1.shares_sold);
        assert(old.vault_of(i).mint@ == old.properties[i].1.usdc_mint@);
        lemma_index_of_same_keys(old.vaults, new.vaults, acc);
        lemma_index_of(old.vaults, acc);
        if i != k {
            assert(old.properties[i].1.vault_account@ != old.properties[k].1.vault_account@);
            assert(index_of(old.vaults, acc) != vi);
        }
    }
    assert forall|i: int, m: int|
        0 <= i < new.properties.len() && 0 <= m < new.properties.len()
            && #[trigger] new.properties[i].1.vault_account@ == #[trigger] new.properties[m].1.vault_account@
        implies i == m by {
        assert(old.properties[i].1.vault_account@ == old.properties[m].1.vault_account@);
    }
    assert(new.vaults_funded());
    assert forall|m: int| 0 <= m < new.investments.len() implies has_key(new.properties, #[trigger] new.investments[m].1.property@)
        && program_address(investment_seeds(new.investments[m].1.property@, new.investments[m].1.owner@), new.program_id)
            == Some((new.investments[m].0@, new.investments[m].1.bump)) by {
        let q = new.investments[m].1.property@;
        lemma_index_of_same_keys(old.properties, new.properties, q);
        if m < old.investments.len() {
            assert(has_key(old.properties, old.investments[m].1.property@));
        } else {
            lemma_index_of(old.properties, ctx.property@);
        }
    }
    assert(new.positions_addressed());
}

/// Validates a purchase of `shares_amount` shares and prices it: the price of all
/// shares divided by their number, truncated, times the shares bought. Nothing changes.
pub fn prepare_buy(ledger: &Ledger, ctx: &BuyShare, shares_amount: u64) -> (r: Result<Purchase, EstateError>)
    requires
        ledger@.wf(),
    ensures
        match purchase_outcome(ledger@, *ctx, shares_amount) {
            Err(e) => r == Err::<Purchase, EstateError>(e),
            Ok(plan) => r is Ok && {
                let q = r->Ok_0;
                &&& q.property == ctx.property
                &&& q.from == ctx.user_usdc_account.key
                &&& q.vault == ledger@.properties[plan.property_index].1.vault_account
                &&& q.total_cost as int == plan.cost
                &&& q.shares == shares_amount
                &&& q.investment@ == plan.investment
            },
        },
{
    let validated = validate_purchase(ledger, ctx, shares_amount);
    match validated {
        Err(e) => Err(e),
        Ok((k, _vi, _j, ia, _ib, cost)) => {
            proof {
                lemma_purchase_check(ledger@, *ctx, shares_amount, purchase_outcome(ledger@, *ctx, shares_amount)->Ok_0);
            }
            Ok(
            Purchase {
                property: ctx.property,
                from: ctx.user_usdc_account.key,
                vault: ledger.properties[k].1.vault_account,
                total_cost: cost,
                shares: shares_amount,
                investment: ia,
            },
        )
        },
    }
}

/// The validation of a purchase, with the positions it reads and writes.
fn validate_purchase(ledger: &Ledger, ctx: &BuyShare, shares_amount: u64) -> (r: Result<
    (usize, usize, Option<usize>, Address, u8, u64),
    EstateError,
>)
    requires
        ledger@.wf(),
    ensures
        match purchase_outcome(ledger@, *ctx, shares_amount) {
            Err(e) => r == Err::<(usize, usize, Option<usize>, Address, u8, u64), EstateError>(e),
            Ok(plan) => r is Ok && {
                let (k, vi, j, ia, ib, cost) = r->Ok_0;
                &&& k as int == plan.property_index
                &&& vi as int == plan.vault_index
                &&& match j {
                    Some(j) => j as int == plan.investment_index,
                    None => plan.investment_index == -1,
                }
                &&& ia@ == plan.investment
                &&& ib == plan.investment_bump
                &&& cost as int == plan.cost
            },
        },
{
    let k = match find_index(&ledger.properties, &ctx.property) {
        None => {
            return Err(EstateError::UnknownProperty);
        },
        Some(k) => k,
    };
    let property = &ledger.properties[k].1;
    if shares_amount == 0 || shares_amount > property.total_shares - property.shares_sold {
        return Err(EstateError::Oversold);
    }
    if !same_address(&ctx.user_usdc_account.mint, &property.usdc_mint) {
        return Err(EstateError::AssetMismatch);
    }
    if !same_address(&ctx.user_usdc_account.owner, &ctx.buyer) {
        return Err(EstateError::OwnerMismatch);
    }
    let (ia, ib) = match investment_address(&ctx.property, &ctx.buyer, &ledger.program_id) {
        None => {
            return Err(EstateError::AddressUnavailable);
        },
        Some(found) => found,
    };
    let j = find_index(&ledger.investments, &ia);
    if let Some(j) = j {
        let held = &ledger.investments[j].1;
        if !same_address(&held.property, &ctx.property) || !same_address(&held.owner, &ctx.buyer) {
            return Err(EstateError::AddressUnavailable);
        }
    }
    proof {
        assert(has_key(ledger@.vaults, ledger@.properties[k as int].1.vault_account@));
    }
    let vi = match find_index(&ledger.vaults, &property.vault_account) {
        None => {
            return Err(EstateError::UnknownProperty);
        },
        Some(vi) => vi,
    };
    proof {
        lemma_cost_bound(property.price as int, property.total_shares as int, property.shares_sold as int, shares_amount as int);
    }
    let per_share = property.price / property.total_shares;
    let cost = match per_share.checked_mul(shares_amount) {
        None => {
            return Err(EstateError::ArithmeticOverflow);
        },
        Some(cost) => cost,
    };
    Ok((k, vi, j, ia, ib, cost))
}

/// Buys `shares_amount` shares of the property at `ctx.property` for `ctx.buyer`,
/// given what the token transfer of the payment (see `prepare_buy`) returned. A
/// valid purchase whose payment went through adds the shares to the property's
/// shares sold and to the buyer's position, created on the first purchase, and the
/// payment to the vault's balance. Anything else changes nothing. No amount overflows:
/// a vault never holds more than the price of all its property's shares.
pub fn buy_share(ledger: &mut Ledger, ctx: &BuyShare, shares_amount: u64, transfer: Result<(), u32>) -> (r: Result<
    (),
    EstateError,
>)
    requires
        old(ledger)@.wf(),
    ensures
        final(ledger)@.wf(),
        transfer is Err ==> final(ledger)@ == old(ledger)@,
        r is Err ==> final(ledger)@ == old(ledger)@,
        r != Err::<(), EstateError>(EstateError::ArithmeticOverflow),
        match purchase_outcome(old(ledger)@, *ctx, shares_amount) {
            Err(e) => r == Err::<(), EstateError>(e),
            Ok(plan) => match transfer {
                Err(code) => r == Err::<(), EstateError>(EstateError::TransferRejected(code)),
                Ok(_) => r is Ok && purchased(old(ledger)@, final(ledger)@, *ctx, shares_amount, plan),
            },
        },
{
    let ghost pre = ledger@;
    let (k, vi, j, ia, ib, cost) = match validate_purchase(ledger, ctx, shares_amount) {
        Err(e) => {
            return Err(e);
        },
        Ok(found) => found,
    };
    let ghost plan = purchase_outcome(pre, *ctx, shares_amount)->Ok_0;
    proof {
        lemma_purchase_check(pre, *ctx, shares_amount, plan);
        let p = pre.properties[k as int].1;
        lemma_cost_bound(p.price as int, p.total_shares as int, p.shares_sold as int, shares_amount as int);
        assert(pre.vault_of(k as int).amount as int == price_per_share(pre.properties[k as int].1)
            * pre.properties[k as int].1.shares_sold);
        assert(pre.properties[k as int].1.shares_sold as int == shares_held(pre.investments, pre.properties[k as int].0@));
        if j is Some {
            lemma_held_by_le(pre.investments, plan.investment_index, ctx.property@);
        }
    }
    let balance = match ledger.vaults[vi].1.amount.checked_add(cost) {
        None => {
            return Err(EstateError::ArithmeticOverflow);
        },
        Some(balance) => balance,
    };
    if let Err(code) = transfer {
        return Err(EstateError::TransferRejected(code));
    }
    let sold = ledger.properties[k].1.shares_sold + shares_amount;
    ledger.properties[k].1.shares_sold = sold;
    ledger.vaults[vi].1.amount = balance;
    match j {
        Some(j) => {
            let owned = ledger.investments[j].1.shares_owned + shares_amount;
            ledger.investments[j].1.shares_owned = owned;
        },
        None => {
            let position = UserInvestment {
                owner: ctx.buyer,
                property: ctx.property,
                shares_owned: shares_amount,
                total_claimed: 0,
                bump: ib,
            };
            ledger.investments.push((ia, position));
        },
    }
    proof {
        assert(ledger@.properties =~= pre.properties.update(k as int, (pre.properties[k as int].0, Property {
            shares_sold: (pre.properties[k as int].1.shares_sold + shares_amount) as u64,
            ..pre.properties[k as int].1
        })));
        assert(ledger@.vaults =~= pre.vaults.update(vi as int, (pre.vaults[vi as int].0, Vault {
            amount: (pre.vaults[vi as int].1.amount + plan.cost) as u64,
            ..pre.vaults[vi as int].1
        })));
        if j is None {
            assert(ledger@.investments.drop_last() =~= pre.investments);
        } else {
            let jj = plan.investment_index;
            assert(ledger@.investments =~= pre.investments.update(jj, (pre.investments[jj].0, UserInvestment {
                shares_owned: (pre.investments[jj].1.shares_owned + shares_amount) as u64,
                ..pre.investments[jj].1
            })));
        }
        lemma_purchase_keeps_wf(pre, ledger@, *ctx, shares_amount, plan);
    }
    Ok(())
}

} // verus!
