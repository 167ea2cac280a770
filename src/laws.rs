//! Properties that hold across the ledger's transitions.

use crate::address::{investment_seeds, program_address, Address};
use crate::error::EstateError;
use crate::listing::{lemma_listing_keeps_wf, listed, listing_outcome, ListProperty, ListingPlan};
use crate::purchase::{lemma_purchase_check, lemma_purchase_keeps_wf, purchase_outcome, purchased, BuyShare, PurchasePlan};
use crate::state::{LedgerView, UserInvestment};
use crate::table::{index_of, lemma_index_of};
use vstd::prelude::*;
use vstd::utf8::encode_utf8;

verus! {

/// Whether a position belongs to `owner` in the property at `property`.
pub open spec fn position_of(i: UserInvestment, property: Seq<u8>, owner: Seq<u8>) -> bool {
    i.property@ == property && i.owner@ == owner
}

/// The number of positions of `owner` in the property at `property`.
pub open spec fn position_count(s: Seq<(Address, UserInvestment)>, property: Seq<u8>, owner: Seq<u8>) -> int
    decreases s.len(),
{
    if s.len() == 0 {
        0
    } else {
        position_count(s.drop_last(), property, owner) + if position_of(s.last().1, property, owner) {
            1int
        } else {
            0
        }
    }
}

/// The shares that `owner` holds in the property at `property`, over all their positions.
pub open spec fn position_shares(s: Seq<(Address, UserInvestment)>, property: Seq<u8>, owner: Seq<u8>) -> int
    decreases s.len(),
{
    if s.len() == 0 {
        0
    } else {
        position_shares(s.drop_last(), property, owner) + if position_of(s.last().1, property, owner) {
            s.last().1.shares_owned as int
        } else {
            0
        }
    }
}

/// A paid purchase keeps every property's shares sold equal to the shares that its
/// positions hold.
pub proof fn purchase_keeps_shares_balanced(
    old: LedgerView,
    new: LedgerView,
    ctx: BuyShare,
    shares: u64,
    plan: PurchasePlan,
)
    requires
        old.wf(),
        purchase_outcome(old, ctx, shares) == Ok::<PurchasePlan, EstateError>(plan),
        purchased(old, new, ctx, shares, plan),
    ensures
        new.shares_balanced(),
{
    lemma_purchase_keeps_wf(old, new, ctx, shares, plan);
}

/// A listing keeps every property's shares sold equal to the shares that its
/// positions hold.
pub proof fn listing_keeps_shares_balanced(
    old: LedgerView,
    new: LedgerView,
    plan: ListingPlan,
    ctx: ListProperty,
    name: String,
    location: String,
    image_url: String,
    price: u64,
    total_shares: u64,
)
    requires
        old.wf(),
        listing_outcome(old, encode_utf8(name@), encode_utf8(location@), encode_utf8(image_url@), total_shares)
            == Ok::<ListingPlan, EstateError>(plan),
        listed(old, new, plan, ctx, name, location, image_url, price, total_shares),
    ensures
        new.shares_balanced(),
{
    lemma_listing_keeps_wf(old, new, plan, ctx, name, location, image_url, price, total_shares);
}

/// A paid purchase never takes a property's shares sold past its total shares.
pub proof fn purchase_keeps_within_supply(
    old: LedgerView,
    new: LedgerView,
    ctx: BuyShare,
    shares: u64,
    plan: PurchasePlan,
)
    requires
        old.wf(),
        purchase_outcome(old, ctx, shares) == Ok::<PurchasePlan, EstateError>(plan),
        purchased(old, new, ctx, shares, plan),
    ensures
        new.within_supply(),
{
    lemma_purchase_keeps_wf(old, new, ctx, shares, plan);
}

/// A listing never takes a property's shares sold past its total shares.
pub proof fn listing_keeps_within_supply(
    old: LedgerView,
    new: LedgerView,
    plan: ListingPlan,
    ctx: ListProperty,
    name: String,
    location: String,
    image_url: String,
    price: u64,
    total_shares: u64,
)
    requires
        old.wf(),
        listing_outcome(old, encode_utf8(name@), encode_utf8(location@), encode_utf8(image_url@), total_shares)
            == Ok::<ListingPlan, EstateError>(plan),
        listed(old, new, plan, ctx, name, location, image_url, price, total_shares),
    ensures
        new.within_supply(),
{
    lemma_listing_keeps_wf(old, new, plan, ctx, name, location, image_url, price, total_shares);
}

/// Listing again under a name that is already listed fails with `DuplicateListing`,
/// whatever the other terms.
pub proof fn relisting_is_duplicate(
    old: LedgerView,
    new: LedgerView,
    plan: ListingPlan,
    ctx: ListProperty,
    name: String,
    location: String,
    image_url: String,
    price: u64,
    total_shares: u64,
    location2: String,
    image_url2: String,
    total_shares2: u64,
)
    requires
        old.wf(),
        listing_outcome(old, encode_utf8(name@), encode_utf8(location@), encode_utf8(image_url@), total_shares)
            == Ok::<ListingPlan, EstateError>(plan),
        listed(old, new, plan, ctx, name, location, image_url, price, total_shares),
    ensures
        listing_outcome(new, encode_utf8(name@), encode_utf8(location2@), encode_utf8(image_url2@), total_shares2)
            == Err::<ListingPlan, EstateError>(EstateError::DuplicateListing),
{
    assert(index_of(new.properties, plan.property) == new.properties.len() - 1);
}

/// Where only the entry at `j` is a position of the buyer, they have one position,
/// holding what that entry holds; where none is, they have none.
proof fn lemma_positions_single(s: Seq<(Address, UserInvestment)>, j: int, property: Seq<u8>, owner: Seq<u8>)
    requires
        -1 <= j < s.len(),
        forall|m: int| 0 <= m < s.len() && position_of(s[m].1, property, owner) ==> m == j,
        j >= 0 ==> position_of(s[j].1, property, owner),
    ensures
        position_count(s, property, owner) == if j >= 0 {
            1int
        } else {
            0
        },
        position_shares(s, property, owner) == if j >= 0 {
            s[j].1.shares_owned as int
        } else {
            0
        },
    decreases s.len(),
{
    if s.len() > 0 {
        let t = s.drop_last();
        let jt = if j == s.len() - 1 {
            -1
        } else {
            j
        };
        assert forall|m: int| 0 <= m < t.len() && position_of(t[m].1, property, owner) implies m == jt by {
            assert(t[m] == s[m]);
        }
        if jt >= 0 {
            assert(t[jt] == s[jt]);
        }
        lemma_positions_single(t, jt, property, owner);
    }
}

/// In a well-formed ledger, every position of a buyer in a property is stored at the
/// address derived from the two.
proof fn lemma_position_address(v: LedgerView, m: int, property: Seq<u8>, owner: Seq<u8>)
    requires
        v.wf(),
        0 <= m < v.investments.len(),
        position_of(v.investments[m].1, property, owner),
    ensures
        program_address(investment_seeds(property, owner), v.program_id) == Some(
            (v.investments[m].0@, v.investments[m].1.bump),
        ),
{
    assert(program_address(
        investment_seeds(v.investments[m].1.property@, v.investments[m].1.owner@),
        v.program_id,
    ) == Some((v.investments[m].0@, v.investments[m].1.bump)));
}

/// After a paid purchase the buyer has exactly one position in the property, holding
/// what they held before and the shares bought.
pub proof fn purchase_credits_one_position(
    old: LedgerView,
    new: LedgerView,
    ctx: BuyShare,
    shares: u64,
    plan: PurchasePlan,
)
    requires
        old.wf(),
        purchase_outcome(old, ctx, shares) == Ok::<PurchasePlan, EstateError>(plan),
        purchased(old, new, ctx, shares, plan),
    ensures
        new.wf(),
        position_count(new.investments, ctx.property@, ctx.buyer@) == 1,
        position_shares(new.investments, ctx.property@, ctx.buyer@) == position_shares(
            old.investments,
            ctx.property@,
            ctx.buyer@,
        ) + shares,
{
    let (pp, bb) = (ctx.property@, ctx.buyer@);
    lemma_purchase_keeps_wf(old, new, ctx, shares, plan);
    lemma_purchase_check(old, ctx, shares, plan);
    let j = plan.investment_index;
    let target = if j >= 0 {
        j
    } else {
        old.investments.len() as int
    };
    if j >= 0 {
        lemma_held_bound(old, ctx, shares, plan);
        assert(new.investments[j].1.shares_owned == old.investments[j].1.shares_owned + shares);
    } else {
        assert(new.investments[target] == new.investments.last());
    }
    assert(new.investments[target].0@ == plan.investment);
    assert(position_of(new.investments[target].1, pp, bb));
    lemma_position_address(new, target, pp, bb);
    assert forall|m: int| 0 <= m < new.investments.len() && position_of(new.investments[m].1, pp, bb) implies m
        == target by {
        lemma_position_address(new, m, pp, bb);
    }
    lemma_positions_single(new.investments, target, pp, bb);
    assert forall|m: int| 0 <= m < old.investments.len() && position_of(old.investments[m].1, pp, bb) implies m
        == j by {
        lemma_position_address(old, m, pp, bb);
        lemma_index_of(old.investments, plan.investment);
    }
    lemma_positions_single(old.investments, j, pp, bb);
}

/// What a purchase adds to an existing position fits in its share count.
proof fn lemma_held_bound(old: LedgerView, ctx: BuyShare, shares: u64, plan: PurchasePlan)
    requires
        old.wf(),
        purchase_outcome(old, ctx, shares) == Ok::<PurchasePlan, EstateError>(plan),
        plan.investment_index >= 0,
    ensures
        old.investments[plan.investment_index].1.shares_owned + shares <= u64::MAX,
{
    lemma_purchase_check(old, ctx, shares, plan);
    let k = plan.property_index;
    crate::purchase::lemma_held_by_le(old.investments, plan.investment_index, ctx.property@);
    assert(old.properties[k].1.shares_sold as int == crate::state::shares_held(old.investments, old.properties[k].0@));
}

/// Buying twice for the same buyer and property leaves one position, which holds
/// what the buyer held before and the shares of both purchases.
pub proof fn repeat_purchase_single_position(
    v0: LedgerView,
    v1: LedgerView,
    v2: LedgerView,
    ctx: BuyShare,
    first: u64,
    plan1: PurchasePlan,
    second: u64,
    plan2: PurchasePlan,
)
    requires
        v0.wf(),
        purchase_outcome(v0, ctx, first) == Ok::<PurchasePlan, EstateError>(plan1),
        purchased(v0, v1, ctx, first, plan1),
        purchase_outcome(v1, ctx, second) == Ok::<PurchasePlan, EstateError>(plan2),
        purchased(v1, v2, ctx, second, plan2),
    ensures
        position_count(v2.investments, ctx.property@, ctx.buyer@) == 1,
        position_shares(v2.investments, ctx.property@, ctx.buyer@) == position_shares(
            v0.investments,
            ctx.property@,
            ctx.buyer@,
        ) + first + second,
{
    purchase_credits_one_position(v0, v1, ctx, first, plan1);
    purchase_credits_one_position(v1, v2, ctx, second, plan2);
}

} // verus!
