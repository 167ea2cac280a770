//! Listing a property: its record and its empty custody vault.

use crate::address::{program_address, property_address, property_seeds, vault_address, vault_seeds, Address};
use crate::error::EstateError;
use crate::state::{shares_held, Ledger, LedgerView, Property, UserInvestment, Vault};
use crate::table::{find_index, has_key, index_of, keys_unique, lemma_index_of, lemma_index_of_push};
use vstd::prelude::*;
use vstd::slice::slice_to_vec;
use vstd::utf8::encode_utf8;

verus! {

/// The longest name, in bytes: a name is a seed of the property's address.
pub const NAME_MAX_LEN: usize = 32;

/// Bytes that a property's record may take.
pub const PROPERTY_SPACE: usize = 500;

/// Bytes of a property's record besides the three descriptive strings.
pub const PROPERTY_FIXED_LEN: usize = 141;

/// The accounts of a listing: the issuer, and the token that payment is taken in.
#[derive(Debug, Clone, Copy)]
pub struct ListProperty {
    pub owner: Address,
    pub usdc_mint: Address,
}

/// The addresses that a listing derives.
pub struct ListingPlan {
    pub property: Seq<u8>,
    pub property_bump: u8,
    pub vault: Seq<u8>,
    pub vault_bump: u8,
}

/// Whether descriptive strings of these byte lengths fit the property's record.
pub open spec fn record_fits(name: Seq<u8>, location: Seq<u8>, image_url: Seq<u8>) -> bool {
    PROPERTY_FIXED_LEN + name.len() + location.len() + image_url.len() <= PROPERTY_SPACE
}

/// The outcome of listing, under the UTF-8 name `name`, a property of `total_shares`
/// shares: the addresses derived, or the error.
pub open spec fn listing_outcome(
    v: LedgerView,
    name: Seq<u8>,
    location: Seq<u8>,
    image_url: Seq<u8>,
    total_shares: u64,
) -> Result<ListingPlan, EstateError> {
    if name.len() > NAME_MAX_LEN {
        Err(EstateError::InvalidTerms)
    } else {
        match program_address(property_seeds(name), v.program_id) {
            None => Err(EstateError::AddressUnavailable),
            Some((pa, pb)) => if has_key(v.properties, pa) {
                Err(EstateError::DuplicateListing)
            } else {
                match program_address(vault_seeds(pa), v.program_id) {
                    None => Err(EstateError::AddressUnavailable),
                    Some((va, vb)) => if has_key(v.vaults, va) {
                        Err(EstateError::DuplicateListing)
                    } else if total_shares == 0 || !record_fits(name, location, image_url) {
                        Err(EstateError::InvalidTerms)
                    } else {
                        Ok(ListingPlan { property: pa, property_bump: pb, vault: va, vault_bump: vb })
                    },
                }
            },
        }
    }
}

/// `new` is `old` with the property of the listing `plan` and its empty vault added.
pub open spec fn listed(
    old: LedgerView,
    new: LedgerView,
    plan: ListingPlan,
    ctx: ListProperty,
    name: String,
    location: String,
    image_url: String,
    price: u64,
    total_shares: u64,
) -> bool {
    let (pa, p) = new.properties.last();
    let (va, vault) = new.vaults.last();
    &&& new.program_id == old.program_id
    &&& new.investments == old.investments
    &&& new.properties.len() == old.properties.len() + 1
    &&& new.properties.drop_last() == old.properties
    &&& pa@ == plan.property
    &&& p.owner == ctx.owner
    &&& p.usdc_mint == ctx.usdc_mint
    &&& p.vault_account@ == plan.vault
    &&& p.price == price
    &&& p.total_shares == total_shares
    &&& p.shares_sold == 0
    &&& p.total_rent_collected == 0
    &&& p.name == name
    &&& p.location == location
    &&& p.image_url == image_url
    &&& p.bump == plan.property_bump
    &&& new.vaults.len() == old.vaults.len() + 1
    &&& new.vaults.drop_last() == old.vaults
    &&& va@ == plan.vault
    &&& vault.mint == ctx.usdc_mint
    &&& vault.authority@ == plan.property
    &&& vault.amount == 0
    &&& vault.bump == plan.vault_bump
}

/// Positions of no listed property hold none of its shares.
pub proof fn lemma_shares_held_none(s: Seq<(Address, UserInvestment)>, property: Seq<u8>)
    requires
        forall|k: int| 0 <= k < s.len() ==> s[k].1.property@ != property,
    ensures
        shares_held(s, property) == 0,
    decreases s.len(),
{
    if s.len() > 0 {
        let t = s.drop_last();
        assert forall|k: int| 0 <= k < t.len() implies t[k].1.property@ != property by {
            assert(t[k] == s[k]);
        }
        lemma_shares_held_none(t, property);
    }
}

/// A listing keeps the ledger's invariant.
pub proof fn lemma_listing_keeps_wf(
    old: LedgerView,
    new: LedgerView,
    plan: ListingPlan,
    ctx: ListProperty,
    name: String,
    location: String,
    image_url: String,
    price: u64,
    total_shares: u64,
)
    requires
        old.wf(),
        listing_outcome(old, encode_utf8(name@), encode_utf8(location@), encode_utf8(image_url@), total_shares)
            == Ok::<ListingPlan, EstateError>(plan),
        listed(old, new, plan, ctx, name, location, image_url, price, total_shares),
    ensures
        new.wf(),
{
    let n = old.properties.len();
    let (pa, p) = new.properties.last();
    let (va, vault) = new.vaults.last();
    assert(old.properties =~= new.properties.drop_last());
    assert(old.vaults =~= new.vaults.drop_last());
    assert(new.properties =~= old.properties.push((pa, p)));
    assert(new.vaults =~= old.vaults.push((va, vault)));
    lemma_index_of(old.properties, pa@);
    lemma_index_of(old.vaults, va@);
    assert(keys_unique(new.properties));
    assert(keys_unique(new.vaults));
    assert forall|k: int| 0 <= k < new.investments.len() implies new.investments[k].1.property@ != pa@ by {
        let q = new.investments[k].1.property@;
        lemma_index_of(old.properties, q);
    }
    lemma_shares_held_none(new.investments, pa@);
    assert forall|i: int| #![trigger new.properties[i]] 0 <= i < new.properties.len() implies has_key(new.vaults, new.properties[i].1.vault_account@)
        && new.vault_of(i).amount as int == crate::state::price_per_share(new.properties[i].1)
        * new.properties[i].1.shares_sold
        && new.vault_of(i).mint@ == new.properties[i].1.usdc_mint@ by {
        let acc = new.properties[i].1.vault_account@;
        lemma_index_of_push(old.vaults, (va, vault), acc);
        if i < n {
            assert(new.properties[i] == old.properties[i]);
            assert(has_key(old.vaults, old.properties[i].1.vault_account@));
            let idx = index_of(old.vaults, acc);
            lemma_index_of(old.vaults, acc);
            assert(old.vaults[idx].0@ == acc);
            assert(acc != va@);
            assert(index_of(new.vaults, acc) == idx);
            assert(new.vaults[idx] == old.vaults[idx]);
            assert(new.vault_of(i) == old.vault_of(i));
        } else {
            assert(i == n);
            assert(index_of(new.vaults, acc) == old.vaults.len());
            assert(new.vault_of(i) == vault);
        }
    }
    assert forall|i: int, j: int|
        0 <= i < new.properties.len() && 0 <= j < new.properties.len()
            && #[trigger] new.properties[i].1.vault_account@ == #[trigger] new.properties[j].1.vault_account@
        implies i == j by {
        if i < n {
            assert(new.properties[i] == old.properties[i]);
            assert(has_key(old.vaults, old.properties[i].1.vault_account@));
            lemma_index_of(old.vaults, old.properties[i].1.vault_account@);
        }
        if j < n {
            assert(new.properties[j] == old.properties[j]);
            assert(has_key(old.vaults, old.properties[j].1.vault_account@));
            lemma_index_of(old.vaults, old.properties[j].1.vault_account@);
        }
    }
    assert forall|i: int| 0 <= i < new.properties.len() implies #[trigger] new.properties[i].1.shares_sold as int
        == shares_held(new.investments, new.properties[i].0@) by {
        if i < n {
            assert(new.properties[i] == old.properties[i]);
        }
    }
    assert forall|k: int| 0 <= k < new.investments.len() implies has_key(new.properties, #[trigger] new.investments[k].1.property@) by {
        lemma_index_of_push(old.properties, (pa, p), new.investments[k].1.property@);
    }
    assert(new.within_supply());
    assert(new.shares_balanced());
    assert(new.vaults_funded());
    assert(new.positions_addressed());
}

/// Lists a property under `name`: stores its record, with nothing sold, at the address
/// derived from the name, and an empty vault for the token `ctx.usdc_mint` at the
/// address derived from the property's. Returns the property's address.
pub fn list_property(
    ledger: &mut Ledger,
    ctx: &ListProperty,
    name: String,
    location: String,
    image_url: String,
    price: u64,
    total_shares: u64,
) -> (r: Result<Address, EstateError>)
    requires
        old(ledger)@.wf(),
    ensures
        final(ledger)@.wf(),
        match listing_outcome(
            old(ledger)@,
            encode_utf8(name@),
            encode_utf8(location@),
            encode_utf8(image_url@),
            total_shares,
        ) {
            Err(e) => r == Err::<Address, EstateError>(e) && final(ledger)@ == old(ledger)@,
            Ok(plan) => r is Ok && r->Ok_0@ == plan.property && listed(
                old(ledger)@,
                final(ledger)@,
                plan,
                *ctx,
                name,
                location,
                image_url,
                price,
                total_shares,
            ),
        },
{
    let ghost pre = ledger@;
    let name_bytes = slice_to_vec(name.as_str().as_bytes());
    assert(name_bytes@ == encode_utf8(name@));
    let name_len = name_bytes.len();
    if name_len > NAME_MAX_LEN {
        return Err(EstateError::InvalidTerms);
    }
    let (pa, pb) = match property_address(&name_bytes, &ledger.program_id) {
        None => {
            return Err(EstateError::AddressUnavailable);
        },
        Some(found) => found,
    };
    if find_index(&ledger.properties, &pa).is_some() {
        return Err(EstateError::DuplicateListing);
    }
    let (va, vb) = match vault_address(&pa, &ledger.program_id) {
        None => {
            return Err(EstateError::AddressUnavailable);
        },
        Some(found) => found,
    };
    if find_index(&ledger.vaults, &va).is_some() {
        return Err(EstateError::DuplicateListing);
    }
    let room = PROPERTY_SPACE - PROPERTY_FIXED_LEN - name_len;
    let location_len = location.as_str().as_bytes().len();
    let image_url_len = image_url.as_str().as_bytes().len();
    if total_shares == 0 || location_len > room || image_url_len > room - location_len {
        return Err(EstateError::InvalidTerms);
    }
    let property = Property {
        owner: ctx.owner,
        usdc_mint: ctx.usdc_mint,
        vault_account: va,
        price,
        total_shares,
        shares_sold: 0,
        total_rent_collected: 0,
        name,
        location,
        image_url,
        bump: pb,
    };
    let vault = Vault { mint: ctx.usdc_mint, authority: pa, amount: 0, bump: vb };
    ledger.properties.push((pa, property));
    ledger.vaults.push((va, vault));
    proof {
        let plan = ListingPlan { property: pa@, property_bump: pb, vault: va@, vault_bump: vb };
        assert(ledger@.properties.drop_last() =~= pre.properties);
        assert(ledger@.vaults.drop_last() =~= pre.vaults);
        lemma_listing_keeps_wf(pre, ledger@, plan, *ctx, name, location, image_url, price, total_shares);
    }
    Ok(pa)
}

} // verus!
