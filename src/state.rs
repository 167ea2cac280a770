//! The ledger's records and the invariant that ties them together.

use crate::address::{investment_seeds, program_address, Address};
use crate::table::{has_key, index_of, keys_unique};
use vstd::prelude::*;

verus! {

/// A listed property: its sale terms and running totals.
#[derive(Debug)]
pub struct Property {
    /// The issuer who listed it.
    pub owner: Address,
    /// The token accepted as payment.
    pub usdc_mint: Address,
    /// The custody vault that collects payment.
    pub vault_account: Address,
    /// The price of all shares together, in the payment token's smallest unit.
    pub price: u64,
    pub total_shares: u64,
    pub shares_sold: u64,
    pub total_rent_collected: u64,
    pub name: String,
    pub location: String,
    pub image_url: String,
    /// The bump seed of the property's address.
    pub bump: u8,
}

/// One investor's stake in one property.
#[derive(Debug, Clone, Copy)]
pub struct UserInvestment {
    pub owner: Address,
    /// The address of the property.
    pub property: Address,
    pub shares_owned: u64,
    pub total_claimed: u64,
    /// The bump seed of the position's address.
    pub bump: u8,
}

/// A custody vault: a token account owned by a property.
#[derive(Debug, Clone, Copy)]
pub struct Vault {
    pub mint: Address,
    /// The address of the property that owns it.
    pub authority: Address,
    pub amount: u64,
    pub bump: u8,
}

/// Every record of one program, each stored at its address.
#[derive(Debug)]
pub struct Ledger {
    pub program_id: Address,
    pub properties: Vec<(Address, Property)>,
    pub investments: Vec<(Address, UserInvestment)>,
    pub vaults: Vec<(Address, Vault)>,
}

/// The ledger's contents as sequences of entries.
pub struct LedgerView {
    pub program_id: Seq<u8>,
    pub properties: Seq<(Address, Property)>,
    pub investments: Seq<(Address, UserInvestment)>,
    pub vaults: Seq<(Address, Vault)>,
}

impl View for Ledger {
    type V = LedgerView;

    open spec fn view(&self) -> LedgerView {
        LedgerView {
            program_id: self.program_id@,
            properties: self.properties@,
            investments: self.investments@,
            vaults: self.vaults@,
        }
    }
}

/// The shares held in the property at `property`, summed over the positions of `s`.
pub open spec fn shares_held(s: Seq<(Address, UserInvestment)>, property: Seq<u8>) -> int
    decreases s.len(),
{
    if s.len() == 0 {
        0
    } else {
        shares_held(s.drop_last(), property) + held_by(s.last().1, property)
    }
}

/// The shares that one position holds in the property at `property`.
pub open spec fn held_by(i: UserInvestment, property: Seq<u8>) -> int {
    if i.property@ == property {
        i.shares_owned as int
    } else {
        0
    }
}

/// The price of one share: the price of all shares divided by their number, truncated.
pub open spec fn price_per_share(p: Property) -> int {
    p.price as int / p.total_shares as int
}

impl LedgerView {
    /// Each property's shares sold are the shares its positions hold.
    pub open spec fn shares_balanced(self) -> bool {
        forall|i: int|
            0 <= i < self.properties.len() ==> #[trigger] self.properties[i].1.shares_sold as int
                == shares_held(self.investments, self.properties[i].0@)
    }

    /// No property has sold more shares than it has, nor has zero shares.
    pub open spec fn within_supply(self) -> bool {
        forall|i: int|
            0 <= i < self.properties.len() ==> 0 < #[trigger] self.properties[i].1.total_shares
                && self.properties[i].1.shares_sold <= self.properties[i].1.total_shares
    }

    /// The vault of the property at position `i`.
    pub open spec fn vault_of(self, i: int) -> Vault {
        self.vaults[index_of(self.vaults, self.properties[i].1.vault_account@)].1
    }

    /// Each property's vault exists, holds its payment token, and holds the payment
    /// for every share sold.
    pub open spec fn vaults_funded(self) -> bool {
        &&& forall|i: int|
            0 <= i < self.properties.len() ==> #[trigger] has_key(
                self.vaults,
                self.properties[i].1.vault_account@,
            )
        &&& forall|i: int|
            0 <= i < self.properties.len() ==> #[trigger] self.vault_of(i).amount as int
                == price_per_share(self.properties[i].1) * self.properties[i].1.shares_sold
        &&& forall|i: int|
            0 <= i < self.properties.len() ==> #[trigger] self.vault_of(i).mint@
                == self.properties[i].1.usdc_mint@
        &&& forall|i: int, j: int|
            0 <= i < self.properties.len() && 0 <= j < self.properties.len()
                && #[trigger] self.properties[i].1.vault_account@
                == #[trigger] self.properties[j].1.vault_account@ ==> i == j
    }

    /// Each position is stored at the address derived from its property and investor,
    /// and its property is listed.
    pub open spec fn positions_addressed(self) -> bool {
        forall|k: int|
            0 <= k < self.investments.len() ==> {
                &&& program_address(
                    investment_seeds(
                        #[trigger] self.investments[k].1.property@,
                        self.investments[k].1.owner@,
                    ),
                    self.program_id,
                ) == Some((self.investments[k].0@, self.investments[k].1.bump))
                &&& has_key(self.properties, self.investments[k].1.property@)
            }
    }

    /// The ledger's invariant.
    pub open spec fn wf(self) -> bool {
        &&& self.program_id.len() == 32
        &&& keys_unique(self.properties)
        &&& keys_unique(self.investments)
        &&& keys_unique(self.vaults)
        &&& self.shares_balanced()
        &&& self.within_supply()
        &&& self.vaults_funded()
        &&& self.positions_addressed()
    }
}

/// Replacing one position changes the shares held by what it held and what its
/// replacement holds.
pub proof fn lemma_shares_held_update(
    s: Seq<(Address, UserInvestment)>,
    j: int,
    e: (Address, UserInvestment),
    property: Seq<u8>,
)
    requires
        0 <= j < s.len(),
    ensures
        shares_held(s.update(j, e), property) == shares_held(s, property) - held_by(s[j].1, property)
            + held_by(e.1, property),
    decreases s.len(),
{
    let t = s.update(j, e);
    if j == s.len() - 1 {
        assert(t.drop_last() =~= s.drop_last());
    } else {
        lemma_shares_held_update(s.drop_last(), j, e, property);
        assert(t.drop_last() =~= s.drop_last().update(j, e));
    }
}

impl Ledger {
    /// An empty ledger of the program `program_id`.
    pub fn new(program_id: Address) -> (r: Ledger)
        ensures
            r@.program_id == program_id@,
            r@.properties.len() == 0,
            r@.investments.len() == 0,
            r@.vaults.len() == 0,
            r@.wf(),
    {
        Ledger { program_id, properties: Vec::new(), investments: Vec::new(), vaults: Vec::new() }
    }
}

} // verus!
