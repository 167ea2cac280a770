//! Account addresses and their derivation from seeds.

use anchor_lang::prelude::Pubkey;
use vstd::prelude::*;

verus! {

/// A 32-byte account address.
pub type Address = [u8; 32];

/// The program-derived address and bump seed assigned to `seeds` under the
/// program `program_id`, or `None` where no bump seed gives one.
pub uninterp spec fn program_address(seeds: Seq<Seq<u8>>, program_id: Seq<u8>) -> Option<(Seq<u8>, u8)>;

/// The bytes of each seed.
pub open spec fn seed_bytes(seeds: Seq<Vec<u8>>) -> Seq<Seq<u8>> {
    seeds.map_values(|s: Vec<u8>| s@)
}

/// Relies on `Pubkey::try_find_program_address` (solana_program, re-exported by
/// anchor_lang): a deterministic search for the program-derived address of the seeds.
#[verifier::external_body]
pub(crate) fn find_program_address(seeds: &Vec<Vec<u8>>, program_id: &Address) -> (r: Option<(Address, u8)>)
    ensures
        match r {
            Some((a, b)) => program_address(seed_bytes(seeds@), program_id@) == Some((a@, b)),
            None => program_address(seed_bytes(seeds@), program_id@) is None,
        },
{
    let slices: Vec<&[u8]> = seeds.iter().map(|s| s.as_slice()).collect();
    Pubkey::try_find_program_address(&slices, &Pubkey::new_from_array(*program_id))
        .map(|(k, b)| (k.to_bytes(), b))
}

/// Whether two addresses hold the same bytes.
pub fn same_address(a: &Address, b: &Address) -> (r: bool)
    ensures
        r == (a@ == b@),
{
    let mut i: usize = 0;
    while i < 32
        invariant
            0 <= i <= 32,
            a@.len() == 32,
            b@.len() == 32,
            forall|j: int| 0 <= j < i ==> a@[j] == b@[j],
        decreases 32 - i,
    {
        if a[i] != b[i] {
            return false;
        }
        i = i + 1;
    }
    assert(a@ =~= b@);
    true
}

/// ASCII "property": the first seed of a property's address.
pub open spec fn property_tag() -> Seq<u8> {
    seq![112u8, 114, 111, 112, 101, 114, 116, 121]
}

/// ASCII "vault": the first seed of a custody vault's address.
pub open spec fn vault_tag() -> Seq<u8> {
    seq![118u8, 97, 117, 108, 116]
}

/// ASCII "investment": the first seed of an investor position's address.
pub open spec fn investment_tag() -> Seq<u8> {
    seq![105u8, 110, 118, 101, 115, 116, 109, 101, 110, 116]
}

/// Seeds of the property listed under a name (given as its UTF-8 bytes).
pub open spec fn property_seeds(name: Seq<u8>) -> Seq<Seq<u8>> {
    seq![property_tag(), name]
}

/// Seeds of the custody vault of the property at `property`.
pub open spec fn vault_seeds(property: Seq<u8>) -> Seq<Seq<u8>> {
    seq![vault_tag(), property]
}

/// Seeds of the position of `investor` in the property at `property`.
pub open spec fn investment_seeds(property: Seq<u8>, investor: Seq<u8>) -> Seq<Seq<u8>> {
    seq![investment_tag(), property, investor]
}

fn bytes_of_address(a: &Address) -> (r: Vec<u8>)
    ensures
        r@ == a@,
{
    let mut r: Vec<u8> = Vec::new();
    let mut i: usize = 0;
    while i < 32
        invariant
            0 <= i <= 32,
            a@.len() == 32,
            r@ =~= a@.subrange(0, i as int),
        decreases 32 - i,
    {
        r.push(a[i]);
        i = i + 1;
    }
    assert(r@ =~= a@);
    r
}

/// The address of the property listed under the name with UTF-8 bytes `name`.
pub fn property_address(name: &Vec<u8>, program_id: &Address) -> (r: Option<(Address, u8)>)
    ensures
        match r {
            Some((a, b)) => program_address(property_seeds(name@), program_id@) == Some((a@, b)),
            None => program_address(property_seeds(name@), program_id@) is None,
        },
{
    let tag: Vec<u8> = vec![112u8, 114, 111, 112, 101, 114, 116, 121];
    let key = name.clone();
    assert(key@ == name@);
    let seeds: Vec<Vec<u8>> = vec![tag, key];
    assert(tag@ =~= property_tag());
    assert(seed_bytes(seeds@) =~= property_seeds(name@));
    find_program_address(&seeds, program_id)
}

/// The address of the custody vault of the property at `property`.
pub fn vault_address(property: &Address, program_id: &Address) -> (r: Option<(Address, u8)>)
    ensures
        match r {
            Some((a, b)) => program_address(vault_seeds(property@), program_id@) == Some((a@, b)),
            None => program_address(vault_seeds(property@), program_id@) is None,
        },
{
    let tag: Vec<u8> = vec![118u8, 97, 117, 108, 116];
    assert(tag@ =~= vault_tag());
    let seeds: Vec<Vec<u8>> = vec![tag, bytes_of_address(property)];
    assert(seed_bytes(seeds@) =~= vault_seeds(property@));
    find_program_address(&seeds, program_id)
}

/// The address of the position of `investor` in the property at `property`.
pub fn investment_address(property: &Address, investor: &Address, program_id: &Address) -> (r: Option<(Address, u8)>)
    ensures
        match r {
            Some((a, b)) => program_address(investment_seeds(property@, investor@), program_id@) == Some((a@, b)),
            None => program_address(investment_seeds(property@, investor@), program_id@) is None,
        },
{
    let tag: Vec<u8> = vec![105u8, 110, 118, 101, 115, 116, 109, 101, 110, 116];
    assert(tag@ =~= investment_tag());
    let seeds: Vec<Vec<u8>> = vec![tag, bytes_of_address(property), bytes_of_address(investor)];
    assert(seed_bytes(seeds@) =~= investment_seeds(property@, investor@));
    find_program_address(&seeds, program_id)
}

} // verus!
