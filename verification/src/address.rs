//! The address of a market's account: derived from the market's terms, a
//! bump seed and the program that owns the account.

use vstd::prelude::*;
use vstd::bytes::{spec_u64_to_le_bytes, u64_to_le_bytes};
use crate::identity::Identity;
use crate::market::MarketId;

verus! {

/// The address that the program `program_id` derives from `seeds`, by the
/// bytes of both; `None` where the seeds derive no address.
pub uninterp spec fn program_address(seeds: Seq<Seq<u8>>, program_id: Seq<u8>) -> Option<Seq<u8>>;

/// The content of `seeds`, seed by seed.
pub open spec fn seeds_view(seeds: Vec<Vec<u8>>) -> Seq<Seq<u8>> {
    Seq::new(seeds@.len(), |i: int| seeds@[i]@)
}

/// The bytes of an optional identity.
pub open spec fn address_bytes(address: Option<Identity>) -> Option<Seq<u8>> {
    match address {
        Some(identity) => Some(identity@),
        None => None,
    }
}

/// Calls `Pubkey::create_program_address` of `anchor_lang`: the address that
/// is derived from the seeds and the program's identity, a function of their
/// bytes alone. The call answers with an error where there are more than 16
/// seeds, where a seed is longer than 32 bytes, or where the bytes derived
/// are a point of the curve; each of these is handed on as `None`.
#[verifier::external_body]
fn create_program_address(seeds: &Vec<Vec<u8>>, program_id: &Identity) -> (address: Option<Identity>)
    ensures
        address_bytes(address) == program_address(seeds_view(*seeds), program_id@),
{
    let slices: Vec<&[u8]> = seeds.iter().map(|seed| seed.as_slice()).collect();
    let program = anchor_lang::prelude::Pubkey::new_from_array(program_id.bytes);
    match anchor_lang::prelude::Pubkey::create_program_address(&slices, &program) {
        Ok(address) => Some(Identity { bytes: address.to_bytes() }),
        Err(_) => None,
    }
}

/// The seeds of the address of the market `id` under the bump seed
/// `bump_seed`: the two mints, then the two per-contract amounts and the
/// expiration as eight little-endian bytes each, then the bump seed.
pub open spec fn market_seeds(id: MarketId, bump_seed: u8) -> Seq<Seq<u8>> {
    seq![
        id.underlying_asset_mint@,
        id.quote_asset_mint@,
        spec_u64_to_le_bytes(id.underlying_amount_per_contract),
        spec_u64_to_le_bytes(id.quote_amount_per_contract),
        spec_u64_to_le_bytes(id.expiration_unix_timestamp as u64),
        seq![bump_seed],
    ]
}

/// The address of the account of the market `id` under the program
/// `program_id` and the bump seed `bump_seed`, if the seeds derive one.
pub open spec fn market_address_of(program_id: Identity, id: MarketId, bump_seed: u8) -> Option<
    Seq<u8>,
> {
    program_address(market_seeds(id, bump_seed), program_id@)
}

/// The seeds of the address of the market `id` under the bump seed
/// `bump_seed`.
pub fn seeds_for(id: &MarketId, bump_seed: u8) -> (seeds: Vec<Vec<u8>>)
    ensures
        seeds_view(seeds) == market_seeds(*id, bump_seed),
{
    let mut seeds: Vec<Vec<u8>> = Vec::new();
    seeds.push(id.underlying_asset_mint.to_vec());
    seeds.push(id.quote_asset_mint.to_vec());
    seeds.push(u64_to_le_bytes(id.underlying_amount_per_contract));
    seeds.push(u64_to_le_bytes(id.quote_amount_per_contract));
    seeds.push(u64_to_le_bytes(#[verifier::truncate] (id.expiration_unix_timestamp as u64)));
    let mut bump: Vec<u8> = Vec::new();
    bump.push(bump_seed);
    seeds.push(bump);
    assert(bump@ =~= seq![bump_seed]);
    assert(seeds_view(seeds) =~= market_seeds(*id, bump_seed));
    seeds
}

/// The address of the account of the market `id` under the program
/// `program_id` and the bump seed `bump_seed`; `None` where the seeds derive
/// no address.
pub fn market_address(program_id: &Identity, id: &MarketId, bump_seed: u8) -> (address: Option<
    Identity,
>)
    ensures
        address_bytes(address) == market_address_of(*program_id, *id, bump_seed),
{
    let seeds = seeds_for(id, bump_seed);
    create_program_address(&seeds, program_id)
}

} // verus!
