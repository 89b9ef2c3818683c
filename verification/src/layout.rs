//! The bytes in which a market is kept: the record first, field by field,
//! then the writer entries, in a region of fixed size.
//!
//! Identities take their 32 bytes, integers eight little-endian bytes, a
//! bump seed one byte and a flag one byte that is 0 or 1.

use vstd::prelude::*;
use vstd::bytes::{
    lemma_auto_spec_u64_to_from_le_bytes, spec_u64_from_le_bytes, spec_u64_to_le_bytes,
    u64_from_le_bytes, u64_to_le_bytes,
};
use vstd::slice::slice_subrange;
use crate::identity::{lemma_identity_by_bytes, Identity};
use crate::market::OptionMarket;
use crate::writers::WriterEntry;

verus! {

/// The number of bytes of a market record.
pub const MARKET_LEN: usize = 282;

/// The byte of a flag.
pub open spec fn flag_byte(flag: bool) -> u8 {
    if flag {
        1
    } else {
        0
    }
}

/// The bytes of a market record.
pub open spec fn market_bytes(m: OptionMarket) -> Seq<u8> {
    m.option_mint@ + m.writer_token_mint@ + m.underlying_asset_mint@ + m.quote_asset_mint@
        + spec_u64_to_le_bytes(m.underlying_amount_per_contract) + spec_u64_to_le_bytes(
        m.quote_amount_per_contract,
    ) + spec_u64_to_le_bytes(m.expiration_unix_timestamp as u64) + m.underlying_asset_pool@
        + m.quote_asset_pool@ + m.mint_fee_account@ + m.exercise_fee_account@ + seq![
        m.bump_seed,
        flag_byte(m.initialized),
    ]
}

/// Whether `bytes` are the bytes of some market record: there are as many as
/// a record takes, and the last is a flag.
pub open spec fn is_market_record(bytes: Seq<u8>) -> bool {
    bytes.len() == MARKET_LEN && bytes[MARKET_LEN - 1] <= 1
}

/// A timestamp and its eight bytes read as an unsigned number stand for each
/// other.
proof fn lemma_timestamp_bits(x: i64, y: u64)
    ensures
        ((x as u64) as i64) == x,
        ((y as i64) as u64) == y,
{
    assert(((x as u64) as i64) == x) by (bit_vector);
    assert(((y as i64) as u64) == y) by (bit_vector);
}

/// The parts of the bytes of a market record, each where it lies.
proof fn lemma_market_parts(m: OptionMarket)
    ensures
        market_bytes(m).len() == MARKET_LEN,
        market_bytes(m).subrange(0, 32) == m.option_mint@,
        market_bytes(m).subrange(32, 64) == m.writer_token_mint@,
        market_bytes(m).subrange(64, 96) == m.underlying_asset_mint@,
        market_bytes(m).subrange(96, 128) == m.quote_asset_mint@,
        market_bytes(m).subrange(128, 136) == spec_u64_to_le_bytes(m.underlying_amount_per_contract),
        market_bytes(m).subrange(136, 144) == spec_u64_to_le_bytes(m.quote_amount_per_contract),
        market_bytes(m).subrange(144, 152) == spec_u64_to_le_bytes(
            m.expiration_unix_timestamp as u64,
        ),
        market_bytes(m).subrange(152, 184) == m.underlying_asset_pool@,
        market_bytes(m).subrange(184, 216) == m.quote_asset_pool@,
        market_bytes(m).subrange(216, 248) == m.mint_fee_account@,
        market_bytes(m).subrange(248, 280) == m.exercise_fee_account@,
        market_bytes(m)[280] == m.bump_seed,
        market_bytes(m)[281] == flag_byte(m.initialized),
{
    lemma_auto_spec_u64_to_from_le_bytes();
    let b = market_bytes(m);
    assert(b.subrange(0, 32) =~= m.option_mint@);
    assert(b.subrange(32, 64) =~= m.writer_token_mint@);
    assert(b.subrange(64, 96) =~= m.underlying_asset_mint@);
    assert(b.subrange(96, 128) =~= m.quote_asset_mint@);
    assert(b.subrange(128, 136) =~= spec_u64_to_le_bytes(m.underlying_amount_per_contract));
    assert(b.subrange(136, 144) =~= spec_u64_to_le_bytes(m.quote_amount_per_contract));
    assert(b.subrange(144, 152) =~= spec_u64_to_le_bytes(m.expiration_unix_timestamp as u64));
    assert(b.subrange(152, 184) =~= m.underlying_asset_pool@);
    assert(b.subrange(184, 216) =~= m.quote_asset_pool@);
    assert(b.subrange(216, 248) =~= m.mint_fee_account@);
    assert(b.subrange(248, 280) =~= m.exercise_fee_account@);
}

/// Two market records with the same bytes are the same record, and the bytes
/// of a record are those of a record.
pub proof fn law_market_bytes_tell_the_record(a: OptionMarket, b: OptionMarket)
    ensures
        is_market_record(market_bytes(a)),
        market_bytes(a) == market_bytes(b) ==> a == b,
{
    lemma_market_parts(a);
    lemma_market_parts(b);
    if market_bytes(a) == market_bytes(b) {
        lemma_auto_spec_u64_to_from_le_bytes();
        lemma_identity_by_bytes(a.option_mint, b.option_mint);
        lemma_identity_by_bytes(a.writer_token_mint, b.writer_token_mint);
        lemma_identity_by_bytes(a.underlying_asset_mint, b.underlying_asset_mint);
        lemma_identity_by_bytes(a.quote_asset_mint, b.quote_asset_mint);
        lemma_identity_by_bytes(a.underlying_asset_pool, b.underlying_asset_pool);
        lemma_identity_by_bytes(a.quote_asset_pool, b.quote_asset_pool);
        lemma_identity_by_bytes(a.mint_fee_account, b.mint_fee_account);
        lemma_identity_by_bytes(a.exercise_fee_account, b.exercise_fee_account);
        assert(spec_u64_from_le_bytes(spec_u64_to_le_bytes(a.underlying_amount_per_contract))
            == spec_u64_from_le_bytes(spec_u64_to_le_bytes(b.underlying_amount_per_contract)));
        assert(spec_u64_from_le_bytes(spec_u64_to_le_bytes(a.quote_amount_per_contract))
            == spec_u64_from_le_bytes(spec_u64_to_le_bytes(b.quote_amount_per_contract)));
        assert(spec_u64_from_le_bytes(spec_u64_to_le_bytes(a.expiration_unix_timestamp as u64))
            == spec_u64_from_le_bytes(spec_u64_to_le_bytes(b.expiration_unix_timestamp as u64)));
        lemma_timestamp_bits(a.expiration_unix_timestamp, 0);
        lemma_timestamp_bits(b.expiration_unix_timestamp, 0);
    }
}

/// Puts the bytes of `identity` behind `out`.
fn put_identity(out: &mut Vec<u8>, identity: &Identity)
    ensures
        final(out)@ == old(out)@ + identity@,
{
    let bytes = identity.to_vec();
    out.extend_from_slice(bytes.as_slice());
}

/// Puts the eight little-endian bytes of `x` behind `out`.
fn put_u64(out: &mut Vec<u8>, x: u64)
    ensures
        final(out)@ == old(out)@ + spec_u64_to_le_bytes(x),
{
    let bytes = u64_to_le_bytes(x);
    out.extend_from_slice(bytes.as_slice());
}

/// The identity whose bytes are the 32 bytes of `bytes` from position `at`.
fn get_identity(bytes: &[u8], at: usize) -> (identity: Identity)
    requires
        at + 32 <= bytes@.len(),
    ensures
        identity@ == bytes@.subrange(at as int, at + 32),
{
    let len = bytes.len();
    let mut array = [0u8; 32];
    let mut i: usize = 0;
    while i < 32
        invariant
            i <= 32,
            at + 32 <= bytes@.len(),
            bytes@.len() == len,
            forall|j: int| 0 <= j < i ==> array@[j] == bytes@[at + j],
        decreases 32 - i,
    {
        array[i] = bytes[at + i];
        i += 1;
    }
    let identity = Identity::new(array);
    assert(identity@ =~= bytes@.subrange(at as int, at + 32));
    identity
}

/// The number whose little-endian bytes are the eight bytes of `bytes` from
/// position `at`.
fn get_u64(bytes: &[u8], at: usize) -> (x: u64)
    requires
        at + 8 <= bytes@.len(),
    ensures
        spec_u64_to_le_bytes(x) == bytes@.subrange(at as int, at + 8),
{
    proof {
        lemma_auto_spec_u64_to_from_le_bytes();
    }
    let len = bytes.len();
    assert(at + 8 <= len);
    u64_from_le_bytes(slice_subrange(bytes, at, at + 8))
}

/// The bytes of the market record `m`.
pub fn pack_market(m: &OptionMarket) -> (bytes: Vec<u8>)
    ensures
        bytes@ == market_bytes(*m),
        bytes@.len() == MARKET_LEN,
{
    let mut out: Vec<u8> = Vec::new();
    put_identity(&mut out, &m.option_mint);
    put_identity(&mut out, &m.writer_token_mint);
    put_identity(&mut out, &m.underlying_asset_mint);
    put_identity(&mut out, &m.quote_asset_mint);
    put_u64(&mut out, m.underlying_amount_per_contract);
    put_u64(&mut out, m.quote_amount_per_contract);
    put_u64(&mut out, #[verifier::truncate] (m.expiration_unix_timestamp as u64));
    put_identity(&mut out, &m.underlying_asset_pool);
    put_identity(&mut out, &m.quote_asset_pool);
    put_identity(&mut out, &m.mint_fee_account);
    put_identity(&mut out, &m.exercise_fee_account);
    let ghost fields = out@;
    out.push(m.bump_seed);
    out.push(if m.initialized {
        1
    } else {
        0
    });
    proof {
        assert(out@ =~= fields + seq![m.bump_seed, flag_byte(m.initialized)]);
        assert(fields =~= Seq::<u8>::empty() + m.option_mint@ + m.writer_token_mint@
            + m.underlying_asset_mint@ + m.quote_asset_mint@ + spec_u64_to_le_bytes(
            m.underlying_amount_per_contract,
        ) + spec_u64_to_le_bytes(m.quote_amount_per_contract) + spec_u64_to_le_bytes(
            m.expiration_unix_timestamp as u64,
        ) + m.underlying_asset_pool@ + m.quote_asset_pool@ + m.mint_fee_account@
            + m.exercise_fee_account@);
        assert(Seq::<u8>::empty() + m.option_mint@ =~= m.option_mint@);
        lemma_market_parts(*m);
    }
    out
}

/// The market record that `bytes` hold; `None` where they are not the bytes
/// of a record.
pub fn unpack_market(bytes: &[u8]) -> (r: Option<OptionMarket>)
    ensures
        r.is_some() == is_market_record(bytes@),
        r matches Some(m) ==> market_bytes(m) == bytes@,
{
    if bytes.len() != MARKET_LEN || bytes[MARKET_LEN - 1] > 1 {
        return None;
    }
    let expiration = get_u64(bytes, 144);
    let m = OptionMarket {
        option_mint: get_identity(bytes, 0),
        writer_token_mint: get_identity(bytes, 32),
        underlying_asset_mint: get_identity(bytes, 64),
        quote_asset_mint: get_identity(bytes, 96),
        underlying_amount_per_contract: get_u64(bytes, 128),
        quote_amount_per_contract: get_u64(bytes, 136),
        expiration_unix_timestamp: #[verifier::truncate] (expiration as i64),
        underlying_asset_pool: get_identity(bytes, 152),
        quote_asset_pool: get_identity(bytes, 184),
        mint_fee_account: get_identity(bytes, 216),
        exercise_fee_account: get_identity(bytes, 248),
        bump_seed: bytes[280],
        initialized: bytes[281] == 1,
    };
    proof {
        lemma_timestamp_bits(0, expiration);
        lemma_market_parts(m);
        let b = market_bytes(m);
        assert forall|i: int| 0 <= i < 282 implies b[i] == bytes@[i] by {
            if i < 32 {
                assert(b[i] == b.subrange(0, 32)[i]);
            } else if i < 64 {
                assert(b[i] == b.subrange(32, 64)[i - 32]);
            } else if i < 96 {
                assert(b[i] == b.subrange(64, 96)[i - 64]);
            } else if i < 128 {
                assert(b[i] == b.subrange(96, 128)[i - 96]);
            } else if i < 136 {
                assert(b[i] == b.subrange(128, 136)[i - 128]);
            } else if i < 144 {
                assert(b[i] == b.subrange(136, 144)[i - 136]);
            } else if i < 152 {
                assert(b[i] == b.subrange(144, 152)[i - 144]);
            } else if i < 184 {
                assert(b[i] == b.subrange(152, 184)[i - 152]);
            } else if i < 216 {
                assert(b[i] == b.subrange(184, 216)[i - 184]);
            } else if i < 248 {
                assert(b[i] == b.subrange(216, 248)[i - 216]);
            } else if i < 280 {
                assert(b[i] == b.subrange(248, 280)[i - 248]);
            }
        }
        assert(b =~= bytes@);
    }
    Some(m)
}

/// The number of bytes of a writer entry.
pub const ENTRY_LEN: usize = 41;

/// The number of bytes in front of the entries of a registry: their count.
pub const COUNT_LEN: usize = 8;

/// The bytes of a writer entry.
pub open spec fn entry_bytes(e: WriterEntry) -> Seq<u8> {
    e.writer@ + spec_u64_to_le_bytes(e.contracts) + seq![flag_byte(e.claim_enabled)]
}

/// The bytes of the entries of `s`, one entry after the other.
pub open spec fn entries_bytes(s: Seq<WriterEntry>) -> Seq<u8>
    decreases s.len(),
{
    if s.len() == 0 {
        Seq::empty()
    } else {
        entries_bytes(s.drop_last()) + entry_bytes(s.last())
    }
}

/// `n` zero bytes.
pub open spec fn zeros(n: nat) -> Seq<u8> {
    Seq::new(n, |i: int| 0u8)
}

/// The number of bytes of a registry with room for `capacity` entries.
pub open spec fn registry_len(capacity: nat) -> nat {
    COUNT_LEN as nat + ENTRY_LEN as nat * capacity
}

/// The bytes of a registry with room for `capacity` entries that holds the
/// entries `s`: their count, the entries, and zeros for the room left.
pub open spec fn registry_bytes(s: Seq<WriterEntry>, capacity: nat) -> Seq<u8> {
    spec_u64_to_le_bytes(s.len() as u64) + entries_bytes(s) + zeros(
        (ENTRY_LEN as nat * (capacity - s.len())) as nat,
    )
}

/// Whether `bytes` are the bytes of some registry with room for `capacity`
/// entries: they are as many as such a registry takes, the count is within
/// the capacity, each entry counted ends in a flag, and the room left holds
/// zeros.
pub open spec fn is_registry(bytes: Seq<u8>, capacity: nat) -> bool {
    let count = spec_u64_from_le_bytes(bytes.subrange(0, 8)) as nat;
    &&& bytes.len() == registry_len(capacity)
    &&& count <= capacity
    &&& forall|i: int| 0 <= i < count ==> #[trigger] bytes[8 + 41 * i + 40] <= 1
    &&& forall|j: int| 8 + 41 * count <= j < bytes.len() ==> #[trigger] bytes[j] == 0
}

/// The parts of the bytes of a writer entry, each where it lies.
proof fn lemma_entry_parts(e: WriterEntry)
    ensures
        entry_bytes(e).len() == ENTRY_LEN,
        entry_bytes(e).subrange(0, 32) == e.writer@,
        entry_bytes(e).subrange(32, 40) == spec_u64_to_le_bytes(e.contracts),
        entry_bytes(e)[40] == flag_byte(e.claim_enabled),
{
    lemma_auto_spec_u64_to_from_le_bytes();
    assert(entry_bytes(e).subrange(0, 32) =~= e.writer@);
    assert(entry_bytes(e).subrange(32, 40) =~= spec_u64_to_le_bytes(e.contracts));
}

/// Two writer entries with the same bytes are the same entry.
proof fn lemma_entry_bytes_tell(a: WriterEntry, b: WriterEntry)
    requires
        entry_bytes(a) == entry_bytes(b),
    ensures
        a == b,
{
    lemma_entry_parts(a);
    lemma_entry_parts(b);
    lemma_auto_spec_u64_to_from_le_bytes();
    lemma_identity_by_bytes(a.writer, b.writer);
    assert(spec_u64_from_le_bytes(spec_u64_to_le_bytes(a.contracts)) == spec_u64_from_le_bytes(
        spec_u64_to_le_bytes(b.contracts),
    ));
}

/// The bytes of a sequence of entries hold each entry at its place.
proof fn lemma_entries_parts(s: Seq<WriterEntry>)
    ensures
        entries_bytes(s).len() == 41 * s.len(),
        forall|i: int|
            0 <= i < s.len() ==> #[trigger] entries_bytes(s).subrange(41 * i, 41 * i + 41)
                == entry_bytes(s[i]),
    decreases s.len(),
{
    if s.len() > 0 {
        let front = s.drop_last();
        lemma_entries_parts(front);
        lemma_entry_parts(s.last());
        let b = entries_bytes(s);
        assert forall|i: int| 0 <= i < s.len() implies #[trigger] b.subrange(41 * i, 41 * i + 41)
            == entry_bytes(s[i]) by {
            if i < front.len() {
                assert(b.subrange(41 * i, 41 * i + 41) =~= entries_bytes(front).subrange(
                    41 * i,
                    41 * i + 41,
                ));
                assert(front[i] == s[i]);
            } else {
                assert(b.subrange(41 * i, 41 * i + 41) =~= entry_bytes(s.last()));
            }
        }
    }
}

/// The parts of the bytes of a registry, each where it lies.
proof fn lemma_registry_parts(s: Seq<WriterEntry>, capacity: nat)
    requires
        s.len() <= capacity,
        s.len() <= u64::MAX,
    ensures
        registry_bytes(s, capacity).len() == registry_len(capacity),
        registry_bytes(s, capacity).subrange(0, 8) == spec_u64_to_le_bytes(s.len() as u64),
        spec_u64_from_le_bytes(registry_bytes(s, capacity).subrange(0, 8)) == s.len(),
        registry_bytes(s, capacity).subrange(8, 8 + 41 * (s.len() as int)) == entries_bytes(s),
        forall|i: int|
            0 <= i < s.len() ==> #[trigger] registry_bytes(s, capacity).subrange(
                8 + 41 * i,
                8 + 41 * i + 41,
            ) == entry_bytes(s[i]),
        forall|j: int|
            8 + 41 * s.len() <= j < registry_len(capacity) ==> #[trigger] registry_bytes(
                s,
                capacity,
            )[j] == 0,
        is_registry(registry_bytes(s, capacity), capacity),
{
    lemma_auto_spec_u64_to_from_le_bytes();
    lemma_entries_parts(s);
    let b = registry_bytes(s, capacity);
    let n = s.len() as int;
    assert(b.len() == 8 + 41 * n + 41 * (capacity - n));
    assert(b.subrange(0, 8) =~= spec_u64_to_le_bytes(s.len() as u64));
    assert(b.subrange(8, 8 + 41 * n) =~= entries_bytes(s));
    assert forall|i: int| 0 <= i < n implies #[trigger] b.subrange(8 + 41 * i, 8 + 41 * i + 41)
        == entry_bytes(s[i]) by {
        assert(b.subrange(8 + 41 * i, 8 + 41 * i + 41) =~= entries_bytes(s).subrange(
            41 * i,
            41 * i + 41,
        ));
    }
    assert forall|i: int| 0 <= i < n implies #[trigger] b[8 + 41 * i + 40] <= 1 by {
        lemma_entry_parts(s[i]);
        assert(b[8 + 41 * i + 40] == b.subrange(8 + 41 * i, 8 + 41 * i + 41)[40]);
    }
}

/// Two sequences of entries with the same registry bytes are the same
/// sequence, and the bytes of a registry are those of a registry.
pub proof fn law_registry_bytes_tell_the_entries(
    a: Seq<WriterEntry>,
    b: Seq<WriterEntry>,
    capacity: nat,
)
    requires
        a.len() <= capacity,
        b.len() <= capacity,
        capacity <= u64::MAX,
    ensures
        is_registry(registry_bytes(a, capacity), capacity),
        registry_bytes(a, capacity) == registry_bytes(b, capacity) ==> a == b,
{
    lemma_registry_parts(a, capacity);
    lemma_registry_parts(b, capacity);
    if registry_bytes(a, capacity) == registry_bytes(b, capacity) {
        assert(a.len() == b.len());
        assert forall|i: int| 0 <= i < a.len() implies a[i] == b[i] by {
            assert(registry_bytes(a, capacity).subrange(8 + 41 * i, 8 + 41 * i + 41)
                == entry_bytes(a[i]));
            assert(registry_bytes(b, capacity).subrange(8 + 41 * i, 8 + 41 * i + 41)
                == entry_bytes(b[i]));
            lemma_entry_bytes_tell(a[i], b[i]);
        }
        assert(a =~= b);
    }
}

/// The number of bytes of a registry with room for `capacity` entries;
/// `None` where it is more than can be counted.
pub fn registry_size(capacity: usize) -> (r: Option<usize>)
    ensures
        r.is_some() == (registry_len(capacity as nat) <= usize::MAX),
        r matches Some(n) ==> n == registry_len(capacity as nat),
{
    match ENTRY_LEN.checked_mul(capacity) {
        Some(room) => room.checked_add(COUNT_LEN),
        None => None,
    }
}

/// The bytes of a registry with room for `capacity` entries that holds
/// `entries`; `None` where there are more entries, or the registry would
/// have more bytes than can be counted.
pub fn pack_registry(entries: &Vec<WriterEntry>, capacity: usize) -> (r: Option<Vec<u8>>)
    ensures
        r.is_some() == (entries@.len() <= capacity && registry_len(capacity as nat) <= usize::MAX),
        r matches Some(bytes) ==> bytes@ == registry_bytes(entries@, capacity as nat) && bytes@.len()
            == registry_len(capacity as nat),
{
    let count = entries.len();
    if count > capacity || registry_size(capacity).is_none() {
        return None;
    }
    let mut out: Vec<u8> = Vec::new();
    put_u64(&mut out, count as u64);
    assert(out@ =~= spec_u64_to_le_bytes(count as u64));
    let mut i: usize = 0;
    while i < count
        invariant
            i <= count,
            count == entries@.len(),
            out@ == spec_u64_to_le_bytes(count as u64) + entries_bytes(
                entries@.subrange(0, i as int),
            ),
        decreases count - i,
    {
        let entry = entries[i];
        let ghost before = out@;
        put_identity(&mut out, &entry.writer);
        put_u64(&mut out, entry.contracts);
        out.push(if entry.claim_enabled {
            1
        } else {
            0
        });
        proof {
            let next = entries@.subrange(0, i + 1);
            assert(next.drop_last() =~= entries@.subrange(0, i as int));
            assert(next.last() == entry);
            assert(out@ =~= before + entry_bytes(entry));
            assert(out@ =~= spec_u64_to_le_bytes(count as u64) + entries_bytes(next));
        }
        i += 1;
    }
    assert(entries@.subrange(0, count as int) =~= entries@);
    let ghost filled = out@;
    let room = ENTRY_LEN * (capacity - count);
    let mut k: usize = 0;
    while k < room
        invariant
            k <= room,
            out@ == filled + zeros(k as nat),
        decreases room - k,
    {
        out.push(0);
        assert(out@ =~= filled + zeros((k + 1) as nat));
        k += 1;
    }
    proof {
        lemma_registry_parts(entries@, capacity as nat);
    }
    Some(out)
}

/// The entries that `bytes` hold as a registry with room for `capacity`
/// entries, oldest first; `None` where they are not the bytes of such a
/// registry.
pub fn unpack_registry(bytes: &[u8], capacity: usize) -> (r: Option<Vec<WriterEntry>>)
    ensures
        r.is_some() == is_registry(bytes@, capacity as nat),
        r matches Some(entries) ==> entries@.len() <= capacity && registry_bytes(
            entries@,
            capacity as nat,
        ) == bytes@,
{
    let len = bytes.len();
    match registry_size(capacity) {
        Some(size) => {
            if len != size {
                return None;
            }
        },
        None => {
            return None;
        },
    }
    let counted = get_u64(bytes, 0);
    proof {
        lemma_auto_spec_u64_to_from_le_bytes();
        assert(spec_u64_from_le_bytes(bytes@.subrange(0, 8)) == counted);
    }
    if counted > capacity as u64 {
        return None;
    }
    let count = counted as usize;
    let mut entries: Vec<WriterEntry> = Vec::new();
    let mut i: usize = 0;
    while i < count
        invariant
            i <= count <= capacity,
            bytes@.len() == 8 + 41 * capacity,
            bytes@.len() == len,
            entries@.len() == i,
            entries_bytes(entries@) == bytes@.subrange(8, 8 + 41 * i),
            count == spec_u64_from_le_bytes(bytes@.subrange(0, 8)),
            forall|j: int| 0 <= j < i ==> #[trigger] bytes@[8 + 41 * j + 40] <= 1,
        decreases count - i,
    {
        let at = COUNT_LEN + ENTRY_LEN * i;
        let flag = bytes[at + 40];
        if flag > 1 {
            assert(bytes@[8 + 41 * (i as int) + 40] > 1);
            return None;
        }
        let entry = WriterEntry {
            writer: get_identity(bytes, at),
            contracts: get_u64(bytes, at + 32),
            claim_enabled: flag == 1,
        };
        let ghost before = entries@;
        entries.push(entry);
        proof {
            lemma_entry_parts(entry);
            assert(entries@.drop_last() =~= before);
            let e = entry_bytes(entry);
            let part = bytes@.subrange(at as int, at + 41);
            assert(part.subrange(0, 32) =~= bytes@.subrange(at as int, at + 32));
            assert(part.subrange(32, 40) =~= bytes@.subrange(at + 32, at + 40));
            assert forall|x: int| 0 <= x < 41 implies e[x] == part[x] by {
                if x < 32 {
                    assert(e[x] == e.subrange(0, 32)[x]);
                    assert(part[x] == part.subrange(0, 32)[x]);
                } else if x < 40 {
                    assert(e[x] == e.subrange(32, 40)[x - 32]);
                    assert(part[x] == part.subrange(32, 40)[x - 32]);
                }
            }
            assert(e =~= part);
            assert(bytes@.subrange(8, 8 + 41 * (i + 1)) =~= bytes@.subrange(8, 8 + 41 * i) + part);
        }
        i += 1;
    }
    let mut j: usize = COUNT_LEN + ENTRY_LEN * count;
    while j < bytes.len()
        invariant
            8 + 41 * count <= j <= bytes@.len(),
            count == spec_u64_from_le_bytes(bytes@.subrange(0, 8)),
            forall|x: int| 8 + 41 * count <= x < j ==> #[trigger] bytes@[x] == 0,
        decreases bytes@.len() - j,
    {
        if bytes[j] != 0 {
            assert(bytes@[j as int] != 0);
            return None;
        }
        j += 1;
    }
    proof {
        let b = registry_bytes(entries@, capacity as nat);
        lemma_registry_parts(entries@, capacity as nat);
        assert forall|x: int| 0 <= x < b.len() implies b[x] == bytes@[x] by {
            if x < 8 {
                assert(b[x] == b.subrange(0, 8)[x]);
                assert(bytes@[x] == bytes@.subrange(0, 8)[x]);
            } else if x < 8 + 41 * count {
                assert(b[x] == b.subrange(8, 8 + 41 * count)[x - 8]);
                assert(bytes@[x] == bytes@.subrange(8, 8 + 41 * count)[x - 8]);
            }
        }
        assert(b =~= bytes@);
    }
    Some(entries)
}

/// The bytes of the state of a market: the record `m`, then the entries `s`
/// in a registry with room for `capacity` entries.
pub open spec fn state_bytes(m: OptionMarket, s: Seq<WriterEntry>, capacity: nat) -> Seq<u8> {
    market_bytes(m) + registry_bytes(s, capacity)
}

/// Whether `bytes` are the bytes of the state of some market with room for
/// `capacity` entries: a record, and behind it a registry.
pub open spec fn is_state(bytes: Seq<u8>, capacity: nat) -> bool {
    &&& bytes.len() >= MARKET_LEN
    &&& is_market_record(bytes.subrange(0, MARKET_LEN as int))
    &&& is_registry(bytes.subrange(MARKET_LEN as int, bytes.len() as int), capacity)
}

/// Two states with the same bytes are the same state, and the bytes of a
/// state are those of a state.
pub proof fn law_state_bytes_tell_the_state(
    m1: OptionMarket,
    s1: Seq<WriterEntry>,
    m2: OptionMarket,
    s2: Seq<WriterEntry>,
    capacity: nat,
)
    requires
        s1.len() <= capacity,
        s2.len() <= capacity,
        capacity <= u64::MAX,
    ensures
        is_state(state_bytes(m1, s1, capacity), capacity),
        state_bytes(m1, s1, capacity) == state_bytes(m2, s2, capacity) ==> m1 == m2 && s1 == s2,
{
    lemma_state_parts(m1, s1, capacity);
    lemma_state_parts(m2, s2, capacity);
    law_market_bytes_tell_the_record(m1, m2);
    law_registry_bytes_tell_the_entries(s1, s2, capacity);
}

/// The parts of the bytes of a state, each where it lies.
proof fn lemma_state_parts(m: OptionMarket, s: Seq<WriterEntry>, capacity: nat)
    ensures
        state_bytes(m, s, capacity).len() >= MARKET_LEN,
        state_bytes(m, s, capacity).subrange(0, MARKET_LEN as int) == market_bytes(m),
        state_bytes(m, s, capacity).subrange(
            MARKET_LEN as int,
            state_bytes(m, s, capacity).len() as int,
        ) == registry_bytes(s, capacity),
{
    lemma_market_parts(m);
    let b = state_bytes(m, s, capacity);
    assert(b.subrange(0, MARKET_LEN as int) =~= market_bytes(m));
    assert(b.subrange(MARKET_LEN as int, b.len() as int) =~= registry_bytes(s, capacity));
}

/// The bytes of the state of a market: the record `m`, then `entries` in a
/// registry with room for `capacity` entries; `None` where there are more
/// entries, or the state would have more bytes than can be counted.
pub fn pack_state(m: &OptionMarket, entries: &Vec<WriterEntry>, capacity: usize) -> (r: Option<
    Vec<u8>,
>)
    ensures
        r.is_some() == (entries@.len() <= capacity && MARKET_LEN + registry_len(capacity as nat)
            <= usize::MAX),
        r matches Some(bytes) ==> bytes@ == state_bytes(*m, entries@, capacity as nat),
{
    let size = match registry_size(capacity) {
        Some(size) => size,
        None => {
            return None;
        },
    };
    if size > usize::MAX - MARKET_LEN {
        return None;
    }
    let registry = match pack_registry(entries, capacity) {
        Some(registry) => registry,
        None => {
            return None;
        },
    };
    let mut out = pack_market(m);
    out.extend_from_slice(registry.as_slice());
    Some(out)
}

/// The record and the entries that `bytes` hold as the state of a market
/// with room for `capacity` entries; `None` where they are not the bytes of
/// such a state.
pub fn unpack_state(bytes: &[u8], capacity: usize) -> (r: Option<(OptionMarket, Vec<WriterEntry>)>)
    ensures
        r.is_some() == is_state(bytes@, capacity as nat),
        r matches Some(state) ==> state.1@.len() <= capacity && state_bytes(
            state.0,
            state.1@,
            capacity as nat,
        ) == bytes@,
{
    if bytes.len() < MARKET_LEN {
        return None;
    }
    let m = match unpack_market(slice_subrange(bytes, 0, MARKET_LEN)) {
        Some(m) => m,
        None => {
            return None;
        },
    };
    let entries = match unpack_registry(slice_subrange(bytes, MARKET_LEN, bytes.len()), capacity) {
        Some(entries) => entries,
        None => {
            return None;
        },
    };
    assert(state_bytes(m, entries@, capacity as nat) =~= bytes@);
    Some((m, entries))
}

} // verus!
