//! The token ledger: who holds how much of which asset.
//!
//! The ledger knows three kinds of asset (a mint created by its authority, and
//! the option and writer tokens that a market issues) and three kinds of
//! holder (a wallet, and the two pools of a market). Wallets are moved by
//! their owners through `mint`, `burn` and `transfer`; pools and the tokens of
//! a market are moved by the market's own operations only.
//!
//! For every asset the balances of all holders add up to its supply, and the
//! supply fits in a `u64`. So no balance can overflow when tokens move.

use vstd::prelude::*;
use crate::error::MarketError;
use crate::identity::Identity;
use crate::market::MarketId;

verus! {

/// What can be held.
#[derive(Clone, Copy, Debug, PartialEq, Eq)]
pub enum Asset {
    /// A token created with `create_mint`, named by its mint.
    Mint(Identity),
    /// The option token of a market.
    OptionToken(MarketId),
    /// The writer token of a market.
    WriterToken(MarketId),
}

impl Asset {
    /// Whether `self` and `other` are the same asset.
    pub fn same(&self, other: &Asset) -> (r: bool)
        ensures
            r == (*self == *other),
    {
        match (self, other) {
            (Asset::Mint(a), Asset::Mint(b)) => a.same(b),
            (Asset::OptionToken(a), Asset::OptionToken(b)) => a.same(b),
            (Asset::WriterToken(a), Asset::WriterToken(b)) => a.same(b),
            _ => false,
        }
    }

    /// Whether the asset is issued by a market, and so moved into and out of
    /// existence by that market alone.
    pub open spec fn market_issued(&self) -> bool {
        !(self is Mint)
    }
}

/// Who can hold.
#[derive(Clone, Copy, Debug, PartialEq, Eq)]
pub enum Holder {
    /// The account of an owner, named by the owner's identity.
    Wallet(Identity),
    /// The pool in which a market keeps the underlying asset.
    UnderlyingPool(MarketId),
    /// The pool in which a market keeps the quote asset.
    QuotePool(MarketId),
}

impl Holder {
    /// Whether `self` and `other` are the same holder.
    pub fn same(&self, other: &Holder) -> (r: bool)
        ensures
            r == (*self == *other),
    {
        match (self, other) {
            (Holder::Wallet(a), Holder::Wallet(b)) => a.same(b),
            (Holder::UnderlyingPool(a), Holder::UnderlyingPool(b)) => a.same(b),
            (Holder::QuotePool(a), Holder::QuotePool(b)) => a.same(b),
            _ => false,
        }
    }
}

/// One balance: `holder` holds `amount` of `asset`.
#[derive(Clone, Copy, Debug)]
struct Holding {
    asset: Asset,
    holder: Holder,
    amount: u64,
}

/// One asset that the ledger knows: who may mint it, and how much exists.
#[derive(Clone, Copy, Debug)]
struct MintRecord {
    asset: Asset,
    /// `None` for the tokens of a market.
    authority: Option<Identity>,
    supply: u64,
}

/// What `holder` holds of `asset` according to the holdings `s`.
spec fn balance_in(s: Seq<Holding>, asset: Asset, holder: Holder) -> nat
    decreases s.len(),
{
    if s.len() == 0 {
        0
    } else {
        balance_in(s.drop_last(), asset, holder) + if s.last().asset == asset && s.last().holder
            == holder {
            s.last().amount as nat
        } else {
            0
        }
    }
}

/// What all holders together hold of `asset` according to the holdings `s`.
spec fn held_in(s: Seq<Holding>, asset: Asset) -> nat
    decreases s.len(),
{
    if s.len() == 0 {
        0
    } else {
        held_in(s.drop_last(), asset) + if s.last().asset == asset {
            s.last().amount as nat
        } else {
            0
        }
    }
}

/// The supply of `asset` according to the records `m`.
spec fn supply_in(m: Seq<MintRecord>, asset: Asset) -> nat
    decreases m.len(),
{
    if m.len() == 0 {
        0
    } else {
        supply_in(m.drop_last(), asset) + if m.last().asset == asset {
            m.last().supply as nat
        } else {
            0
        }
    }
}

/// The authority recorded for `asset` in `m`, if `m` knows the asset.
spec fn authority_in(m: Seq<MintRecord>, asset: Asset) -> Option<Option<Identity>>
    decreases m.len(),
{
    if m.len() == 0 {
        None
    } else if m.last().asset == asset {
        Some(m.last().authority)
    } else {
        authority_in(m.drop_last(), asset)
    }
}

/// No two holdings of `s` are for the same asset and holder.
spec fn distinct_holdings(s: Seq<Holding>) -> bool {
    forall|i: int, j: int|
        0 <= i < j < s.len() ==> !((#[trigger] s[i]).asset == (#[trigger] s[j]).asset && s[i].holder
            == s[j].holder)
}

/// No two records of `m` are for the same asset.
spec fn distinct_mints(m: Seq<MintRecord>) -> bool {
    forall|i: int, j: int|
        0 <= i < j < m.len() ==> (#[trigger] m[i]).asset != (#[trigger] m[j]).asset
}

/// Where no holding is for `asset` and `holder`, the balance is zero.
proof fn lemma_balance_none(s: Seq<Holding>, asset: Asset, holder: Holder)
    requires
        forall|i: int| 0 <= i < s.len() ==> !((#[trigger] s[i]).asset == asset && s[i].holder == holder),
    ensures
        balance_in(s, asset, holder) == 0,
    decreases s.len(),
{
    if s.len() > 0 {
        assert(s.last() == s[s.len() - 1]);
        assert forall|i: int| 0 <= i < s.drop_last().len() implies !((#[trigger] s.drop_last()[i]).asset
            == asset && s.drop_last()[i].holder == holder) by {
            assert(s.drop_last()[i] == s[i]);
        }
        lemma_balance_none(s.drop_last(), asset, holder);
    }
}

/// Where no balance is recorded twice, the balance is the amount of the
/// holding that is for `asset` and `holder`.
proof fn lemma_balance_one(s: Seq<Holding>, i: int, asset: Asset, holder: Holder)
    requires
        distinct_holdings(s),
        0 <= i < s.len(),
        s[i].asset == asset,
        s[i].holder == holder,
    ensures
        balance_in(s, asset, holder) == s[i].amount,
    decreases s.len(),
{
    let front = s.drop_last();
    assert(s.last() == s[s.len() - 1]);
    if i == s.len() - 1 {
        assert forall|j: int| 0 <= j < front.len() implies !((#[trigger] front[j]).asset == asset
            && front[j].holder == holder) by {
            assert(front[j] == s[j]);
        }
        lemma_balance_none(front, asset, holder);
    } else {
        assert forall|a: int, b: int| 0 <= a < b < front.len() implies !((#[trigger] front[a]).asset
            == (#[trigger] front[b]).asset && front[a].holder == front[b].holder) by {
            assert(front[a] == s[a]);
            assert(front[b] == s[b]);
        }
        assert(front[i] == s[i]);
        lemma_balance_one(front, i, asset, holder);
    }
}

/// Changing the amount of one holding changes the balance of its asset and
/// holder by as much, and no other balance.
proof fn lemma_balance_update(s: Seq<Holding>, i: int, x: Holding, asset: Asset, holder: Holder)
    requires
        0 <= i < s.len(),
        x.asset == s[i].asset,
        x.holder == s[i].holder,
    ensures
        balance_in(s.update(i, x), asset, holder) + (if x.asset == asset && x.holder == holder {
            s[i].amount as nat
        } else {
            0
        }) == balance_in(s, asset, holder) + (if x.asset == asset && x.holder == holder {
            x.amount as nat
        } else {
            0
        }),
    decreases s.len(),
{
    if i == s.len() - 1 {
        assert(s.update(i, x).drop_last() =~= s.drop_last());
    } else {
        lemma_balance_update(s.drop_last(), i, x, asset, holder);
        assert(s.update(i, x).drop_last() =~= s.drop_last().update(i, x));
    }
}

/// Changing the amount of one holding changes what is held of its asset by
/// as much, and of no other asset.
proof fn lemma_held_update(s: Seq<Holding>, i: int, x: Holding, asset: Asset)
    requires
        0 <= i < s.len(),
        x.asset == s[i].asset,
    ensures
        held_in(s.update(i, x), asset) + (if x.asset == asset {
            s[i].amount as nat
        } else {
            0
        }) == held_in(s, asset) + (if x.asset == asset {
            x.amount as nat
        } else {
            0
        }),
    decreases s.len(),
{
    if i == s.len() - 1 {
        assert(s.update(i, x).drop_last() =~= s.drop_last());
    } else {
        lemma_held_update(s.drop_last(), i, x, asset);
        assert(s.update(i, x).drop_last() =~= s.drop_last().update(i, x));
    }
}

/// Two different holders together hold no more of an asset than all
/// holders do.
proof fn lemma_held_covers(s: Seq<Holding>, asset: Asset, h1: Holder, h2: Holder)
    requires
        h1 != h2,
    ensures
        balance_in(s, asset, h1) + balance_in(s, asset, h2) <= held_in(s, asset),
    decreases s.len(),
{
    if s.len() > 0 {
        lemma_held_covers(s.drop_last(), asset, h1, h2);
    }
}

/// One holder holds no more of an asset than all holders do.
proof fn lemma_held_covers_one(s: Seq<Holding>, asset: Asset, holder: Holder)
    ensures
        balance_in(s, asset, holder) <= held_in(s, asset),
    decreases s.len(),
{
    if s.len() > 0 {
        lemma_held_covers_one(s.drop_last(), asset, holder);
    }
}

/// An asset without a record has no supply and no authority.
proof fn lemma_supply_none(m: Seq<MintRecord>, asset: Asset)
    requires
        forall|i: int| 0 <= i < m.len() ==> (#[trigger] m[i]).asset != asset,
    ensures
        supply_in(m, asset) == 0,
        authority_in(m, asset).is_none(),
    decreases m.len(),
{
    if m.len() > 0 {
        assert(m.last() == m[m.len() - 1]);
        assert forall|i: int| 0 <= i < m.drop_last().len() implies (#[trigger] m.drop_last()[i]).asset
            != asset by {
            assert(m.drop_last()[i] == m[i]);
        }
        lemma_supply_none(m.drop_last(), asset);
    }
}

/// Where no asset is recorded twice, the supply and the authority of an
/// asset are those of its record.
proof fn lemma_supply_one(m: Seq<MintRecord>, i: int, asset: Asset)
    requires
        distinct_mints(m),
        0 <= i < m.len(),
        m[i].asset == asset,
    ensures
        supply_in(m, asset) == m[i].supply,
        authority_in(m, asset) == Some(m[i].authority),
    decreases m.len(),
{
    let front = m.drop_last();
    assert(m.last() == m[m.len() - 1]);
    if i == m.len() - 1 {
        assert forall|j: int| 0 <= j < front.len() implies (#[trigger] front[j]).asset != asset by {
            assert(front[j] == m[j]);
        }
        lemma_supply_none(front, asset);
    } else {
        assert forall|a: int, b: int| 0 <= a < b < front.len() implies (#[trigger] front[a]).asset
            != (#[trigger] front[b]).asset by {
            assert(front[a] == m[a]);
            assert(front[b] == m[b]);
        }
        assert(front[i] == m[i]);
        lemma_supply_one(front, i, asset);
    }
}

/// Changing the supply in one record changes the supply of its asset by as
/// much, and nothing else.
proof fn lemma_supply_update(m: Seq<MintRecord>, i: int, x: MintRecord, asset: Asset)
    requires
        0 <= i < m.len(),
        x.asset == m[i].asset,
        x.authority == m[i].authority,
    ensures
        supply_in(m.update(i, x), asset) + (if x.asset == asset {
            m[i].supply as nat
        } else {
            0
        }) == supply_in(m, asset) + (if x.asset == asset {
            x.supply as nat
        } else {
            0
        }),
        authority_in(m.update(i, x), asset) == authority_in(m, asset),
    decreases m.len(),
{
    if i == m.len() - 1 {
        assert(m.update(i, x).drop_last() =~= m.drop_last());
    } else {
        lemma_supply_update(m.drop_last(), i, x, asset);
        assert(m.update(i, x).drop_last() =~= m.drop_last().update(i, x));
    }
}

/// A ledger of token balances.
#[derive(Debug)]
pub struct TokenLedger {
    mints: Vec<MintRecord>,
    holdings: Vec<Holding>,
}

impl TokenLedger {
    /// What every holder holds of every asset; zero where nothing is held.
    pub closed spec fn balances(&self) -> Map<(Asset, Holder), nat> {
        Map::new(
            |k: (Asset, Holder)| true,
            |k: (Asset, Holder)| balance_in(self.holdings@, k.0, k.1),
        )
    }

    /// How much of every asset exists; zero for an asset that the ledger does
    /// not know.
    pub closed spec fn supplies(&self) -> Map<Asset, nat> {
        Map::new(|a: Asset| true, |a: Asset| supply_in(self.mints@, a))
    }

    /// For every asset that the ledger knows, who may mint it: `None` for the
    /// tokens of a market.
    pub closed spec fn authorities(&self) -> Map<Asset, Option<Identity>> {
        Map::new(
            |a: Asset| authority_in(self.mints@, a).is_some(),
            |a: Asset| authority_in(self.mints@, a).unwrap(),
        )
    }

    /// What `holder` holds of `asset`.
    #[verifier::inline]
    pub open spec fn balance(&self, asset: Asset, holder: Holder) -> nat {
        self.balances()[(asset, holder)]
    }

    /// How much of `asset` exists.
    #[verifier::inline]
    pub open spec fn supply(&self, asset: Asset) -> nat {
        self.supplies()[asset]
    }

    /// Whether the ledger knows `asset`.
    #[verifier::inline]
    pub open spec fn knows(&self, asset: Asset) -> bool {
        self.authorities().dom().contains(asset)
    }

    /// No asset and no balance is recorded twice, and for every asset the
    /// balances add up to the supply.
    pub closed spec fn wf(&self) -> bool {
        &&& distinct_mints(self.mints@)
        &&& distinct_holdings(self.holdings@)
        &&& forall|a: Asset| #[trigger] held_in(self.holdings@, a) == supply_in(self.mints@, a)
    }

    /// Every supply fits in a `u64`; a balance is at most the supply, two
    /// balances of different holders together are at most the supply, and an
    /// asset that the ledger does not know has no supply.
    pub proof fn lemma_bounds(&self, asset: Asset, h1: Holder, h2: Holder)
        requires
            self.wf(),
        ensures
            self.supply(asset) <= u64::MAX,
            self.balance(asset, h1) <= self.supply(asset),
            h1 != h2 ==> self.balance(asset, h1) + self.balance(asset, h2) <= self.supply(asset),
            !self.knows(asset) ==> self.supply(asset) == 0,
            self.balances().dom().contains((asset, h1)),
            self.supplies().dom().contains(asset),
    {
        assert(held_in(self.holdings@, asset) == supply_in(self.mints@, asset));
        lemma_supply_fits(self.mints@, asset);
        lemma_held_covers_one(self.holdings@, asset, h1);
        if h1 != h2 {
            lemma_held_covers(self.holdings@, asset, h1, h2);
        }
        if !self.knows(asset) {
            lemma_unknown_no_supply(self.mints@, asset);
        }
    }

    /// A ledger that knows no asset.
    pub fn new() -> (ledger: TokenLedger)
        ensures
            ledger.wf(),
            forall|a: Asset, h: Holder| ledger.balance(a, h) == 0,
            forall|a: Asset| ledger.supply(a) == 0,
            forall|a: Asset| !ledger.knows(a),
    {
        let ledger = TokenLedger { mints: Vec::new(), holdings: Vec::new() };
        assert(forall|a: Asset| #[trigger] held_in(ledger.holdings@, a) == 0);
        ledger
    }

    /// The position of the holding for `asset` and `holder`, if there is one.
    fn find_holding(&self, asset: &Asset, holder: &Holder) -> (r: Option<usize>)
        ensures
            match r {
                Some(i) => i < self.holdings@.len() && self.holdings@[i as int].asset == *asset
                    && self.holdings@[i as int].holder == *holder,
                None => forall|i: int|
                    0 <= i < self.holdings@.len() ==> !((#[trigger] self.holdings@[i]).asset
                        == *asset && self.holdings@[i].holder == *holder),
            },
    {
        let mut i: usize = 0;
        while i < self.holdings.len()
            invariant
                i <= self.holdings@.len(),
                forall|j: int|
                    0 <= j < i ==> !((#[trigger] self.holdings@[j]).asset == *asset
                        && self.holdings@[j].holder == *holder),
            decreases self.holdings@.len() - i,
        {
            if self.holdings[i].asset.same(asset) && self.holdings[i].holder.same(holder) {
                return Some(i);
            }
            i += 1;
        }
        None
    }

    /// The position of the record of `asset`, if there is one.
    fn find_mint(&self, asset: &Asset) -> (r: Option<usize>)
        ensures
            match r {
                Some(i) => i < self.mints@.len() && self.mints@[i as int].asset == *asset,
                None => forall|i: int|
                    0 <= i < self.mints@.len() ==> (#[trigger] self.mints@[i]).asset != *asset,
            },
    {
        let mut i: usize = 0;
        while i < self.mints.len()
            invariant
                i <= self.mints@.len(),
                forall|j: int| 0 <= j < i ==> (#[trigger] self.mints@[j]).asset != *asset,
            decreases self.mints@.len() - i,
        {
            if self.mints[i].asset.same(asset) {
                return Some(i);
            }
            i += 1;
        }
        None
    }

    /// What `holder` holds of `asset`.
    pub fn balance_of_holder(&self, asset: &Asset, holder: &Holder) -> (amount: u64)
        requires
            self.wf(),
        ensures
            amount == self.balance(*asset, *holder),
    {
        match self.find_holding(asset, holder) {
            Some(i) => {
                proof {
                    lemma_balance_one(self.holdings@, i as int, *asset, *holder);
                }
                self.holdings[i].amount
            },
            None => {
                proof {
                    lemma_balance_none(self.holdings@, *asset, *holder);
                }
                0
            },
        }
    }

    /// What the wallet of `account` holds of `asset`.
    pub fn balance_of(&self, asset: &Asset, account: &Identity) -> (amount: u64)
        requires
            self.wf(),
        ensures
            amount == self.balance(*asset, Holder::Wallet(*account)),
    {
        self.balance_of_holder(asset, &Holder::Wallet(*account))
    }

    /// How much of `asset` exists.
    pub fn supply_of(&self, asset: &Asset) -> (amount: u64)
        requires
            self.wf(),
        ensures
            amount == self.supply(*asset),
    {
        match self.find_mint(asset) {
            Some(i) => {
                proof {
                    lemma_supply_one(self.mints@, i as int, *asset);
                }
                self.mints[i].supply
            },
            None => {
                proof {
                    lemma_supply_none(self.mints@, *asset);
                }
                0
            },
        }
    }

    /// Who may mint `asset`: `None` if the ledger does not know the asset,
    /// `Some(None)` for the tokens of a market.
    pub fn authority_of(&self, asset: &Asset) -> (authority: Option<Option<Identity>>)
        requires
            self.wf(),
        ensures
            authority.is_some() == self.knows(*asset),
            self.knows(*asset) ==> authority == Some(self.authorities()[*asset]),
    {
        match self.find_mint(asset) {
            Some(i) => {
                proof {
                    lemma_supply_one(self.mints@, i as int, *asset);
                }
                Some(self.mints[i].authority)
            },
            None => {
                proof {
                    lemma_supply_none(self.mints@, *asset);
                }
                None
            },
        }
    }

    /// Makes `asset` known, with nothing of it in existence yet. Returns
    /// `false`, and changes nothing, if the ledger knows the asset already.
    pub(crate) fn register(&mut self, asset: Asset, authority: Option<Identity>) -> (created: bool)
        requires
            old(self).wf(),
        ensures
            final(self).wf(),
            created == !old(self).knows(asset),
            final(self).balances() == old(self).balances(),
            final(self).supplies() == old(self).supplies(),
            created ==> final(self).authorities() == old(self).authorities().insert(
                asset,
                authority,
            ),
            !created ==> final(self).authorities() == old(self).authorities(),
    {
        match self.find_mint(&asset) {
            Some(i) => {
                proof {
                    lemma_supply_one(self.mints@, i as int, asset);
                }
                false
            },
            None => {
                proof {
                    lemma_supply_none(self.mints@, asset);
                }
                self.mints.push(MintRecord { asset, authority, supply: 0 });
                proof {
                    let before = old(self).mints@;
                    let after = self.mints@;
                    assert(after.drop_last() =~= before);
                    assert forall|a: Asset| #[trigger]
                        held_in(self.holdings@, a) == supply_in(after, a) by {
                        assert(held_in(old(self).holdings@, a) == supply_in(before, a));
                    }
                    assert(self.supplies() =~= old(self).supplies());
                    assert(self.authorities() =~= old(self).authorities().insert(asset, authority));
                    assert(self.balances() =~= old(self).balances());
                }
                true
            },
        }
    }

    /// Brings `amount` of `asset` into existence in the hands of `to`.
    pub(crate) fn issue(&mut self, asset: &Asset, to: &Holder, amount: u64)
        requires
            old(self).wf(),
            old(self).knows(*asset),
            old(self).supply(*asset) + amount <= u64::MAX,
        ensures
            final(self).wf(),
            final(self).balances() == old(self).balances().insert(
                (*asset, *to),
                old(self).balance(*asset, *to) + amount as nat,
            ),
            final(self).supplies() == old(self).supplies().insert(
                *asset,
                old(self).supply(*asset) + amount as nat,
            ),
            final(self).authorities() == old(self).authorities(),
    {
        let ghost h0 = self.holdings@;
        let ghost m0 = self.mints@;
        let found = self.find_mint(asset);
        proof {
            if found.is_none() {
                lemma_supply_none(m0, *asset);
            }
        }
        let j = found.unwrap();
        proof {
            lemma_supply_one(m0, j as int, *asset);
        }
        let record = self.mints[j];
        self.mints[j] = MintRecord {
            asset: record.asset,
            authority: record.authority,
            supply: record.supply + amount,
        };
        proof {
            old(self).lemma_bounds(*asset, *to, *to);
        }
        self.credit(asset, to, amount);
        proof {
            let m1 = self.mints@;
            let h1 = self.holdings@;
            assert forall|a: Asset| #[trigger] held_in(h1, a) == supply_in(m1, a) by {
                assert(held_in(h0, a) == supply_in(m0, a));
                lemma_supply_update(m0, j as int, m1[j as int], a);
            }
            assert forall|a: Asset| supply_in(m1, a) == if a == *asset {
                supply_in(m0, a) + amount as nat
            } else {
                supply_in(m0, a)
            } by {
                lemma_supply_update(m0, j as int, m1[j as int], a);
            }
            assert forall|a: Asset| authority_in(m1, a) == authority_in(m0, a) by {
                lemma_supply_update(m0, j as int, m1[j as int], a);
            }
            assert(self.supplies() =~= old(self).supplies().insert(
                *asset,
                old(self).supply(*asset) + amount as nat,
            ));
            assert(self.authorities() =~= old(self).authorities());
        }
    }

    /// Adds `amount` to what `to` holds of `asset`, without touching the
    /// supply.
    fn credit(&mut self, asset: &Asset, to: &Holder, amount: u64)
        requires
            distinct_holdings(old(self).holdings@),
            balance_in(old(self).holdings@, *asset, *to) + amount <= u64::MAX,
        ensures
            final(self).mints == old(self).mints,
            distinct_holdings(final(self).holdings@),
            forall|a: Asset|
                held_in(final(self).holdings@, a) == #[trigger] held_in(old(self).holdings@, a) + (if a
                    == *asset {
                    amount as nat
                } else {
                    0
                }),
            final(self).balances() == old(self).balances().insert(
                (*asset, *to),
                old(self).balance(*asset, *to) + amount as nat,
            ),
    {
        let ghost h0 = self.holdings@;
        match self.find_holding(asset, to) {
            Some(i) => {
                proof {
                    lemma_balance_one(h0, i as int, *asset, *to);
                }
                let holding = self.holdings[i];
                self.holdings[i] = Holding {
                    asset: holding.asset,
                    holder: holding.holder,
                    amount: holding.amount + amount,
                };
                proof {
                    let h1 = self.holdings@;
                    assert forall|a: int, b: int| 0 <= a < b < h1.len() implies !((#[trigger] h1[a]).asset
                        == (#[trigger] h1[b]).asset && h1[a].holder == h1[b].holder) by {
                        assert(h1[a].asset == h0[a].asset && h1[a].holder == h0[a].holder);
                        assert(h1[b].asset == h0[b].asset && h1[b].holder == h0[b].holder);
                    }
                    assert forall|a: Asset|
                        held_in(h1, a) == #[trigger] held_in(h0, a) + (if a == *asset {
                            amount as nat
                        } else {
                            0
                        }) by {
                        lemma_held_update(h0, i as int, h1[i as int], a);
                    }
                    assert forall|k: (Asset, Holder)|
                        balance_in(h1, k.0, k.1) == if k == (*asset, *to) {
                            balance_in(h0, k.0, k.1) + amount as nat
                        } else {
                            balance_in(h0, k.0, k.1)
                        } by {
                        lemma_balance_update(h0, i as int, h1[i as int], k.0, k.1);
                    }
                    assert(self.balances() =~= old(self).balances().insert(
                        (*asset, *to),
                        old(self).balance(*asset, *to) + amount as nat,
                    ));
                }
            },
            None => {
                proof {
                    lemma_balance_none(h0, *asset, *to);
                }
                self.holdings.push(Holding { asset: *asset, holder: *to, amount });
                proof {
                    let h1 = self.holdings@;
                    assert(h1.drop_last() =~= h0);
                    assert forall|a: int, b: int| 0 <= a < b < h1.len() implies !((#[trigger] h1[a]).asset
                        == (#[trigger] h1[b]).asset && h1[a].holder == h1[b].holder) by {
                        assert(h1[a] == h0[a]);
                        if b < h0.len() {
                            assert(h1[b] == h0[b]);
                        }
                    }
                    assert(self.balances() =~= old(self).balances().insert(
                        (*asset, *to),
                        old(self).balance(*asset, *to) + amount as nat,
                    ));
                }
            },
        }
    }

    /// Takes `amount` from what `from` holds of `asset`, without touching the
    /// supply.
    fn debit(&mut self, asset: &Asset, from: &Holder, amount: u64)
        requires
            distinct_holdings(old(self).holdings@),
            balance_in(old(self).holdings@, *asset, *from) >= amount,
        ensures
            final(self).mints == old(self).mints,
            distinct_holdings(final(self).holdings@),
            forall|a: Asset|
                held_in(final(self).holdings@, a) + (if a == *asset {
                    amount as nat
                } else {
                    0
                }) == #[trigger] held_in(old(self).holdings@, a),
            final(self).balances() == old(self).balances().insert(
                (*asset, *from),
                (old(self).balance(*asset, *from) - amount) as nat,
            ),
    {
        let ghost h0 = self.holdings@;
        match self.find_holding(asset, from) {
            Some(i) => {
                proof {
                    lemma_balance_one(h0, i as int, *asset, *from);
                }
                let holding = self.holdings[i];
                self.holdings[i] = Holding {
                    asset: holding.asset,
                    holder: holding.holder,
                    amount: holding.amount - amount,
                };
                proof {
                    let h1 = self.holdings@;
                    assert forall|a: int, b: int| 0 <= a < b < h1.len() implies !((#[trigger] h1[a]).asset
                        == (#[trigger] h1[b]).asset && h1[a].holder == h1[b].holder) by {
                        assert(h1[a].asset == h0[a].asset && h1[a].holder == h0[a].holder);
                        assert(h1[b].asset == h0[b].asset && h1[b].holder == h0[b].holder);
                    }
                    assert forall|a: Asset|
                        held_in(h1, a) + (if a == *asset {
                            amount as nat
                        } else {
                            0
                        }) == #[trigger] held_in(h0, a) by {
                        lemma_held_update(h0, i as int, h1[i as int], a);
                    }
                    assert forall|k: (Asset, Holder)|
                        balance_in(h1, k.0, k.1) == if k == (*asset, *from) {
                            (balance_in(h0, k.0, k.1) - amount) as nat
                        } else {
                            balance_in(h0, k.0, k.1)
                        } by {
                        lemma_balance_update(h0, i as int, h1[i as int], k.0, k.1);
                    }
                    assert(self.balances() =~= old(self).balances().insert(
                        (*asset, *from),
                        (old(self).balance(*asset, *from) - amount) as nat,
                    ));
                }
            },
            None => {
                proof {
                    lemma_balance_none(h0, *asset, *from);
                    assert(self.balances() =~= old(self).balances().insert(
                        (*asset, *from),
                        (old(self).balance(*asset, *from) - amount) as nat,
                    ));
                }
            },
        }
    }

    /// Takes `amount` of `asset` out of existence, from the hands of `from`.
    pub(crate) fn retire(&mut self, asset: &Asset, from: &Holder, amount: u64)
        requires
            old(self).wf(),
            old(self).balance(*asset, *from) >= amount,
        ensures
            final(self).wf(),
            final(self).balances() == old(self).balances().insert(
                (*asset, *from),
                (old(self).balance(*asset, *from) - amount) as nat,
            ),
            final(self).supplies() == old(self).supplies().insert(
                *asset,
                (old(self).supply(*asset) - amount) as nat,
            ),
            final(self).authorities() == old(self).authorities(),
    {
        let ghost h0 = self.holdings@;
        let ghost m0 = self.mints@;
        proof {
            old(self).lemma_bounds(*asset, *from, *from);
        }
        match self.find_mint(asset) {
            Some(j) => {
                proof {
                    lemma_supply_one(m0, j as int, *asset);
                }
                let record = self.mints[j];
                self.mints[j] = MintRecord {
                    asset: record.asset,
                    authority: record.authority,
                    supply: record.supply - amount,
                };
                self.debit(asset, from, amount);
                proof {
                    let m1 = self.mints@;
                    let h1 = self.holdings@;
                    assert forall|a: Asset| #[trigger] held_in(h1, a) == supply_in(m1, a) by {
                        assert(held_in(h0, a) == supply_in(m0, a));
                        lemma_supply_update(m0, j as int, m1[j as int], a);
                    }
                    assert forall|a: Asset| supply_in(m1, a) == if a == *asset {
                        (supply_in(m0, a) - amount) as nat
                    } else {
                        supply_in(m0, a)
                    } by {
                        lemma_supply_update(m0, j as int, m1[j as int], a);
                    }
                    assert forall|a: Asset| authority_in(m1, a) == authority_in(m0, a) by {
                        lemma_supply_update(m0, j as int, m1[j as int], a);
                    }
                    assert(self.supplies() =~= old(self).supplies().insert(
                        *asset,
                        (old(self).supply(*asset) - amount) as nat,
                    ));
                    assert(self.authorities() =~= old(self).authorities());
                }
            },
            None => {
                proof {
                    lemma_supply_none(m0, *asset);
                    assert(held_in(h0, *asset) == supply_in(m0, *asset));
                    assert(self.balances() =~= old(self).balances().insert(
                        (*asset, *from),
                        (old(self).balance(*asset, *from) - amount) as nat,
                    ));
                    assert(self.supplies() =~= old(self).supplies().insert(
                        *asset,
                        (old(self).supply(*asset) - amount) as nat,
                    ));
                }
            },
        }
    }

    /// Moves `amount` of `asset` from `from` to `to`.
    pub(crate) fn shift(&mut self, asset: &Asset, from: &Holder, to: &Holder, amount: u64)
        requires
            old(self).wf(),
            old(self).balance(*asset, *from) >= amount,
        ensures
            final(self).wf(),
            final(self).balances() == moved(old(self).balances(), *asset, *from, *to, amount as nat),
            final(self).supplies() == old(self).supplies(),
            final(self).authorities() == old(self).authorities(),
    {
        let ghost h0 = self.holdings@;
        if from.same(to) {
            proof {
                assert(moved(self.balances(), *asset, *from, *to, amount as nat) =~= self.balances());
            }
            return ;
        }
        proof {
            old(self).lemma_bounds(*asset, *from, *to);
        }
        self.debit(asset, from, amount);
        proof {
            assert(self.balances()[(*asset, *to)] == old(self).balances()[(*asset, *to)]);
            assert(self.balances()[(*asset, *from)] == old(self).balances()[(*asset, *from)]
                - amount);
        }
        self.credit(asset, to, amount);
        proof {
            assert forall|a: Asset| #[trigger]
                held_in(self.holdings@, a) == supply_in(self.mints@, a) by {
                assert(held_in(h0, a) == supply_in(old(self).mints@, a));
            }
            assert(self.supplies() =~= old(self).supplies());
            assert(self.authorities() =~= old(self).authorities());
        }
    }

    /// Makes the mint `mint` known, with `authority` as the one who may mint
    /// it and nothing of it in existence yet. Returns `false`, and changes
    /// nothing, if the ledger knows the mint already.
    pub fn create_mint(&mut self, mint: Identity, authority: Identity) -> (created: bool)
        requires
            old(self).wf(),
        ensures
            final(self).wf(),
            created == !old(self).knows(Asset::Mint(mint)),
            final(self).balances() == old(self).balances(),
            final(self).supplies() == old(self).supplies(),
            created ==> final(self).authorities() == old(self).authorities().insert(
                Asset::Mint(mint),
                Some(authority),
            ),
            !created ==> final(self).authorities() == old(self).authorities(),
    {
        self.register(Asset::Mint(mint), Some(authority))
    }

    /// Whether `signer` may mint `asset`.
    pub open spec fn may_mint(&self, asset: Asset, signer: Identity) -> bool {
        self.knows(asset) && self.authorities()[asset] == Some(signer)
    }

    /// What `mint` answers.
    pub open spec fn mint_outcome(&self, asset: Asset, amount: u64, signer: Identity) -> Result<
        (),
        MarketError,
    > {
        if !self.may_mint(asset, signer) {
            Err(MarketError::Unauthorized)
        } else if self.supply(asset) + amount > u64::MAX {
            Err(MarketError::InvalidParameters)
        } else {
            Ok(())
        }
    }

    /// Brings `amount` of `asset` into existence in the wallet of `to`. Only
    /// the authority of the mint may do so: with any other signer, or an
    /// asset that has no such authority, the answer is `Unauthorized`. An
    /// amount that would take the supply beyond what a `u64` holds is
    /// answered with `InvalidParameters`. An error changes nothing.
    pub fn mint(&mut self, asset: &Asset, to: &Identity, amount: u64, signer: &Identity) -> (r:
        Result<(), MarketError>)
        requires
            old(self).wf(),
        ensures
            final(self).wf(),
            r == old(self).mint_outcome(*asset, amount, *signer),
            final(self).authorities() == old(self).authorities(),
            r.is_ok() ==> final(self).balances() == old(self).balances().insert(
                (*asset, Holder::Wallet(*to)),
                old(self).balance(*asset, Holder::Wallet(*to)) + amount as nat,
            ) && final(self).supplies() == old(self).supplies().insert(
                *asset,
                old(self).supply(*asset) + amount as nat,
            ),
            r.is_err() ==> final(self).balances() == old(self).balances() && final(self).supplies()
                == old(self).supplies(),
    {
        let authorized = match self.authority_of(asset) {
            Some(Some(authority)) => authority.same(signer),
            _ => false,
        };
        if !authorized {
            return Err(MarketError::Unauthorized);
        }
        let supply = self.supply_of(asset);
        if amount > u64::MAX - supply {
            return Err(MarketError::InvalidParameters);
        }
        self.issue(asset, &Holder::Wallet(*to), amount);
        Ok(())
    }

    /// What `burn` answers.
    pub open spec fn burn_outcome(
        &self,
        asset: Asset,
        from: Identity,
        amount: u64,
        signer: Identity,
    ) -> Result<(), MarketError> {
        if signer != from || asset.market_issued() {
            Err(MarketError::Unauthorized)
        } else if self.balance(asset, Holder::Wallet(from)) < amount {
            Err(MarketError::InsufficientFunds)
        } else {
            Ok(())
        }
    }

    /// Takes `amount` of `asset` out of existence, from the wallet of `from`.
    /// Only the owner of the wallet may do so, and not with the tokens of a
    /// market: otherwise the answer is `Unauthorized`. A wallet that holds
    /// less than `amount` is answered with `InsufficientFunds`. An error
    /// changes nothing.
    pub fn burn(&mut self, asset: &Asset, from: &Identity, amount: u64, signer: &Identity) -> (r:
        Result<(), MarketError>)
        requires
            old(self).wf(),
        ensures
            final(self).wf(),
            r == old(self).burn_outcome(*asset, *from, amount, *signer),
            final(self).authorities() == old(self).authorities(),
            r.is_ok() ==> final(self).balances() == old(self).balances().insert(
                (*asset, Holder::Wallet(*from)),
                (old(self).balance(*asset, Holder::Wallet(*from)) - amount) as nat,
            ) && final(self).supplies() == old(self).supplies().insert(
                *asset,
                (old(self).supply(*asset) - amount) as nat,
            ),
            r.is_err() ==> final(self).balances() == old(self).balances() && final(self).supplies()
                == old(self).supplies(),
    {
        let issued = match asset {
            Asset::Mint(_) => false,
            _ => true,
        };
        if !signer.same(from) || issued {
            return Err(MarketError::Unauthorized);
        }
        if self.balance_of(asset, from) < amount {
            return Err(MarketError::InsufficientFunds);
        }
        self.retire(asset, &Holder::Wallet(*from), amount);
        Ok(())
    }

    /// What `transfer` answers.
    pub open spec fn transfer_outcome(
        &self,
        asset: Asset,
        from: Identity,
        amount: u64,
        signer: Identity,
    ) -> Result<(), MarketError> {
        if signer != from {
            Err(MarketError::Unauthorized)
        } else if self.balance(asset, Holder::Wallet(from)) < amount {
            Err(MarketError::InsufficientFunds)
        } else {
            Ok(())
        }
    }

    /// Moves `amount` of `asset` from the wallet of `from` to the wallet of
    /// `to`. Only the owner of the wallet may do so: with any other signer the
    /// answer is `Unauthorized`. A wallet that holds less than `amount` is
    /// answered with `InsufficientFunds`. An error changes nothing.
    pub fn transfer(
        &mut self,
        asset: &Asset,
        from: &Identity,
        to: &Identity,
        amount: u64,
        signer: &Identity,
    ) -> (r: Result<(), MarketError>)
        requires
            old(self).wf(),
        ensures
            final(self).wf(),
            r == old(self).transfer_outcome(*asset, *from, amount, *signer),
            final(self).authorities() == old(self).authorities(),
            final(self).supplies() == old(self).supplies(),
            r.is_ok() ==> final(self).balances() == moved(
                old(self).balances(),
                *asset,
                Holder::Wallet(*from),
                Holder::Wallet(*to),
                amount as nat,
            ),
            r.is_err() ==> final(self).balances() == old(self).balances(),
    {
        if !signer.same(from) {
            return Err(MarketError::Unauthorized);
        }
        if self.balance_of(asset, from) < amount {
            return Err(MarketError::InsufficientFunds);
        }
        self.shift(asset, &Holder::Wallet(*from), &Holder::Wallet(*to), amount);
        Ok(())
    }
}

/// The balances `b` after `amount` of `asset` went from `from` to `to`.
pub open spec fn moved(
    b: Map<(Asset, Holder), nat>,
    asset: Asset,
    from: Holder,
    to: Holder,
    amount: nat,
) -> Map<(Asset, Holder), nat> {
    if from == to {
        b
    } else {
        b.insert((asset, from), (b[(asset, from)] - amount) as nat).insert(
            (asset, to),
            b[(asset, to)] + amount,
        )
    }
}

/// Every supply fits in a `u64`.
proof fn lemma_supply_fits(m: Seq<MintRecord>, asset: Asset)
    requires
        distinct_mints(m),
    ensures
        supply_in(m, asset) <= u64::MAX,
{
    if exists|i: int| 0 <= i < m.len() && (#[trigger] m[i]).asset == asset {
        let i = choose|i: int| 0 <= i < m.len() && (#[trigger] m[i]).asset == asset;
        lemma_supply_one(m, i, asset);
    } else {
        lemma_supply_none(m, asset);
    }
}

/// An asset that has no authority recorded has no supply.
proof fn lemma_unknown_no_supply(m: Seq<MintRecord>, asset: Asset)
    requires
        authority_in(m, asset).is_none(),
    ensures
        supply_in(m, asset) == 0,
    decreases m.len(),
{
    if m.len() > 0 {
        lemma_unknown_no_supply(m.drop_last(), asset);
    }
}

} // verus!
