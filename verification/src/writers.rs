//! The writer ledger: the ordered record of who wrote how many contracts.
//!
//! Entries are kept in the order in which they were appended. Contracts are
//! always taken from the front, so the order decides whose collateral is
//! released first.

use vstd::prelude::*;
use crate::error::MarketError;
use crate::identity::Identity;

verus! {

/// One write event: `contracts` contracts written by `writer`.
#[derive(Clone, Copy, Debug, PartialEq, Eq)]
pub struct WriterEntry {
    /// Who wrote the contracts.
    pub writer: Identity,
    /// How many of them are still counted by this entry.
    pub contracts: u64,
    /// Whether the entry entitles its writer to quote asset paid on exercise.
    pub claim_enabled: bool,
}

/// The contracts that one entry gave up when the front of a ledger was
/// consumed.
#[derive(Clone, Copy, Debug, PartialEq, Eq)]
pub struct Taken {
    /// The writer of the entry.
    pub writer: Identity,
    /// How many contracts were taken from it.
    pub contracts: u64,
}

/// What `consume_front` hands back.
#[derive(Debug)]
pub struct Consumed {
    /// The contracts taken, entry by entry, oldest first.
    pub taken: Vec<Taken>,
    /// Whether the ledger ran out before the request was met.
    pub exhausted: bool,
}

/// The number of contracts counted by all entries of `s`.
pub open spec fn total_contracts(s: Seq<WriterEntry>) -> nat
    decreases s.len(),
{
    if s.len() == 0 {
        0
    } else {
        total_contracts(s.drop_last()) + s.last().contracts as nat
    }
}

/// The number of contracts counted by the entries of `s` that belong to
/// `writer`.
pub open spec fn contracts_of(s: Seq<WriterEntry>, writer: Identity) -> nat
    decreases s.len(),
{
    if s.len() == 0 {
        0
    } else {
        contracts_of(s.drop_last(), writer) + if s.last().writer == writer {
            s.last().contracts as nat
        } else {
            0
        }
    }
}

/// `s` without the entries that belong to `writer`, the others in order.
pub open spec fn without_writer(s: Seq<WriterEntry>, writer: Identity) -> Seq<WriterEntry>
    decreases s.len(),
{
    if s.len() == 0 {
        s
    } else if s.last().writer == writer {
        without_writer(s.drop_last(), writer)
    } else {
        without_writer(s.drop_last(), writer).push(s.last())
    }
}

/// The number of contracts taken in all by the steps of `t`.
pub open spec fn total_taken(t: Seq<Taken>) -> nat
    decreases t.len(),
{
    if t.len() == 0 {
        0
    } else {
        total_taken(t.drop_last()) + t.last().contracts as nat
    }
}

/// What taking `k` contracts from the front of `s` takes from each entry:
/// the first entry gives all it has, then the next, until `k` contracts are
/// found or `s` has no more entries. Only the last entry reached can give
/// less than it has.
pub open spec fn taken_from_front(s: Seq<WriterEntry>, k: nat) -> Seq<Taken>
    decreases s.len(),
{
    if k == 0 || s.len() == 0 {
        Seq::empty()
    } else if s[0].contracts as nat <= k {
        seq![Taken { writer: s[0].writer, contracts: s[0].contracts }] + taken_from_front(
            s.drop_first(),
            (k - s[0].contracts) as nat,
        )
    } else {
        seq![Taken { writer: s[0].writer, contracts: k as u64 }]
    }
}

/// What is left of `s` once `k` contracts were taken from its front: the
/// entries used up are gone, and the one that gave only a part counts that
/// much less.
pub open spec fn left_after_front(s: Seq<WriterEntry>, k: nat) -> Seq<WriterEntry>
    decreases s.len(),
{
    if k == 0 || s.len() == 0 {
        s
    } else if s[0].contracts as nat <= k {
        left_after_front(s.drop_first(), (k - s[0].contracts) as nat)
    } else {
        s.update(
            0,
            WriterEntry {
                writer: s[0].writer,
                contracts: (s[0].contracts - k) as u64,
                claim_enabled: s[0].claim_enabled,
            },
        )
    }
}

/// Every entry of `s` counts at least one contract.
pub open spec fn all_positive(s: Seq<WriterEntry>) -> bool {
    forall|i: int| 0 <= i < s.len() ==> (#[trigger] s[i]).contracts > 0
}

/// Every entry of `s` has its claim flag set to `flag`.
pub open spec fn all_flagged(s: Seq<WriterEntry>, flag: bool) -> bool {
    forall|i: int| 0 <= i < s.len() ==> (#[trigger] s[i]).claim_enabled == flag
}

/// Every part of `t` counts at least one contract.
pub open spec fn all_taken_positive(t: Seq<Taken>) -> bool {
    forall|i: int| 0 <= i < t.len() ==> (#[trigger] t[i]).contracts > 0
}

/// The total of a ledger is the first entry's count plus the total of the
/// rest.
pub proof fn lemma_total_split_first(s: Seq<WriterEntry>)
    requires
        s.len() > 0,
    ensures
        total_contracts(s) == s[0].contracts as nat + total_contracts(s.drop_first()),
    decreases s.len(),
{
    if s.len() == 1 {
        assert(s.drop_last() =~= Seq::<WriterEntry>::empty());
        assert(s.drop_first() =~= Seq::<WriterEntry>::empty());
    } else {
        lemma_total_split_first(s.drop_last());
        assert(s.drop_last().drop_first() =~= s.drop_first().drop_last());
        assert(s.drop_first().last() == s.last());
    }
}

/// Changing the count of one entry changes the total by as much.
pub proof fn lemma_total_update(s: Seq<WriterEntry>, i: int, e: WriterEntry)
    requires
        0 <= i < s.len(),
    ensures
        total_contracts(s.update(i, e)) + s[i].contracts == total_contracts(s) + e.contracts,
    decreases s.len(),
{
    if i == s.len() - 1 {
        assert(s.update(i, e).drop_last() =~= s.drop_last());
    } else {
        lemma_total_update(s.drop_last(), i, e);
        assert(s.update(i, e).drop_last() =~= s.drop_last().update(i, e));
    }
}

/// The contracts taken from the front and those left add up to the total,
/// and no more is taken than was asked for or than there is.
pub proof fn lemma_front_conserves(s: Seq<WriterEntry>, k: nat)
    ensures
        total_taken(taken_from_front(s, k)) + total_contracts(left_after_front(s, k))
            == total_contracts(s),
        total_taken(taken_from_front(s, k)) == if k <= total_contracts(s) {
            k
        } else {
            total_contracts(s)
        },
    decreases s.len(),
{
    if k == 0 || s.len() == 0 {
        assert(total_taken(Seq::<Taken>::empty()) == 0);
    } else {
        let first = Taken { writer: s[0].writer, contracts: s[0].contracts };
        lemma_total_split_first(s);
        if s[0].contracts as nat <= k {
            let k2 = (k - s[0].contracts) as nat;
            lemma_front_conserves(s.drop_first(), k2);
            lemma_taken_split_first(seq![first] + taken_from_front(s.drop_first(), k2));
            assert((seq![first] + taken_from_front(s.drop_first(), k2)).drop_first()
                =~= taken_from_front(s.drop_first(), k2));
        } else {
            let part = Taken { writer: s[0].writer, contracts: k as u64 };
            assert(seq![part].drop_last() =~= Seq::<Taken>::empty());
            assert(seq![part].last() == part);
            assert(total_taken(seq![part].drop_last()) == 0);
            assert(total_taken(seq![part]) == k);
            lemma_total_update(s, 0, left_after_front(s, k)[0]);
        }
    }
}

/// The total taken is the first step's count plus the total of the rest.
pub proof fn lemma_taken_split_first(t: Seq<Taken>)
    requires
        t.len() > 0,
    ensures
        total_taken(t) == t[0].contracts as nat + total_taken(t.drop_first()),
    decreases t.len(),
{
    if t.len() == 1 {
        assert(t.drop_last() =~= Seq::<Taken>::empty());
        assert(t.drop_first() =~= Seq::<Taken>::empty());
    } else {
        lemma_taken_split_first(t.drop_last());
        assert(t.drop_last().drop_first() =~= t.drop_first().drop_last());
        assert(t.drop_first().last() == t.last());
    }
}

/// Taking from the front leaves a ledger whose entries all still count at
/// least one contract.
pub proof fn lemma_front_keeps_positive(s: Seq<WriterEntry>, k: nat)
    requires
        all_positive(s),
    ensures
        all_positive(left_after_front(s, k)),
        left_after_front(s, k).len() <= s.len(),
    decreases s.len(),
{
    if k == 0 || s.len() == 0 {
    } else if s[0].contracts as nat <= k {
        assert forall|i: int| 0 <= i < s.drop_first().len() implies (#[trigger] s.drop_first()[i]).contracts > 0 by {
            assert(s.drop_first()[i] == s[i + 1]);
        }
        lemma_front_keeps_positive(s.drop_first(), (k - s[0].contracts) as nat);
    } else {
        let left = left_after_front(s, k);
        assert forall|i: int| 0 <= i < left.len() implies (#[trigger] left[i]).contracts > 0 by {
            if i > 0 {
                assert(left[i] == s[i]);
            }
        }
    }
}

/// Taking from the front takes at least one contract from every entry it
/// touches, and leaves the claim flags as they were.
pub proof fn lemma_front_parts(s: Seq<WriterEntry>, k: nat, flag: bool)
    requires
        all_positive(s),
    ensures
        all_taken_positive(taken_from_front(s, k)),
        taken_from_front(s, k).len() <= s.len(),
        all_flagged(s, flag) ==> all_flagged(left_after_front(s, k), flag),
    decreases s.len(),
{
    if k == 0 || s.len() == 0 {
    } else if s[0].contracts as nat <= k {
        let rest = s.drop_first();
        let k2 = (k - s[0].contracts) as nat;
        assert forall|i: int| 0 <= i < rest.len() implies (#[trigger] rest[i]).contracts > 0 by {
            assert(rest[i] == s[i + 1]);
        }
        if all_flagged(s, flag) {
            assert forall|i: int| 0 <= i < rest.len() implies (#[trigger] rest[i]).claim_enabled
                == flag by {
                assert(rest[i] == s[i + 1]);
            }
        }
        lemma_front_parts(rest, k2, flag);
        let first = Taken { writer: s[0].writer, contracts: s[0].contracts };
        let t = seq![first] + taken_from_front(rest, k2);
        assert forall|i: int| 0 <= i < t.len() implies (#[trigger] t[i]).contracts > 0 by {
            if i > 0 {
                assert(t[i] == taken_from_front(rest, k2)[i - 1]);
            }
        }
    } else {
        let left = left_after_front(s, k);
        if all_flagged(s, flag) {
            assert forall|i: int| 0 <= i < left.len() implies (#[trigger] left[i]).claim_enabled
                == flag by {
                if i > 0 {
                    assert(left[i] == s[i]);
                }
            }
        }
    }
}

/// Removing the entries of a writer leaves the claim flags of the others as
/// they were.
pub proof fn lemma_without_flags(s: Seq<WriterEntry>, writer: Identity, flag: bool)
    requires
        all_flagged(s, flag),
    ensures
        all_flagged(without_writer(s, writer), flag),
    decreases s.len(),
{
    if s.len() > 0 {
        assert forall|i: int| 0 <= i < s.drop_last().len() implies (#[trigger] s.drop_last()[i]).claim_enabled
            == flag by {
            assert(s.drop_last()[i] == s[i]);
        }
        assert(s.last() == s[s.len() - 1]);
        lemma_without_flags(s.drop_last(), writer, flag);
    }
}

/// The total taken by a sequence of parts with one more part behind it.
pub proof fn lemma_total_taken_prefix(t: Seq<Taken>, n: int)
    requires
        0 <= n <= t.len(),
    ensures
        total_taken(t.subrange(0, n)) <= total_taken(t),
        n < t.len() ==> total_taken(t.subrange(0, n + 1)) == total_taken(t.subrange(0, n))
            + t[n].contracts,
    decreases t.len() - n,
{
    if n == t.len() {
        assert(t.subrange(0, n) =~= t);
    } else {
        lemma_total_taken_prefix(t, n + 1);
        assert(t.subrange(0, n + 1).drop_last() =~= t.subrange(0, n));
    }
}

/// A writer's entries count no more contracts than the whole ledger.
pub proof fn lemma_contracts_of_bounded(s: Seq<WriterEntry>, writer: Identity)
    ensures
        contracts_of(s, writer) <= total_contracts(s),
    decreases s.len(),
{
    if s.len() > 0 {
        lemma_contracts_of_bounded(s.drop_last(), writer);
    }
}

/// The entries of a writer and the entries of everybody else add up to the
/// total.
pub proof fn lemma_without_conserves(s: Seq<WriterEntry>, writer: Identity)
    ensures
        total_contracts(without_writer(s, writer)) + contracts_of(s, writer) == total_contracts(s),
        contracts_of(without_writer(s, writer), writer) == 0,
        without_writer(s, writer).len() <= s.len(),
        all_positive(s) ==> all_positive(without_writer(s, writer)),
        forall|i: int|
            0 <= i < without_writer(s, writer).len() ==> (#[trigger] without_writer(
                s,
                writer,
            )[i]).writer != writer,
    decreases s.len(),
{
    if s.len() == 0 {
    } else {
        lemma_without_conserves(s.drop_last(), writer);
        let rest = without_writer(s.drop_last(), writer);
        if s.last().writer != writer {
            assert(rest.push(s.last()).drop_last() =~= rest);
            if all_positive(s) {
                assert forall|i: int| 0 <= i < s.drop_last().len() implies (#[trigger] s.drop_last()[i]).contracts > 0 by {
                    assert(s.drop_last()[i] == s[i]);
                }
                assert(s.last() == s[s.len() - 1]);
            }
        } else {
            if all_positive(s) {
                assert forall|i: int| 0 <= i < s.drop_last().len() implies (#[trigger] s.drop_last()[i]).contracts > 0 by {
                    assert(s.drop_last()[i] == s[i]);
                }
            }
        }
    }
}

/// An ordered sequence of writer entries.
#[derive(Debug)]
pub struct WriterLedger {
    entries: Vec<WriterEntry>,
    total: u64,
}

impl WriterLedger {
    /// The entries, oldest first. The ledger also keeps the number of
    /// contracts that they count together; in a ledger that is in order that
    /// number is `total_contracts` of the entries, so the entries say all.
    pub closed spec fn view(&self) -> Seq<WriterEntry> {
        self.entries@
    }

    /// Every entry counts at least one contract, and the ledger knows how
    /// many contracts its entries count together.
    pub closed spec fn wf(&self) -> bool {
        &&& all_positive(self.entries@)
        &&& self.total as nat == total_contracts(self.entries@)
    }

    /// In a ledger that is in order every entry counts at least one contract,
    /// and the total fits in a `u64`.
    pub proof fn lemma_in_order(&self)
        requires
            self.wf(),
        ensures
            all_positive(self@),
            total_contracts(self@) <= u64::MAX,
    {
    }

    /// A ledger without entries.
    pub fn new() -> (ledger: WriterLedger)
        ensures
            ledger@ == Seq::<WriterEntry>::empty(),
            ledger.wf(),
    {
        WriterLedger { entries: Vec::new(), total: 0 }
    }

    /// The ledger with the entries `entries`, oldest first; `None` where an
    /// entry counts no contract, or the entries count more contracts
    /// together than a `u64` holds.
    pub fn from_entries(entries: Vec<WriterEntry>) -> (r: Option<WriterLedger>)
        ensures
            r.is_some() == (all_positive(entries@) && total_contracts(entries@) <= u64::MAX),
            r matches Some(ledger) ==> ledger.wf() && ledger@ == entries@,
    {
        let mut total: u64 = 0;
        let mut i: usize = 0;
        while i < entries.len()
            invariant
                i <= entries@.len(),
                total == total_contracts(entries@.subrange(0, i as int)),
                all_positive(entries@.subrange(0, i as int)),
            decreases entries@.len() - i,
        {
            let contracts = entries[i].contracts;
            proof {
                let next = entries@.subrange(0, i + 1);
                assert(next.drop_last() =~= entries@.subrange(0, i as int));
                lemma_total_prefix(entries@, i + 1);
            }
            if contracts == 0 || contracts > u64::MAX - total {
                return None;
            }
            total = total + contracts;
            proof {
                let next = entries@.subrange(0, i + 1);
                assert forall|j: int| 0 <= j < next.len() implies (#[trigger] next[j]).contracts
                    > 0 by {
                    if j < i {
                        assert(next[j] == entries@.subrange(0, i as int)[j]);
                    }
                }
            }
            i += 1;
        }
        assert(entries@.subrange(0, i as int) =~= entries@);
        Some(WriterLedger { entries, total })
    }

    /// The entries, oldest first.
    pub fn entries(&self) -> (entries: Vec<WriterEntry>)
        ensures
            entries@ == self@,
    {
        let mut out: Vec<WriterEntry> = Vec::new();
        let mut i: usize = 0;
        while i < self.entries.len()
            invariant
                i <= self.entries@.len(),
                out@ == self.entries@.subrange(0, i as int),
            decreases self.entries@.len() - i,
        {
            out.push(self.entries[i]);
            assert(out@ =~= self.entries@.subrange(0, i + 1));
            i += 1;
        }
        assert(self.entries@.subrange(0, i as int) =~= self.entries@);
        out
    }

    /// The number of entries.
    pub fn len(&self) -> (n: usize)
        ensures
            n == self@.len(),
    {
        self.entries.len()
    }

    /// The entry at position `index`, counted from the oldest, if there is
    /// one.
    pub fn get(&self, index: usize) -> (entry: Option<WriterEntry>)
        ensures
            entry == (if index < self@.len() {
                Some(self@[index as int])
            } else {
                None
            }),
    {
        if index < self.entries.len() {
            Some(self.entries[index])
        } else {
            None
        }
    }

    /// The number of contracts counted by all entries.
    pub fn total(&self) -> (n: u64)
        requires
            self.wf(),
        ensures
            n == total_contracts(self@),
    {
        self.total
    }

    /// The number of contracts counted by the entries of `writer`.
    pub fn total_for(&self, writer: &Identity) -> (n: u64)
        requires
            self.wf(),
        ensures
            n == contracts_of(self@, *writer),
    {
        let mut sum: u64 = 0;
        let mut i: usize = 0;
        while i < self.entries.len()
            invariant
                i <= self.entries@.len(),
                sum == contracts_of(self.entries@.subrange(0, i as int), *writer),
                total_contracts(self.entries@) <= u64::MAX,
            decreases self.entries@.len() - i,
        {
            proof {
                let next = self.entries@.subrange(0, i + 1);
                assert(next.drop_last() =~= self.entries@.subrange(0, i as int));
                lemma_total_prefix(self.entries@, i + 1);
                lemma_contracts_of_bounded(next, *writer);
            }
            if self.entries[i].writer.same(writer) {
                sum = sum + self.entries[i].contracts;
            }
            i += 1;
        }
        assert(self.entries@.subrange(0, i as int) =~= self.entries@);
        sum
    }

    /// Whether `append` takes an entry for `contracts` contracts: it counts
    /// at least one, and with it the total still fits in a `u64`.
    pub open spec fn takes(&self, contracts: u64) -> bool {
        contracts > 0 && total_contracts(self@) + contracts <= u64::MAX
    }

    /// Adds an entry for `contracts` contracts written by `writer` behind all
    /// others. An entry that the ledger does not take is answered with
    /// `InvalidParameters`, and nothing changes.
    pub fn append(&mut self, writer: Identity, contracts: u64, claim_enabled: bool) -> (r: Result<
        (),
        MarketError,
    >)
        requires
            old(self).wf(),
        ensures
            final(self).wf(),
            r.is_ok() == old(self).takes(contracts),
            r matches Err(e) ==> e == MarketError::InvalidParameters && final(self)@ == old(self)@,
            r.is_ok() ==> final(self)@ == old(self)@.push(
                WriterEntry { writer, contracts, claim_enabled },
            ),
            r.is_ok() ==> total_contracts(final(self)@) == total_contracts(old(self)@) + contracts,
    {
        if contracts == 0 || contracts > u64::MAX - self.total {
            return Err(MarketError::InvalidParameters);
        }
        let entry = WriterEntry { writer, contracts, claim_enabled };
        self.entries.push(entry);
        self.total = self.total + contracts;
        proof {
            assert(self.entries@.drop_last() =~= old(self).entries@);
        }
        Ok(())
    }

    /// Takes `contracts` contracts from the front: the oldest entry gives
    /// first, and an entry that has given all it counts is removed. When the
    /// ledger holds fewer contracts than asked for, all of them are taken and
    /// `exhausted` is set.
    pub fn consume_front(&mut self, contracts: u64) -> (out: Consumed)
        requires
            old(self).wf(),
        ensures
            final(self).wf(),
            out.taken@ == taken_from_front(old(self)@, contracts as nat),
            final(self)@ == left_after_front(old(self)@, contracts as nat),
            out.exhausted == (contracts > total_contracts(old(self)@)),
    {
        let ghost before = self.entries@;
        let mut taken: Vec<Taken> = Vec::new();
        let mut need: u64 = contracts;
        let mut i: usize = 0;
        proof {
            assert(before.subrange(0, before.len() as int) =~= before);
            assert(taken@ + taken_from_front(before, contracts as nat) =~= taken_from_front(
                before,
                contracts as nat,
            ));
        }
        while i < self.entries.len() && need > 0 && self.entries[i].contracts <= need
            invariant
                self.entries@ == before,
                self.total == old(self).total,
                i <= before.len(),
                need <= contracts,
                taken_from_front(before, contracts as nat) == taken@ + taken_from_front(
                    before.subrange(i as int, before.len() as int),
                    need as nat,
                ),
                left_after_front(before, contracts as nat) == left_after_front(
                    before.subrange(i as int, before.len() as int),
                    need as nat,
                ),
                total_contracts(before) + need == contracts + total_contracts(
                    before.subrange(i as int, before.len() as int),
                ),
            decreases before.len() - i,
        {
            let entry = self.entries[i];
            proof {
                let tail = before.subrange(i as int, before.len() as int);
                assert(tail[0] == entry);
                assert(tail.drop_first() =~= before.subrange(i + 1, before.len() as int));
                lemma_total_split_first(tail);
                assert(taken@ + (seq![Taken { writer: entry.writer, contracts: entry.contracts }]
                    + taken_from_front(tail.drop_first(), (need - entry.contracts) as nat))
                    =~= taken@.push(Taken { writer: entry.writer, contracts: entry.contracts })
                    + taken_from_front(tail.drop_first(), (need - entry.contracts) as nat));
            }
            taken.push(Taken { writer: entry.writer, contracts: entry.contracts });
            need = need - entry.contracts;
            i += 1;
        }
        let ghost tail = before.subrange(i as int, before.len() as int);
        proof {
            lemma_front_keeps_positive(before, contracts as nat);
            lemma_front_conserves(before, contracts as nat);
        }
        if need > 0 && i < self.entries.len() {
            let entry = self.entries[i];
            proof {
                assert(tail[0] == entry);
                assert(taken@ + seq![Taken { writer: entry.writer, contracts: need }]
                    =~= taken@.push(Taken { writer: entry.writer, contracts: need }));
                lemma_total_split_first(tail);
            }
            taken.push(Taken { writer: entry.writer, contracts: need });
            self.entries[i] = WriterEntry {
                writer: entry.writer,
                contracts: entry.contracts - need,
                claim_enabled: entry.claim_enabled,
            };
            proof {
                assert(self.entries@.subrange(i as int, before.len() as int) =~= tail.update(
                    0,
                    WriterEntry {
                        writer: entry.writer,
                        contracts: (entry.contracts - need) as u64,
                        claim_enabled: entry.claim_enabled,
                    },
                ));
            }
            need = 0;
        } else {
            proof {
                assert(taken@ + Seq::<Taken>::empty() =~= taken@);
                if need > 0 {
                    assert(tail =~= Seq::<WriterEntry>::empty());
                }
            }
        }
        let rest = self.entries.split_off(i);
        self.entries = rest;
        self.total = self.total - (contracts - need);
        Consumed { taken, exhausted: need > 0 }
    }

    /// Removes every entry of `writer` and returns how many contracts they
    /// counted. The other entries keep their order.
    pub fn remove_all_for(&mut self, writer: &Identity) -> (removed: u64)
        requires
            old(self).wf(),
        ensures
            final(self).wf(),
            final(self)@ == without_writer(old(self)@, *writer),
            removed == contracts_of(old(self)@, *writer),
            total_contracts(final(self)@) + removed == total_contracts(old(self)@),
    {
        let mut kept: Vec<WriterEntry> = Vec::new();
        let mut removed: u64 = 0;
        let mut i: usize = 0;
        while i < self.entries.len()
            invariant
                i <= self.entries@.len(),
                self.entries@ == old(self).entries@,
                self.total == old(self).total,
                kept@ == without_writer(self.entries@.subrange(0, i as int), *writer),
                removed == contracts_of(self.entries@.subrange(0, i as int), *writer),
                total_contracts(self.entries@) <= u64::MAX,
            decreases self.entries@.len() - i,
        {
            proof {
                let next = self.entries@.subrange(0, i + 1);
                assert(next.drop_last() =~= self.entries@.subrange(0, i as int));
                lemma_total_prefix(self.entries@, i + 1);
                lemma_contracts_of_bounded(next, *writer);
            }
            let entry = self.entries[i];
            if entry.writer.same(writer) {
                removed = removed + entry.contracts;
            } else {
                kept.push(entry);
            }
            i += 1;
        }
        proof {
            assert(self.entries@.subrange(0, i as int) =~= self.entries@);
            lemma_without_conserves(self.entries@, *writer);
        }
        self.entries = kept;
        self.total = self.total - removed;
        removed
    }
}

/// The total of a prefix is at most the total of the whole.
pub proof fn lemma_total_prefix(s: Seq<WriterEntry>, n: int)
    requires
        0 <= n <= s.len(),
    ensures
        total_contracts(s.subrange(0, n)) <= total_contracts(s),
    decreases s.len() - n,
{
    if n == s.len() {
        assert(s.subrange(0, n) =~= s);
    } else {
        lemma_total_prefix(s, n + 1);
        assert(s.subrange(0, n + 1).drop_last() =~= s.subrange(0, n));
    }
}

} // verus!
