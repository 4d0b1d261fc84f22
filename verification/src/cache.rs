//! The leaf-certificate cache and its single-flight discipline.
//!
//! The cache maps a lowercased hostname to either the serialised leaf
//! material or an in-flight marker. A lookup that misses claims the mint by
//! leaving the marker, so a concurrent lookup for the same host waits
//! instead of minting again; a failed mint is aborted and leaves nothing
//! behind, so a retry is allowed.

use vstd::prelude::*;
use vstd::pervasive::VecAdditionalExecFns;

use crate::cert::{
    gen_cert, leaf_lifetime, leaf_params_spec, CertError, CertParams, NamePart, NamePartModel,
    RootCA,
};
use crate::dispatch::lower_bytes_spec;

verus! {

/// One cache entry: leaf material, or a mint that has been claimed but not
/// finished.
pub enum LeafEntry {
    InFlight,
    Ready(Vec<u8>),
}

/// Spec-level cache entry.
pub enum LeafState {
    InFlight,
    Ready(Seq<u8>),
}

impl View for LeafEntry {
    type V = LeafState;

    open spec fn view(&self) -> LeafState {
        match self {
            LeafEntry::InFlight => LeafState::InFlight,
            LeafEntry::Ready(blob) => LeafState::Ready(blob@),
        }
    }
}

/// One slot: a hostname key and its entry.
pub struct CacheSlot {
    pub key: Vec<u8>,
    pub state: LeafEntry,
}

/// Spec-level slot.
pub struct SlotModel {
    pub key: Seq<u8>,
    pub state: LeafState,
}

impl View for CacheSlot {
    type V = SlotModel;

    open spec fn view(&self) -> SlotModel {
        (SlotModel { key: self.key@, state: self.state@ })
    }
}

/// The mapping a slot sequence denotes.
pub open spec fn entries_map(s: Seq<SlotModel>) -> Map<Seq<u8>, LeafState>
    decreases s.len(),
{
    if s.len() == 0 {
        Map::empty()
    } else {
        entries_map(s.drop_last()).insert(s.last().key, s.last().state)
    }
}

/// Every key appears in at most one slot.
pub open spec fn keys_unique(s: Seq<SlotModel>) -> bool {
    forall|i: int, j: int| 0 <= i < j < s.len() ==> (#[trigger] s[i].key) != (#[trigger] s[j].key)
}

/// The leaf-certificate cache: the root CA it mints under, and the slots.
pub struct CertCache {
    pub root_ca: RootCA,
    pub slots: Vec<CacheSlot>,
}

impl CertCache {
    /// The cache's internal invariant: slot keys are unique.
    pub open spec fn wf(&self) -> bool {
        keys_unique(self.slots@.map_values(|s: CacheSlot| s@))
    }

    /// The mapping the cache holds.
    pub open spec fn entries(&self) -> Map<Seq<u8>, LeafState> {
        entries_map(self.slots@.map_values(|s: CacheSlot| s@))
    }

    /// The subject name of the root CA, the issuer of every minted leaf.
    pub open spec fn root_subject(&self) -> Seq<NamePartModel> {
        self.root_ca.subject@.map_values(|p: NamePart| p@)
    }
}

/// A key absent from every slot is absent from the mapping.
proof fn lemma_entries_absent(s: Seq<SlotModel>, key: Seq<u8>)
    requires
        forall|i: int| 0 <= i < s.len() ==> (#[trigger] s[i].key) != key,
    ensures
        !entries_map(s).contains_key(key),
    decreases s.len(),
{
    if s.len() > 0 {
        lemma_entries_absent(s.drop_last(), key);
    }
}

/// With unique keys, the slot at `i` gives the mapping at its key.
proof fn lemma_entries_found(s: Seq<SlotModel>, i: int)
    requires
        keys_unique(s),
        0 <= i < s.len(),
    ensures
        entries_map(s).contains_key(s[i].key),
        entries_map(s)[s[i].key] == s[i].state,
    decreases s.len(),
{
    if i == s.len() - 1 {
    } else {
        lemma_entries_found(s.drop_last(), i);
        assert(s.drop_last()[i] == s[i]);
        assert(s.last().key != s[i].key);
    }
}

/// With unique keys, updating the slot at `i` updates the mapping at its
/// key.
proof fn lemma_entries_update(s: Seq<SlotModel>, i: int, st: LeafState)
    requires
        keys_unique(s),
        0 <= i < s.len(),
    ensures
        entries_map(s.update(i, (SlotModel { key: s[i].key, state: st }))) =~= entries_map(
            s,
        ).insert(s[i].key, st),
    decreases s.len(),
{
    let t = s.update(i, (SlotModel { key: s[i].key, state: st }));
    if i == s.len() - 1 {
        assert(t.drop_last() =~= s.drop_last());
        assert(t.last() == (SlotModel { key: s[i].key, state: st }));
    } else {
        lemma_entries_update(s.drop_last(), i, st);
        assert(t.drop_last() =~= s.drop_last().update(i, (SlotModel { key: s[i].key, state: st })));
        assert(t.last() == s.last());
        assert(s.drop_last()[i] == s[i]);
        assert(s.last().key != s[i].key);
    }
}

/// With unique keys, removing the slot at `i` removes the mapping at its
/// key.
proof fn lemma_entries_remove(s: Seq<SlotModel>, i: int)
    requires
        keys_unique(s),
        0 <= i < s.len(),
    ensures
        entries_map(s.remove(i)) =~= entries_map(s).remove(s[i].key),
    decreases s.len(),
{
    if i == s.len() - 1 {
        assert(s.remove(i) =~= s.drop_last());
        lemma_entries_absent_of_unique(s);
    } else {
        lemma_entries_remove(s.drop_last(), i);
        assert(s.remove(i).drop_last() =~= s.drop_last().remove(i));
        assert(s.remove(i).last() == s.last());
        assert(s.drop_last()[i] == s[i]);
        assert(s.last().key != s[i].key);
    }
}

/// With unique keys, the mapping of all slots but the last does not contain
/// the last slot's key.
proof fn lemma_entries_absent_of_unique(s: Seq<SlotModel>)
    requires
        keys_unique(s),
        s.len() > 0,
    ensures
        !entries_map(s.drop_last()).contains_key(s.last().key),
{
    assert(forall|i: int| 0 <= i < s.len() - 1 ==> (#[trigger] s.drop_last()[i].key) != s.last().key);
    lemma_entries_absent(s.drop_last(), s.last().key);
}

/// What one cache lookup yields.
pub enum LeafLookup {
    /// The leaf material already minted for this host.
    Cached(Vec<u8>),
    /// Another caller is minting for this host; wait for its result.
    Wait,
    /// This caller claimed the mint: realise these leaf parameters, then
    /// call [`CertCache::finish_mint`] or [`CertCache::fail_mint`].
    Mint(CertParams),
}

/// A cache operation as the single-flight law sees it.
pub enum CacheOp {
    /// A lookup; `minting` says whether it claimed the mint.
    Lookup { key: Seq<u8>, minting: bool },
    /// A finished mint handing in the leaf material.
    Finish { key: Seq<u8>, blob: Seq<u8> },
    /// An abandoned mint.
    Abort { key: Seq<u8> },
}

/// How one operation moves the cache mapping.
pub open spec fn cache_step(
    pre: Map<Seq<u8>, LeafState>,
    post: Map<Seq<u8>, LeafState>,
    op: CacheOp,
) -> bool {
    match op {
        CacheOp::Lookup { key, minting } => if minting {
            !pre.contains_key(key) && post == pre.insert(key, LeafState::InFlight)
        } else {
            post == pre
        },
        CacheOp::Finish { key, blob } => if pre.contains_key(key) && pre[key] is InFlight {
            post == pre.insert(key, LeafState::Ready(blob))
        } else {
            post == pre
        },
        CacheOp::Abort { key } => if pre.contains_key(key) && pre[key] is InFlight {
            post == pre.remove(key)
        } else {
            post == pre
        },
    }
}

impl CertCache {
    /// A fresh cache for the given root CA, with nothing minted.
    pub fn new(root_ca: RootCA) -> (r: Self)
        ensures
            r.entries() =~= Map::<Seq<u8>, LeafState>::empty(),
            r.root_ca == root_ca,
            r.wf(),
    {
        let slots: Vec<CacheSlot> = Vec::new();
        proof {
            assert(slots@.map_values(|s: CacheSlot| s@) =~= Seq::<SlotModel>::empty());
        }
        CertCache { root_ca, slots }
    }

    /// Looks up the leaf for `host` (keyed by its lowercased form). A hit
    /// returns the material unchanged; an in-flight mint says to wait; a
    /// miss claims the mint and returns the leaf parameters to realise,
    /// minted under the root CA at instant `now`. Only the random serial
    /// draw of a miss can fail: a lookup of a resident key always succeeds,
    /// and a failure changes nothing.
    pub fn get_cert(&mut self, host: &[u8], now: u64) -> (r: Result<LeafLookup, CertError>)
        requires
            old(self).wf(),
            now + leaf_lifetime() <= u64::MAX,
        ensures
            final(self).wf(),
            final(self).root_ca == old(self).root_ca,
            ({
                let key = lower_bytes_spec(host@);
                match r {
                    Result::Ok(look) => match look {
                        LeafLookup::Cached(blob) => {
                            &&& final(self).entries() == old(self).entries()
                            &&& old(self).entries().contains_key(key)
                            &&& old(self).entries()[key] == LeafState::Ready(blob@)
                            &&& cache_step(
                                old(self).entries(),
                                final(self).entries(),
                                (CacheOp::Lookup { key, minting: false }),
                            )
                        },
                        LeafLookup::Wait => {
                            &&& final(self).entries() == old(self).entries()
                            &&& old(self).entries().contains_key(key)
                            &&& old(self).entries()[key] == LeafState::InFlight
                            &&& cache_step(
                                old(self).entries(),
                                final(self).entries(),
                                (CacheOp::Lookup { key, minting: false }),
                            )
                        },
                        LeafLookup::Mint(p) => {
                            &&& !old(self).entries().contains_key(key)
                            &&& final(self).entries() == old(self).entries().insert(
                                key,
                                LeafState::InFlight,
                            )
                            &&& p@ == leaf_params_spec(
                                old(self).root_subject(),
                                host@,
                                now,
                                p@.serial,
                            )
                            &&& p@.serial.len() <= 20
                            &&& cache_step(
                                old(self).entries(),
                                final(self).entries(),
                                (CacheOp::Lookup { key, minting: true }),
                            )
                        },
                    },
                    Result::Err(e) => {
                        &&& e == CertError::Rng
                        &&& !old(self).entries().contains_key(key)
                        &&& final(self).entries() == old(self).entries()
                    },
                }
            }),
    {
        let key = crate::dispatch::lower_bytes(host);
        let ghost sm = self.slots@.map_values(|s: CacheSlot| s@);
        let n = self.slots.len();
        let mut i: usize = 0;
        while i < n
            invariant
                0 <= i <= n,
                n == self.slots@.len(),
                self.root_ca == old(self).root_ca,
                self.slots@ == old(self).slots@,
                sm == self.slots@.map_values(|s: CacheSlot| s@),
                keys_unique(sm),
                key@ == lower_bytes_spec(host@),
                forall|j: int| 0 <= j < i ==> (#[trigger] sm[j].key) != key@,
            decreases n - i,
        {
            proof {
                assert(sm[i as int] == self.slots@[i as int]@);
            }
            if crate::dispatch::bytes_eq(self.slots[i].key.as_slice(), key.as_slice()) {
                proof {
                    lemma_entries_found(sm, i as int);
                }
                match &self.slots[i].state {
                    LeafEntry::Ready(blob) => {
                        let copy = crate::headers::copy_bytes(blob.as_slice());
                        return Ok(LeafLookup::Cached(copy));
                    },
                    LeafEntry::InFlight => {
                        return Ok(LeafLookup::Wait);
                    },
                }
            }
            i = i + 1;
        }
        proof {
            lemma_entries_absent(sm, key@);
        }
        let params = match gen_cert(&self.root_ca.subject, host, now) {
            Ok(p) => p,
            Err(e) => {
                return Err(e);
            },
        };
        self.slots.push(CacheSlot { key, state: LeafEntry::InFlight });
        proof {
            let sm2 = self.slots@.map_values(|s: CacheSlot| s@);
            assert(sm2 =~= sm.push(
                (SlotModel { key: lower_bytes_spec(host@), state: LeafState::InFlight }),
            ));
            assert(sm2.drop_last() =~= sm);
            assert(keys_unique(sm2));
            assert(entries_map(sm2) == entries_map(sm).insert(
                lower_bytes_spec(host@),
                LeafState::InFlight,
            ));
        }
        Ok(LeafLookup::Mint(params))
    }

    /// Hands in the material of a finished mint: the in-flight claim for
    /// `host` becomes ready. If no mint is in flight the cache is unchanged
    /// (in particular, minted material is never overwritten).
    pub fn finish_mint(&mut self, host: &[u8], blob: &[u8])
        requires
            old(self).wf(),
        ensures
            final(self).wf(),
            final(self).root_ca == old(self).root_ca,
            ({
                let key = lower_bytes_spec(host@);
                &&& cache_step(
                    old(self).entries(),
                    final(self).entries(),
                    (CacheOp::Finish { key, blob: blob@ }),
                )
                &&& (old(self).entries().contains_key(key) && old(self).entries()[key]
                    is InFlight ==> final(self).entries() == old(self).entries().insert(
                    key,
                    LeafState::Ready(blob@),
                ))
                &&& (!(old(self).entries().contains_key(key) && old(self).entries()[key]
                    is InFlight) ==> final(self).entries() == old(self).entries())
            }),
    {
        let key = crate::dispatch::lower_bytes(host);
        let ghost sm = self.slots@.map_values(|s: CacheSlot| s@);
        let n = self.slots.len();
        let mut i: usize = 0;
        while i < n
            invariant
                0 <= i <= n,
                n == self.slots@.len(),
                self.root_ca == old(self).root_ca,
                self.slots@ == old(self).slots@,
                sm == self.slots@.map_values(|s: CacheSlot| s@),
                key@ == lower_bytes_spec(host@),
                keys_unique(sm),
                forall|j: int| 0 <= j < i ==> (#[trigger] sm[j].key) != key@,
            decreases n - i,
        {
            proof {
                assert(sm[i as int] == self.slots@[i as int]@);
            }
            if crate::dispatch::bytes_eq(self.slots[i].key.as_slice(), key.as_slice()) {
                proof {
                    lemma_entries_found(sm, i as int);
                }
                let in_flight = match &self.slots[i].state {
                    LeafEntry::InFlight => true,
                    LeafEntry::Ready(_) => false,
                };
                if in_flight {
                    let material = crate::headers::copy_bytes(blob);
                    self.slots.set(i, CacheSlot { key, state: LeafEntry::Ready(material) });
                    proof {
                        let sm2 = self.slots@.map_values(|s: CacheSlot| s@);
                        assert(sm2 =~= sm.update(
                            i as int,
                            (SlotModel {
                                key: lower_bytes_spec(host@),
                                state: LeafState::Ready(blob@),
                            }),
                        ));
                        lemma_entries_update(sm, i as int, LeafState::Ready(blob@));
                        assert(keys_unique(sm2));
                    }
                }
                return ;
            }
            i = i + 1;
        }
        proof {
            lemma_entries_absent(sm, key@);
        }
    }

    /// Abandons an in-flight mint for `host`, so a later lookup may retry.
    /// Ready material is never dropped.
    pub fn fail_mint(&mut self, host: &[u8])
        requires
            old(self).wf(),
        ensures
            final(self).wf(),
            final(self).root_ca == old(self).root_ca,
            ({
                let key = lower_bytes_spec(host@);
                &&& cache_step(
                    old(self).entries(),
                    final(self).entries(),
                    (CacheOp::Abort { key }),
                )
                &&& (old(self).entries().contains_key(key) && old(self).entries()[key]
                    is InFlight ==> final(self).entries() == old(self).entries().remove(key))
                &&& (!(old(self).entries().contains_key(key) && old(self).entries()[key]
                    is InFlight) ==> final(self).entries() == old(self).entries())
            }),
    {
        let key = crate::dispatch::lower_bytes(host);
        let ghost sm = self.slots@.map_values(|s: CacheSlot| s@);
        let n = self.slots.len();
        let mut i: usize = 0;
        while i < n
            invariant
                0 <= i <= n,
                n == self.slots@.len(),
                self.root_ca == old(self).root_ca,
                self.slots@ == old(self).slots@,
                sm == self.slots@.map_values(|s: CacheSlot| s@),
                key@ == lower_bytes_spec(host@),
                keys_unique(sm),
                forall|j: int| 0 <= j < i ==> (#[trigger] sm[j].key) != key@,
            decreases n - i,
        {
            proof {
                assert(sm[i as int] == self.slots@[i as int]@);
            }
            if crate::dispatch::bytes_eq(self.slots[i].key.as_slice(), key.as_slice()) {
                proof {
                    lemma_entries_found(sm, i as int);
                }
                let in_flight = match &self.slots[i].state {
                    LeafEntry::InFlight => true,
                    LeafEntry::Ready(_) => false,
                };
                if in_flight {
                    let _ = self.slots.remove(i);
                    proof {
                        let sm2 = self.slots@.map_values(|s: CacheSlot| s@);
                        assert(sm2 =~= sm.remove(i as int));
                        lemma_entries_remove(sm, i as int);
                        assert(keys_unique(sm2));
                    }
                }
                return ;
            }
            i = i + 1;
        }
        proof {
            lemma_entries_absent(sm, key@);
        }
    }
}

/// The steps of a run hold between consecutive states.
pub open spec fn trace_ok(states: Seq<Map<Seq<u8>, LeafState>>, ops: Seq<CacheOp>) -> bool {
    &&& states.len() == ops.len() + 1
    &&& forall|i: int| 0 <= i < ops.len() ==> cache_step(
        #[trigger] states[i],
        states[i + 1],
        ops[i],
    )
}

/// How many lookups in `ops` claimed the mint for `key`.
pub open spec fn mint_count(ops: Seq<CacheOp>, key: Seq<u8>) -> nat
    decreases ops.len(),
{
    if ops.len() == 0 {
        0
    } else {
        mint_count(ops.drop_last(), key) + (match ops.last() {
            CacheOp::Lookup { key: k, minting } => if k == key && minting {
                1nat
            } else {
                0nat
            },
            _ => 0nat,
        })
    }
}

/// Whether any operation in `ops` aborted a mint for `key`.
pub open spec fn has_abort(ops: Seq<CacheOp>, key: Seq<u8>) -> bool
    decreases ops.len(),
{
    if ops.len() == 0 {
        false
    } else {
        has_abort(ops.drop_last(), key) || (ops.last() matches CacheOp::Abort { key: k } && k
            == key)
    }
}

/// Once some lookup has claimed the mint for `key` and no mint for it was
/// aborted, the key stays in the cache.
proof fn lemma_key_resident(states: Seq<Map<Seq<u8>, LeafState>>, ops: Seq<CacheOp>, key: Seq<u8>)
    requires
        trace_ok(states, ops),
        !has_abort(ops, key),
        mint_count(ops, key) >= 1,
    ensures
        states.last().contains_key(key),
    decreases ops.len(),
{
    let n = ops.len() as int;
    let pre_states = states.drop_last();
    let pre_ops = ops.drop_last();
    assert(cache_step(states[n - 1], states[n], ops[n - 1]));
    assert(trace_ok(pre_states, pre_ops)) by {
        assert forall|i: int| 0 <= i < pre_ops.len() implies cache_step(
            #[trigger] pre_states[i],
            pre_states[i + 1],
            pre_ops[i],
        ) by {
            assert(cache_step(states[i], states[i + 1], ops[i]));
        }
    }
    let last_mints: bool = match ops.last() {
        CacheOp::Lookup { key: k, minting } => k == key && minting,
        _ => false,
    };
    if last_mints {
        assert(states.last().contains_key(key));
    } else {
        assert(mint_count(pre_ops, key) >= 1);
        lemma_key_resident(pre_states, pre_ops, key);
        assert(pre_states.last() == states[n - 1]);
        assert(states[n - 1].contains_key(key));
        match ops.last() {
            CacheOp::Lookup { key: k, minting } => {
                if minting {
                    assert(states[n] == states[n - 1].insert(k, LeafState::InFlight));
                } else {
                    assert(states[n] == states[n - 1]);
                }
            },
            CacheOp::Finish { key: k, blob } => {
                if states[n - 1].contains_key(k) && states[n - 1][k] is InFlight {
                    assert(states[n] == states[n - 1].insert(k, LeafState::Ready(blob)));
                } else {
                    assert(states[n] == states[n - 1]);
                }
            },
            CacheOp::Abort { key: k } => {
                assert(k != key);
                if states[n - 1].contains_key(k) && states[n - 1][k] is InFlight {
                    assert(states[n] == states[n - 1].remove(k));
                } else {
                    assert(states[n] == states[n - 1]);
                }
            },
        }
        assert(states.last().contains_key(key));
    }
}

/// The single-flight law: in any run of cache operations in which no mint
/// for `key` is aborted, at most one lookup claims the mint for `key` — the
/// factory is invoked at most once per host while its entry resides in the
/// cache.
pub proof fn lemma_single_flight(
    states: Seq<Map<Seq<u8>, LeafState>>,
    ops: Seq<CacheOp>,
    key: Seq<u8>,
)
    requires
        trace_ok(states, ops),
        !has_abort(ops, key),
    ensures
        mint_count(ops, key) <= 1,
    decreases ops.len(),
{
    if ops.len() > 0 {
        let n = ops.len() as int;
        let pre_states = states.drop_last();
        let pre_ops = ops.drop_last();
        assert(trace_ok(pre_states, pre_ops)) by {
            assert forall|i: int| 0 <= i < pre_ops.len() implies cache_step(
                #[trigger] pre_states[i],
                pre_states[i + 1],
                pre_ops[i],
            ) by {
                assert(cache_step(states[i], states[i + 1], ops[i]));
            }
        }
        lemma_single_flight(pre_states, pre_ops, key);
        let last_mints: bool = match ops.last() {
            CacheOp::Lookup { key: k, minting } => k == key && minting,
            _ => false,
        };
        if last_mints {
            if mint_count(pre_ops, key) >= 1 {
                lemma_key_resident(pre_states, pre_ops, key);
                assert(cache_step(states[n - 1], states[n], ops[n - 1]));
                assert(pre_states.last() == states[n - 1]);
                assert(!states[n - 1].contains_key(key));
                assert(false);
            }
        }
    }
}

} // verus!
