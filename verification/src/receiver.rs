//! Receiver multiplexer: owns a table of per-transfer decoder slots keyed by
//! transfer metadata, routes each validated inbound frame to the right
//! decoder, and reports progress and completion. Frames that fail validation
//! never touch the table; a completed transfer leaves a tombstone so late
//! fragments are dropped without ever resurrecting or restarting it.
use vstd::prelude::*;
use vstd::map::*;
use crate::types::{
    Meta, MetaView, Fragment, FragmentView, valid_config, config_ok, required_symbols,
    spec_required_symbols, meta_eq, accepted_fragment,
};
use crate::frame::{decode, spec_decode, FrameError};
use crate::coder::TransferDecoder;

verus! {

/// Abstract state of one transfer's slot: decoding, with the distinct
/// fragment ids fed so far, or completed for good.
pub ghost enum SlotView {
    Active(Seq<(u8, u32)>),
    Finalized,
}

/// The fragment ids an active slot has seen (empty for a tombstone).
pub open spec fn slot_seen(sv: SlotView) -> Seq<(u8, u32)> {
    match sv {
        SlotView::Active(s) => s,
        SlotView::Finalized => Seq::empty(),
    }
}

/// One transfer's slot: its key, and either a live decoder (with the
/// distinct fragment ids fed so far, for progress reporting) or, once the
/// source is reconstructed, a tombstone with the decoder dropped.
struct Entry {
    meta: Meta,
    finalized: bool,
    dec: Option<TransferDecoder>,
    seen: Vec<(u8, u32)>,
}

impl Entry {
    spec fn slot_view(&self) -> SlotView {
        if self.finalized {
            SlotView::Finalized
        } else {
            SlotView::Active(self.seen@)
        }
    }

    spec fn wf(&self) -> bool {
        &&& valid_config(self.meta@.config)
        &&& self.finalized <==> self.dec is None
        &&& (self.dec matches Some(d) ==> d.spec_config() == self.meta@.config)
        &&& self.seen@.no_duplicates()
    }
}

/// Pairwise-distinct transfer keys.
spec fn distinct_keys(s: Seq<Entry>) -> bool {
    forall|i: int, j: int| 0 <= i < j < s.len() ==> s[i].meta@ != s[j].meta@
}

/// Index of the entry holding key `m`.
spec fn idx_of(s: Seq<Entry>, m: MetaView) -> int {
    choose|i: int| 0 <= i < s.len() && s[i].meta@ == m
}

/// The table as a map from transfer key to slot state.
spec fn table_view(s: Seq<Entry>) -> Map<MetaView, SlotView> {
    Map::new(
        |m: MetaView| exists|i: int| 0 <= i < s.len() && (#[trigger] s[i]).meta@ == m,
        |m: MetaView| s[idx_of(s, m)].slot_view(),
    )
}

proof fn lemma_table_push(s: Seq<Entry>, e: Entry)
    requires
        distinct_keys(s),
        forall|k: int| 0 <= k < s.len() ==> (#[trigger] s[k]).meta@ != e.meta@,
    ensures
        distinct_keys(s.push(e)),
        table_view(s.push(e)) == table_view(s).insert(e.meta@, e.slot_view()),
{
    let sp = s.push(e);
    assert forall|i: int, j: int| 0 <= i < j < sp.len() implies sp[i].meta@ != sp[j].meta@ by {
        if j < s.len() {
            assert(sp[i] == s[i] && sp[j] == s[j]);
        } else {
            assert(sp[i] == s[i] && sp[j] == e);
        }
    };
    assert_maps_equal!(table_view(sp), table_view(s).insert(e.meta@, e.slot_view()), m => {
        if m == e.meta@ {
            assert(sp[s.len() as int].meta@ == m);
            assert(table_view(sp).contains_key(m));
            let i1 = idx_of(sp, m);
            assert(0 <= i1 < sp.len() && sp[i1].meta@ == m);
            if i1 < s.len() {
                assert(s[i1].meta@ == e.meta@);
                assert(false);
            }
            assert(sp[i1] == e);
        } else {
            if table_view(sp).contains_key(m) {
                let i1 = idx_of(sp, m);
                assert(0 <= i1 < sp.len() && sp[i1].meta@ == m);
                assert(i1 < s.len());
                assert(s[i1] == sp[i1]);
                assert(table_view(s).contains_key(m));
                let i2 = idx_of(s, m);
                assert(0 <= i2 < s.len() && s[i2].meta@ == m);
                if i1 != i2 {
                    assert(s[i1].meta@ != s[i2].meta@);
                    assert(false);
                }
            }
            if table_view(s).contains_key(m) {
                let i2 = idx_of(s, m);
                assert(sp[i2].meta@ == m);
                assert(table_view(sp).contains_key(m));
            }
        }
    });
}

proof fn lemma_table_update(s: Seq<Entry>, i: int, e: Entry)
    requires
        distinct_keys(s),
        0 <= i < s.len(),
        e.meta@ == s[i].meta@,
    ensures
        distinct_keys(s.update(i, e)),
        table_view(s.update(i, e)) == table_view(s).insert(e.meta@, e.slot_view()),
{
    let su = s.update(i, e);
    assert(forall|k: int| 0 <= k < su.len() ==> (#[trigger] su[k]).meta@ == s[k].meta@);
    assert forall|a: int, b: int| 0 <= a < b < su.len() implies su[a].meta@ != su[b].meta@ by {
        assert(s[a].meta@ != s[b].meta@);
    };
    assert_maps_equal!(table_view(su), table_view(s).insert(e.meta@, e.slot_view()), m => {
        if table_view(su).contains_key(m) {
            let i1 = idx_of(su, m);
            assert(0 <= i1 < su.len() && su[i1].meta@ == m);
            assert(s[i1].meta@ == m);
            assert(table_view(s).contains_key(m));
        }
        if table_view(s).contains_key(m) {
            let i2 = idx_of(s, m);
            assert(0 <= i2 < s.len() && s[i2].meta@ == m);
            assert(su[i2].meta@ == m);
            assert(table_view(su).contains_key(m));
        }
        if m == e.meta@ {
            if table_view(su).contains_key(m) {
                let i1 = idx_of(su, m);
                if i1 != i {
                    assert(su[i1] == s[i1]);
                    assert(s[i1].meta@ == s[i].meta@);
                    assert(false);
                }
                assert(su[i1] == e);
            }
        } else {
            if table_view(su).contains_key(m) {
                let i1 = idx_of(su, m);
                assert(i1 != i);
                assert(su[i1] == s[i1]);
                let i2 = idx_of(s, m);
                if i1 != i2 {
                    assert(s[i1].meta@ != s[i2].meta@);
                    assert(false);
                }
            }
        }
    });
}

/// Outcome of handing one received frame to the multiplexer.
pub enum RecvOutcome {
    /// The frame failed validation and was dropped; no transfer state
    /// changed.
    Rejected(FrameError),
    /// The fragment was accepted (or its transfer is already complete):
    /// `received` distinct fragments are in, of `required` source symbols the
    /// transfer needs.
    InProgress { received: u64, required: u64 },
    /// This fragment completed its transfer; `data` is the reconstructed
    /// source.
    Completed { meta: Meta, data: Vec<u8> },
}

/// Every transfer other than the one the frame addresses keeps its slot
/// exactly as it was.
pub open spec fn others_preserved(
    t0: Map<MetaView, SlotView>,
    t1: Map<MetaView, SlotView>,
    bytes: Seq<u8>,
) -> bool {
    forall|m2: MetaView|
        #[trigger] t0.contains_key(m2) && !(spec_decode(bytes) matches Ok(p) && p.0 == m2)
            ==> t1.contains_key(m2) && t1[m2] == t0[m2]
}

/// The receiver multiplexer: the whole decoder-slot table, exclusively owned.
/// It grows by one slot per distinct transfer key ever observed.
pub struct Receiver {
    slots: Vec<Entry>,
}

impl View for Receiver {
    type V = Map<MetaView, SlotView>;

    closed spec fn view(&self) -> Map<MetaView, SlotView> {
        table_view(self.slots@)
    }
}

impl Receiver {
    /// The table is well formed: distinct keys, valid configurations, live
    /// decoders exactly in non-tombstoned slots, no duplicate fragment ids.
    pub closed spec fn wf(&self) -> bool {
        &&& distinct_keys(self.slots@)
        &&& forall|i: int| 0 <= i < self.slots@.len() ==> (#[trigger] self.slots@[i]).wf()
    }

    /// A fresh multiplexer with no transfers.
    pub fn new() -> (r: Receiver)
        ensures
            r.wf(),
            r@ == Map::<MetaView, SlotView>::empty(),
    {
        let r = Receiver { slots: Vec::new() };
        proof {
            assert_maps_equal!(table_view(r.slots@), Map::<MetaView, SlotView>::empty(), m => {});
        }
        r
    }

    /// Whether a transfer with this key has ever been seen.
    pub fn is_known(&self, meta: &Meta) -> (r: bool)
        requires
            self.wf(),
        ensures
            r == self@.contains_key(meta@),
    {
        self.find(meta).is_some()
    }

    /// Whether this key's transfer has completed.
    pub fn is_finalized(&self, meta: &Meta) -> (r: bool)
        requires
            self.wf(),
        ensures
            r == (self@.contains_key(meta@) && self@[meta@] is Finalized),
    {
        let found = self.find(meta);
        match found {
            Some(i) => {
                proof {
                    self.lemma_find_view(i as int);
                }
                let entry_finalized = self.slots[i].finalized;
                entry_finalized
            },
            None => false,
        }
    }

    /// Index of the slot keyed by `meta`, if one exists.
    fn find(&self, meta: &Meta) -> (r: Option<usize>)
        ensures
            match r {
                Some(i) => 0 <= i < self.slots@.len() && self.slots@[i as int].meta@ == meta@,
                None => forall|k: int|
                    0 <= k < self.slots@.len() ==> (#[trigger] self.slots@[k]).meta@ != meta@,
            },
    {
        let mut k: usize = 0;
        while k < self.slots.len()
            invariant
                0 <= k <= self.slots@.len(),
                forall|t: int| 0 <= t < k ==> (#[trigger] self.slots@[t]).meta@ != meta@,
            decreases self.slots@.len() - k,
        {
            if meta_eq(&self.slots[k].meta, meta) {
                return Some(k);
            }
            k = k + 1;
        }
        None
    }

    /// At a found index, the view holds that key with that slot's state.
    proof fn lemma_find_view(&self, i: int)
        requires
            distinct_keys(self.slots@),
            0 <= i < self.slots@.len(),
        ensures
            self@.contains_key(self.slots@[i].meta@),
            self@[self.slots@[i].meta@] == self.slots@[i].slot_view(),
    {
        let m = self.slots@[i].meta@;
        assert(table_view(self.slots@).contains_key(m));
        let i1 = idx_of(self.slots@, m);
        assert(0 <= i1 < self.slots@.len() && self.slots@[i1].meta@ == m);
        if i1 != i {
            assert(self.slots@[i1].meta@ != self.slots@[i].meta@);
            assert(false);
        }
    }

    /// Handle the raw bytes of exactly one received frame.
    ///
    /// A frame that fails decoding or carries a fragment inconsistent with
    /// its own configuration is dropped with `Rejected` and the table is
    /// untouched. A fragment for a completed transfer reports `InProgress`
    /// without feeding any decoder. Otherwise the fragment goes to its
    /// transfer's decoder (created lazily on the first fragment of a new
    /// key): if the coder reports the source reconstructed, the slot becomes
    /// a tombstone and the reconstructed bytes (exactly `transfer_length` of
    /// them) come back in `Completed`; else the slot stays active, its seen
    /// set grown by this fragment's id. No other transfer's slot ever
    /// changes.
    pub fn recv(&mut self, data: &[u8]) -> (r: RecvOutcome)
        requires
            old(self).wf(),
        ensures
            final(self).wf(),
            others_preserved(old(self)@, final(self)@, data@),
            ({
                let t0 = old(self)@;
                match spec_decode(data@) {
                    Err(e) => r == RecvOutcome::Rejected(e) && final(self)@ == t0,
                    Ok(p) => {
                        let m = p.0;
                        let f = p.1;
                        if !accepted_fragment(m, f) {
                            &&& r == RecvOutcome::Rejected(FrameError::MalformedFrame)
                            &&& final(self)@ == t0
                        } else if t0.contains_key(m) && t0[m] is Finalized {
                            &&& (r matches RecvOutcome::InProgress { received, required }
                                && received == spec_required_symbols(m.config) && required
                                == spec_required_symbols(m.config))
                            &&& final(self)@ == t0
                        } else {
                            let seen0 = if t0.contains_key(m) {
                                slot_seen(t0[m])
                            } else {
                                Seq::empty()
                            };
                            let id = (f.block, f.symbol_id);
                            let seen1 = if seen0.contains(id) {
                                seen0
                            } else {
                                seen0.push(id)
                            };
                            match r {
                                RecvOutcome::Completed { meta, data: out } => {
                                    &&& meta@ == m
                                    &&& out@.len() == m.config.transfer_length
                                    &&& final(self)@ == t0.insert(m, SlotView::Finalized)
                                },
                                RecvOutcome::InProgress { received, required } => {
                                    &&& received == seen1.len()
                                    &&& required == spec_required_symbols(m.config)
                                    &&& final(self)@ == t0.insert(m, SlotView::Active(seen1))
                                },
                                RecvOutcome::Rejected(_) => false,
                            }
                        }
                    },
                }
            }),
    {
        let parsed = decode(data);
        let (meta, frag) = match parsed {
            Err(e) => {
                return RecvOutcome::Rejected(e);
            },
            Ok(p) => p,
        };
        if !fragment_ok(&meta, &frag) {
            return RecvOutcome::Rejected(FrameError::MalformedFrame);
        }
        let required = required_symbols(&meta.config);
        let found = self.find(&meta);
        match found {
            None => {
                let ghost t0 = self@;
                let mut dec = TransferDecoder::new(&meta.config);
                let mut seen: Vec<(u8, u32)> = Vec::new();
                seen.push((frag.block, frag.symbol_id));
                let fed = dec.feed(&frag);
                match fed {
                    Some(bytes) => {
                        let entry = Entry {
                            meta: meta.duplicate(),
                            finalized: true,
                            dec: None,
                            seen: Vec::new(),
                        };
                        proof {
                            lemma_table_push(self.slots@, entry);
                        }
                        self.slots.push(entry);
                        RecvOutcome::Completed { meta, data: bytes }
                    },
                    None => {
                        let entry = Entry {
                            meta: meta.duplicate(),
                            finalized: false,
                            dec: Some(dec),
                            seen,
                        };
                        proof {
                            lemma_table_push(self.slots@, entry);
                        }
                        self.slots.push(entry);
                        RecvOutcome::InProgress { received: 1, required }
                    },
                }
            },
            Some(i) => {
                proof {
                    self.lemma_find_view(i as int);
                }
                if self.slots[i].finalized {
                    return RecvOutcome::InProgress { received: required, required };
                }
                let ghost slots0 = self.slots@;
                let entry = &mut self.slots[i];
                let already = contains_id(&entry.seen, frag.block, frag.symbol_id);
                if !already {
                    entry.seen.push((frag.block, frag.symbol_id));
                }
                let fed = match &mut entry.dec {
                    Some(d) => d.feed(&frag),
                    None => {
                        proof {
                            assert(false);
                        }
                        None
                    },
                };
                match fed {
                    Some(bytes) => {
                        entry.finalized = true;
                        entry.dec = None;
                        entry.seen = Vec::new();
                        proof {
                            lemma_table_update(slots0, i as int, *final(entry));
                        }
                        RecvOutcome::Completed { meta, data: bytes }
                    },
                    None => {
                        let received = entry.seen.len() as u64;
                        proof {
                            lemma_table_update(slots0, i as int, *final(entry));
                        }
                        RecvOutcome::InProgress { received, required }
                    },
                }
            },
        }
    }
}

/// Runtime check for `accepted_fragment`.
fn fragment_ok(meta: &Meta, frag: &Fragment) -> (r: bool)
    ensures
        r == accepted_fragment(meta@, frag@),
{
    config_ok(&meta.config) && frag.block < meta.config.source_blocks && frag.symbol_id
        < 0x1000000u32 && frag.payload.len() == meta.config.symbol_size as usize
}

/// Whether this fragment id was already seen.
fn contains_id(seen: &Vec<(u8, u32)>, block: u8, symbol: u32) -> (r: bool)
    ensures
        r == seen@.contains((block, symbol)),
{
    let mut k: usize = 0;
    while k < seen.len()
        invariant
            0 <= k <= seen@.len(),
            forall|t: int| 0 <= t < k ==> (#[trigger] seen@[t]) != (block, symbol),
        decreases seen@.len() - k,
    {
        let (b, s) = seen[k];
        if b == block && s == symbol {
            assert(seen@[k as int] == (block, symbol));
            return true;
        }
        k = k + 1;
    }
    assert(!seen@.contains((block, symbol)));
    false
}

} // verus!
