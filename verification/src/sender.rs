//! Sender scheduler: drives the erasure coder to produce a policy-ordered,
//! unbounded sequence of framed fragments for one transfer. The systematic
//! phase frames the coder's systematic packet set (every source-equivalent
//! fragment plus any extra initial repairs) exactly once; the residual phase
//! yields one pass of fresh repair fragments per call, forever, each pass
//! drawing a repair window never produced before. Emission (the transport) is
//! the caller's: it runs the passes and sends each frame.
use vstd::prelude::*;
use crate::types::{
    Meta, MetaView, Fragment, FragmentView, valid_config, config_ok, accepted_fragment,
};
use crate::frame::{encode, spec_frame_bytes, spec_decode};
use crate::coder::{
    TransferEncoder, BlockEncoder, config_of, systematic_fragments_of, block_count_of,
    block_symbols_of, repair_fragments_of, MAX_REPAIR_INDEX,
};
use crate::shuffle::shuffle_vec;
use crate::MTU;

verus! {

/// Scheduling policy for one send operation. It has no effect on
/// decodability, only on the order and volume of what is sent.
#[derive(Clone, Copy, Debug, PartialEq, Eq, PartialOrd, Ord, Hash, Structural)]
pub struct Sender {
    /// Send every source-equivalent fragment first.
    pub systematic: bool,
    /// Extra repair fragments per block appended to the systematic phase.
    pub initial_repairs: u32,
    /// Repair fragments requested from each block on every residual pass.
    pub residual_batch_size: u32,
    /// First repair-fragment index of the residual fountain.
    pub starting_offset: u32,
    /// Randomize the presentation order (systematic phase) and the block
    /// order (each residual pass).
    pub shuffle: bool,
}

impl Sender {
    /// The default policy: a shuffled systematic phase with no extra initial
    /// repairs, then one repair fragment per block and pass.
    pub fn new() -> (s: Sender)
        ensures
            s == (Sender {
                systematic: true,
                initial_repairs: 0,
                residual_batch_size: 1,
                starting_offset: 0,
                shuffle: true,
            }),
    {
        Sender {
            systematic: true,
            initial_repairs: 0,
            residual_batch_size: 1,
            starting_offset: 0,
            shuffle: true,
        }
    }
}

impl Default for Sender {
    fn default() -> (s: Sender)
        ensures
            s == (Sender {
                systematic: true,
                initial_repairs: 0,
                residual_batch_size: 1,
                starting_offset: 0,
                shuffle: true,
            }),
    {
        Sender::new()
    }
}

/// `b` is the framing of one of `frags` for transfer `m`.
pub open spec fn frames_one_of(b: Seq<u8>, m: MetaView, frags: Seq<Fragment>) -> bool {
    exists|j: int| 0 <= j < frags.len() && b == spec_frame_bytes(m, (#[trigger] frags[j])@)
}

/// Some element of `r` is the framing of fragment `f` for transfer `m`.
pub open spec fn framed_in(f: Fragment, m: MetaView, r: Seq<Vec<u8>>) -> bool {
    exists|i: int| 0 <= i < r.len() && (#[trigger] r[i])@ == spec_frame_bytes(m, f@)
}

/// `b` is the framing of some fragment of transfer `m`.
pub open spec fn frames_fragment(b: Seq<u8>, m: MetaView) -> bool {
    exists|f: FragmentView| b == spec_frame_bytes(m, f)
}

/// `b` is the framing of a fragment of transfer `m` that every receiver-side
/// validity check accepts.
pub open spec fn frames_accepted(b: Seq<u8>, m: MetaView) -> bool {
    exists|f: FragmentView| b == spec_frame_bytes(m, f) && accepted_fragment(m, f)
}

/// `b` is the framing, for transfer `m`, of one element of some block's
/// repair window `start..start + batch` of the transfer built over `src`:
/// repair material (its symbol id sits at or past the block's source-symbol
/// count, offset by `start`), never an earlier window's.
pub open spec fn frames_block_repair(
    b: Seq<u8>,
    m: MetaView,
    src: (Seq<u8>, u16),
    start: u32,
    batch: u32,
) -> bool {
    exists|f: FragmentView, blk: int|
        #![auto]
        {
            &&& b == spec_frame_bytes(m, f)
            &&& 0 <= blk < block_count_of(src.0, src.1)
            &&& f.block as int == blk
            &&& block_symbols_of(src.0, src.1, blk) + start <= f.symbol_id as int
            &&& (f.symbol_id as int) < block_symbols_of(src.0, src.1, blk) + start + batch
        }
}

/// Element `t` of block `blk`'s repair window `start..start + batch` is
/// framed somewhere in `frames`.
pub open spec fn window_element_framed(
    frames: Seq<Vec<u8>>,
    m: MetaView,
    src: (Seq<u8>, u16),
    blk: int,
    start: u32,
    batch: u32,
    t: int,
) -> bool {
    exists|i: int|
        0 <= i < frames.len() && (#[trigger] frames[i])@ == spec_frame_bytes(
            m,
            repair_fragments_of(src.0, src.1, blk, start, batch)[t],
        )
}

/// Every element of block `blk`'s repair window `start..start + batch` is
/// framed somewhere in `frames`.
pub open spec fn window_framed(
    frames: Seq<Vec<u8>>,
    m: MetaView,
    src: (Seq<u8>, u16),
    blk: int,
    start: u32,
    batch: u32,
) -> bool {
    forall|t: int|
        0 <= t < batch ==> #[trigger] window_element_framed(frames, m, src, blk, start, batch, t)
}

/// Growing a frame sequence preserves which windows it frames.
proof fn lemma_window_framed_grow(
    frames0: Seq<Vec<u8>>,
    add: Seq<Vec<u8>>,
    m: MetaView,
    src: (Seq<u8>, u16),
    blk: int,
    start: u32,
    batch: u32,
)
    requires
        window_framed(frames0, m, src, blk, start, batch),
    ensures
        window_framed(frames0 + add, m, src, blk, start, batch),
{
    let frames1 = frames0 + add;
    assert forall|w: int|
        0 <= w < batch implies #[trigger] window_element_framed(
        frames1,
        m,
        src,
        blk,
        start,
        batch,
        w,
    ) by {
        assert(window_element_framed(frames0, m, src, blk, start, batch, w));
        let i = choose|i: int|
            0 <= i < frames0.len() && (#[trigger] frames0[i])@ == spec_frame_bytes(
                m,
                repair_fragments_of(src.0, src.1, blk, start, batch)[w],
            );
        assert(frames1[i] == frames0[i]);
        assert(0 <= i < frames1.len() && frames1[i]@ == spec_frame_bytes(
            m,
            repair_fragments_of(src.0, src.1, blk, start, batch)[w],
        ));
    };
}

/// Appending one block's framed window makes that window framed.
proof fn lemma_window_framed_append(
    frames0: Seq<Vec<u8>>,
    add: Seq<Vec<u8>>,
    m: MetaView,
    src: (Seq<u8>, u16),
    blk: int,
    start: u32,
    batch: u32,
)
    requires
        add.len() == batch,
        forall|w: int|
            0 <= w < batch ==> (#[trigger] add[w])@ == spec_frame_bytes(
                m,
                repair_fragments_of(src.0, src.1, blk, start, batch)[w],
            ),
    ensures
        window_framed(frames0 + add, m, src, blk, start, batch),
{
    let frames1 = frames0 + add;
    assert forall|w: int|
        0 <= w < batch implies #[trigger] window_element_framed(
        frames1,
        m,
        src,
        blk,
        start,
        batch,
        w,
    ) by {
        let i = frames0.len() + w;
        assert(frames1[i] == add[w]);
        assert(0 <= i < frames1.len() && frames1[i]@ == spec_frame_bytes(
            m,
            repair_fragments_of(src.0, src.1, blk, start, batch)[w],
        ));
    };
}

/// Mapping a function over two sequences that are permutations of each other
/// yields permutations of each other: reordering the inputs only reorders the
/// outputs.
proof fn lemma_map_values_multiset<A, B>(xs: Seq<A>, ys: Seq<A>, f: spec_fn(A) -> B)
    requires
        xs.to_multiset() == ys.to_multiset(),
    ensures
        xs.map_values(f).to_multiset() == ys.map_values(f).to_multiset(),
    decreases xs.len(),
{
    broadcast use vstd::seq_lib::group_to_multiset_ensures;
    broadcast use vstd::multiset::group_multiset_axioms;

    if xs.len() == 0 {
        assert(ys.to_multiset().len() == 0);
        assert(ys.len() == 0);
        assert(xs.map_values(f) =~= ys.map_values(f));
    } else {
        let li = xs.len() - 1;
        let a = xs[li as int];
        assert(xs.contains(a));
        assert(ys.to_multiset().count(a) > 0);
        assert(ys.contains(a));
        let j = choose|j: int| 0 <= j < ys.len() && ys[j] == a;
        let xs2 = xs.remove(li as int);
        let ys2 = ys.remove(j);
        assert(xs2.to_multiset() =~= xs.to_multiset().remove(a));
        assert(ys2.to_multiset() =~= ys.to_multiset().remove(a));
        lemma_map_values_multiset(xs2, ys2, f);
        assert(xs2.map_values(f) =~= xs.map_values(f).remove(li as int));
        assert(ys2.map_values(f) =~= ys.map_values(f).remove(j));
        let mxs = xs.map_values(f);
        let mys = ys.map_values(f);
        assert(mxs[li as int] == f(a));
        assert(mys[j] == f(a));
        assert(mxs.remove(li as int).to_multiset() =~= mxs.to_multiset().remove(f(a)));
        assert(mys.remove(j).to_multiset() =~= mys.to_multiset().remove(f(a)));
        assert(mxs.contains(f(a)) && mxs.to_multiset().count(f(a)) > 0);
        assert(mys.contains(f(a)) && mys.to_multiset().count(f(a)) > 0);
        assert forall|b: B| mxs.to_multiset().count(b) == mys.to_multiset().count(b) by {
            if b == f(a) {
                assert(mxs.to_multiset().remove(f(a)).count(b) + 1 == mxs.to_multiset().count(b));
                assert(mys.to_multiset().remove(f(a)).count(b) + 1 == mys.to_multiset().count(b));
            } else {
                assert(mxs.to_multiset().remove(f(a)).count(b) == mxs.to_multiset().count(b));
                assert(mys.to_multiset().remove(f(a)).count(b) == mys.to_multiset().count(b));
            }
        };
        assert(mxs.to_multiset() =~= mys.to_multiset());
    }
}

/// Every frame the scheduler emits for a transfer decodes back to that very
/// transfer's metadata and one of its fragments: between an uncorrupted
/// emission and its receipt the wire format loses nothing, whatever the
/// delivery order does to the frames.
pub proof fn lemma_emitted_frame_decodes(b: Seq<u8>, m: MetaView)
    requires
        frames_fragment(b, m),
        m.filename.len() <= 0xFFFFFFFFu32,
    ensures
        spec_decode(b) matches Ok(p) && p.0 == m,
{
    let f = choose|f: FragmentView| b == spec_frame_bytes(m, f);
    crate::frame::lemma_frame_round_trip(m, f);
}

/// An uncorrupted emitted frame is never rejected: it decodes back to its
/// transfer's metadata, and the fragment it carries passes every
/// receiver-side validity check, so the receiver's contract forbids a
/// `Rejected` outcome for it.
pub proof fn lemma_emitted_frame_accepted(b: Seq<u8>, m: MetaView)
    requires
        frames_accepted(b, m),
        m.filename.len() <= 0xFFFFFFFFu32,
    ensures
        spec_decode(b) matches Ok(p) && p.0 == m && accepted_fragment(m, p.1),
{
    let f = choose|f: FragmentView| b == spec_frame_bytes(m, f) && accepted_fragment(m, f);
    crate::frame::lemma_frame_round_trip(m, f);
}

/// The residual fountain never repeats itself: frames drawn from a pass
/// window at shard `s1` and from any window at shard `s2` past it are
/// distinct frames — their fragments differ in block or in symbol id.
pub proof fn lemma_residual_never_repeats(
    x: Seq<u8>,
    y: Seq<u8>,
    m: MetaView,
    src: (Seq<u8>, u16),
    s1: u32,
    c1: u32,
    s2: u32,
    c2: u32,
)
    requires
        m.filename.len() <= 0xFFFFFFFFu32,
        frames_block_repair(x, m, src, s1, c1),
        frames_block_repair(y, m, src, s2, c2),
        s1 + c1 <= s2,
    ensures
        x != y,
{
    let (f1, b1) = choose|f: FragmentView, blk: int|
        #![auto]
        {
            &&& x == spec_frame_bytes(m, f)
            &&& 0 <= blk < block_count_of(src.0, src.1)
            &&& f.block as int == blk
            &&& block_symbols_of(src.0, src.1, blk) + s1 <= f.symbol_id as int
            &&& (f.symbol_id as int) < block_symbols_of(src.0, src.1, blk) + s1 + c1
        };
    let (f2, b2) = choose|f: FragmentView, blk: int|
        #![auto]
        {
            &&& y == spec_frame_bytes(m, f)
            &&& 0 <= blk < block_count_of(src.0, src.1)
            &&& f.block as int == blk
            &&& block_symbols_of(src.0, src.1, blk) + s2 <= f.symbol_id as int
            &&& (f.symbol_id as int) < block_symbols_of(src.0, src.1, blk) + s2 + c2
        };
    if f1 == f2 {
        assert(b1 == b2);
        assert((f1.symbol_id as int) < block_symbols_of(src.0, src.1, b1) + s1 + c1);
        assert(block_symbols_of(src.0, src.1, b1) + s2 <= f2.symbol_id as int);
        assert(false);
    }
    crate::frame::lemma_frame_round_trip(m, f1);
    crate::frame::lemma_frame_round_trip(m, f2);
    if x == y {
        assert(spec_decode(x) == spec_decode(y));
        assert(false);
    }
}

/// The indices `0..n`, in their own order or randomly permuted: always a
/// permutation, so every index below `n` occurs, and nothing else.
pub fn index_order(n: usize, permute: bool) -> (r: Vec<usize>)
    ensures
        r@.len() == n,
        r@.to_multiset() == Seq::new(n as nat, |i: int| i as usize).to_multiset(),
        forall|i: int| 0 <= i < n ==> (#[trigger] r@[i]) < n,
        forall|j: usize| j < n ==> r@.contains(j),
        !permute ==> forall|i: int| 0 <= i < n ==> (#[trigger] r@[i]) as int == i,
{
    let mut ids: Vec<usize> = Vec::new();
    let mut k: usize = 0;
    while k < n
        invariant
            0 <= k <= n,
            ids@.len() == k,
            forall|t: int| 0 <= t < k ==> (#[trigger] ids@[t]) as int == t,
        decreases n - k,
    {
        ids.push(k);
        k = k + 1;
    }
    assert forall|j: usize| j < n implies ids@.contains(j) by {
        assert(ids@[j as int] == j);
    };
    proof {
        assert(ids@ =~= Seq::new(n as nat, |i: int| i as usize));
    }
    if permute {
        let ghost ident = ids@;
        shuffle_vec(&mut ids);
        proof {
            broadcast use vstd::seq_lib::group_to_multiset_ensures;

            assert forall|i: int| 0 <= i < n implies (#[trigger] ids@[i]) < n by {
                assert(ids@.contains(ids@[i]));
                assert(ident.to_multiset().count(ids@[i]) > 0);
                assert(ident.contains(ids@[i]));
                let t = choose|t: int| 0 <= t < ident.len() && ident[t] == ids@[i];
                assert(ids@[i] == t as usize);
            };
            assert forall|j: usize| j < n implies ids@.contains(j) by {
                assert(ident.contains(j));
                assert(ids@.to_multiset().count(j) > 0);
            };
        }
    }
    ids
}

/// Frame each fragment of a transfer once, in the given order or in a random
/// permutation of it: exactly one frame per fragment, every frame the framing
/// of one of the fragments, every fragment framed somewhere, and, when not
/// permuted, in the fragments' own order.
pub fn frames_for(meta: &Meta, frags: &Vec<Fragment>, permute: bool) -> (r: Vec<Vec<u8>>)
    requires
        meta.filename@.len() <= 0xFFFFFFFFu32,
    ensures
        r@.len() == frags@.len(),
        r@.map_values(|b: Vec<u8>| b@).to_multiset() == Seq::new(
            frags@.len(),
            |j: int| spec_frame_bytes(meta@, frags@[j]@),
        ).to_multiset(),
        forall|i: int| 0 <= i < r@.len() ==> frames_one_of((#[trigger] r@[i])@, meta@, frags@),
        forall|j: int| 0 <= j < frags@.len() ==> framed_in(#[trigger] frags@[j], meta@, r@),
        !permute ==> forall|i: int|
            0 <= i < r@.len() ==> (#[trigger] r@[i])@ == spec_frame_bytes(meta@, frags@[i]@),
{
    let n = frags.len();
    let ids = index_order(n, permute);
    let mut r: Vec<Vec<u8>> = Vec::new();
    let mut k: usize = 0;
    while k < n
        invariant
            0 <= k <= n,
            n == frags@.len(),
            ids@.len() == n,
            forall|i: int| 0 <= i < n ==> (#[trigger] ids@[i]) < n,
            forall|j: usize| j < n ==> ids@.contains(j),
            !permute ==> forall|i: int| 0 <= i < n ==> (#[trigger] ids@[i]) as int == i,
            meta.filename@.len() <= 0xFFFFFFFFu32,
            r@.len() == k,
            forall|t: int|
                0 <= t < k ==> (#[trigger] r@[t])@ == spec_frame_bytes(
                    meta@,
                    frags@[ids@[t] as int]@,
                ),
        decreases n - k,
    {
        let id = ids[k];
        let framed = encode(meta, &frags[id]);
        r.push(framed);
        k = k + 1;
    }
    proof {
        assert forall|i: int|
            0 <= i < r@.len() implies frames_one_of((#[trigger] r@[i])@, meta@, frags@) by {
            let j = ids@[i] as int;
            assert(0 <= j < frags@.len() && r@[i]@ == spec_frame_bytes(meta@, frags@[j]@));
        };
        assert forall|j: int|
            0 <= j < frags@.len() implies framed_in(#[trigger] frags@[j], meta@, r@) by {
            assert(ids@.contains(j as usize));
            let i = choose|i: int| 0 <= i < ids@.len() && ids@[i] == j as usize;
            assert(0 <= i < r@.len() && r@[i]@ == spec_frame_bytes(
                meta@,
                frags@[ids@[i] as int]@,
            ));
        };
        let frame_of = |id: usize| spec_frame_bytes(meta@, frags@[id as int]@);
        let ident = Seq::new(n as nat, |i: int| i as usize);
        assert(r@.map_values(|b: Vec<u8>| b@) =~= ids@.map_values(frame_of));
        assert(Seq::new(frags@.len(), |j: int| spec_frame_bytes(meta@, frags@[j]@))
            =~= ident.map_values(frame_of));
        lemma_map_values_multiset(ids@, ident, frame_of);
    }
    r
}

/// One transfer being sent: the coder's encoding context, the transfer's
/// metadata, the per-block repair generators and the next repair-fragment
/// index of the residual fountain. Owned by the scheduler alone; no state
/// persists beyond the transfer.
pub struct SendSession {
    policy: Sender,
    meta: Meta,
    encoder: TransferEncoder,
    blocks: Vec<BlockEncoder>,
    shard: u32,
}

impl SendSession {
    #[verifier::type_invariant]
    spec fn inv(self) -> bool {
        &&& valid_config(self.meta@.config)
        &&& self.meta@.filename.len() <= 0xFFFFFFFFu32
        &&& self.shard <= MAX_REPAIR_INDEX
        &&& self.policy.initial_repairs <= MAX_REPAIR_INDEX
        &&& self.meta@.config == config_of(self.encoder.spec_source().0, self.encoder.spec_source().1)
        &&& self.blocks@.len() == block_count_of(
            self.encoder.spec_source().0,
            self.encoder.spec_source().1,
        )
        &&& self.blocks@.len() == self.meta@.config.source_blocks as int
        &&& forall|b: int|
            0 <= b < self.blocks@.len() ==> (#[trigger] self.blocks@[b]).spec_ident() == (
                self.encoder.spec_source().0,
                self.encoder.spec_source().1,
                b,
            )
    }

    /// The transfer's metadata.
    pub closed spec fn spec_meta(self) -> MetaView {
        self.meta@
    }

    /// The scheduling policy the session was created with.
    pub closed spec fn spec_policy(self) -> Sender {
        self.policy
    }

    /// The next repair-fragment index of the residual fountain.
    pub closed spec fn spec_shard(self) -> u32 {
        self.shard
    }

    /// The source bytes and maximum fragment size the coder was built over.
    pub closed spec fn spec_source(self) -> (Seq<u8>, u16) {
        self.encoder.spec_source()
    }

    /// How many coding blocks the transfer has.
    pub open spec fn block_count(self) -> int {
        block_count_of(self.spec_source().0, self.spec_source().1)
    }

    /// Initialize the coder over the source bytes with the protocol's fixed
    /// maximum fragment size; the coder-derived configuration plus the
    /// filename is the transfer's metadata. The session exists exactly when
    /// that configuration passes the receiver-side validity check.
    pub fn new(policy: Sender, filename: Vec<u8>, data: &[u8]) -> (r: Option<SendSession>)
        requires
            1 <= data@.len() <= 920000000,
            filename@.len() <= 0xFFFFFFFFu32,
            policy.starting_offset <= MAX_REPAIR_INDEX,
            policy.initial_repairs <= MAX_REPAIR_INDEX,
        ensures
            r is Some <==> valid_config(config_of(data@, MTU)),
            match r {
                Some(s) => {
                    &&& s.spec_policy() == policy
                    &&& s.spec_meta() == (MetaView {
                        filename: filename@,
                        config: config_of(data@, MTU),
                    })
                    &&& s.spec_source() == (data@, MTU)
                    &&& valid_config(s.spec_meta().config)
                    &&& s.spec_shard() == policy.starting_offset
                },
                None => true,
            },
    {
        let encoder = TransferEncoder::new(data, MTU);
        let config = encoder.config();
        if !config_ok(&config) {
            return None;
        }
        let blocks = encoder.blocks();
        let meta = Meta { filename, config };
        Some(SendSession { policy, meta, encoder, blocks, shard: policy.starting_offset })
    }

    /// The transfer's metadata, as embedded in every frame.
    pub fn meta(&self) -> (m: &Meta)
        ensures
            m@ == self.spec_meta(),
    {
        &self.meta
    }

    /// The systematic phase: the coder's systematic packet set — every
    /// source-equivalent fragment of the transfer plus the policy's extra
    /// initial repairs per block — framed exactly once each, in the coder's
    /// order or (under the policy's `shuffle`) in a random permutation of it.
    /// Empty exactly when the policy disables the phase. Every frame is
    /// accepted by an uncorrupted receiver.
    pub fn systematic_frames(&self) -> (r: Vec<Vec<u8>>)
        ensures
            !self.spec_policy().systematic ==> r@.len() == 0,
            self.spec_policy().systematic ==> ({
                let set = systematic_fragments_of(
                    self.spec_source().0,
                    self.spec_source().1,
                    self.spec_policy().initial_repairs,
                );
                &&& r@.len() == set.len()
                &&& r@.map_values(|b: Vec<u8>| b@).to_multiset() == Seq::new(
                    set.len(),
                    |j: int| spec_frame_bytes(self.spec_meta(), set[j]),
                ).to_multiset()
                &&& (!self.spec_policy().shuffle ==> forall|i: int|
                    0 <= i < r@.len() ==> (#[trigger] r@[i])@ == spec_frame_bytes(
                        self.spec_meta(),
                        set[i],
                    ))
            }),
            forall|i: int|
                0 <= i < r@.len() ==> frames_accepted((#[trigger] r@[i])@, self.spec_meta()),
    {
        proof {
            use_type_invariant(self);
        }
        if !self.policy.systematic {
            return Vec::new();
        }
        let frags = self.encoder.systematic_fragments(self.policy.initial_repairs);
        let r = frames_for(&self.meta, &frags, self.policy.shuffle);
        proof {
            let set = systematic_fragments_of(
                self.spec_source().0,
                self.spec_source().1,
                self.spec_policy().initial_repairs,
            );
            assert(frags@.map_values(|f: Fragment| f@) =~= set);
            assert(forall|j: int| 0 <= j < frags@.len() ==> (#[trigger] frags@[j])@ == set[j]);
            assert(Seq::new(frags@.len(), |j: int| spec_frame_bytes(self.meta@, frags@[j]@))
                =~= Seq::new(set.len(), |j: int| spec_frame_bytes(self.spec_meta(), set[j])));
            assert forall|i: int|
                0 <= i < r@.len() implies frames_accepted(
                (#[trigger] r@[i])@,
                self.spec_meta(),
            ) by {
                let j = choose|j: int|
                    0 <= j < frags@.len() && r@[i]@ == spec_frame_bytes(
                        self.meta@,
                        (#[trigger] frags@[j])@,
                    );
                assert(accepted_fragment(self.spec_meta(), frags@[j]@));
                assert(r@[i]@ == spec_frame_bytes(self.spec_meta(), frags@[j]@));
            };
        }
        r
    }

    /// One pass of the residual fountain: from every coding block, in block
    /// order or (under the policy's `shuffle`) in a fresh random permutation
    /// of the blocks, the block's repair window of `residual_batch_size`
    /// fragments starting at the current shard index, framed in the
    /// generator's order; the shard index then advances by the batch size, so
    /// no later pass repeats repair material
    /// (`lemma_residual_never_repeats`). Every window of every block appears
    /// whole; every frame carries one repair fragment of this pass's window
    /// and is accepted by an uncorrupted receiver. `None`, with the session
    /// unchanged, exactly when the repair-id space is exhausted.
    pub fn residual_pass(&mut self) -> (r: Option<Vec<Vec<u8>>>)
        ensures
            final(self).spec_meta() == old(self).spec_meta(),
            final(self).spec_policy() == old(self).spec_policy(),
            final(self).spec_source() == old(self).spec_source(),
            match r {
                Some(frames) => {
                    &&& old(self).spec_shard() + old(self).spec_policy().residual_batch_size
                        <= MAX_REPAIR_INDEX
                    &&& final(self).spec_shard() == old(self).spec_shard() + old(
                        self,
                    ).spec_policy().residual_batch_size
                    &&& frames@.len() == old(self).block_count() * old(
                        self,
                    ).spec_policy().residual_batch_size as int
                    &&& forall|i: int|
                        0 <= i < frames@.len() ==> frames_block_repair(
                            (#[trigger] frames@[i])@,
                            old(self).spec_meta(),
                            old(self).spec_source(),
                            old(self).spec_shard(),
                            old(self).spec_policy().residual_batch_size,
                        )
                    &&& forall|i: int|
                        0 <= i < frames@.len() ==> frames_accepted(
                            (#[trigger] frames@[i])@,
                            old(self).spec_meta(),
                        )
                    &&& forall|blk: int|
                        0 <= blk < old(self).block_count() ==> window_framed(
                            frames@,
                            old(self).spec_meta(),
                            old(self).spec_source(),
                            blk,
                            old(self).spec_shard(),
                            old(self).spec_policy().residual_batch_size,
                        )
                    &&& (!old(self).spec_policy().shuffle ==> forall|i: int|
                        0 <= i < frames@.len() ==> (#[trigger] frames@[i])@ == spec_frame_bytes(
                            old(self).spec_meta(),
                            repair_fragments_of(
                                old(self).spec_source().0,
                                old(self).spec_source().1,
                                i / (old(self).spec_policy().residual_batch_size as int),
                                old(self).spec_shard(),
                                old(self).spec_policy().residual_batch_size,
                            )[i % (old(self).spec_policy().residual_batch_size as int)],
                        ))
                },
                None => {
                    &&& old(self).spec_shard() + old(self).spec_policy().residual_batch_size
                        > MAX_REPAIR_INDEX
                    &&& *final(self) == *old(self)
                },
            },
    {
        proof {
            use_type_invariant(&*self);
        }
        let batch = self.policy.residual_batch_size;
        if batch > MAX_REPAIR_INDEX - self.shard {
            return None;
        }
        let start = self.shard;
        let n = self.blocks.len();
        let order = index_order(n, self.policy.shuffle);
        let ghost m = self.meta@;
        let ghost src = self.encoder.spec_source();
        let mut frames: Vec<Vec<u8>> = Vec::new();
        let mut k: usize = 0;
        while k < n
            invariant
                0 <= k <= n,
                n == self.blocks@.len(),
                order@.len() == n,
                forall|i: int| 0 <= i < n ==> (#[trigger] order@[i]) < n,
                forall|j: usize| j < n ==> order@.contains(j),
                self.inv(),
                m == self.meta@,
                src == self.encoder.spec_source(),
                start + batch <= MAX_REPAIR_INDEX,
                frames@.len() == k * batch as int,
                forall|i: int|
                    0 <= i < frames@.len() ==> frames_block_repair(
                        (#[trigger] frames@[i])@,
                        m,
                        src,
                        start,
                        batch,
                    ),
                forall|i: int|
                    0 <= i < frames@.len() ==> frames_accepted((#[trigger] frames@[i])@, m),
                forall|t: int|
                    0 <= t < k ==> window_framed(
                        frames@,
                        m,
                        src,
                        (#[trigger] order@[t]) as int,
                        start,
                        batch,
                    ),
                !self.policy.shuffle ==> forall|i: int|
                    0 <= i < n ==> (#[trigger] order@[i]) as int == i,
                !self.policy.shuffle ==> forall|i: int|
                    0 <= i < frames@.len() ==> (#[trigger] frames@[i])@ == spec_frame_bytes(
                        m,
                        repair_fragments_of(src.0, src.1, i / (batch as int), start, batch)[i % (
                        batch as int)],
                    ),
            decreases n - k,
        {
            let b = order[k];
            let ghost blk = b as int;
            let frags = self.blocks[b].repair_fragments(start, batch);
            let ghost window = repair_fragments_of(src.0, src.1, blk, start, batch);
            proof {
                assert(frags@.map_values(|f: Fragment| f@) =~= window);
                assert(forall|t: int| 0 <= t < frags@.len() ==> (#[trigger] frags@[t])@
                    == window[t]);
            }
            let framed = frames_for(&self.meta, &frags, false);
            proof {
                assert forall|i: int|
                    0 <= i < framed@.len() implies frames_block_repair(
                    (#[trigger] framed@[i])@,
                    m,
                    src,
                    start,
                    batch,
                ) && frames_accepted((#[trigger] framed@[i])@, m) by {
                    assert(framed@[i]@ == spec_frame_bytes(m, frags@[i]@));
                    assert(frags@[i].symbol_id as int == block_symbols_of(src.0, src.1, blk)
                        + start + i);
                    assert(accepted_fragment(m, frags@[i]@));
                };
                assert((k + 1) * batch as int == k * batch as int + batch as int)
                    by (nonlinear_arith);
            }
            let ghost frames_before = frames@;
            let mut framed_to_add = framed;
            frames.append(&mut framed_to_add);
            proof {
                assert forall|i: int|
                    0 <= i < frames@.len() implies frames_block_repair(
                    (#[trigger] frames@[i])@,
                    m,
                    src,
                    start,
                    batch,
                ) && frames_accepted((#[trigger] frames@[i])@, m) by {
                    if i < frames_before.len() {
                        assert(frames@[i] == frames_before[i]);
                    } else {
                        assert(frames@[i] == framed@[i - frames_before.len()]);
                    }
                };
                assert(frames@ == frames_before + framed@);
                assert forall|t: int|
                    0 <= t < k + 1 implies window_framed(
                    frames@,
                    m,
                    src,
                    (#[trigger] order@[t]) as int,
                    start,
                    batch,
                ) by {
                    if t < k {
                        lemma_window_framed_grow(
                            frames_before,
                            framed@,
                            m,
                            src,
                            order@[t] as int,
                            start,
                            batch,
                        );
                    } else {
                        assert(forall|w: int|
                            0 <= w < batch ==> (#[trigger] framed@[w])@ == spec_frame_bytes(
                                m,
                                window[w],
                            ));
                        lemma_window_framed_append(
                            frames_before,
                            framed@,
                            m,
                            src,
                            blk,
                            start,
                            batch,
                        );
                    }
                };
                if !self.policy.shuffle {
                    assert forall|i: int|
                        0 <= i < frames@.len() implies (#[trigger] frames@[i])@
                        == spec_frame_bytes(
                        m,
                        repair_fragments_of(src.0, src.1, i / (batch as int), start, batch)[i % (
                        batch as int)],
                    ) by {
                        if i < frames_before.len() {
                            assert(frames@[i] == frames_before[i]);
                        } else {
                            let w = i - frames_before.len();
                            assert(frames@[i] == framed@[w]);
                            assert(framed@[w]@ == spec_frame_bytes(m, window[w]));
                            assert(order@[k as int] as int == k as int);
                            assert(blk == k as int);
                            assert(i == (k as int) * (batch as int) + w && 0 <= w < batch as int);
                            assert(i / (batch as int) == k as int && i % (batch as int) == w)
                                by (nonlinear_arith)
                                requires
                                    i == (k as int) * (batch as int) + w,
                                    0 <= w < batch as int,
                                    0 <= k as int,
                            ;
                        }
                    };
                }
            }
            k = k + 1;
        }
        proof {
            assert forall|blk2: int|
                0 <= blk2 < block_count_of(src.0, src.1) implies window_framed(
                frames@,
                m,
                src,
                blk2,
                start,
                batch,
            ) by {
                assert(order@.contains(blk2 as usize));
                let t = choose|t: int| 0 <= t < order@.len() && order@[t] == blk2 as usize;
                assert(window_framed(frames@, m, src, order@[t] as int, start, batch));
            };
        }
        self.shard = start + batch;
        Some(frames)
    }
}

} // verus!
