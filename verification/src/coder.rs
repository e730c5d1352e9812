//! Trusted boundary to the rateless erasure coder (raptorq). The coder's
//! algebra is opaque, but its outputs are deterministic functions of what it
//! was built over, so each gets a name here: the derived configuration, the
//! systematic packet set, the per-block repair windows and the block
//! structure. Each wrapper states over those names only what the coder's
//! source plainly shows; the protocol logic is verified against that. The
//! encoder and every decoder travel inside small verified structs that carry
//! what they were built from, so the wrappers' contracts can name it.
use vstd::prelude::*;
use crate::types::{TransferConfig, Fragment, FragmentView, valid_config};

verus! {

/// Largest repair-symbol index the scheduler may hand the coder: the coder
/// caps encoding symbol ids at 2^24, and a block holds at most 56403 source
/// symbols plus padding, so this leaves the id space safe.
pub const MAX_REPAIR_INDEX: u32 = 16000000;

#[verifier::external_type_specification]
#[verifier::external_body]
pub struct ExEncoder(raptorq::Encoder);

#[verifier::external_type_specification]
#[verifier::external_body]
pub struct ExSourceBlockEncoder(raptorq::SourceBlockEncoder);

#[verifier::external_type_specification]
#[verifier::external_body]
pub struct ExDecoder(raptorq::Decoder);

/// The transfer configuration the coder derives from a source and a maximum
/// fragment size (raptorq's `Encoder::get_config` after `with_defaults`): a
/// deterministic function of the two, named because its computation spans the
/// coder's parameter search.
pub uninterp spec fn config_of(data: Seq<u8>, mtu: u16) -> TransferConfig;

/// The coder's systematic packet set (raptorq's
/// `Encoder::get_encoded_packets`): every source-equivalent fragment of every
/// block followed by `repairs` repair fragments per block, a deterministic
/// function of the source, the maximum fragment size and the repair count.
pub uninterp spec fn systematic_fragments_of(data: Seq<u8>, mtu: u16, repairs: u32) -> Seq<
    FragmentView,
>;

/// How many coding blocks the coder partitions a source into (the length of
/// raptorq's `Encoder::get_block_encoders`).
pub uninterp spec fn block_count_of(data: Seq<u8>, mtu: u16) -> int;

/// How many source symbols one coding block holds: the offset at which that
/// block's repair-symbol ids begin, so a fragment with a symbol id at or
/// above it is repair material, never a source piece.
pub uninterp spec fn block_symbols_of(data: Seq<u8>, mtu: u16, block: int) -> int;

/// One block's repair window (raptorq's `SourceBlockEncoder::repair_packets`):
/// the `count` repair fragments starting at repair index `start`, a
/// deterministic function of its arguments.
pub uninterp spec fn repair_fragments_of(
    data: Seq<u8>,
    mtu: u16,
    block: int,
    start: u32,
    count: u32,
) -> Seq<FragmentView>;

/// Relies on raptorq::Encoder::with_defaults: builds the per-block encoders
/// over the source bytes, deterministically. The bounds keep the coder's
/// internal arithmetic (block partitioning, symbol counts, the 255-block cap)
/// in range, where the call cannot panic; the coder itself rejects transfers
/// above its length limit and needs a non-empty source.
#[verifier::external_body]
fn raw_encoder(data: &[u8], mtu: u16) -> raptorq::Encoder
    requires
        1 <= data@.len() <= 920000000,
        64 <= mtu,
{
    raptorq::Encoder::with_defaults(data, mtu)
}

/// The coder's encoding context for one transfer, carrying (as ghost data)
/// the source bytes and maximum fragment size it was built over, so contracts
/// can speak of the coder's outputs as functions of them.
pub struct TransferEncoder {
    enc: raptorq::Encoder,
    source: Ghost<(Seq<u8>, u16)>,
}

/// One coding block's repair-fragment generator, carrying (as ghost data) the
/// source, maximum fragment size and block index it belongs to.
pub struct BlockEncoder {
    gen: raptorq::SourceBlockEncoder,
    ident: Ghost<(Seq<u8>, u16, int)>,
}

impl TransferEncoder {
    /// The source bytes and maximum fragment size this encoder was built over.
    pub closed spec fn spec_source(self) -> (Seq<u8>, u16) {
        self.source@
    }

    /// Build the coder's encoding context over the source bytes and record
    /// what it was built over, so the other wrappers' contracts can name it.
    pub fn new(data: &[u8], mtu: u16) -> (r: TransferEncoder)
        requires
            1 <= data@.len() <= 920000000,
            64 <= mtu,
        ensures
            r.spec_source() == (data@, mtu),
    {
        TransferEncoder { enc: raw_encoder(data, mtu), source: Ghost((data@, mtu)) }
    }

    /// Relies on raptorq::Encoder::get_config and the configuration's field
    /// accessors: the coder-derived transfer parameters, a deterministic
    /// function of the source and the maximum fragment size.
    #[verifier::external_body]
    pub fn config(&self) -> (c: TransferConfig)
        ensures
            c == config_of(self.spec_source().0, self.spec_source().1),
    {
        let oti = self.enc.get_config();
        TransferConfig {
            transfer_length: oti.transfer_length(),
            symbol_size: oti.symbol_size(),
            source_blocks: oti.source_blocks(),
            sub_blocks: oti.sub_blocks(),
            alignment: oti.symbol_alignment(),
        }
    }

    /// Relies on raptorq::Encoder::get_encoded_packets: exactly the named
    /// systematic packet set. Each packet's id is 24-bit (the coder asserts
    /// it), names a block the configuration has, and carries one symbol of
    /// the configured size (blocks are zero-padded to whole symbols). The
    /// bound on `repairs` keeps repair ids below the coder's 2^24 cap, where
    /// the call cannot panic.
    #[verifier::external_body]
    pub fn systematic_fragments(&self, repairs: u32) -> (v: Vec<Fragment>)
        requires
            repairs <= MAX_REPAIR_INDEX,
        ensures
            v@.map_values(|f: Fragment| f@) == systematic_fragments_of(
                self.spec_source().0,
                self.spec_source().1,
                repairs,
            ),
            forall|i: int|
                0 <= i < v@.len() ==> (#[trigger] v@[i]).symbol_id < 0x1000000,
            forall|i: int|
                0 <= i < v@.len() ==> (#[trigger] v@[i]).block < config_of(
                    self.spec_source().0,
                    self.spec_source().1,
                ).source_blocks,
            forall|i: int|
                0 <= i < v@.len() ==> (#[trigger] v@[i]).payload@.len() == config_of(
                    self.spec_source().0,
                    self.spec_source().1,
                ).symbol_size,
    {
        self.enc
            .get_encoded_packets(repairs)
            .into_iter()
            .map(|p: raptorq::EncodingPacket| {
                let (pid, data) = p.split();
                Fragment {
                    block: pid.source_block_number(),
                    symbol_id: pid.encoding_symbol_id(),
                    payload: data,
                }
            })
            .collect()
    }

    /// Relies on raptorq::Encoder::get_block_encoders: one independent
    /// repair-fragment generator per coding block, in block order; the coder
    /// builds exactly one block per unit of the configuration's block count.
    #[verifier::external_body]
    fn raw_blocks(&self) -> (v: Vec<raptorq::SourceBlockEncoder>)
        ensures
            v@.len() == block_count_of(self.spec_source().0, self.spec_source().1),
            v@.len() == config_of(self.spec_source().0, self.spec_source().1).source_blocks as int,
    {
        self.enc.get_block_encoders().clone()
    }

    /// The per-block repair generators, each recording the source and block
    /// index it belongs to (the coder hands them out in block order).
    pub fn blocks(&self) -> (v: Vec<BlockEncoder>)
        ensures
            v@.len() == block_count_of(self.spec_source().0, self.spec_source().1),
            v@.len() == config_of(self.spec_source().0, self.spec_source().1).source_blocks as int,
            forall|b: int|
                0 <= b < v@.len() ==> (#[trigger] v@[b]).spec_ident() == (
                    self.spec_source().0,
                    self.spec_source().1,
                    b,
                ),
    {
        let mut raw = self.raw_blocks();
        let ghost src = self.spec_source();
        let ghost total = raw@.len();
        proof {
            assert(total <= usize::MAX);
        }
        let mut v: Vec<BlockEncoder> = Vec::new();
        let mut b: usize = 0;
        while raw.len() > 0
            invariant
                v@.len() == b,
                b + raw@.len() == total,
                total <= usize::MAX,
                forall|t: int| 0 <= t < b ==> (#[trigger] v@[t]).spec_ident() == (src.0, src.1, t),
            decreases raw@.len(),
        {
            let generator = raw.remove(0);
            v.push(BlockEncoder { gen: generator, ident: Ghost((src.0, src.1, b as int)) });
            b = b + 1;
        }
        v
    }
}

impl BlockEncoder {
    /// The source, maximum fragment size and block index this generator
    /// belongs to.
    pub closed spec fn spec_ident(self) -> (Seq<u8>, u16, int) {
        self.ident@
    }

    /// Relies on raptorq::SourceBlockEncoder::repair_packets: exactly the
    /// named repair window — `count` fragments, all for this block, with
    /// consecutive symbol ids offset from `start` by the block's source
    /// symbol count (so ids at different starting indices never coincide, and
    /// every id names repair material, not a source piece), each one symbol
    /// of the configured size. The bound keeps the ids below the coder's 2^24
    /// cap, where the call cannot panic.
    #[verifier::external_body]
    pub fn repair_fragments(&self, start: u32, count: u32) -> (v: Vec<Fragment>)
        requires
            start + count <= MAX_REPAIR_INDEX,
        ensures
            v@.map_values(|f: Fragment| f@) == repair_fragments_of(
                self.spec_ident().0,
                self.spec_ident().1,
                self.spec_ident().2,
                start,
                count,
            ),
            v@.len() == count,
            forall|t: int|
                0 <= t < v@.len() ==> (#[trigger] v@[t]).block as int == self.spec_ident().2,
            forall|t: int|
                0 <= t < v@.len() ==> (#[trigger] v@[t]).symbol_id as int == block_symbols_of(
                    self.spec_ident().0,
                    self.spec_ident().1,
                    self.spec_ident().2,
                ) + start + t,
            forall|t: int|
                0 <= t < v@.len() ==> (#[trigger] v@[t]).symbol_id < 0x1000000,
            forall|t: int|
                0 <= t < v@.len() ==> (#[trigger] v@[t]).payload@.len() == config_of(
                    self.spec_ident().0,
                    self.spec_ident().1,
                ).symbol_size,
    {
        self.gen
            .repair_packets(start, count)
            .into_iter()
            .map(|p: raptorq::EncodingPacket| {
                let (pid, data) = p.split();
                Fragment {
                    block: pid.source_block_number(),
                    symbol_id: pid.encoding_symbol_id(),
                    payload: data,
                }
            })
            .collect()
    }
}

/// One transfer's decoder, paired with the configuration it was created
/// from: the pairing lives in this struct, established by the constructor and
/// never changed, so feeding can require consistency between fragment and
/// decoder in its formal contract.
pub struct TransferDecoder {
    config: TransferConfig,
    dec: raptorq::Decoder,
}

impl TransferDecoder {
    /// The configuration this decoder was created from.
    pub closed spec fn spec_config(self) -> TransferConfig {
        self.config
    }

    /// Relies on raptorq::Decoder::new and
    /// raptorq::ObjectTransmissionInformation::new: a fresh decoder for the
    /// given transfer parameters, stored beside them. `valid_config` is
    /// exactly what keeps both calls' internal assertions and arithmetic in
    /// range, where they cannot panic.
    #[verifier::external_body]
    pub fn new(c: &TransferConfig) -> (d: TransferDecoder)
        requires
            valid_config(*c),
        ensures
            d.spec_config() == *c,
    {
        let oti = raptorq::ObjectTransmissionInformation::new(
            c.transfer_length,
            c.symbol_size,
            c.source_blocks,
            c.sub_blocks,
            c.alignment,
        );
        TransferDecoder { config: *c, dec: raptorq::Decoder::new(oti) }
    }

    /// Relies on raptorq::Decoder::decode: feeds one packet and reports the
    /// fully reconstructed source once enough material has arrived, truncated
    /// to exactly the transfer length. The fragment must be consistent with
    /// this decoder's own configuration — under these bounds the call indexes
    /// only existing blocks and symbols of the right size and divides only by
    /// the configuration's nonzero counts, where it cannot panic. Whether
    /// decoding completes on this packet is the coder's decision; nothing
    /// more is assumed of it.
    #[verifier::external_body]
    pub fn feed(&mut self, frag: &Fragment) -> (r: Option<Vec<u8>>)
        requires
            valid_config(old(self).spec_config()),
            frag.block < old(self).spec_config().source_blocks,
            frag.symbol_id < 0x1000000,
            frag.payload@.len() == old(self).spec_config().symbol_size,
        ensures
            final(self).spec_config() == old(self).spec_config(),
            r matches Some(out) ==> out@.len() == old(self).spec_config().transfer_length,
    {
        let pid = raptorq::PayloadId::new(frag.block, frag.symbol_id);
        let packet = raptorq::EncodingPacket::new(pid, frag.payload.clone());
        self.dec.decode(packet)
    }
}

} // verus!
