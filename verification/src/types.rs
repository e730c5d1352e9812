//! Data model: coder-derived transfer parameters, transfer metadata (the
//! multiplexing key) and encoded fragments, all as plain values.
use vstd::prelude::*;

verus! {

/// Upper bound on a transfer's length accepted by the erasure coder.
pub const MAX_TRANSFER_LENGTH: u64 = 942574504275;

/// Upper bound on the number of source symbols a single coding block may hold.
pub const MAX_BLOCK_SYMBOLS: u64 = 56403;

/// Coder-derived parameters of one transfer: block structure, symbol size and
/// source length. Produced once by the coder from the source bytes and the
/// maximum fragment size; required by any decoder for the transfer.
#[derive(Clone, Copy, Debug, PartialEq, Eq, PartialOrd, Ord, Hash, Structural)]
pub struct TransferConfig {
    pub transfer_length: u64,
    pub symbol_size: u16,
    pub source_blocks: u8,
    pub sub_blocks: u16,
    pub alignment: u8,
}

/// Ceiling division on mathematical integers (for positive divisors).
pub open spec fn spec_div_ceil(a: int, b: int) -> int {
    (a + b - 1) / b
}

/// A configuration the receiver will build a decoder from: non-degenerate
/// sizes (sub-block count included: the coder divides by it when unpacking),
/// aligned symbols, a bounded transfer length, and per-block symbol counts
/// within the coder's limit.
pub open spec fn valid_config(c: TransferConfig) -> bool {
    &&& 1 <= c.symbol_size
    &&& 1 <= c.source_blocks
    &&& 1 <= c.sub_blocks
    &&& 1 <= c.alignment
    &&& c.symbol_size as int % c.alignment as int == 0
    &&& c.transfer_length <= MAX_TRANSFER_LENGTH
    &&& spec_div_ceil(
        spec_div_ceil(c.transfer_length as int, c.symbol_size as int),
        c.source_blocks as int,
    ) <= MAX_BLOCK_SYMBOLS
}

/// Runtime check for `valid_config`.
pub fn config_ok(c: &TransferConfig) -> (r: bool)
    ensures
        r == valid_config(*c),
{
    if c.symbol_size < 1 || c.source_blocks < 1 || c.sub_blocks < 1 || c.alignment < 1 {
        return false;
    }
    if c.symbol_size as u32 % c.alignment as u32 != 0 {
        return false;
    }
    if c.transfer_length > MAX_TRANSFER_LENGTH {
        return false;
    }
    let kt: u64 = (c.transfer_length + c.symbol_size as u64 - 1) / c.symbol_size as u64;
    let per_block: u64 = (kt + c.source_blocks as u64 - 1) / c.source_blocks as u64;
    per_block <= MAX_BLOCK_SYMBOLS
}

/// How many source symbols a decoder must gather before the transfer can
/// complete: the transfer length divided by the symbol size, rounded up.
pub open spec fn spec_required_symbols(c: TransferConfig) -> int {
    spec_div_ceil(c.transfer_length as int, c.symbol_size as int)
}

/// Runtime computation of `spec_required_symbols`.
pub fn required_symbols(c: &TransferConfig) -> (r: u64)
    requires
        1 <= c.symbol_size,
        c.transfer_length <= MAX_TRANSFER_LENGTH,
    ensures
        r == spec_required_symbols(*c),
{
    (c.transfer_length + c.symbol_size as u64 - 1) / c.symbol_size as u64
}

/// Mathematical value of a `Meta`.
#[verifier::ext_equal]
pub ghost struct MetaView {
    pub filename: Seq<u8>,
    pub config: TransferConfig,
}

/// Metadata identifying one logical transfer: the file's name (as UTF-8
/// bytes) plus the coder-derived configuration. Equality is structural over
/// both fields; the pair is the receiver's multiplexing key, and it is
/// embedded in every fragment so a receiver can configure a decoder without
/// prior negotiation.
#[derive(Clone, Debug, PartialEq, Eq, PartialOrd, Ord, Hash)]
pub struct Meta {
    pub filename: Vec<u8>,
    pub config: TransferConfig,
}

impl View for Meta {
    type V = MetaView;

    open spec fn view(&self) -> MetaView {
        MetaView { filename: self.filename@, config: self.config }
    }
}

impl Meta {
    /// An identical copy, with the identity visible to the verifier (the
    /// derived clone carries no specification).
    pub fn duplicate(&self) -> (r: Meta)
        ensures
            r@ == self@,
    {
        let filename = self.filename.clone();
        proof {
            assert(filename@ =~= self.filename@);
        }
        Meta { filename, config: self.config }
    }
}

/// Mathematical value of a `Fragment`.
#[verifier::ext_equal]
pub ghost struct FragmentView {
    pub block: u8,
    pub symbol_id: u32,
    pub payload: Seq<u8>,
}

/// One encoded unit produced by the coder: either a systematic piece or a
/// repair piece of the coding block `block`, with its encoding symbol id and
/// its payload bytes. Meaningless without the `TransferConfig` that produced
/// it.
#[derive(Clone, Debug, PartialEq, Eq, Hash)]
pub struct Fragment {
    pub block: u8,
    pub symbol_id: u32,
    pub payload: Vec<u8>,
}

impl View for Fragment {
    type V = FragmentView;

    open spec fn view(&self) -> FragmentView {
        FragmentView { block: self.block, symbol_id: self.symbol_id, payload: self.payload@ }
    }
}

/// A fragment a receiver will feed a decoder: its metadata passes the
/// validity check and the fragment is consistent with it (an existing block,
/// a 24-bit symbol id, a payload of the configured symbol size). Anything
/// else is dropped as malformed.
pub open spec fn accepted_fragment(m: MetaView, f: FragmentView) -> bool {
    &&& valid_config(m.config)
    &&& (f.block as int) < m.config.source_blocks as int
    &&& f.symbol_id < 0x1000000u32
    &&& f.payload.len() == m.config.symbol_size as int
}

/// Byte-wise slice equality.
pub fn bytes_eq(a: &[u8], b: &[u8]) -> (r: bool)
    ensures
        r == (a@ == b@),
{
    if a.len() != b.len() {
        return false;
    }
    let mut i: usize = 0;
    while i < a.len()
        invariant
            0 <= i <= a@.len(),
            a@.len() == b@.len(),
            forall|k: int| 0 <= k < i ==> a@[k] == b@[k],
        decreases a@.len() - i,
    {
        if *vstd::slice::slice_index_get(a, i) != *vstd::slice::slice_index_get(b, i) {
            return false;
        }
        i = i + 1;
    }
    proof {
        assert(a@ =~= b@);
    }
    true
}

/// Structural equality of two `Meta` values, the receiver's key comparison.
pub fn meta_eq(a: &Meta, b: &Meta) -> (r: bool)
    ensures
        r == (a@ == b@),
{
    let names_equal = bytes_eq(a.filename.as_slice(), b.filename.as_slice());
    if names_equal && a.config == b.config {
        proof {
            assert(a@ =~= b@);
        }
        true
    } else {
        false
    }
}

} // verus!
