//! Frame codec: the wire format for one fragment. A frame is the
//! serialization of `(Meta, Fragment)` followed by a 32-byte integrity digest
//! of that serialization; a frame is accepted only if recomputing the digest
//! over the serialized pair matches the transmitted digest exactly.
//!
//! Inner layout, all integers little-endian:
//! transfer_length (8) | symbol_size (2) | source_blocks (1) | sub_blocks (2)
//! | alignment (1) | filename length (4) | filename | block (1) |
//! symbol id (4) | payload (to the end).
use vstd::prelude::*;
use crate::types::{Meta, MetaView, Fragment, FragmentView, TransferConfig, bytes_eq};
use crate::digest::{sha256, sha256_of};
use vstd::bytes::*;

verus! {

/// Why an inbound frame was dropped: it did not parse, or its digest did not
/// match its contents.
#[derive(Clone, Copy, Debug, PartialEq, Eq, Structural)]
pub enum FrameError {
    MalformedFrame,
    DigestMismatch,
}

/// The 32-byte digest a frame carries: the SHA-256 of the serialized pair.
/// (Stated over the first 32 bytes of the named digest so that its length is
/// fixed in specifications; the digest really is 32 bytes, as the trusted
/// wrapper in `digest` states of every call.)
pub open spec fn frame_digest(data: Seq<u8>) -> Seq<u8> {
    Seq::new(32, |i: int| if i < sha256_of(data).len() { sha256_of(data)[i] } else { 0 })
}

/// Serialization of the transfer configuration: 14 bytes.
pub open spec fn spec_config_bytes(c: TransferConfig) -> Seq<u8> {
    spec_u64_to_le_bytes(c.transfer_length) + spec_u16_to_le_bytes(c.symbol_size)
        + seq![c.source_blocks] + spec_u16_to_le_bytes(c.sub_blocks) + seq![c.alignment]
}

/// Serialization of one `(Meta, Fragment)` pair.
pub open spec fn spec_inner_bytes(m: MetaView, f: FragmentView) -> Seq<u8> {
    spec_config_bytes(m.config) + spec_u32_to_le_bytes(m.filename.len() as u32) + m.filename
        + seq![f.block] + spec_u32_to_le_bytes(f.symbol_id) + f.payload
}

/// The full wire frame: the serialized pair followed by its digest.
pub open spec fn spec_frame_bytes(m: MetaView, f: FragmentView) -> Seq<u8> {
    spec_inner_bytes(m, f) + frame_digest(spec_inner_bytes(m, f))
}

/// Parse the serialized pair back into its fields.
pub open spec fn spec_parse_inner(inner: Seq<u8>) -> Result<(MetaView, FragmentView), FrameError> {
    if inner.len() < 23 {
        Err(FrameError::MalformedFrame)
    } else {
        let c = TransferConfig {
            transfer_length: spec_u64_from_le_bytes(inner.subrange(0, 8)),
            symbol_size: spec_u16_from_le_bytes(inner.subrange(8, 10)),
            source_blocks: inner[10],
            sub_blocks: spec_u16_from_le_bytes(inner.subrange(11, 13)),
            alignment: inner[13],
        };
        let flen = spec_u32_from_le_bytes(inner.subrange(14, 18)) as int;
        if inner.len() - 23 < flen {
            Err(FrameError::MalformedFrame)
        } else {
            Ok(
                (
                    MetaView { filename: inner.subrange(18, 18 + flen), config: c },
                    FragmentView {
                        block: inner[18 + flen],
                        symbol_id: spec_u32_from_le_bytes(inner.subrange(19 + flen, 23 + flen)),
                        payload: inner.subrange(23 + flen, inner.len() as int),
                    },
                ),
            )
        }
    }
}

/// What decoding a received byte string yields: the pair, or the reason the
/// frame is dropped. The digest is checked before the pair is parsed.
pub open spec fn spec_decode(bytes: Seq<u8>) -> Result<(MetaView, FragmentView), FrameError> {
    if bytes.len() < 32 {
        Err(FrameError::MalformedFrame)
    } else {
        let inner = bytes.subrange(0, bytes.len() - 32);
        let dg = bytes.subrange(bytes.len() - 32, bytes.len() as int);
        if dg != frame_digest(inner) {
            Err(FrameError::DigestMismatch)
        } else {
            spec_parse_inner(inner)
        }
    }
}

/// Serialize one `(Meta, Fragment)` pair and append the digest over the
/// serialization, yielding the transportable frame.
pub fn encode(meta: &Meta, frag: &Fragment) -> (r: Vec<u8>)
    requires
        meta.filename@.len() <= 0xFFFFFFFFu32,
    ensures
        r@ == spec_frame_bytes(meta@, frag@),
{
    let mut inner = u64_to_le_bytes(meta.config.transfer_length);
    let mut part_symbol_size = u16_to_le_bytes(meta.config.symbol_size);
    inner.append(&mut part_symbol_size);
    inner.push(meta.config.source_blocks);
    let mut part_sub_blocks = u16_to_le_bytes(meta.config.sub_blocks);
    inner.append(&mut part_sub_blocks);
    inner.push(meta.config.alignment);
    let mut part_name_len = u32_to_le_bytes(meta.filename.len() as u32);
    inner.append(&mut part_name_len);
    inner.extend_from_slice(meta.filename.as_slice());
    inner.push(frag.block);
    let mut part_symbol_id = u32_to_le_bytes(frag.symbol_id);
    inner.append(&mut part_symbol_id);
    inner.extend_from_slice(frag.payload.as_slice());
    proof {
        assert(inner@ =~= spec_inner_bytes(meta@, frag@));
    }
    let dg = sha256(inner.as_slice());
    proof {
        assert(dg@ =~= frame_digest(inner@));
    }
    let mut out = inner;
    out.extend_from_slice(dg.as_slice());
    proof {
        assert(out@ =~= spec_frame_bytes(meta@, frag@));
    }
    out
}

/// Deserialize and validate one received frame: split off the digest, check
/// it against the recomputed digest of the serialized pair, then parse the
/// pair. Exactly mirrors `spec_decode`.
pub fn decode(data: &[u8]) -> (r: Result<(Meta, Fragment), FrameError>)
    ensures
        match r {
            Ok((m, f)) => spec_decode(data@) == Ok::<(MetaView, FragmentView), FrameError>(
                (m@, f@),
            ),
            Err(e) => spec_decode(data@) == Err::<(MetaView, FragmentView), FrameError>(e),
        },
{
    let n = data.len();
    if n < 32 {
        return Err(FrameError::MalformedFrame);
    }
    let inner = vstd::slice::slice_subrange(data, 0, n - 32);
    let transmitted = vstd::slice::slice_subrange(data, n - 32, n);
    let dg = sha256(inner);
    proof {
        assert(dg@ =~= frame_digest(inner@));
    }
    if !bytes_eq(dg.as_slice(), transmitted) {
        return Err(FrameError::DigestMismatch);
    }
    let il = inner.len();
    if il < 23 {
        return Err(FrameError::MalformedFrame);
    }
    let transfer_length = u64_from_le_bytes(vstd::slice::slice_subrange(inner, 0, 8));
    let symbol_size = u16_from_le_bytes(vstd::slice::slice_subrange(inner, 8, 10));
    let source_blocks = *vstd::slice::slice_index_get(inner, 10);
    let sub_blocks = u16_from_le_bytes(vstd::slice::slice_subrange(inner, 11, 13));
    let alignment = *vstd::slice::slice_index_get(inner, 13);
    let name_len_u32 = u32_from_le_bytes(vstd::slice::slice_subrange(inner, 14, 18));
    let name_len = name_len_u32 as usize;
    if il - 23 < name_len {
        return Err(FrameError::MalformedFrame);
    }
    let filename = vstd::slice::slice_to_vec(vstd::slice::slice_subrange(inner, 18, 18 + name_len));
    let block = *vstd::slice::slice_index_get(inner, 18 + name_len);
    let symbol_id = u32_from_le_bytes(
        vstd::slice::slice_subrange(inner, 19 + name_len, 23 + name_len),
    );
    let payload = vstd::slice::slice_to_vec(vstd::slice::slice_subrange(inner, 23 + name_len, il));
    let meta = Meta {
        filename,
        config: TransferConfig { transfer_length, symbol_size, source_blocks, sub_blocks, alignment },
    };
    let frag = Fragment { block, symbol_id, payload };
    proof {
        let parsed = spec_parse_inner(inner@);
        assert(parsed is Ok);
        assert(parsed->Ok_0.0 =~= meta@);
        assert(parsed->Ok_0.1 =~= frag@);
    }
    Ok((meta, frag))
}

/// Encoding then decoding returns the very pair that was framed: the wire
/// format loses nothing, whatever the metadata and fragment hold.
pub proof fn lemma_frame_round_trip(m: MetaView, f: FragmentView)
    requires
        m.filename.len() <= 0xFFFFFFFFu32,
    ensures
        spec_decode(spec_frame_bytes(m, f)) == Ok::<(MetaView, FragmentView), FrameError>((m, f)),
{
    lemma_auto_spec_u64_to_from_le_bytes();
    lemma_auto_spec_u16_to_from_le_bytes();
    lemma_auto_spec_u32_to_from_le_bytes();
    let inner = spec_inner_bytes(m, f);
    let b = spec_frame_bytes(m, f);
    let flen = m.filename.len() as int;
    assert(inner.len() == 23 + flen + f.payload.len());
    assert(b.subrange(0, b.len() - 32) =~= inner);
    assert(b.subrange(b.len() - 32, b.len() as int) =~= frame_digest(inner));
    assert(inner.subrange(0, 8) =~= spec_u64_to_le_bytes(m.config.transfer_length));
    assert(inner.subrange(8, 10) =~= spec_u16_to_le_bytes(m.config.symbol_size));
    assert(inner[10] == m.config.source_blocks);
    assert(inner.subrange(11, 13) =~= spec_u16_to_le_bytes(m.config.sub_blocks));
    assert(inner[13] == m.config.alignment);
    assert(inner.subrange(14, 18) =~= spec_u32_to_le_bytes(flen as u32));
    assert(inner.subrange(18, 18 + flen) =~= m.filename);
    assert(inner[18 + flen] == f.block);
    assert(inner.subrange(19 + flen, 23 + flen) =~= spec_u32_to_le_bytes(f.symbol_id));
    assert(inner.subrange(23 + flen, inner.len() as int) =~= f.payload);
    let parsed = spec_parse_inner(inner);
    assert(parsed is Ok);
    assert(parsed->Ok_0.0 =~= m);
    assert(parsed->Ok_0.1 =~= f);
}

/// Any change confined to a frame's transmitted digest is caught: if the
/// trailing 32 bytes differ from the digest of the leading bytes, decoding
/// reports a digest mismatch and nothing else.
pub proof fn lemma_digest_flip_rejected(inner: Seq<u8>, dg: Seq<u8>)
    requires
        dg.len() == 32,
        dg != frame_digest(inner),
    ensures
        spec_decode(inner + dg) == Err::<(MetaView, FragmentView), FrameError>(
            FrameError::DigestMismatch,
        ),
{
    let b = inner + dg;
    assert(b.subrange(0, b.len() - 32) =~= inner);
    assert(b.subrange(b.len() - 32, b.len() as int) =~= dg);
}

} // verus!
