//! Compressed row payloads and their assembly into one artifact per chunk.
//!
//! Each row's line is compressed on its own. A gzip artifact is one member: one
//! header, the rows' deflate bodies in a row, one closing block, and one trailer
//! whose checksum is combined from the rows' checksums. A zstd artifact is the
//! rows' frames in a row.

use std::io::Read;
use vstd::prelude::*;
use vstd::slice::slice_subrange;
use crate::crc32::checksum;
use crate::crc32::combined;
use crate::crc32::crc32;
use crate::crc32::crc32_combine;
use crate::crc32::lemma_combine_concat;
use crate::crc32::lemma_crc32_empty;

verus! {

/// The kind of artifact that a chunk is packed into.
#[derive(Debug, Clone, Copy, PartialEq, Eq, Structural)]
pub enum Container {
    /// One gzip member for the whole chunk.
    Gzip,
    /// One zstd frame for each row, concatenated.
    Zstd,
}

/// One row's compressed line, with the checksum and length of the line.
#[derive(Debug, Clone, PartialEq, Eq)]
pub struct CompressedPayload {
    /// The compressed bytes: a deflate body without framing, or a zstd frame.
    pub raw_bytes: Vec<u8>,
    /// CRC-32 of the uncompressed line.
    pub crc32: u32,
    /// Length of the uncompressed line in bytes.
    pub uncompressed_size: u64,
}

/// Mathematical model of a [`CompressedPayload`].
pub ghost struct PayloadModel {
    pub raw_bytes: Seq<u8>,
    pub crc32: u32,
    pub uncompressed_size: u64,
}

impl View for CompressedPayload {
    type V = PayloadModel;

    open spec fn view(&self) -> PayloadModel {
        PayloadModel {
            raw_bytes: self.raw_bytes@,
            crc32: self.crc32,
            uncompressed_size: self.uncompressed_size,
        }
    }
}

impl DeepView for CompressedPayload {
    type V = PayloadModel;

    open spec fn deep_view(&self) -> PayloadModel {
        self@
    }
}

/// The error of the standard library's readers and writers, which the
/// compression libraries hand on.
#[verifier::external_type_specification]
#[verifier::external_body]
pub struct ExIoError(std::io::Error);

/// What one run of the deflate compressor over a line gives when it may write
/// at most `capacity` bytes and is asked to end on a sync flush: the bytes it
/// wrote, the number of bytes of the line it took in, and whether it reported
/// no error.
pub uninterp spec fn deflate_output(line: Seq<u8>, capacity: nat) -> (Seq<u8>, nat, bool);

/// The zstd frame of a line. `None` where the compressor fails.
pub uninterp spec fn zstd_framed(line: Seq<u8>) -> Option<Seq<u8>>;

/// The content of a gzip file. `None` where the bytes are no gzip member or the
/// member is damaged.
pub uninterp spec fn gunzipped(data: Seq<u8>) -> Option<Seq<u8>>;

/// Makes a `flate2::Compress` at the fast level without a zlib header (`new`),
/// calls `Compress::compress` once on the whole line with `FlushCompress::Sync`
/// and an output buffer of `capacity` bytes, and hands out the part of the buffer
/// that was written (`total_out`), the number of bytes taken in (`total_in`) and
/// whether the call returned `Ok`. The contract names the outcome, which depends
/// on the line and the capacity alone.
#[verifier::external_body]
fn deflate_once(line: &[u8], capacity: usize) -> (outcome: (Vec<u8>, u64, bool))
    requires
        capacity <= MAX_BODY_CAPACITY,
    ensures
        (outcome.0@, outcome.1 as nat, outcome.2) == deflate_output(line@, capacity as nat),
{
    let mut compressor = flate2::Compress::new(flate2::Compression::fast(), false);
    let mut body = vec![0u8; capacity];
    let status = compressor.compress(line, &mut body, flate2::FlushCompress::Sync);
    body.truncate(compressor.total_out() as usize);
    (body, compressor.total_in(), status.is_ok())
}

/// Calls `zstd::stream::encode_all` at the default level. The contract names the
/// outcome, which depends on the line alone.
#[verifier::external_body]
fn zstd_frame(line: &[u8]) -> (frame: Result<Vec<u8>, std::io::Error>)
    ensures
        match frame {
            Ok(bytes) => zstd_framed(line@) == Some(bytes@),
            Err(_) => zstd_framed(line@) is None,
        },
{
    zstd::stream::encode_all(line, zstd::DEFAULT_COMPRESSION_LEVEL)
}

/// Reads all of a `flate2::read::GzDecoder` over the data (`new`, then
/// `read_to_end`). The contract names the outcome, which depends on the data alone.
#[verifier::external_body]
fn gunzip_all(data: &[u8]) -> (content: Result<Vec<u8>, std::io::Error>)
    ensures
        match content {
            Ok(bytes) => gunzipped(data@) == Some(bytes@),
            Err(_) => gunzipped(data@) is None,
        },
{
    let mut content = Vec::new();
    flate2::read::GzDecoder::new(data).read_to_end(&mut content)?;
    Ok(content)
}

/// Decompresses the content of a gzip file held in memory.
pub fn gunzip(data: &[u8]) -> (content: Option<Vec<u8>>)
    ensures
        match content {
            Some(bytes) => gunzipped(data@) == Some(bytes@),
            None => gunzipped(data@) is None,
        },
{
    match gunzip_all(data) {
        Ok(bytes) => Some(bytes),
        Err(_) => None,
    }
}

/// The largest output buffer that one call of the compressor is given: within
/// it the compressor, which counts what one call may read and write in 32 bits,
/// sees the whole piece and the whole buffer.
pub const MAX_BODY_CAPACITY: usize = 0x7FFF_FFFF;

/// The output buffer for the deflate body of a piece of `len` bytes: room for
/// the piece, a quarter more, and the block headers of a short piece.
pub open spec fn body_capacity(len: nat) -> nat {
    len + len / 4 + 1024
}

/// The deflate body in a compressor's outcome: what it wrote, where it reported
/// no error, took in the whole line, and left room in the buffer, so that the
/// sync flush is complete.
pub open spec fn accepted_body(len: nat, capacity: nat, outcome: (Seq<u8>, nat, bool)) -> Option<
    Seq<u8>,
> {
    if outcome.2 && outcome.1 == len && outcome.0.len() < capacity {
        Some(outcome.0)
    } else {
        None
    }
}

/// The longest piece of a line that is handed to the compressor in one call.
pub const MAX_PIECE_LEN: usize = 0x4000_0000;

/// The deflate body of one piece of a line: raw deflate blocks that end on a
/// byte boundary and do not close the stream. `None` where the compressor fails.
pub open spec fn piece_body(piece: Seq<u8>) -> Option<Seq<u8>> {
    let capacity = body_capacity(piece.len());
    accepted_body(piece.len(), capacity, deflate_output(piece, capacity))
}

/// The deflate body of a line that is compressed in pieces of `piece_len`
/// bytes, the last one shorter: the bodies of the pieces in a row. `None` where
/// the compressor fails on a piece.
pub open spec fn deflated_in_pieces(line: Seq<u8>, piece_len: nat) -> Option<Seq<u8>>
    decreases line.len(),
{
    if line.len() <= piece_len || piece_len == 0 {
        piece_body(line)
    } else {
        match (
            piece_body(line.take(piece_len as int)),
            deflated_in_pieces(line.skip(piece_len as int), piece_len),
        ) {
            (Some(first), Some(rest)) => Some(first + rest),
            _ => None,
        }
    }
}

/// The deflate body of a line, whatever its length.
pub open spec fn deflated(line: Seq<u8>) -> Option<Seq<u8>> {
    deflated_in_pieces(line, MAX_PIECE_LEN as nat)
}

/// Takes the deflate body out of a compressor's outcome for a piece of `len`
/// bytes and a buffer of `capacity` bytes.
pub fn accept_body(len: usize, capacity: usize, body: Vec<u8>, consumed: u64, ok: bool) -> (accepted:
    Option<Vec<u8>>)
    ensures
        match accepted {
            Some(bytes) => accepted_body(len as nat, capacity as nat, (body@, consumed as nat, ok))
                == Some(bytes@),
            None => accepted_body(len as nat, capacity as nat, (body@, consumed as nat, ok))
                is None,
        },
{
    if ok && consumed == len as u64 && body.len() < capacity {
        Some(body)
    } else {
        None
    }
}

fn deflate_piece(piece: &[u8]) -> (body: Option<Vec<u8>>)
    requires
        piece@.len() <= MAX_PIECE_LEN,
    ensures
        match body {
            Some(bytes) => piece_body(piece@) == Some(bytes@),
            None => piece_body(piece@) is None,
        },
{
    let len = piece.len();
    let capacity = len + len / 4 + 1024;
    let (body, consumed, ok) = deflate_once(piece, capacity);
    accept_body(len, capacity, body, consumed, ok)
}

/// Compresses a line into a deflate body, in pieces of `piece_len` bytes.
pub fn deflate_in_pieces(line: &[u8], piece_len: usize) -> (body: Option<Vec<u8>>)
    requires
        0 < piece_len <= MAX_PIECE_LEN,
    ensures
        match body {
            Some(bytes) => deflated_in_pieces(line@, piece_len as nat) == Some(bytes@),
            None => deflated_in_pieces(line@, piece_len as nat) is None,
        },
{
    let len = line.len();
    let mut body: Vec<u8> = Vec::new();
    let mut start: usize = 0;
    assert(line@.skip(0) =~= line@);
    while len - start > piece_len
        invariant
            0 < piece_len <= MAX_PIECE_LEN,
            len == line@.len(),
            start <= len,
            match deflated_in_pieces(line@.skip(start as int), piece_len as nat) {
                Some(rest) => deflated_in_pieces(line@, piece_len as nat) == Some(body@ + rest),
                None => deflated_in_pieces(line@, piece_len as nat) is None,
            },
        decreases len - start,
    {
        let ghost left = line@.skip(start as int);
        let piece = slice_subrange(line, start, start + piece_len);
        assert(piece@ =~= left.take(piece_len as int));
        assert(left.skip(piece_len as int) =~= line@.skip(start + piece_len));
        match deflate_piece(piece) {
            Some(mut first) => {
                let ghost done = body@;
                body.append(&mut first);
                assert forall|rest: Seq<u8>| (done + first@) + rest == done + (first@ + rest) by {
                    assert((done + first@) + rest =~= done + (first@ + rest));
                }
            },
            None => {
                return None;
            },
        }
        start += piece_len;
    }
    let last = slice_subrange(line, start, len);
    assert(last@ =~= line@.skip(start as int));
    match deflate_piece(last) {
        Some(mut rest) => {
            body.append(&mut rest);
            Some(body)
        },
        None => None,
    }
}

/// Compresses a line into a deflate body.
pub fn deflate_sync(line: &[u8]) -> (body: Option<Vec<u8>>)
    ensures
        match body {
            Some(bytes) => deflated(line@) == Some(bytes@),
            None => deflated(line@) is None,
        },
{
    deflate_in_pieces(line, MAX_PIECE_LEN)
}

/// The compressed form of a line for a kind of container.
pub open spec fn compressed(container: Container, line: Seq<u8>) -> Option<Seq<u8>> {
    match container {
        Container::Gzip => deflated(line),
        Container::Zstd => zstd_framed(line),
    }
}

/// The payload of a line whose compressed form is `raw_bytes`.
pub open spec fn payload_model(line: Seq<u8>, raw_bytes: Seq<u8>) -> PayloadModel {
    PayloadModel { raw_bytes, crc32: crc32(line), uncompressed_size: line.len() as u64 }
}

/// Makes the payload of a line from its compressed form: records the line's
/// checksum and length beside the compressed bytes.
pub fn payload_of(line: &[u8], raw_bytes: Vec<u8>) -> (payload: CompressedPayload)
    ensures
        payload@ == payload_model(line@, raw_bytes@),
{
    CompressedPayload { raw_bytes, crc32: checksum(line), uncompressed_size: line.len() as u64 }
}

/// Compresses one line on its own. `None` where the compressor fails.
pub fn compress_row(line: &[u8], container: Container) -> (payload: Option<CompressedPayload>)
    ensures
        match payload {
            Some(p) => compressed(container, line@) == Some(p.raw_bytes@) && p@ == payload_model(
                line@,
                p.raw_bytes@,
            ),
            None => compressed(container, line@) is None,
        },
{
    let outcome = match container {
        Container::Gzip => deflate_sync(line),
        Container::Zstd => match zstd_frame(line) {
            Ok(frame) => Some(frame),
            Err(_) => None,
        },
    };
    match outcome {
        Some(raw_bytes) => Some(payload_of(line, raw_bytes)),
        None => None,
    }
}

/// The ten bytes that open a gzip member: the magic number, the deflate method,
/// no flags, no modification time, no extra flags, and an unknown system.
pub open spec fn gzip_header() -> Seq<u8> {
    seq![0x1fu8, 0x8bu8, 8u8, 0u8, 0u8, 0u8, 0u8, 0u8, 0u8, 0xffu8]
}

/// An empty deflate block that closes the stream.
pub open spec fn closing_block() -> Seq<u8> {
    seq![3u8, 0u8]
}

/// The four bytes of `value`, least significant first.
pub open spec fn le32(value: u32) -> Seq<u8> {
    seq![
        (value & 0xff) as u8,
        ((value >> 8) & 0xff) as u8,
        ((value >> 16) & 0xff) as u8,
        ((value >> 24) & 0xff) as u8,
    ]
}

/// The compressed bytes of the payloads, in order.
pub open spec fn bodies(payloads: Seq<PayloadModel>) -> Seq<u8>
    decreases payloads.len(),
{
    if payloads.len() == 0 {
        Seq::empty()
    } else {
        bodies(payloads.drop_last()) + payloads.last().raw_bytes
    }
}

/// The checksum of all the lines in order, combined from the payloads' checksums
/// and lengths.
pub open spec fn combined_crc(payloads: Seq<PayloadModel>) -> u32
    decreases payloads.len(),
{
    if payloads.len() == 0 {
        0
    } else {
        combined(
            combined_crc(payloads.drop_last()),
            payloads.last().crc32,
            payloads.last().uncompressed_size as nat,
        )
    }
}

/// The length of all the lines together.
pub open spec fn total_size(payloads: Seq<PayloadModel>) -> nat
    decreases payloads.len(),
{
    if payloads.len() == 0 {
        0
    } else {
        total_size(payloads.drop_last()) + payloads.last().uncompressed_size as nat
    }
}

/// The eight bytes that close a gzip member: the checksum of the content and
/// its length modulo 2^32.
pub open spec fn gzip_trailer(crc: u32, size: nat) -> Seq<u8> {
    le32(crc) + le32((size % 0x1_0000_0000) as u32)
}

/// One gzip member that holds the payloads' bodies.
pub open spec fn gzip_member(payloads: Seq<PayloadModel>) -> Seq<u8> {
    gzip_header() + bodies(payloads) + closing_block() + gzip_trailer(
        combined_crc(payloads),
        total_size(payloads),
    )
}

/// The artifact of a chunk.
pub open spec fn assembled(container: Container, payloads: Seq<PayloadModel>) -> Seq<u8> {
    match container {
        Container::Gzip => gzip_member(payloads),
        Container::Zstd => bodies(payloads),
    }
}

/// The lines one after another.
pub open spec fn joined(lines: Seq<Seq<u8>>) -> Seq<u8>
    decreases lines.len(),
{
    if lines.len() == 0 {
        Seq::empty()
    } else {
        joined(lines.drop_last()) + lines.last()
    }
}

/// Where each payload holds the checksum and length of its line, the combined
/// checksum is the checksum of the lines one after another, and the total size
/// is their length.
pub proof fn lemma_combined_crc_is_crc_of_joined(
    lines: Seq<Seq<u8>>,
    payloads: Seq<PayloadModel>,
)
    requires
        payloads.len() == lines.len(),
        forall|i: int|
            0 <= i < lines.len() ==> (#[trigger] payloads[i]).crc32 == crc32(lines[i])
                && payloads[i].uncompressed_size == lines[i].len(),
    ensures
        combined_crc(payloads) == crc32(joined(lines)),
        total_size(payloads) == joined(lines).len(),
    decreases lines.len(),
{
    if lines.len() == 0 {
        lemma_crc32_empty();
    } else {
        let last = payloads.last();
        assert(last == payloads[payloads.len() - 1]);
        lemma_combined_crc_is_crc_of_joined(lines.drop_last(), payloads.drop_last());
        lemma_combine_concat(joined(lines.drop_last()), lines.last());
    }
}

fn push_le32(out: &mut Vec<u8>, value: u32)
    ensures
        final(out)@ == old(out)@ + le32(value),
{
    assert(value & 0xff < 256 && (value >> 8) & 0xff < 256 && (value >> 16) & 0xff < 256 && (value
        >> 24) & 0xff < 256) by (bit_vector);
    out.push((value & 0xff) as u8);
    out.push(((value >> 8) & 0xff) as u8);
    out.push(((value >> 16) & 0xff) as u8);
    out.push(((value >> 24) & 0xff) as u8);
    assert(out@ =~= old(out)@ + le32(value));
}

/// Assembles the artifact of a chunk from its rows' payloads, in order.
pub fn assemble(payloads: &Vec<CompressedPayload>, container: Container) -> (artifact: Vec<u8>)
    ensures
        artifact@ == assembled(container, payloads.deep_view()),
{
    let mut borrowed: Vec<&CompressedPayload> = Vec::new();
    let mut i: usize = 0;
    while i < payloads.len()
        invariant
            i <= payloads.len(),
            borrowed.len() == i,
            forall|k: int| 0 <= k < i ==> *(#[trigger] borrowed[k]) == payloads[k],
        decreases payloads.len() - i,
    {
        borrowed.push(&payloads[i]);
        i += 1;
    }
    assert(borrowed.deep_view() =~= payloads.deep_view());
    assemble_borrowed(&borrowed, container)
}

/// Assembles the artifact of a chunk from payloads that are held elsewhere.
pub fn assemble_borrowed(payloads: &Vec<&CompressedPayload>, container: Container) -> (artifact:
    Vec<u8>)
    ensures
        artifact@ == assembled(container, payloads.deep_view()),
{
    let ghost models = payloads.deep_view();
    let mut artifact: Vec<u8> = Vec::new();
    match container {
        Container::Gzip => {
            artifact.push(0x1f);
            artifact.push(0x8b);
            artifact.push(8);
            artifact.push(0);
            artifact.push(0);
            artifact.push(0);
            artifact.push(0);
            artifact.push(0);
            artifact.push(0);
            artifact.push(0xff);
            assert(artifact@ =~= gzip_header());
        },
        Container::Zstd => {},
    }
    let ghost opened = artifact@;
    let mut crc: u32 = 0;
    let mut size: u32 = 0;
    let mut i: usize = 0;
    assert(models.take(0) =~= Seq::empty());
    assert(artifact@ =~= opened + bodies(models.take(0)));
    while i < payloads.len()
        invariant
            i <= payloads.len(),
            models == payloads.deep_view(),
            artifact@ == opened + bodies(models.take(i as int)),
            crc == combined_crc(models.take(i as int)),
            size == total_size(models.take(i as int)) % 0x1_0000_0000,
        decreases payloads.len() - i,
    {
        let ghost before = models.take(i as int);
        let ghost after = models.take(i + 1);
        assert(after.drop_last() =~= before);
        assert(after.last() == payloads[i as int]@);
        let payload = payloads[i];
        artifact.extend_from_slice(payload.raw_bytes.as_slice());
        assert(artifact@ =~= opened + bodies(after));
        crc = crc32_combine(crc, payload.crc32, payload.uncompressed_size);
        let low: u32 = (payload.uncompressed_size % 0x1_0000_0000) as u32;
        size = ((size as u64 + low as u64) % 0x1_0000_0000) as u32;
        assert(size == total_size(after) % 0x1_0000_0000) by {
            let t = total_size(before) as int;
            let u = payload.uncompressed_size as int;
            assert(total_size(after) == t + u);
            assert(((t % 0x1_0000_0000) + (u % 0x1_0000_0000)) % 0x1_0000_0000 == (t + u)
                % 0x1_0000_0000) by (nonlinear_arith)
                requires
                    t >= 0,
                    u >= 0,
            ;
        }
        i += 1;
    }
    assert(models.take(payloads.len() as int) =~= models);
    match container {
        Container::Gzip => {
            artifact.push(3);
            artifact.push(0);
            push_le32(&mut artifact, crc);
            push_le32(&mut artifact, size);
            assert(artifact@ =~= gzip_member(models));
        },
        Container::Zstd => {
            assert(artifact@ =~= bodies(models));
        },
    }
    artifact
}

/// The compressed forms of the lines, in order; `None` where one of them fails.
pub open spec fn compressed_lines(container: Container, lines: Seq<Seq<u8>>) -> Option<
    Seq<Seq<u8>>,
>
    decreases lines.len(),
{
    if lines.len() == 0 {
        Some(Seq::empty())
    } else {
        match (
            compressed_lines(container, lines.drop_last()),
            compressed(container, lines.last()),
        ) {
            (Some(before), Some(last)) => Some(before.push(last)),
            _ => None,
        }
    }
}

/// The artifact that holds the lines: for gzip, one member whose trailer carries
/// the checksum and the length of the lines one after another.
pub open spec fn packed(container: Container, lines: Seq<Seq<u8>>) -> Option<Seq<u8>> {
    match compressed_lines(container, lines) {
        None => None,
        Some(parts) => Some(
            match container {
                Container::Gzip => gzip_header() + joined(parts) + closing_block() + gzip_trailer(
                    crc32(joined(lines)),
                    joined(lines).len(),
                ),
                Container::Zstd => joined(parts),
            },
        ),
    }
}

proof fn lemma_bodies_are_joined(payloads: Seq<PayloadModel>, parts: Seq<Seq<u8>>)
    requires
        payloads.len() == parts.len(),
        forall|i: int| 0 <= i < parts.len() ==> (#[trigger] payloads[i]).raw_bytes == parts[i],
    ensures
        bodies(payloads) == joined(parts),
    decreases parts.len(),
{
    if parts.len() > 0 {
        assert(payloads.last() == payloads[payloads.len() - 1]);
        lemma_bodies_are_joined(payloads.drop_last(), parts.drop_last());
    }
}

/// Compresses each line on its own and assembles one artifact that holds them in
/// order. `None` where the compressor fails on a line.
pub fn pack_lines(lines: &Vec<Vec<u8>>, container: Container) -> (artifact: Option<Vec<u8>>)
    ensures
        match artifact {
            Some(bytes) => packed(container, lines.deep_view()) == Some(bytes@),
            None => packed(container, lines.deep_view()) is None,
        },
{
    let ghost all = lines.deep_view();
    let mut payloads: Vec<CompressedPayload> = Vec::new();
    let ghost mut parts: Seq<Seq<u8>> = Seq::empty();
    let mut i: usize = 0;
    assert(all.take(0) =~= Seq::empty());
    while i < lines.len()
        invariant
            i <= lines.len(),
            all == lines.deep_view(),
            payloads.len() == i,
            parts.len() == i,
            compressed_lines(container, all.take(i as int)) == Some(parts),
            forall|k: int|
                0 <= k < i ==> (#[trigger] payloads.deep_view()[k]) == payload_model(
                    all[k],
                    parts[k],
                ),
        decreases lines.len() - i,
    {
        let ghost before = all.take(i as int);
        let ghost after = all.take(i + 1);
        assert(after.drop_last() =~= before);
        assert(after.last() == lines[i as int]@);
        assert(all[i as int] == lines[i as int]@);
        match compress_row(lines[i].as_slice(), container) {
            Some(payload) => {
                proof {
                    parts = parts.push(payload.raw_bytes@);
                }
                let ghost kept = payloads.deep_view();
                payloads.push(payload);
                assert(payloads.deep_view() =~= kept.push(payload@));
            },
            None => {
                proof {
                    lemma_compressed_lines_fail(container, all, i as int);
                }
                return None;
            },
        }
        i += 1;
    }
    assert(all.take(lines.len() as int) =~= all);
    proof {
        let models = payloads.deep_view();
        lemma_bodies_are_joined(models, parts);
        assert forall|k: int| 0 <= k < all.len() implies (#[trigger] models[k]).crc32 == crc32(
            all[k],
        ) && models[k].uncompressed_size == all[k].len() by {
            assert(models[k] == payload_model(all[k], parts[k]));
            assert(all[k] == lines[k]@);
            assert(lines[k].len() <= usize::MAX);
        }
        lemma_combined_crc_is_crc_of_joined(all, models);
    }
    Some(assemble(&payloads, container))
}

proof fn lemma_compressed_lines_fail(container: Container, lines: Seq<Seq<u8>>, at: int)
    requires
        0 <= at < lines.len(),
        compressed(container, lines[at]) is None,
    ensures
        compressed_lines(container, lines) is None,
    decreases lines.len(),
{
    if at < lines.len() - 1 {
        lemma_compressed_lines_fail(container, lines.drop_last(), at);
    }
}

} // verus!
