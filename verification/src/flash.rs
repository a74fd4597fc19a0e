//! Loading a firmware image into the RAM of an FX3 boot loader.
//!
//! An image starts with the bytes 'C', 'Y', a configuration byte and the
//! image type 0xB0. Records follow, each a word count and a load address
//! (32-bit little endian) and that many 32-bit words of data; a record with
//! word count 0 ends the list and gives the address to jump to. The 32-bit
//! wrapping sum of all data words follows it.
use vstd::prelude::*;
use crate::usb::{LoggedUsb, Reply, Transfer, UsbError, UsbInterface};
use crate::protocol::{spec_u32_le, u32_from_le};

verus! {

/// Vendor request that reads or writes boot loader RAM.
pub const RW_RAM: u8 = 0xA0;
/// Size of the image header.
pub const FIRMWARE_HEADER_SIZE: usize = 4;
/// Bytes written per control transfer.
pub const CHUNK_SIZE: usize = 4096;
/// Size of a data word.
pub const WORD_SIZE: usize = 4;

/// Why a firmware image could not be loaded.
#[derive(Debug)]
pub enum FlashError {
    /// Fewer than four bytes.
    TooSmall,
    /// The image does not start with 'C', 'Y'.
    BadSignature,
    /// The image type is not 0xB0.
    UnsupportedImage,
    /// A record or the checksum runs past the end of the image.
    Truncated,
    /// What was read back from this RAM address differs from what was written.
    VerifyFailed(u32),
    /// The sum of the data words differs from the checksum in the image.
    ChecksumMismatch { calculated: u32, expected: u32 },
    /// A USB transfer failed.
    Usb(UsbError),
}

/// The 32-bit little-endian word at byte `off`.
pub open spec fn spec_le_at(fw: Seq<u8>, off: int) -> u32 {
    spec_u32_le(fw[off], fw[off + 1], fw[off + 2], fw[off + 3])
}

/// What is wrong with the header of an image, if anything.
pub open spec fn spec_header_error(fw: Seq<u8>) -> Option<FlashError> {
    if fw.len() < 4 {
        Some(FlashError::TooSmall)
    } else if !(fw[0] == 0x43 && fw[1] == 0x59) {
        Some(FlashError::BadSignature)
    } else if fw[3] != 0xB0 {
        Some(FlashError::UnsupportedImage)
    } else {
        None
    }
}

/// A record of an image.
pub enum ImageRecord {
    /// `len` bytes of data from byte `start`, to load at `address`.
    Segment { address: u32, start: int, len: int },
    /// The end of the list: jump to `address`; the checksum is at byte `at`.
    Jump { address: u32, at: int },
    /// The record runs past the end of the image.
    Truncated,
}

/// The record at byte `off`.
pub open spec fn spec_record(fw: Seq<u8>, off: int) -> ImageRecord {
    if off + 8 > fw.len() {
        ImageRecord::Truncated
    } else {
        let length = spec_le_at(fw, off);
        let address = spec_le_at(fw, off + 4);
        if length == 0 {
            ImageRecord::Jump { address, at: off + 8 }
        } else if off + 8 + 4 * length > fw.len() {
            ImageRecord::Truncated
        } else {
            ImageRecord::Segment { address, start: off + 8, len: 4 * length }
        }
    }
}

/// The wrapping sum of `sum` and the first `k` words from byte `start`.
pub open spec fn spec_word_sum(fw: Seq<u8>, start: int, k: nat, sum: u32) -> u32
    decreases k,
{
    if k == 0 {
        sum
    } else {
        spec_word_sum(fw, start, (k - 1) as nat, sum).wrapping_add(spec_le_at(fw, start + 4 * (k - 1)))
    }
}

/// Outcome of reading the records of an image.
#[derive(Debug, Clone, Copy, PartialEq, Eq, Structural)]
pub enum ImageOutcome {
    /// All records and a matching checksum; the jump address.
    Valid(u32),
    Truncated,
    Mismatch { calculated: u32, expected: u32 },
}

/// Reads the records from byte `off` on, with `sum` the checksum so far.
pub open spec fn spec_walk(fw: Seq<u8>, off: int, sum: u32) -> ImageOutcome
    decreases fw.len() - off,
{
    if off < 0 {
        ImageOutcome::Truncated
    } else {
        match spec_record(fw, off) {
            ImageRecord::Truncated => ImageOutcome::Truncated,
            ImageRecord::Jump { address, at } => if at + 4 > fw.len() {
                ImageOutcome::Truncated
            } else if spec_le_at(fw, at) == sum {
                ImageOutcome::Valid(address)
            } else {
                ImageOutcome::Mismatch { calculated: sum, expected: spec_le_at(fw, at) }
            },
            ImageRecord::Segment { address, start, len } => spec_walk(
                fw,
                start + len,
                spec_word_sum(fw, start, (len / 4) as nat, sum),
            ),
        }
    }
}

/// A chunk the loader writes: bytes `start..end` of the image, to RAM at
/// `address`.
#[derive(Debug, Clone, Copy, PartialEq, Eq, Structural)]
pub struct ChunkWrite {
    pub address: u32,
    pub start: usize,
    pub end: usize,
}

/// The chunks of a segment of `len` bytes at byte `start`, to load at
/// `address`: 4096 bytes each, the last one shorter.
pub open spec fn spec_segment_chunks(address: int, start: int, len: int) -> Seq<ChunkWrite>
    decreases len,
{
    if len <= 0 {
        Seq::empty()
    } else if len <= 4096 {
        seq![ChunkWrite { address: address as u32, start: start as usize, end: (start + len) as usize }]
    } else {
        seq![ChunkWrite { address: address as u32, start: start as usize, end: (start + 4096) as usize }]
            + spec_segment_chunks(address + 4096, start + 4096, len - 4096)
    }
}

/// The chunks of a segment tile it: the first starts at the segment's
/// first byte, each ends where the next starts, the last ends at the
/// segment's end, none is empty or longer than 4096 bytes, and each goes to
/// the address at its offset in the segment (where that address fits in 32
/// bits).
pub proof fn lemma_segment_chunks_tile(address: int, start: int, len: int)
    requires
        len >= 1,
        0 <= start,
        start + len <= usize::MAX,
    ensures
        ({
            let c = spec_segment_chunks(address, start, len);
            &&& c.len() >= 1
            &&& c[0].start == start
            &&& c.last().end == start + len
            &&& forall|k: int| 0 <= k < c.len() - 1 ==> (#[trigger] c[k]).end == c[k + 1].start
            &&& forall|k: int| 0 <= k < c.len() ==> 0 < (#[trigger] c[k]).end - c[k].start <= 4096
            &&& forall|k: int|
                0 <= k < c.len() && 0 <= address + ((#[trigger] c[k]).start - start) <= u32::MAX ==> c[k].address
                    == address + (c[k].start - start)
        }),
    decreases len,
{
    if len > 4096 {
        lemma_segment_chunks_tile(address + 4096, start + 4096, len - 4096);
        let c = spec_segment_chunks(address, start, len);
        let r = spec_segment_chunks(address + 4096, start + 4096, len - 4096);
        assert(c == seq![ChunkWrite { address: address as u32, start: start as usize, end: (start + 4096) as usize }]
            + r);
        assert forall|k: int| 0 <= k < c.len() - 1 implies (#[trigger] c[k]).end == c[k + 1].start by {
            if k > 0 {
                assert(c[k] == r[k - 1]);
                assert(c[k + 1] == r[k]);
            }
        }
        assert forall|k: int| 0 <= k < c.len() implies 0 < (#[trigger] c[k]).end - c[k].start <= 4096 by {
            if k > 0 {
                assert(c[k] == r[k - 1]);
            }
        }
        assert forall|k: int|
            0 <= k < c.len() && 0 <= address + ((#[trigger] c[k]).start - start) <= u32::MAX implies c[k].address
                == address + (c[k].start - start) by {
            if k > 0 {
                assert(c[k] == r[k - 1]);
            }
        }
        assert(c.last() == r.last());
    }
}

/// Every chunk is a non-empty range of at most 4096 bytes inside an image
/// of `len` bytes.
pub open spec fn spec_chunks_in_image(chunks: Seq<ChunkWrite>, len: int) -> bool {
    forall|k: int|
        0 <= k < chunks.len() ==> #[trigger] chunks[k].start < chunks[k].end <= len && chunks[k].end
            - chunks[k].start <= 4096
}

/// The chunks of all segments read from byte `off` on, in order.
pub open spec fn spec_image_chunks(fw: Seq<u8>, off: int, sum: u32) -> Seq<ChunkWrite>
    decreases fw.len() - off,
{
    if off < 0 {
        Seq::empty()
    } else {
        match spec_record(fw, off) {
            ImageRecord::Segment { address, start, len } => spec_segment_chunks(address as int, start, len)
                + spec_image_chunks(fw, start + len, spec_word_sum(fw, start, (len / 4) as nat, sum)),
            _ => Seq::empty(),
        }
    }
}

/// Every segment read from byte `off` on (until the records end) can be
/// written chunk by chunk without the chunk address passing 32 bits.
pub open spec fn spec_chunks_fit(fw: Seq<u8>, off: int, sum: u32) -> bool
    decreases fw.len() - off,
{
    if off < 0 {
        true
    } else {
        match spec_record(fw, off) {
            ImageRecord::Segment { address, start, len } => {
                &&& address + (len - 1) / 4096 * 4096 <= u32::MAX
                &&& spec_chunks_fit(fw, start + len, spec_word_sum(fw, start, (len / 4) as nat, sum))
            },
            _ => true,
        }
    }
}

/// Checks the header of a firmware image.
pub fn validate_firmware_header(firmware: &[u8]) -> (r: Result<(), FlashError>)
    ensures
        r is Ok <==> spec_header_error(firmware@) is None,
        r matches Err(e) ==> spec_header_error(firmware@) == Some(e),
{
    if firmware.len() < FIRMWARE_HEADER_SIZE {
        return Err(FlashError::TooSmall);
    }
    if !(firmware[0] == 0x43 && firmware[1] == 0x59) {
        return Err(FlashError::BadSignature);
    }
    if firmware[3] != 0xB0 {
        return Err(FlashError::UnsupportedImage);
    }
    Ok(())
}

/// Reads the 32-bit little-endian word at `offset`; `Truncated` when it
/// runs past the end.
pub fn read_u32_le(firmware: &[u8], offset: usize) -> (r: Result<u32, FlashError>)
    requires
        offset + 4 <= usize::MAX,
    ensures
        r is Ok <==> offset + 4 <= firmware@.len(),
        r matches Ok(v) ==> v == spec_le_at(firmware@, offset as int),
        r matches Err(e) ==> e is Truncated,
{
    if offset + WORD_SIZE > firmware.len() {
        return Err(FlashError::Truncated);
    }
    Ok(u32_from_le(firmware[offset], firmware[offset + 1], firmware[offset + 2], firmware[offset + 3]))
}

/// The `value` and `index` fields that carry a RAM address: its low and
/// high halves.
pub fn ram_request(address: u32) -> (r: (u16, u16))
    ensures
        r.0 as int == address % 0x10000,
        r.1 as int == address / 0x10000,
{
    assert((address & 0xFFFFu32) == address % 0x10000) by (bit_vector);
    assert((address >> 16u32) == address / 0x10000) by (bit_vector);
    ((address & 0xFFFFu32) as u16, (address >> 16u32) as u16)
}

/// Whether bytes read back start with the chunk that was written.
pub open spec fn spec_readback_ok(chunk: Seq<u8>, readback: Seq<u8>) -> bool {
    readback.len() >= chunk.len() && readback.subrange(0, chunk.len() as int) == chunk
}

/// Whether what was read back starts with what was written.
pub fn readback_matches(chunk: &[u8], readback: &[u8]) -> (r: bool)
    ensures
        r <==> spec_readback_ok(chunk@, readback@),
{
    if readback.len() < chunk.len() {
        return false;
    }
    let mut i: usize = 0;
    while i < chunk.len()
        invariant
            i <= chunk@.len() <= readback@.len(),
            forall|k: int| 0 <= k < i ==> readback@[k] == chunk@[k],
        decreases chunk.len() - i,
    {
        if readback[i] != chunk[i] {
            assert(readback@.subrange(0, chunk@.len() as int)[i as int] != chunk@[i as int]);
            return false;
        }
        i = i + 1;
    }
    assert(readback@.subrange(0, chunk@.len() as int) =~= chunk@);
    true
}

/// Adds the `words` data words from byte `start` to `sum`, wrapping.
pub fn words_checksum(firmware: &[u8], start: usize, words: usize, sum: u32) -> (r: u32)
    requires
        start + 4 * words <= firmware@.len(),
        firmware@.len() <= usize::MAX,
    ensures
        r == spec_word_sum(firmware@, start as int, words as nat, sum),
{
    let mut acc = sum;
    let mut k: usize = 0;
    while k < words
        invariant
            k <= words,
            start + 4 * words <= firmware@.len(),
            firmware@.len() <= usize::MAX,
            acc == spec_word_sum(firmware@, start as int, k as nat, sum),
        decreases words - k,
    {
        let p = start + 4 * k;
        let w = u32_from_le(firmware[p], firmware[p + 1], firmware[p + 2], firmware[p + 3]);
        acc = acc.wrapping_add(w);
        k = k + 1;
    }
    acc
}

/// The write of `data` to boot loader RAM at `address` (low half in
/// `value`, high half in `index`).
pub open spec fn spec_ram_write(address: u32, data: Seq<u8>) -> Transfer {
    Transfer::Write {
        request: RW_RAM,
        value: (address % 0x10000) as u16,
        index: (address / 0x10000) as u16,
        data,
    }
}

/// The read of `length` bytes of boot loader RAM at `address`.
pub open spec fn spec_ram_read(address: u32, length: u16) -> Transfer {
    Transfer::Read {
        request: RW_RAM,
        value: (address % 0x10000) as u16,
        index: (address / 0x10000) as u16,
        length,
    }
}

/// The transfers of the download of an image with a valid header: for each
/// planned chunk in order, its write and a 4096-byte read-back at its
/// address; then, when the image's records end with a matching checksum,
/// the empty write to the start address that starts the firmware.
pub open spec fn spec_load_transfers(fw: Seq<u8>) -> Seq<Transfer> {
    let chunks = spec_image_chunks(fw, 4, 0);
    let body = Seq::new(
        2 * chunks.len(),
        |k: int|
            if k % 2 == 0 {
                spec_ram_write(chunks[k / 2].address, fw.subrange(chunks[k / 2].start as int, chunks[k / 2].end as int))
            } else {
                spec_ram_read(chunks[k / 2].address, 4096)
            },
    );
    match spec_walk(fw, 4, 0) {
        ImageOutcome::Valid(jump) => body.push(spec_ram_write(jump, Seq::empty())),
        _ => body,
    }
}

/// Whether the answer to a read-back of `chunk` holds bytes that start
/// with it.
pub open spec fn spec_check_ok(chunk: Seq<u8>, reply: Reply) -> bool {
    match reply {
        Reply::ReadBack(v) => spec_readback_ok(chunk, v),
        _ => false,
    }
}

/// Whether the device's answer to the `k`-th transfer of the download of
/// `fw` lets the download go on: a read-back succeeded and starts with the
/// chunk that was written; any other transfer succeeded.
pub open spec fn spec_answer_ok(fw: Seq<u8>, k: int, reply: Reply) -> bool {
    let chunks = spec_image_chunks(fw, 4, 0);
    if k % 2 == 1 && k < 2 * chunks.len() {
        spec_check_ok(fw.subrange(chunks[k / 2].start as int, chunks[k / 2].end as int), reply)
    } else {
        reply is Written
    }
}

/// Whether the first `n` answers `o` to the transfers of the download of
/// `fw` all let it go on.
pub open spec fn spec_answers_ok(fw: Seq<u8>, o: Seq<Reply>, n: int) -> bool {
    forall|k: int| 0 <= k < n ==> #[trigger] spec_answer_ok(fw, k, o[k])
}

/// Writes boot loader RAM at `address`.
fn write_ram<U: UsbInterface>(usb: &mut LoggedUsb<U>, address: u32, data: &[u8], timeout: std::time::Duration) -> (r: Result<
    (),
    FlashError,
>)
    ensures
        final(usb).transfers() == old(usb).transfers().push(spec_ram_write(address, data@)),
        final(usb).replies() == old(usb).replies().push(if r is Ok { Reply::Written } else { Reply::Failed }),
        r matches Err(e) ==> e is Usb,
{
    let (value, index) = ram_request(address);
    match usb.control_write(RW_RAM, value, index, data, timeout) {
        Ok(()) => Ok(()),
        Err(e) => Err(FlashError::Usb(e)),
    }
}

/// Reads `length` bytes of boot loader RAM at `address`.
fn read_ram<U: UsbInterface>(usb: &mut LoggedUsb<U>, address: u32, length: u16, timeout: std::time::Duration) -> (r: Result<
    Vec<u8>,
    FlashError,
>)
    ensures
        final(usb).transfers() == old(usb).transfers().push(spec_ram_read(address, length)),
        final(usb).replies() == old(usb).replies().push(
            match r {
                Ok(v) => Reply::ReadBack(v@),
                Err(_) => Reply::Failed,
            },
        ),
        r matches Err(e) ==> e is Usb,
{
    let (value, index) = ram_request(address);
    match usb.control_read(RW_RAM, value, index, length, timeout) {
        Ok(v) => Ok(v),
        Err(e) => Err(FlashError::Usb(e)),
    }
}

/// Writes a chunk to boot loader RAM at `address`, reads 4096 bytes back
/// from there and compares; stops at the first failed transfer. Succeeds
/// exactly when both transfers succeed and the read-back starts with the
/// chunk; a failed transfer gives its USB error, a differing read-back
/// `VerifyFailed(address)`.
fn write_and_verify<U: UsbInterface>(usb: &mut LoggedUsb<U>, address: u32, data: &[u8], timeout: std::time::Duration) -> (r: Result<
    (),
    FlashError,
>)
    ensures
        ({
            let n0 = old(usb).replies().len();
            let rs = final(usb).replies();
            let w = old(usb).transfers().push(spec_ram_write(address, data@));
            &&& rs.len() == n0 + 1 || rs.len() == n0 + 2
            &&& rs.subrange(0, n0 as int) == old(usb).replies()
            &&& rs.len() == n0 + 1 ==> final(usb).transfers() == w && rs[n0 as int] is Failed
            &&& rs.len() == n0 + 2 ==> final(usb).transfers() == w.push(spec_ram_read(address, 4096))
                && rs[n0 as int] is Written
            &&& r is Ok <==> (rs.len() == n0 + 2 && spec_check_ok(data@, rs[n0 + 1int]))
            &&& r matches Err(e) ==> (e is Usb && rs.last() is Failed) || (e == FlashError::VerifyFailed(address)
                && rs.len() == n0 + 2 && rs[n0 + 1int] is ReadBack && !spec_check_ok(data@, rs[n0 + 1int]))
        }),
{
    let ghost n0 = usb.replies().len();
    match write_ram(usb, address, data, timeout) {
        Ok(()) => {},
        Err(e) => {
            assert(usb.replies().subrange(0, n0 as int) =~= old(usb).replies());
            return Err(e);
        },
    }
    let readback = match read_ram(usb, address, 4096u16, timeout) {
        Ok(v) => v,
        Err(e) => {
            assert(usb.replies().subrange(0, n0 as int) =~= old(usb).replies());
            return Err(e);
        },
    };
    assert(usb.replies().subrange(0, n0 as int) =~= old(usb).replies());
    if !readback_matches(data, readback.as_slice()) {
        return Err(FlashError::VerifyFailed(address));
    }
    Ok(())
}

proof fn lemma_chunk_index_bound(k: int, d: int)
    requires
        d >= 1,
        k >= 0,
        k * 4096 < d,
    ensures
        k * 4096 <= (d - 1) / 4096 * 4096,
{
    assert(k <= (d - 1) / 4096) by (nonlinear_arith)
        requires
            k * 4096 <= d - 1,
            k >= 0,
            d >= 1,
    ;
    assert(k * 4096 <= (d - 1) / 4096 * 4096) by (nonlinear_arith)
        requires
            k <= (d - 1) / 4096,
    ;
}

/// Whether every segment of an image can be written chunk by chunk without
/// a chunk address passing 32 bits (`load_firmware` needs it).
pub fn image_chunks_fit(firmware: &[u8]) -> (r: bool)
    requires
        firmware@.len() + 16 <= usize::MAX,
    ensures
        r == spec_chunks_fit(firmware@, 4, 0),
{
    let ghost fw = firmware@;
    if firmware.len() < 12 {
        return true;
    }
    let mut offset: usize = FIRMWARE_HEADER_SIZE;
    let ghost mut sum: u32 = 0;
    loop
        invariant
            fw == firmware@,
            fw.len() + 16 <= usize::MAX,
            4 <= offset <= fw.len(),
            spec_chunks_fit(fw, 4, 0) == spec_chunks_fit(fw, offset as int, sum),
        decreases fw.len() - offset,
    {
        if offset + 8 > firmware.len() {
            return true;
        }
        let length = u32_from_le(firmware[offset], firmware[offset + 1], firmware[offset + 2], firmware[offset + 3]);
        let address = u32_from_le(
            firmware[offset + 4],
            firmware[offset + 5],
            firmware[offset + 6],
            firmware[offset + 7],
        );
        if length == 0 {
            return true;
        }
        let start = offset + 8;
        let data_size64: u64 = length as u64 * 4;
        if data_size64 > (firmware.len() - start) as u64 {
            return true;
        }
        let data_size = data_size64 as usize;
        let last: u64 = ((data_size - 1) / CHUNK_SIZE * CHUNK_SIZE) as u64;
        if address as u64 + last > 0xFFFF_FFFFu64 {
            return false;
        }
        proof {
            sum = spec_word_sum(fw, start as int, length as nat, sum);
        }
        offset = start + data_size;
    }
}

/// Appends the chunks of a segment of `len` bytes at byte `start`, to load
/// at `address`.
fn push_segment_chunks(chunks: &mut Vec<ChunkWrite>, address: u32, start: usize, len: usize, Ghost(fw_len): Ghost<
    nat,
>)
    requires
        len >= 1,
        start + len <= fw_len,
        fw_len <= usize::MAX,
        address + (len - 1) / 4096 * 4096 <= u32::MAX,
        spec_chunks_in_image(old(chunks)@, fw_len as int),
    ensures
        final(chunks)@ == old(chunks)@ + spec_segment_chunks(address as int, start as int, len as int),
        spec_chunks_in_image(final(chunks)@, fw_len as int),
{
    let ghost before = old(chunks)@;
    let end = start + len;
    let mut pos: usize = start;
    let mut chunk_idx: u32 = 0;
    while pos < end
        invariant
            start <= pos <= end,
            end == start + len,
            end <= fw_len,
            len >= 1,
            pos < end ==> pos - start == chunk_idx * 4096,
            address + (len - 1) / 4096 * 4096 <= u32::MAX,
            chunks@ + spec_segment_chunks(address + (pos - start), pos as int, end - pos)
                == before + spec_segment_chunks(address as int, start as int, len as int),
            spec_chunks_in_image(chunks@, fw_len as int),
        decreases end - pos,
    {
        let chunk_end = if end - pos > CHUNK_SIZE {
            pos + CHUNK_SIZE
        } else {
            end
        };
        proof {
            lemma_chunk_index_bound(chunk_idx as int, len as int);
        }
        let addr = address + chunk_idx * 4096;
        let ghost prev = chunks@;
        chunks.push(ChunkWrite { address: addr, start: pos, end: chunk_end });
        assert(chunks@ == prev.push(ChunkWrite { address: addr, start: pos, end: chunk_end }));
        if chunk_end == end {
            pos = end;
        } else {
            pos = chunk_end;
            chunk_idx = chunk_idx + 1;
        }
        assert(chunks@ + spec_segment_chunks(address + (pos - start), pos as int, end - pos)
            =~= before + spec_segment_chunks(address as int, start as int, len as int));
    }
    assert(chunks@ =~= chunks@ + spec_segment_chunks(address + (pos - start), pos as int, 0));
}

/// The chunks the loader writes for an image, in order, and how reading
/// the image's records ends.
pub fn plan_firmware(firmware: &[u8]) -> (r: (Vec<ChunkWrite>, ImageOutcome))
    requires
        spec_chunks_fit(firmware@, 4, 0),
        firmware@.len() + 16 <= usize::MAX,
    ensures
        r.0@ == spec_image_chunks(firmware@, 4, 0),
        r.1 == spec_walk(firmware@, 4, 0),
        spec_chunks_in_image(r.0@, firmware@.len() as int),
{
    let ghost fw = firmware@;
    let mut chunks: Vec<ChunkWrite> = Vec::new();
    if firmware.len() < 12 {
        return (chunks, ImageOutcome::Truncated);
    }
    let mut offset: usize = FIRMWARE_HEADER_SIZE;
    let mut checksum: u32 = 0;
    loop
        invariant
            fw == firmware@,
            fw.len() + 16 <= usize::MAX,
            4 <= offset <= fw.len(),
            spec_chunks_fit(fw, offset as int, checksum),
            chunks@ + spec_image_chunks(fw, offset as int, checksum) == spec_image_chunks(fw, 4, 0),
            spec_walk(fw, offset as int, checksum) == spec_walk(fw, 4, 0),
            spec_chunks_in_image(chunks@, fw.len() as int),
        decreases fw.len() - offset,
    {
        if offset + 8 > firmware.len() {
            assert(chunks@ + Seq::<ChunkWrite>::empty() =~= chunks@);
            return (chunks, ImageOutcome::Truncated);
        }
        let length = u32_from_le(firmware[offset], firmware[offset + 1], firmware[offset + 2], firmware[offset + 3]);
        let address = u32_from_le(
            firmware[offset + 4],
            firmware[offset + 5],
            firmware[offset + 6],
            firmware[offset + 7],
        );
        let start = offset + 8;
        if length == 0 {
            assert(chunks@ + Seq::<ChunkWrite>::empty() =~= chunks@);
            if start + 4 > firmware.len() {
                return (chunks, ImageOutcome::Truncated);
            }
            let expected = u32_from_le(firmware[start], firmware[start + 1], firmware[start + 2], firmware[start + 3]);
            if expected == checksum {
                return (chunks, ImageOutcome::Valid(address));
            }
            return (chunks, ImageOutcome::Mismatch { calculated: checksum, expected });
        }
        let data_size64: u64 = length as u64 * 4;
        if data_size64 > (firmware.len() - start) as u64 {
            assert(chunks@ + Seq::<ChunkWrite>::empty() =~= chunks@);
            return (chunks, ImageOutcome::Truncated);
        }
        let data_size = data_size64 as usize;
        let end = start + data_size;
        assert(spec_record(fw, offset as int) == (ImageRecord::Segment {
            address,
            start: start as int,
            len: data_size as int,
        }));
        let ghost next_sum = spec_word_sum(fw, start as int, length as nat, checksum);
        push_segment_chunks(&mut chunks, address, start, data_size, Ghost(fw.len()));
        assert(chunks@ + spec_image_chunks(fw, end as int, spec_word_sum(fw, start as int, length as nat, checksum))
            =~= spec_image_chunks(fw, 4, 0));
        checksum = words_checksum(firmware, start, length as usize, checksum);
        offset = end;
    }
}

/// Loads a firmware image through the boot loader and starts it.
///
/// The header is checked first, before any transfer. Then the chunks that
/// `plan_firmware` lists are written in order, each read back (4096 bytes)
/// and compared; the first failed transfer or differing read-back ends the
/// download with its error. Then, as reading the image's records ended:
/// with a matching checksum the boot loader is told to jump to the start
/// address (an empty write to it); a truncated image or a checksum
/// mismatch is reported.
pub fn load_firmware<U: UsbInterface>(usb: &mut LoggedUsb<U>, firmware: &[u8], timeout: std::time::Duration) -> (r: Result<
    (),
    FlashError,
>)
    requires
        spec_header_error(firmware@) is None ==> spec_chunks_fit(firmware@, 4, 0),
        firmware@.len() + 16 <= usize::MAX,
    ensures
        spec_header_error(firmware@) matches Some(e) ==> r == Err::<(), FlashError>(e) && final(usb).transfers()
            == old(usb).transfers() && final(usb).replies() == old(usb).replies(),
        spec_header_error(firmware@) is None ==> {
            let fw = firmware@;
            let t = spec_load_transfers(fw);
            let chunks = spec_image_chunks(fw, 4, 0);
            let walk = spec_walk(fw, 4, 0);
            let rb = old(usb).replies();
            let ra = final(usb).replies();
            let m = ra.len() - rb.len();
            let o = ra.subrange(rb.len() as int, ra.len() as int);
            &&& rb.len() <= ra.len() <= rb.len() + t.len()
            &&& ra.subrange(0, rb.len() as int) == rb
            &&& final(usb).transfers() == old(usb).transfers() + t.take(m)
            &&& spec_answers_ok(fw, o, m - 1)
            &&& r is Ok <==> (walk is Valid && m == t.len() && spec_answers_ok(fw, o, m))
            &&& (r matches Err(FlashError::Truncated)) <==> (walk is Truncated && m == t.len() && spec_answers_ok(
                fw,
                o,
                m,
            ))
            &&& (r matches Err(FlashError::ChecksumMismatch { .. })) <==> (walk is Mismatch && m == t.len()
                && spec_answers_ok(fw, o, m))
            &&& r matches Err(FlashError::ChecksumMismatch { calculated, expected }) ==> walk == (
            ImageOutcome::Mismatch { calculated, expected })
            &&& (r matches Err(FlashError::Usb(_))) <==> (m > 0 && o[m - 1] is Failed)
            &&& (r matches Err(FlashError::VerifyFailed(_))) <==> (m > 0 && o[m - 1] is ReadBack && !spec_answer_ok(
                fw,
                m - 1,
                o[m - 1],
            ))
            &&& r matches Err(FlashError::VerifyFailed(a)) ==> (m - 1) / 2 < chunks.len() && a == chunks[(m - 1)
                / 2].address
            &&& r matches Err(e) ==> !(e is TooSmall || e is BadSignature || e is UnsupportedImage)
        },
{
    match validate_firmware_header(firmware) {
        Ok(()) => {},
        Err(e) => return Err(e),
    }
    let ghost fw = firmware@;
    let ghost before = usb.transfers();
    let ghost rb = usb.replies();
    proof {
        usb.lemma_one_reply_each();
    }
    let ghost t = spec_load_transfers(fw);
    let (chunks, outcome) = plan_firmware(firmware);
    let ghost body = Seq::new(
        2 * chunks@.len(),
        |k: int|
            if k % 2 == 0 {
                spec_ram_write(chunks@[k / 2].address, fw.subrange(chunks@[k / 2].start as int, chunks@[k / 2].end as int))
            } else {
                spec_ram_read(chunks@[k / 2].address, 4096)
            },
    );
    assert(t == (match outcome {
        ImageOutcome::Valid(jump) => body.push(spec_ram_write(jump, Seq::empty())),
        _ => body,
    }));
    let mut i: usize = 0;
    let mut failed: Option<FlashError> = None;
    while i < chunks.len()
        invariant_except_break
            failed is None,
            usb.transfers() == before + t.take(2 * i),
            usb.replies().len() == rb.len() + 2 * i,
            forall|k: int| 0 <= k < 2 * i ==> #[trigger] spec_answer_ok(fw, k, usb.replies()[rb.len() + k]),
        invariant
            i <= chunks@.len(),
            fw == firmware@,
            spec_header_error(fw) is None,
            chunks@ == spec_image_chunks(fw, 4, 0),
            spec_chunks_in_image(chunks@, fw.len() as int),
            body.len() == 2 * chunks@.len(),
            forall|k: int| 0 <= k < body.len() ==> #[trigger] body[k] == (if k % 2 == 0 {
                spec_ram_write(chunks@[k / 2].address, fw.subrange(chunks@[k / 2].start as int, chunks@[k / 2].end as int))
            } else {
                spec_ram_read(chunks@[k / 2].address, 4096)
            }),
            t.len() >= body.len(),
            forall|k: int| 0 <= k < body.len() ==> #[trigger] t[k] == body[k],
            usb.replies().subrange(0, rb.len() as int) == rb,
        ensures
            failed is None ==> {
                &&& i == chunks@.len()
                &&& usb.transfers() == before + t.take(2 * i)
                &&& usb.replies().len() == rb.len() + 2 * i
                &&& forall|k: int| 0 <= k < 2 * i ==> #[trigger] spec_answer_ok(fw, k, usb.replies()[rb.len() + k])
            },
            failed matches Some(e) ==> {
                let m = usb.replies().len() - rb.len();
                let last = usb.replies()[usb.replies().len() - 1];
                &&& i < chunks@.len()
                &&& m == 2 * i + 1 || m == 2 * i + 2
                &&& usb.transfers() == before + t.take(m)
                &&& forall|k: int| 0 <= k < m - 1 ==> #[trigger] spec_answer_ok(fw, k, usb.replies()[rb.len() + k])
                &&& (e is Usb && last is Failed) || (e == FlashError::VerifyFailed(chunks@[i as int].address)
                    && m == 2 * i + 2 && last is ReadBack && !spec_answer_ok(fw, m - 1, last))
                &&& !(e is Usb && last is Failed) ==> m == 2 * i + 2 && !(last is Failed)
            },
        decreases chunks@.len() - i,
    {
        let c = chunks[i];
        assert(2 * i + 2 <= t.len());
        assert(t.take(2 * i + 1).len() == 2 * i + 1);
        assert(t.take(2 * i + 2).len() == 2 * i + 2);
        let data = vstd::slice::slice_subrange(firmware, c.start, c.end);
        assert(body[2 * i as int] == spec_ram_write(c.address, data@));
        assert(body[2 * i + 1] == spec_ram_read(c.address, 4096));
        let ghost r0 = usb.replies();
        let res = write_and_verify(usb, c.address, data, timeout);
        let ghost r1 = usb.replies();
        assert(r1.subrange(0, r0.len() as int) == r0);
        assert forall|k: int| 0 <= k < 2 * i implies #[trigger] spec_answer_ok(fw, k, r1[rb.len() + k]) by {
            assert(r1[rb.len() + k] == r0.subrange(0, r0.len() as int)[rb.len() + k]);
        }
        assert(r1.subrange(0, rb.len() as int) =~= rb) by {
            assert forall|k: int| 0 <= k < rb.len() implies r1.subrange(0, rb.len() as int)[k] == rb[k] by {
                assert(r1[k] == r1.subrange(0, r0.len() as int)[k]);
                assert(r0[k] == r0.subrange(0, rb.len() as int)[k]);
            }
        }
        assert(spec_answer_ok(fw, 2 * i as int, Reply::Written));
        match res {
            Ok(()) => {},
            Err(e) => {
                assert(usb.transfers() =~= before + t.take(2 * i + 1) || usb.transfers() =~= before + t.take(2 * i
                    + 2));
                failed = Some(e);
                break;
            },
        }
        assert(usb.transfers() =~= before + t.take(2 * i + 2));
        assert(spec_answer_ok(fw, 2 * i + 1, r1[rb.len() + 2 * i + 1]));
        i = i + 1;
    }
    let ghost o = usb.replies().subrange(rb.len() as int, usb.replies().len() as int);
    assert forall|k: int| 0 <= k < o.len() implies o[k] == usb.replies()[rb.len() + k] by {}
    match failed {
        Some(e) => {
            assert(usb.transfers().len() <= before.len() + t.len());
            proof {
                usb.lemma_one_reply_each();
            }
            assert(spec_answers_ok(fw, o, o.len() - 1));
            let ghost m = o.len() as int;
            assert(o[m - 1] == usb.replies()[usb.replies().len() - 1]);
            assert(!spec_answer_ok(fw, m - 1, o[m - 1]));
            assert(!spec_answers_ok(fw, o, m));
            assert(e is VerifyFailed ==> (m - 1) / 2 == i);
            return Err(e);
        },
        None => {},
    }
    assert(t.take(2 * i as int) =~= body);
    assert(spec_answers_ok(fw, o, o.len() as int));
    match outcome {
        ImageOutcome::Valid(jump_address) => {
            let nothing: &[u8] = &[];
            assert(nothing@ =~= Seq::<u8>::empty());
            assert(t == body.push(spec_ram_write(jump_address, Seq::empty())));
            let ghost r0 = usb.replies();
            let r = write_ram(usb, jump_address, nothing, timeout);
            assert(usb.transfers() =~= before + t);
            let ghost o2 = usb.replies().subrange(rb.len() as int, usb.replies().len() as int);
            assert(usb.replies().subrange(0, rb.len() as int) =~= rb) by {
                assert forall|k: int| 0 <= k < rb.len() implies usb.replies().subrange(0, rb.len() as int)[k] == rb[k] by {
                    assert(r0[k] == r0.subrange(0, rb.len() as int)[k]);
                }
            }
            assert forall|k: int| 0 <= k < o2.len() - 1 implies #[trigger] spec_answer_ok(fw, k, o2[k]) by {
                assert(o2[k] == o[k]);
            }
            assert(!(2 * chunks@.len() % 2 == 1));
            assert(o2.len() == 2 * chunks@.len() + 1);
            assert(o2[o2.len() - 1] == usb.replies()[usb.replies().len() - 1]);
            match r {
                Ok(()) => {},
                Err(e) => {
                    assert(!spec_answer_ok(fw, o2.len() - 1, o2[o2.len() - 1]));
                    assert(!spec_answers_ok(fw, o2, o2.len() as int));
                    return Err(e);
                },
            }
            assert(spec_answers_ok(fw, o2, o2.len() as int));
            assert(spec_answer_ok(fw, o2.len() - 1, o2[o2.len() - 1]));
            assert(o2.len() == t.len());
            Ok(())
        },
        ImageOutcome::Truncated => {
            assert(t =~= body);
            assert(o.len() == t.len());
            assert(o.len() > 0 ==> spec_answer_ok(fw, o.len() - 1, o[o.len() - 1]));
            Err(FlashError::Truncated)
        },
        ImageOutcome::Mismatch { calculated, expected } => {
            assert(t =~= body);
            assert(o.len() == t.len());
            assert(o.len() > 0 ==> spec_answer_ok(fw, o.len() - 1, o[o.len() - 1]));
            Err(FlashError::ChecksumMismatch { calculated, expected })
        },
    }
}

} // verus!
