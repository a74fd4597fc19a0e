//! The buffer of an endpoint-0 vendor control transfer through the CyFX3
//! driver's IOCTL interface: a packed SINGLE_TRANSFER header (38 bytes,
//! little endian) followed by the data, and the reading of the reply.
use vstd::prelude::*;
use crate::protocol::{spec_le_bytes, spec_u32_le, u32_from_le};

verus! {

/// Size of the packed SINGLE_TRANSFER header.
pub const SINGLE_TRANSFER_LEN: usize = 38;
/// Timeout field of the setup packet (seconds).
pub const EP0_TIMEOUT: u32 = 5;

/// A device IOCTL code for the vendor device type 0x22.
pub open spec fn spec_ctl_code(function: u32, method: u32) -> u32 {
    (0x22u32 << 16u32) | (function << 2u32) | method
}

/// A device IOCTL code for the vendor device type 0x22, METHOD_BUFFERED = 0.
pub fn ctl_code(function: u32, method: u32) -> (c: u32)
    ensures
        c == spec_ctl_code(function, method),
{
    (0x22u32 << 16u32) | (function << 2u32) | method
}

/// The IOCTL that sends an endpoint-0 control transfer (function 8,
/// buffered).
pub fn ioctl_send_ep0_control_transfer() -> (c: u32)
    ensures
        c == spec_ctl_code(8, 0),
        c == 0x0022_0020,
{
    assert(((0x22u32 << 16u32) | (8u32 << 2u32) | 0u32) == 0x0022_0020u32) by (bit_vector);
    ctl_code(8, 0)
}

/// Two bytes of a value, little endian.
pub open spec fn spec_le16(v: u16) -> Seq<u8> {
    seq![(v & 0xff) as u8, ((v >> 8u16) & 0xff) as u8]
}

/// The header of a transfer: direction bit 7 set for reads, vendor type
/// (2) in bits 6..5; request; the address split into wValue (low half) and
/// wIndex (high half); the data length (its low 16 bits, and in full as the buffer length); timeout 5; endpoint 0;
/// zero status fields; the data follows the header.
pub open spec fn spec_ep0_header(read: bool, request: u8, addr: u32, data_len: int) -> Seq<u8> {
    let bm: u8 = if read { 0xC0u8 } else { 0x40u8 };
    seq![bm, request] + spec_le16((addr & 0xFFFF) as u16) + spec_le16(((addr >> 16u32) & 0xFFFF) as u16)
        + spec_le16(data_len as u16) + spec_le_bytes(EP0_TIMEOUT) + seq![0u8, 0u8]
        + spec_le_bytes(0) + spec_le_bytes(0) + spec_le_bytes(0) + spec_le_bytes(0) + spec_le_bytes(SINGLE_TRANSFER_LEN as u32)
        + spec_le_bytes(data_len as u32)
}

fn push_le16(v: &mut Vec<u8>, x: u16)
    ensures
        final(v)@ == old(v)@ + spec_le16(x),
{
    v.push((x & 0xff) as u8);
    v.push(((x >> 8u16) & 0xff) as u8);
    assert(final(v)@ =~= old(v)@ + spec_le16(x));
}

fn push_le32(v: &mut Vec<u8>, x: u32)
    ensures
        final(v)@ == old(v)@ + spec_le_bytes(x),
{
    v.push((x & 0xff) as u8);
    v.push(((x >> 8u32) & 0xff) as u8);
    v.push(((x >> 16u32) & 0xff) as u8);
    v.push(((x >> 24u32) & 0xff) as u8);
    assert(final(v)@ =~= old(v)@ + spec_le_bytes(x));
}

/// The buffer handed to the driver: the header, then the bytes to write
/// (none for a read), zero-filled up to the larger of the write and read
/// lengths.
pub fn ep0_request_buffer(request: u8, addr: u32, write: &[u8], read_len: usize, read: bool) -> (buf: Vec<u8>)
    requires
        SINGLE_TRANSFER_LEN + write@.len() <= usize::MAX,
        SINGLE_TRANSFER_LEN + read_len <= usize::MAX,
    ensures
        ({
            let data_len = if write@.len() > read_len { write@.len() as int } else { read_len as int };
            &&& buf@.len() == SINGLE_TRANSFER_LEN + data_len
            &&& buf@.subrange(0, 38) == spec_ep0_header(read, request, addr, data_len)
            &&& buf@.subrange(38, 38 + write@.len() as int) == write@
            &&& forall|k: int| 38 + write@.len() <= k < buf@.len() ==> buf@[k] == 0u8
        }),
{
    let data_len: usize = if write.len() > read_len {
        write.len()
    } else {
        read_len
    };
    let mut buf: Vec<u8> = Vec::new();
    let bm: u8 = if read {
        0xC0
    } else {
        0x40
    };
    buf.push(bm);
    buf.push(request);
    push_le16(&mut buf, (addr & 0xFFFFu32) as u16);
    push_le16(&mut buf, ((addr >> 16u32) & 0xFFFFu32) as u16);
    push_le16(&mut buf, data_len as u16);
    push_le32(&mut buf, EP0_TIMEOUT);
    buf.push(0u8);
    buf.push(0u8);
    push_le32(&mut buf, 0);
    push_le32(&mut buf, 0);
    push_le32(&mut buf, 0);
    push_le32(&mut buf, 0);
    push_le32(&mut buf, SINGLE_TRANSFER_LEN as u32);
    push_le32(&mut buf, data_len as u32);
    let ghost header = buf@;
    assert(header =~= spec_ep0_header(read, request, addr, data_len as int));
    let mut i: usize = 0;
    while i < write.len()
        invariant
            i <= write@.len(),
            header.len() == 38,
            buf@ == header + write@.take(i as int),
        decreases write.len() - i,
    {
        buf.push(write[i]);
        i = i + 1;
        assert(buf@ =~= header + write@.take(i as int));
    }
    let mut j: usize = write.len();
    while j < data_len
        invariant
            write@.len() <= j <= data_len,
            header.len() == 38,
            buf@.len() == 38 + j,
            buf@.subrange(0, 38 + write@.len() as int) == header + write@,
            forall|k: int| 38 + write@.len() <= k < buf@.len() ==> buf@[k] == 0u8,
        decreases data_len - j,
    {
        buf.push(0u8);
        j = j + 1;
    }
    proof {
        assert(write@.take(write@.len() as int) =~= write@);
        assert(buf@.subrange(0, 38) =~= (header + write@).subrange(0, 38));
        assert((header + write@).subrange(0, 38) =~= header);
        assert(buf@.subrange(38, 38 + write@.len() as int) =~= (header + write@).subrange(38, 38 + write@.len() as int));
        assert((header + write@).subrange(38, 38 + write@.len() as int) =~= write@);
    }
    buf
}

/// The bytes a read returns from the driver's reply buffer: `BufferLength`
/// bytes (at most `read_len`) from `BufferOffset`, or none when they do not
/// lie inside the buffer.
pub open spec fn spec_ep0_read_result(buf: Seq<u8>, read_len: int) -> Seq<u8> {
    let off = spec_u32_le(buf[30], buf[31], buf[32], buf[33]) as int;
    let blen = spec_u32_le(buf[34], buf[35], buf[36], buf[37]) as int;
    let len = if read_len < blen { read_len } else { blen };
    if off + len <= buf.len() {
        buf.subrange(off, off + len)
    } else {
        Seq::empty()
    }
}

/// Reads the returned data from the driver's reply buffer.
pub fn ep0_read_result(buf: &[u8], read_len: usize) -> (r: Vec<u8>)
    requires
        buf@.len() >= SINGLE_TRANSFER_LEN,
    ensures
        r@ == spec_ep0_read_result(buf@, read_len as int),
{
    let off = u32_from_le(buf[30], buf[31], buf[32], buf[33]);
    let blen = u32_from_le(buf[34], buf[35], buf[36], buf[37]);
    let len: u64 = if (read_len as u64) < (blen as u64) {
        read_len as u64
    } else {
        blen as u64
    };
    let mut out: Vec<u8> = Vec::new();
    if (off as u64) + len <= buf.len() as u64 {
        let start = off as usize;
        let end = start + len as usize;
        let mut i: usize = start;
        while i < end
            invariant
                start <= i <= end <= buf@.len(),
                out@ == buf@.subrange(start as int, i as int),
            decreases end - i,
        {
            out.push(buf[i]);
            i = i + 1;
            assert(out@ =~= buf@.subrange(start as int, i as int));
        }
    }
    out
}

} // verus!
