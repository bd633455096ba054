use vstd::prelude::*;

verus! {

/// Size in bytes of one record that a Linux input device hands out: two
/// eight-byte time fields, then the type, the code and the value.
pub const EVENT_SIZE: usize = 24;

/// One record of a Linux input device, without its time stamp.
#[derive(Clone, Copy, Debug, PartialEq, Eq, Structural)]
pub struct InputEvent {
    /// The kind of event: 1 a key or button, 2 a relative motion, ...
    pub kind: u16,
    /// Which key, button or axis.
    pub code: u16,
    /// What happened: 0 released, 1 pressed, 2 held for a key; the distance
    /// for a motion.
    pub value: i32,
}

/// The unsigned number of the bytes `bs`, least significant first.
pub open spec fn le_number(bs: Seq<u8>) -> nat
    decreases bs.len(),
{
    if bs.len() == 0 {
        0
    } else {
        (bs[0] + 256 * le_number(bs.drop_first())) as nat
    }
}

/// The bytes of field `[start, end)` of `packet`, least significant first for
/// a little-endian host, reversed for a big-endian one.
pub open spec fn field_bytes(packet: Seq<u8>, start: int, end: int, little_endian: bool) -> Seq<
    u8,
> {
    if little_endian {
        packet.subrange(start, end)
    } else {
        packet.subrange(start, end).reverse()
    }
}

/// The signed 32-bit number whose two's complement bits are `n`.
pub open spec fn as_signed_32(n: nat) -> int {
    if n >= 0x8000_0000 {
        n - 0x1_0000_0000
    } else {
        n as int
    }
}

/// The event that the 24-byte record `packet` holds, read in the host's byte
/// order: the type at bytes 16 and 17, the code at 18 and 19, the value at 20
/// to 23.
pub open spec fn event_of(packet: Seq<u8>, little_endian: bool) -> InputEvent {
    InputEvent {
        kind: le_number(field_bytes(packet, 16, 18, little_endian)) as u16,
        code: le_number(field_bytes(packet, 18, 20, little_endian)) as u16,
        value: as_signed_32(le_number(field_bytes(packet, 20, 24, little_endian))) as i32,
    }
}

/// std's `u16::from_ne_bytes`: the two bytes read in the host's byte order.
/// The contract claims only that the result is one of the two orders, as the
/// byte order is the machine's.
#[verifier::external_body]
fn u16_from_ne_bytes(bytes: [u8; 2]) -> (r: u16)
    ensures
        r == bytes@[0] + 256 * bytes@[1] || r == bytes@[1] + 256 * bytes@[0],
{
    u16::from_ne_bytes(bytes)
}

/// Whether this machine stores numbers least significant byte first. The
/// byte order is the machine's, so no contract promises either answer; the
/// caller states what holds for both.
fn host_is_little_endian() -> bool {
    u16_from_ne_bytes([1, 0]) == 1
}

/// The number in `packet[start..start + 2]` in the given byte order.
fn read_u16(packet: &[u8; 24], start: usize, little_endian: bool) -> (r: u16)
    requires
        start + 2 <= 24,
    ensures
        r == le_number(field_bytes(packet@, start as int, start + 2, little_endian)),
{
    let ghost bs = field_bytes(packet@, start as int, start + 2, little_endian);
    let (lo, hi) = if little_endian {
        (packet[start], packet[start + 1])
    } else {
        (packet[start + 1], packet[start])
    };
    proof {
        assert(bs[0] == lo && bs[1] == hi);
        let t1 = bs.drop_first();
        assert(t1.drop_first() =~= Seq::<u8>::empty());
        assert(le_number(t1.drop_first()) == 0);
        assert(le_number(t1) == hi);
        assert(le_number(bs) == lo + 256 * hi);
    }
    lo as u16 + 256 * hi as u16
}

/// The event that the record `packet` holds, read in the given byte order.
pub fn decode_event(packet: &[u8; 24], little_endian: bool) -> (e: InputEvent)
    ensures
        e == event_of(packet@, little_endian),
{
    let kind = read_u16(packet, 16, little_endian);
    let code = read_u16(packet, 18, little_endian);
    let ghost vb = field_bytes(packet@, 20, 24, little_endian);
    let (b0, b1, b2, b3) = if little_endian {
        (packet[20], packet[21], packet[22], packet[23])
    } else {
        (packet[23], packet[22], packet[21], packet[20])
    };
    proof {
        assert(vb[0] == b0 && vb[1] == b1 && vb[2] == b2 && vb[3] == b3);
        let t1 = vb.drop_first();
        let t2 = t1.drop_first();
        let t3 = t2.drop_first();
        assert(t3.drop_first() =~= Seq::<u8>::empty());
        assert(le_number(t3.drop_first()) == 0);
        assert(le_number(t3) == b3);
        assert(le_number(t2) == b2 + 256 * b3);
        assert(le_number(t1) == b1 + 256 * (b2 + 256 * b3));
        assert(le_number(vb) == b0 + 256 * (b1 + 256 * (b2 + 256 * b3)));
    }
    let n: u32 = b0 as u32 + 256 * (b1 as u32 + 256 * (b2 as u32 + 256 * b3 as u32));
    let value: i32 = if n >= 0x8000_0000 {
        (n as i64 - 0x1_0000_0000i64) as i32
    } else {
        n as i32
    };
    InputEvent { kind, code, value }
}

/// The event that the record `packet` holds, read in this machine's byte
/// order, which is one of the two.
pub fn decode_native(packet: &[u8; 24]) -> (e: InputEvent)
    ensures
        e == event_of(packet@, true) || e == event_of(packet@, false),
{
    decode_event(packet, host_is_little_endian())
}

} // verus!
