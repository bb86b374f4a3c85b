//! ADS-B / Mode S extended squitter decoding.
use vstd::prelude::*;
use crate::decoders::{DecodeOutput, DecodedItem};
use crate::text::{
    decimal, hex_bytes, hex_fixed, push_decimal, push_hex_bytes, push_hex_fixed,
    push_signed_decimal, push_str, signed_decimal,
};

verus! {

/// Decodes ADS-B extended squitter (DF17/18) Mode S frames: the public,
/// unencrypted broadcast that civil aircraft transmit for traffic
/// surveillance. Feed it hex frames from an SDR tool such as
/// `dump1090 --raw`.
///
/// This does NOT decode Mode A/C/S secondary-surveillance-radar interrogation
/// or reply traffic beyond the header, and does not target military,
/// encrypted, or private communications links.
pub struct AdsbDecoder;

impl AdsbDecoder {
    /// The decoder's display name.
    pub fn name(&self) -> (name: &'static str)
        ensures
            name@ == "ADS-B / Mode S (aircraft transponder)"@,
    {
        "ADS-B / Mode S (aircraft transponder)"
    }

    /// Decodes the frames of a packet stream, one item per frame in order.
    /// `None` stands for a signal that is not a packet stream: the output is
    /// then a single item saying that a packet source is needed.
    pub fn decode(&self, frames: Option<&Vec<Vec<u8>>>) -> (out: DecodeOutput)
        ensures
            out.image_path is None,
            frames is None ==> {
                &&& out.items@.len() == 1
                &&& out.items@[0].summary@ == "ADS-B decoder needs a packet/data stream source"@
                &&& out.items@[0].detail@
                    == "Feed it hex-encoded Mode S frames, one per line (e.g. dump1090 --raw output)."@
            },
            frames matches Some(fs) ==> {
                &&& out.items@.len() == fs@.len()
                &&& forall|i: int|
                    0 <= i < fs@.len() ==> #[trigger] decodes_frame(out.items@[i], fs@[i]@)
            },
    {
        if frames.is_none() {
            let item = DecodedItem::from_texts(
                "ADS-B decoder needs a packet/data stream source",
                "Feed it hex-encoded Mode S frames, one per line (e.g. dump1090 --raw output).",
            );
            let mut items: Vec<DecodedItem> = Vec::new();
            items.push(item);
            return DecodeOutput { items, image_path: None };
        }
        let fs = frames.unwrap();
        let mut items: Vec<DecodedItem> = Vec::new();
        let n = fs.len();
        let mut i: usize = 0;
        while i < n
            invariant
                n == fs@.len(),
                0 <= i <= n,
                items@.len() == i,
                forall|j: int| 0 <= j < i ==> #[trigger] decodes_frame(items@[j], fs@[j]@),
            decreases n - i,
        {
            let item = decode_frame(fs[i].as_slice());
            items.push(item);
            i = i + 1;
        }
        DecodeOutput { items, image_path: None }
    }
}

/// The item is the decoding of the frame: its summary and detail texts.
pub open spec fn decodes_frame(item: DecodedItem, frame: Seq<u8>) -> bool {
    &&& item.summary@ == frame_summary(frame)
    &&& item.detail@ == frame_detail(frame)
}

/// The Mode S generator polynomial, without its leading x^24 term.
pub const CRC_GENERATOR: u32 = 0xFFF409;

/// The value of the 24-bit CRC register after one more message bit was
/// divided in: the register shifts left taking `bit` in, and when the bit
/// shifted out at the top was set the generator is subtracted (XORed).
pub open spec fn crc_step(reg: u32, bit: u32) -> u32 {
    let shifted = ((reg << 1u32) | bit) & 0x00FF_FFFFu32;
    if (reg >> 23u32) & 1u32 == 1u32 {
        shifted ^ CRC_GENERATOR
    } else {
        shifted
    }
}

/// Bit `n - 1` of a byte counted from its most significant end, as 0 or 1.
pub open spec fn byte_bit(byte: u8, n: nat) -> u32 {
    ((byte >> ((8 - n) as u8)) & 1u8) as u32
}

/// The register after the first `n` bits of `byte` (most significant first).
pub open spec fn crc_byte(reg: u32, byte: u8, n: nat) -> u32
    decreases n,
{
    if n == 0 {
        reg
    } else {
        crc_step(crc_byte(reg, byte, (n - 1) as nat), byte_bit(byte, n))
    }
}

/// The register after dividing in all bits of `msg`, starting from `reg`.
pub open spec fn crc_from(reg: u32, msg: Seq<u8>) -> u32
    decreases msg.len(),
{
    if msg.len() == 0 {
        reg
    } else {
        crc_byte(crc_from(reg, msg.drop_last()), msg.last(), 8)
    }
}

/// The remainder of the whole message, taken as a polynomial over GF(2)
/// (first bit highest), divided by the Mode S generator.
pub open spec fn crc_remainder(msg: Seq<u8>) -> u32 {
    crc_from(0, msg)
}

/// The 24-bit parity field as the three bytes a transmitter appends.
pub open spec fn parity_bytes(p: u32) -> Seq<u8> {
    seq![(p >> 16u32) as u8, (p >> 8u32) as u8, p as u8]
}

/// `n` zero bytes.
pub open spec fn zero_bytes(n: nat) -> Seq<u8> {
    Seq::new(n, |i: int| 0u8)
}

proof fn lemma_step_bound(reg: u32, bit: u32)
    ensures
        crc_step(reg, bit) < 0x0100_0000,
{
    assert(crc_step(reg, bit) < 0x0100_0000) by (bit_vector);
}

proof fn lemma_byte_bound(reg: u32, byte: u8, n: nat)
    requires
        reg < 0x0100_0000,
    ensures
        crc_byte(reg, byte, n) < 0x0100_0000,
    decreases n,
{
    if n > 0 {
        lemma_byte_bound(reg, byte, (n - 1) as nat);
        lemma_step_bound(crc_byte(reg, byte, (n - 1) as nat), byte_bit(byte, n));
    }
}

proof fn lemma_from_bound(reg: u32, msg: Seq<u8>)
    requires
        reg < 0x0100_0000,
    ensures
        crc_from(reg, msg) < 0x0100_0000,
    decreases msg.len(),
{
    if msg.len() > 0 {
        lemma_from_bound(reg, msg.drop_last());
        lemma_byte_bound(crc_from(reg, msg.drop_last()), msg.last(), 8);
    }
}


proof fn lemma_step_linear(r: u32, s: u32, a: u32, b: u32)
    requires
        r < 0x0100_0000,
        s < 0x0100_0000,
        a <= 1,
        b <= 1,
    ensures
        crc_step(r ^ s, a ^ b) == crc_step(r, a) ^ crc_step(s, b),
{
    assert(crc_step(r ^ s, a ^ b) == crc_step(r, a) ^ crc_step(s, b)) by (bit_vector)
        requires
            r < 0x0100_0000,
            s < 0x0100_0000,
            a <= 1,
            b <= 1,
    ;
}

proof fn lemma_byte_bit_xor(x: u8, y: u8, n: nat)
    requires
        1 <= n <= 8,
    ensures
        byte_bit(x ^ y, n) == byte_bit(x, n) ^ byte_bit(y, n),
        byte_bit(x, n) <= 1,
        byte_bit(y, n) <= 1,
{
    let sh = (8 - n) as u8;
    assert(((((x ^ y) >> sh) & 1u8) as u32) == (((x >> sh) & 1u8) as u32) ^ (((y >> sh) & 1u8) as u32)
        && (((x >> sh) & 1u8) as u32) <= 1 && (((y >> sh) & 1u8) as u32) <= 1) by (bit_vector);
}

proof fn lemma_byte_linear(r: u32, s: u32, x: u8, y: u8, n: nat)
    requires
        r < 0x0100_0000,
        s < 0x0100_0000,
        n <= 8,
    ensures
        crc_byte(r ^ s, x ^ y, n) == crc_byte(r, x, n) ^ crc_byte(s, y, n),
    decreases n,
{
    if n == 0 {
    } else {
        let m = (n - 1) as nat;
        lemma_byte_linear(r, s, x, y, m);
        lemma_byte_bound(r, x, m);
        lemma_byte_bound(s, y, m);
        lemma_byte_bit_xor(x, y, n);
        lemma_step_linear(crc_byte(r, x, m), crc_byte(s, y, m), byte_bit(x, n), byte_bit(y, n));
    }
}

proof fn lemma_from_append(r: u32, a: Seq<u8>, b: Seq<u8>)
    ensures
        crc_from(r, a + b) == crc_from(crc_from(r, a), b),
    decreases b.len(),
{
    if b.len() == 0 {
        assert(a + b =~= a);
    } else {
        assert((a + b).drop_last() =~= a + b.drop_last());
        assert((a + b).last() == b.last());
        lemma_from_append(r, a, b.drop_last());
    }
}

proof fn lemma_from_split_zero(r: u32, ys: Seq<u8>)
    requires
        r < 0x0100_0000,
    ensures
        crc_from(r, ys) == crc_from(r, zero_bytes(ys.len())) ^ crc_from(0, ys),
    decreases ys.len(),
{
    let z = zero_bytes(ys.len());
    if ys.len() == 0 {
        assert(r ^ 0u32 == r) by (bit_vector);
    } else {
        let zs = zero_bytes((ys.len() - 1) as nat);
        assert(z.drop_last() =~= zs);
        lemma_from_split_zero(r, ys.drop_last());
        let a = crc_from(r, zs);
        let b = crc_from(0, ys.drop_last());
        lemma_from_bound(r, zs);
        lemma_from_bound(0, ys.drop_last());
        let y = ys.last();
        assert(0u8 ^ y == y) by (bit_vector);
        lemma_byte_linear(a, b, 0u8, y, 8);
    }
}

proof fn lemma_small_byte(reg: u32, b: u8)
    requires
        reg < 0x1_0000,
    ensures
        crc_byte(reg, b, 8) == (reg << 8u32) | (b as u32),
{
    reveal_with_fuel(crc_byte, 9);
    assert(reg < 0x1_0000 ==> crc_byte(reg, b, 8) == (reg << 8u32) | (b as u32)) by (bit_vector);
}

proof fn lemma_parity_reads_back(p: u32)
    requires
        p < 0x0100_0000,
    ensures
        crc_from(0, parity_bytes(p)) == p,
{
    let pb = parity_bytes(p);
    let x = #[verifier::truncate] ((p >> 16u32) as u8);
    let y = #[verifier::truncate] ((p >> 8u32) as u8);
    let z = #[verifier::truncate] (p as u8);
    assert(pb.drop_last() =~= seq![x, y]);
    assert(pb.drop_last().drop_last() =~= seq![x]);
    assert(pb.drop_last().drop_last().drop_last() =~= Seq::<u8>::empty());
    assert(seq![x].drop_last() =~= Seq::<u8>::empty());
    assert(seq![x, y].drop_last() =~= seq![x]);
    assert(crc_from(0, Seq::<u8>::empty()) == 0);
    assert(seq![x].last() == x);
    assert(crc_from(0, seq![x]) == crc_byte(0, x, 8));
    lemma_small_byte(0, x);
    let rx = crc_from(0, seq![x]);
    assert(rx == (0u32 << 8u32) | (x as u32));
    assert((0u32 << 8u32) | (x as u32) < 0x1_0000) by (bit_vector);
    lemma_small_byte(rx, y);
    let rxy = crc_from(0, seq![x, y]);
    assert(((0u32 << 8u32) | (x as u32)) << 8u32 | (y as u32) < 0x1_0000) by (bit_vector);
    lemma_small_byte(rxy, z);
    assert(p < 0x0100_0000 ==> ((((0u32 << 8u32) | (((p >> 16u32) as u8) as u32)) << 8u32 | (((p >> 8u32) as u8) as u32)) << 8u32) | ((p as u8) as u32) == p) by (bit_vector);
}

/// The CRC check accepts a frame exactly when its 24-bit parity field is the
/// parity of its data (the remainder of the data shifted by 24 zero bits):
/// the remainder of data followed by parity `q` is zero if and only if `q`
/// is that parity.
pub proof fn lemma_parity_check_exact(data: Seq<u8>, q: u32)
    requires
        q < 0x0100_0000,
    ensures
        crc_remainder(data + parity_bytes(q)) == 0 <==> q == crc_remainder(data + zero_bytes(3)),
{
    let r = crc_from(0, data);
    lemma_from_bound(0, data);
    let p = crc_remainder(data + zero_bytes(3));
    lemma_from_append(0, data, zero_bytes(3));
    lemma_from_bound(r, zero_bytes(3));
    let qb = parity_bytes(q);
    lemma_from_append(0, data, qb);
    lemma_from_split_zero(r, qb);
    assert(qb.len() == 3);
    lemma_parity_reads_back(q);
    assert((p ^ q == 0u32) <==> p == q) by (bit_vector);
}

/// A frame made of data followed by the parity that a transmitter computes
/// over it, appended as three bytes, has CRC remainder zero: the check
/// accepts every intact frame.
pub proof fn lemma_parity_frame_checks(data: Seq<u8>)
    ensures
        crc_remainder(data + parity_bytes(crc_remainder(data + zero_bytes(3)))) == 0,
{
    lemma_from_bound(0, data + zero_bytes(3));
    lemma_parity_check_exact(data, crc_remainder(data + zero_bytes(3)));
}

/// The byte-wise XOR of two messages of equal length.
pub open spec fn xor_bytes(a: Seq<u8>, b: Seq<u8>) -> Seq<u8> {
    Seq::new(a.len(), |i: int| a[i] ^ b[i])
}

/// The message with bit `k` flipped; bits are counted in transmission order,
/// the most significant bit of the first byte being bit 0.
pub open spec fn flip_bit(m: Seq<u8>, k: int) -> Seq<u8> {
    m.update(k / 8, m[k / 8] ^ (0x80u8 >> ((k % 8) as u8)))
}

proof fn lemma_from_linear(r: u32, s: u32, a: Seq<u8>, b: Seq<u8>)
    requires
        r < 0x0100_0000,
        s < 0x0100_0000,
        a.len() == b.len(),
    ensures
        crc_from(r ^ s, xor_bytes(a, b)) == crc_from(r, a) ^ crc_from(s, b),
    decreases a.len(),
{
    let x = xor_bytes(a, b);
    if a.len() > 0 {
        assert(x.drop_last() =~= xor_bytes(a.drop_last(), b.drop_last()));
        assert(x.last() == a.last() ^ b.last());
        lemma_from_linear(r, s, a.drop_last(), b.drop_last());
        lemma_from_bound(r, a.drop_last());
        lemma_from_bound(s, b.drop_last());
        lemma_byte_linear(
            crc_from(r, a.drop_last()),
            crc_from(s, b.drop_last()),
            a.last(),
            b.last(),
            8,
        );
    }
}

/// The Mode S CRC is linear over GF(2) (no initial value, no XOR-out): for
/// two messages of equal length, the remainder of their byte-wise XOR is the
/// XOR of their remainders.
pub proof fn lemma_crc_linear(a: Seq<u8>, b: Seq<u8>)
    requires
        a.len() == b.len(),
    ensures
        crc_remainder(xor_bytes(a, b)) == crc_remainder(a) ^ crc_remainder(b),
{
    lemma_from_linear(0, 0, a, b);
    assert(0u32 ^ 0u32 == 0u32) by (bit_vector);
}

proof fn lemma_step_zero_nonzero(reg: u32)
    requires
        reg != 0,
        reg < 0x0100_0000,
    ensures
        crc_step(reg, 0) != 0,
{
    assert(reg != 0 && reg < 0x0100_0000 ==> crc_step(reg, 0) != 0) by (bit_vector);
}

proof fn lemma_zero_byte_nonzero(reg: u32, n: nat)
    requires
        reg != 0,
        reg < 0x0100_0000,
        n <= 8,
    ensures
        crc_byte(reg, 0, n) != 0,
    decreases n,
{
    if n > 0 {
        let m = (n - 1) as nat;
        lemma_zero_byte_nonzero(reg, m);
        lemma_byte_bound(reg, 0, m);
        let sh = (8 - n) as u8;
        assert(((0u8 >> sh) & 1u8) as u32 == 0u32) by (bit_vector);
        lemma_step_zero_nonzero(crc_byte(reg, 0, m));
    }
}

proof fn lemma_zeros_keep_nonzero(reg: u32, n: nat)
    requires
        reg != 0,
        reg < 0x0100_0000,
    ensures
        crc_from(reg, zero_bytes(n)) != 0,
    decreases n,
{
    if n > 0 {
        assert(zero_bytes(n).drop_last() =~= zero_bytes((n - 1) as nat));
        lemma_zeros_keep_nonzero(reg, (n - 1) as nat);
        lemma_from_bound(reg, zero_bytes((n - 1) as nat));
        lemma_zero_byte_nonzero(crc_from(reg, zero_bytes((n - 1) as nat)), 8);
    }
}

proof fn lemma_zeros_from_zero(n: nat)
    ensures
        crc_from(0, zero_bytes(n)) == 0,
    decreases n,
{
    if n > 0 {
        assert(zero_bytes(n).drop_last() =~= zero_bytes((n - 1) as nat));
        lemma_zeros_from_zero((n - 1) as nat);
        lemma_small_byte(0, 0);
        assert((0u32 << 8u32) | (0u8 as u32) == 0u32) by (bit_vector);
    }
}

/// Every single-bit error is detected: flipping any one bit of a message
/// changes its CRC remainder, so an intact frame with one flipped bit never
/// checks as intact.
pub proof fn lemma_single_bit_error_detected(m: Seq<u8>, k: int)
    requires
        0 <= k < 8 * m.len(),
    ensures
        crc_remainder(flip_bit(m, k)) != crc_remainder(m),
{
    let i = k / 8;
    let j = (k % 8) as u8;
    let bit = 0x80u8 >> j;
    assert(j < 8 ==> bit != 0) by (bit_vector)
        requires
            bit == 0x80u8 >> j,
    ;
    let rest = (m.len() - i - 1) as nat;
    let e = zero_bytes(i as nat) + seq![bit] + zero_bytes(rest);
    assert forall|t: int| 0 <= t < m.len() implies #[trigger] xor_bytes(m, e)[t] == flip_bit(m, k)[t] by {
        let x = m[t];
        assert(x ^ 0u8 == x) by (bit_vector);
        if t < i {
            assert(e[t] == 0u8);
        } else if t == i {
            assert(e[t] == bit);
        } else {
            assert(e[t] == zero_bytes(rest)[t - i - 1]);
        }
    }
    assert(xor_bytes(m, e) =~= flip_bit(m, k));
    lemma_crc_linear(m, e);
    lemma_from_append(0, zero_bytes(i as nat) + seq![bit], zero_bytes(rest));
    lemma_zeros_from_zero(i as nat);
    assert(seq![bit].drop_last() =~= Seq::<u8>::empty());
    assert(seq![bit].last() == bit);
    lemma_small_byte(0, bit);
    let b = crc_from(0, zero_bytes(i as nat) + seq![bit]);
    assert((zero_bytes(i as nat) + seq![bit]).drop_last() =~= zero_bytes(i as nat));
    assert((zero_bytes(i as nat) + seq![bit]).last() == bit);
    assert(b == crc_byte(0, bit, 8));
    assert(bit != 0 ==> (0u32 << 8u32) | (bit as u32) != 0 && (0u32 << 8u32) | (bit as u32)
        < 0x0100_0000) by (bit_vector);
    lemma_zeros_keep_nonzero(b, rest);
    let rm = crc_remainder(m);
    let re = crc_remainder(e);
    assert(re != 0 ==> rm ^ re != rm) by (bit_vector);
}

/// Mode S / ADS-B 24-bit CRC remainder of a message (generator 0xFFF409, no
/// reflection, no XOR-out). An intact DF17/18 frame, data plus its own
/// parity, has remainder zero.
pub fn modes_crc_remainder(msg: &[u8]) -> (r: u32)
    ensures
        r == crc_remainder(msg@),
        r < 0x0100_0000,
{
    let mut reg: u32 = 0;
    let n = msg.len();
    let mut i: usize = 0;
    while i < n
        invariant
            n == msg@.len(),
            0 <= i <= n,
            reg == crc_from(0, msg@.take(i as int)),
            reg < 0x0100_0000,
        decreases n - i,
    {
        let byte = msg[i];
        let ghost start = reg;
        let mut k: u8 = 0;
        while k < 8
            invariant
                0 <= k <= 8,
                start < 0x0100_0000,
                reg == crc_byte(start, byte, k as nat),
                reg < 0x0100_0000,
            decreases 8 - k,
        {
            let bit_in = ((byte >> (7 - k)) & 1) as u32;
            let top_bit = (reg >> 23) & 1;
            proof {
                lemma_step_bound(reg, bit_in);
            }
            reg = ((reg << 1) | bit_in) & 0x00FF_FFFF;
            if top_bit == 1 {
                reg = reg ^ CRC_GENERATOR;
            }
            k = k + 1;
        }
        assert(msg@.take(i + 1).drop_last() =~= msg@.take(i as int));
        i = i + 1;
    }
    assert(msg@.take(n as int) =~= msg@);
    reg
}

/// The 12-bit altitude field AC of an airborne position message: ME bits
/// 9 to 20, that is all of `me[1]` followed by the high nibble of `me[2]`.
pub open spec fn altitude_field(me: Seq<u8>) -> int {
    me[1] * 16 + me[2] / 16
}

/// The Q bit of the AC field (bit 4 counted from its low end): 1 when the
/// altitude is coded in 25 ft steps, 0 for Gillham (Mode C) coding.
pub open spec fn q_bit(ac: int) -> int {
    (ac / 16) % 2
}

/// The 11-bit number N that the AC field holds beside the Q bit.
pub open spec fn altitude_count(ac: int) -> int {
    (ac / 32) * 16 + ac % 16
}

/// Barometric altitude in feet that an airborne position ME field reports:
/// `25 * N - 1000` when the Q bit is set, none for Gillham coding.
pub open spec fn altitude_of(me: Seq<u8>) -> Option<int> {
    let ac = altitude_field(me);
    if q_bit(ac) == 0 {
        None
    } else {
        Some(25 * altitude_count(ac) - 1000)
    }
}

/// Decodes the barometric altitude of an airborne position message from
/// its ME field; `None` when the altitude uses Gillham (Mode C) coding.
/// Every decoded altitude is a multiple of 25 ft above -1000 ft, at most
/// 50175 ft.
pub fn decode_altitude(me: &[u8]) -> (alt: Option<i32>)
    requires
        me@.len() >= 3,
    ensures
        match alt {
            Some(a) => altitude_of(me@) == Some(a as int),
            None => altitude_of(me@) is None,
        },
        alt matches Some(a) ==> -1000 <= a <= 50175 && (a + 1000) % 25 == 0,
{
    let b1 = me[1];
    let b2 = me[2];
    let ac12: u16 = ((b1 as u16) << 4) | ((b2 as u16) >> 4);
    let q = (ac12 >> 4) & 1;
    assert(ac12 == (b1 as u16) * 16 + (b2 as u16) / 16 && ac12 < 4096) by (bit_vector)
        requires
            ac12 == ((b1 as u16) << 4) | ((b2 as u16) >> 4),
    ;
    assert(q == (ac12 / 16) % 2) by (bit_vector)
        requires
            q == (ac12 >> 4) & 1,
    ;
    if q == 0 {
        return None;
    }
    let n: u16 = ((ac12 >> 5) << 4) | (ac12 & 0x0F);
    assert(n == (ac12 / 32) * 16 + ac12 % 16) by (bit_vector)
        requires
            n == ((ac12 >> 5) << 4) | (ac12 & 0x0F),
            ac12 < 4096,
    ;
    let alt = n as i32 * 25 - 1000;
    Some(alt)
}

/// The 48 bits of the callsign: `me[1]` to `me[6]`, big-endian.
pub open spec fn callsign_bits(me: Seq<u8>) -> u64 {
    ((me[1] as u64) << 40u64) | ((me[2] as u64) << 32u64) | ((me[3] as u64) << 24u64) | ((
    me[4] as u64) << 16u64) | ((me[5] as u64) << 8u64) | (me[6] as u64)
}

/// The 6-bit code of character `k` (0 to 7, first character first) of the
/// callsign.
pub open spec fn callsign_code(me: Seq<u8>, k: int) -> u64 {
    (callsign_bits(me) >> ((42 - 6 * k) as u64)) & 0x3Fu64
}

/// The ADS-B identification character set: codes 1 to 26 are `A` to `Z`,
/// 32 is a space, 48 to 57 are `0` to `9`; all other codes are unused and
/// shown as `?`.
pub open spec fn callsign_char(code: int) -> char {
    if 1 <= code <= 26 {
        (code + 64) as char
    } else if code == 32 {
        ' '
    } else if 48 <= code <= 57 {
        code as char
    } else {
        '?'
    }
}

/// The text without its trailing spaces and `?` characters.
pub open spec fn trim_padding(s: Seq<char>) -> Seq<char>
    decreases s.len(),
{
    if s.len() > 0 && (s.last() == ' ' || s.last() == '?') {
        trim_padding(s.drop_last())
    } else {
        s
    }
}

proof fn lemma_trim_padding(s: Seq<char>)
    ensures
        trim_padding(s).len() <= s.len(),
        trim_padding(s).len() > 0 ==> trim_padding(s).last() != ' ' && trim_padding(s).last()
            != '?',
    decreases s.len(),
{
    if s.len() > 0 && (s.last() == ' ' || s.last() == '?') {
        lemma_trim_padding(s.drop_last());
    }
}

/// The eight callsign characters, before trimming.
pub open spec fn callsign_chars(me: Seq<u8>) -> Seq<char> {
    Seq::new(8, |k: int| callsign_char(callsign_code(me, k) as int))
}

/// The ADS-B identification character set, code by code: codes 1 to 26 are
/// the letters `A` to `Z` in order, code 32 is a space, codes 48 to 57 are the
/// digits `0` to `9` in order, and every other 6-bit code is unused (`?`).
/// Every letter and every digit has its code.
pub proof fn lemma_callsign_charset()
    ensures
        forall|code: int|
            1 <= code <= 26 ==> #[trigger] callsign_char(code) as int == 'A' as int + (code - 1),
        forall|code: int|
            48 <= code <= 57 ==> #[trigger] callsign_char(code) as int == '0' as int + (code - 48),
        callsign_char(32) == ' ',
        forall|code: int|
            0 <= code < 64 && !(1 <= code <= 26) && code != 32 && !(48 <= code <= 57)
                ==> #[trigger] callsign_char(code) == '?',
        forall|c: char|
            'A' <= c <= 'Z' ==> #[trigger] callsign_char(c as int - 'A' as int + 1) == c,
        forall|c: char|
            '0' <= c <= '9' ==> #[trigger] callsign_char(c as int - '0' as int + 48) == c,
{
    assert forall|c: char| 'A' <= c <= 'Z' implies #[trigger] callsign_char(
        c as int - 'A' as int + 1,
    ) == c by {
        assert(((c as int - 'A' as int + 1) + 64) as char == c);
    }
    assert forall|c: char| '0' <= c <= '9' implies #[trigger] callsign_char(
        c as int - '0' as int + 48,
    ) == c by {
        assert((c as int - '0' as int + 48) as char == c);
    }
}

/// The callsign of an identification message, without trailing padding.
pub open spec fn callsign_of(me: Seq<u8>) -> Seq<char> {
    trim_padding(callsign_chars(me))
}

fn callsign_char_exec(code: u8) -> (c: char)
    requires
        code < 64,
    ensures
        c == callsign_char(code as int),
{
    if 1 <= code && code <= 26 {
        (code + 64) as char
    } else if code == 32 {
        ' '
    } else if 48 <= code && code <= 57 {
        code as char
    } else {
        '?'
    }
}

/// Decodes the callsign of an identification message (8 characters of 6
/// bits each, packed across `me[1..7]`), trailing spaces and `?` removed.
pub fn decode_callsign(me: &[u8]) -> (callsign: String)
    requires
        me@.len() >= 7,
    ensures
        callsign@ == callsign_of(me@),
        callsign@.len() <= 8,
        callsign@.len() > 0 ==> callsign@.last() != ' ' && callsign@.last() != '?',
{
    proof {
        lemma_trim_padding(callsign_chars(me@));
    }
    let bits: u64 = ((me[1] as u64) << 40) | ((me[2] as u64) << 32) | ((me[3] as u64) << 24) | ((
    me[4] as u64) << 16) | ((me[5] as u64) << 8) | (me[6] as u64);
    let ghost raw = callsign_chars(me@);
    let mut chars: Vec<char> = Vec::new();
    let mut k: u64 = 0;
    while k < 8
        invariant
            0 <= k <= 8,
            bits == callsign_bits(me@),
            raw == callsign_chars(me@),
            chars@ =~= raw.take(k as int),
        decreases 8 - k,
    {
        let shift: u64 = 42 - 6 * k;
        let code = ((bits >> shift) & 0x3F) as u8;
        assert(((bits >> shift) & 0x3F) < 64) by (bit_vector);
        let c = callsign_char_exec(code);
        chars.push(c);
        k = k + 1;
    }
    assert(chars@ =~= raw);
    let mut end: usize = 8;
    while end > 0 && (chars[end - 1] == ' ' || chars[end - 1] == '?')
        invariant
            0 <= end <= 8,
            chars@ == raw,
            raw.len() == 8,
            trim_padding(raw) == trim_padding(raw.take(end as int)),
        decreases end,
    {
        assert(raw.take(end as int).drop_last() =~= raw.take(end - 1));
        end = end - 1;
    }
    let mut out = String::new();
    let mut i: usize = 0;
    while i < end
        invariant
            0 <= i <= end <= 8,
            chars@ == raw,
            raw.len() == 8,
            out@ =~= raw.take(i as int),
        decreases end - i,
    {
        crate::text::push_char(&mut out, chars[i]);
        i = i + 1;
    }
    assert(trim_padding(raw.take(end as int)) == raw.take(end as int));
    out
}

/// The downlink format: the top five bits of the first byte.
pub open spec fn downlink_format(frame: Seq<u8>) -> int {
    frame[0] as int / 8
}

/// The capability field: the low three bits of the first byte.
pub open spec fn capability(frame: Seq<u8>) -> int {
    frame[0] as int % 8
}

/// The 24-bit ICAO aircraft address: bytes 1 to 3, big-endian.
pub open spec fn icao_address(frame: Seq<u8>) -> int {
    frame[1] * 65536 + frame[2] * 256 + frame[3]
}

/// The 56-bit ME (message) field of a long frame: bytes 4 to 10.
pub open spec fn me_field(frame: Seq<u8>) -> Seq<u8> {
    frame.subrange(4, 11)
}

/// The type code of an ME field: the top five bits of its first byte.
pub open spec fn type_code(me: Seq<u8>) -> int {
    me[0] as int / 8
}

/// `"OK"` when the frame's CRC remainder is zero, `"FAIL"` otherwise.
pub open spec fn crc_status(frame: Seq<u8>) -> Seq<char> {
    if crc_remainder(frame) == 0 {
        "OK"@
    } else {
        "FAIL"@
    }
}

/// The ICAO address as six upper-case hexadecimal digits.
pub open spec fn icao_text(frame: Seq<u8>) -> Seq<char> {
    hex_fixed(icao_address(frame) as nat, 6)
}

/// What an extended squitter message is, by its type code (the summary text
/// after the ICAO address).
pub open spec fn message_text(me: Seq<u8>) -> Seq<char> {
    let tc = type_code(me);
    if 1 <= tc <= 4 {
        "identification, callsign \""@ + callsign_of(me) + "\""@
    } else if 9 <= tc <= 18 {
        match altitude_of(me) {
            Some(alt) => "airborne position, altitude "@ + signed_decimal(alt) + " ft"@,
            None => "airborne position (altitude coding not decoded)"@,
        }
    } else if tc == 19 {
        "airborne velocity message"@
    } else if 5 <= tc <= 8 {
        "surface position (not decoded in detail)"@
    } else if 20 <= tc <= 22 {
        "airborne position with GNSS height (not decoded in detail)"@
    } else if tc == 28 {
        "aircraft status message"@
    } else {
        "type code "@ + decimal(tc as nat) + " (not decoded)"@
    }
}

/// The detail line that some type codes add (with the newline before it),
/// or nothing.
pub open spec fn message_line(me: Seq<u8>) -> Seq<char> {
    let tc = type_code(me);
    if 1 <= tc <= 4 {
        "\nCallsign: "@ + callsign_of(me)
    } else if 9 <= tc <= 18 {
        match altitude_of(me) {
            Some(alt) => "\nBarometric altitude: "@ + signed_decimal(alt) + " ft"@,
            None => "\nAltitude uses Gillham/Mode-C coding (not decoded here)."@,
        }
    } else if tc == 19 {
        "\nAirborne velocity message (subtype decode not implemented yet)."@
    } else {
        Seq::empty()
    }
}

/// The ME field with its type code replaced by `tc` (the low three bits of
/// the first byte and the other bytes kept).
pub open spec fn with_type_code(me: Seq<u8>, tc: int) -> Seq<u8> {
    me.update(0, (tc * 8 + me[0] as int % 8) as u8)
}

/// Messages are described by type code groups: within each of the groups
/// 1-4 (identification), 9-18 (airborne position with barometric altitude),
/// 5-8 (surface position) and 20-22 (airborne position with GNSS height),
/// the summary text and the detail line do not depend on which type code of
/// the group the message has.
pub proof fn lemma_type_code_groups(me: Seq<u8>, tc: int)
    requires
        me.len() == 7,
        0 <= tc < 32,
    ensures
        type_code(with_type_code(me, tc)) == tc,
        (1 <= type_code(me) <= 4 && 1 <= tc <= 4) || (9 <= type_code(me) <= 18 && 9 <= tc <= 18)
            || (5 <= type_code(me) <= 8 && 5 <= tc <= 8) || (20 <= type_code(me) <= 22 && 20
            <= tc <= 22) ==> message_text(with_type_code(me, tc)) == message_text(me)
            && message_line(with_type_code(me, tc)) == message_line(me),
{
    let w = with_type_code(me, tc);
    assert(w[0] as int == tc * 8 + me[0] as int % 8);
    assert(type_code(w) == tc);
    assert(w[1] == me[1] && w[2] == me[2] && w[3] == me[3] && w[4] == me[4] && w[5] == me[5]
        && w[6] == me[6]);
    assert(altitude_of(w) == altitude_of(me));
    assert(callsign_bits(w) == callsign_bits(me));
    assert(callsign_chars(w) =~= callsign_chars(me));
}

/// The one-line summary of a frame.
pub open spec fn frame_summary(frame: Seq<u8>) -> Seq<char> {
    let df = downlink_format(frame);
    if frame.len() != 14 && frame.len() != 7 {
        "Unrecognized frame length ("@ + decimal(frame.len()) + " bytes)"@
    } else if frame.len() == 7 {
        "Short Mode S frame, DF="@ + decimal(df as nat)
    } else if df != 17 && df != 18 {
        "DF="@ + decimal(df as nat) + " frame, ICAO "@ + icao_text(frame) + ", CRC "@ + crc_status(frame)
    } else {
        "ICAO "@ + icao_text(frame) + ": "@ + message_text(me_field(frame))
    }
}

/// The detail text of a frame.
pub open spec fn frame_detail(frame: Seq<u8>) -> Seq<char> {
    let df = downlink_format(frame);
    let me = me_field(frame);
    if frame.len() != 14 && frame.len() != 7 {
        "Expected 7 bytes (56-bit short Mode S) or 14 bytes (112-bit long Mode S / ADS-B extended squitter)."@
    } else if frame.len() == 7 {
        "56-bit short frames (altitude/identity replies) aren't decoded in detail yet — only extended squitter (DF17/18) is."@
    } else if df != 17 && df != 18 {
        "Only DF17/18 (ADS-B extended squitter) is decoded beyond the header right now."@
    } else {
        "DF="@ + decimal(df as nat) + " CA="@ + decimal(capability(frame) as nat) + " ICAO="@
            + icao_text(frame) + " CRC="@ + crc_status(frame) + "\nType code (TC) = "@
            + decimal(type_code(me) as nat) + message_line(me) + "\nRaw ME field: "@
            + hex_bytes(me)
    }
}

fn push_crc_status(s: &mut String, crc_ok: bool)
    ensures
        final(s)@ == old(s)@ + (if crc_ok {
            "OK"@
        } else {
            "FAIL"@
        }),
{
    if crc_ok {
        push_str(s, "OK");
    } else {
        push_str(s, "FAIL");
    }
}

/// The summary tail and the detail line of an extended squitter message.
fn describe_message(me: &[u8]) -> (texts: (String, String))
    requires
        me@.len() == 7,
    ensures
        texts.0@ == message_text(me@),
        texts.1@ == message_line(me@),
{
    let m0 = me[0];
    let tc = m0 >> 3;
    assert(tc == m0 / 8) by (bit_vector)
        requires
            tc == m0 >> 3,
    ;
    if 1 <= tc && tc <= 4 {
        let callsign = decode_callsign(me);
        let mut summary = String::from_str("identification, callsign \"");
        push_str(&mut summary, callsign.as_str());
        push_str(&mut summary, "\"");
        let mut line = String::from_str("\nCallsign: ");
        push_str(&mut line, callsign.as_str());
        (summary, line)
    } else if 9 <= tc && tc <= 18 {
        match decode_altitude(me) {
            Some(alt) => {
                let mut summary = String::from_str("airborne position, altitude ");
                push_signed_decimal(&mut summary, alt as i64);
                push_str(&mut summary, " ft");
                let mut line = String::from_str("\nBarometric altitude: ");
                push_signed_decimal(&mut line, alt as i64);
                push_str(&mut line, " ft");
                (summary, line)
            },
            None => (
                String::from_str("airborne position (altitude coding not decoded)"),
                String::from_str("\nAltitude uses Gillham/Mode-C coding (not decoded here)."),
            ),
        }
    } else if tc == 19 {
        (
            String::from_str("airborne velocity message"),
            String::from_str("\nAirborne velocity message (subtype decode not implemented yet)."),
        )
    } else if 5 <= tc && tc <= 8 {
        (String::from_str("surface position (not decoded in detail)"), String::new())
    } else if 20 <= tc && tc <= 22 {
        (
            String::from_str("airborne position with GNSS height (not decoded in detail)"),
            String::new(),
        )
    } else if tc == 28 {
        (String::from_str("aircraft status message"), String::new())
    } else {
        let mut summary = String::from_str("type code ");
        push_decimal(&mut summary, tc as u64);
        push_str(&mut summary, " (not decoded)");
        (summary, String::new())
    }
}

/// Decodes one Mode S frame: its length and downlink format, and for a
/// DF17/18 extended squitter the ICAO address, CRC check, type code and the
/// content of identification and airborne position messages.
pub fn decode_frame(frame: &[u8]) -> (item: DecodedItem)
    ensures
        item.summary@ == frame_summary(frame@),
        item.detail@ == frame_detail(frame@),
{
    let len = frame.len();
    if len != 14 && len != 7 {
        let mut summary = String::from_str("Unrecognized frame length (");
        push_decimal(&mut summary, len as u64);
        push_str(&mut summary, " bytes)");
        return DecodedItem {
            summary,
            detail: String::from_str(
                "Expected 7 bytes (56-bit short Mode S) or 14 bytes (112-bit long Mode S / ADS-B extended squitter).",
            ),
        };
    }
    let b0 = frame[0];
    let df = b0 >> 3;
    let ca = b0 & 0x07;
    assert(df == b0 / 8 && ca == b0 % 8) by (bit_vector)
        requires
            df == b0 >> 3,
            ca == b0 & 0x07,
    ;
    if len == 7 {
        let mut summary = String::from_str("Short Mode S frame, DF=");
        push_decimal(&mut summary, df as u64);
        return DecodedItem {
            summary,
            detail: String::from_str(
                "56-bit short frames (altitude/identity replies) aren't decoded in detail yet — only extended squitter (DF17/18) is.",
            ),
        };
    }
    let b1 = frame[1];
    let b2 = frame[2];
    let b3 = frame[3];
    let icao: u32 = ((b1 as u32) << 16) | ((b2 as u32) << 8) | b3 as u32;
    assert(icao == (b1 as u32) * 65536 + (b2 as u32) * 256 + (b3 as u32)) by (bit_vector)
        requires
            icao == ((b1 as u32) << 16) | ((b2 as u32) << 8) | b3 as u32,
    ;
    let crc_ok = modes_crc_remainder(frame) == 0;
    if df != 17 && df != 18 {
        let mut summary = String::from_str("DF=");
        push_decimal(&mut summary, df as u64);
        push_str(&mut summary, " frame, ICAO ");
        push_hex_fixed(&mut summary, icao as u64, 6);
        push_str(&mut summary, ", CRC ");
        push_crc_status(&mut summary, crc_ok);
        assert(summary@ =~= frame_summary(frame@));
        return DecodedItem {
            summary,
            detail: String::from_str(
                "Only DF17/18 (ADS-B extended squitter) is decoded beyond the header right now.",
            ),
        };
    }
    let me = &frame[4..11];
    let m0 = me[0];
    let tc = m0 >> 3;
    assert(tc == m0 / 8) by (bit_vector)
        requires
            tc == m0 >> 3,
    ;
    let (message, line) = describe_message(me);
    let mut summary = String::from_str("ICAO ");
    push_hex_fixed(&mut summary, icao as u64, 6);
    push_str(&mut summary, ": ");
    push_str(&mut summary, message.as_str());
    let mut detail = String::from_str("DF=");
    push_decimal(&mut detail, df as u64);
    push_str(&mut detail, " CA=");
    push_decimal(&mut detail, ca as u64);
    push_str(&mut detail, " ICAO=");
    push_hex_fixed(&mut detail, icao as u64, 6);
    push_str(&mut detail, " CRC=");
    push_crc_status(&mut detail, crc_ok);
    push_str(&mut detail, "\nType code (TC) = ");
    push_decimal(&mut detail, tc as u64);
    push_str(&mut detail, line.as_str());
    push_str(&mut detail, "\nRaw ME field: ");
    push_hex_bytes(&mut detail, me);
    assert(summary@ =~= frame_summary(frame@));
    assert(detail@ =~= frame_detail(frame@));
    DecodedItem { summary, detail }
}

} // verus!
