//! Display identity: adapter LUID packing, the FNV-1a hash that Kaiser uses to
//! recognise a monitor across reboots, and the EDID fields it is computed from.

use vstd::prelude::*;
use crate::display::DisplayId;
use vstd::string::StringSliceAdditionalSpecFns;

verus! {

pub const FNV_OFFSET_BASIS: u64 = 0xcbf29ce484222325;
pub const FNV_PRIME: u64 = 0x0000_0100_0000_01B3;

/// One FNV-1a step: xor the byte in, then multiply by the prime modulo 2^64.
pub open spec fn fnv1a_step(h: u64, b: u8) -> u64 {
    vstd::wrapping::u64_specs::wrapping_mul(h ^ (b as u64), FNV_PRIME)
}

/// FNV-1a over a byte sequence, starting from the state `h`.
pub open spec fn fnv1a_fold(h: u64, bytes: Seq<u8>) -> u64
    decreases bytes.len(),
{
    if bytes.len() == 0 {
        h
    } else {
        fnv1a_step(fnv1a_fold(h, bytes.drop_last()), bytes.last())
    }
}

/// Little-endian bytes of a `u16`.
pub open spec fn le_bytes_u16(v: u16) -> Seq<u8> {
    seq![(v % 256) as u8, (v / 256) as u8]
}

/// Little-endian bytes of a `u32`.
pub open spec fn le_bytes_u32(v: u32) -> Seq<u8> {
    seq![
        (v % 256) as u8,
        ((v / 256) % 256) as u8,
        ((v / 65536) % 256) as u8,
        (v / 16777216) as u8,
    ]
}

/// The incremental FNV-1a 64-bit hasher.
pub struct Fnv1a64 {
    pub state: u64,
}

impl Fnv1a64 {
    pub fn new() -> (h: Self)
        ensures
            h.state == FNV_OFFSET_BASIS,
    {
        Fnv1a64 { state: FNV_OFFSET_BASIS }
    }

    /// Feeds `bytes` into the hash.
    pub fn update(&mut self, bytes: &[u8])
        ensures
            final(self).state == fnv1a_fold(old(self).state, bytes@),
    {
        let ghost h0 = self.state;
        let mut i: usize = 0;
        while i < bytes.len()
            invariant
                0 <= i <= bytes@.len(),
                self.state == fnv1a_fold(h0, bytes@.take(i as int)),
            decreases bytes@.len() - i,
        {
            assert(bytes@.take(i + 1).drop_last() =~= bytes@.take(i as int));
            self.state = (self.state ^ (bytes[i] as u64)).wrapping_mul(FNV_PRIME);
            i = i + 1;
        }
        assert(bytes@.take(bytes@.len() as int) =~= bytes@);
    }

    pub fn finish(&self) -> (r: u64)
        ensures
            r == self.state,
    {
        self.state
    }
}

/// The little-endian bytes of a `u16`, as `u16::to_le_bytes` gives them.
pub fn u16_le_bytes(v: u16) -> (r: Vec<u8>)
    ensures
        r@ == le_bytes_u16(v),
{
    let r = vec![(v % 256) as u8, (v / 256) as u8];
    assert(r@ =~= le_bytes_u16(v));
    r
}

/// The little-endian bytes of a `u32`, as `u32::to_le_bytes` gives them.
pub fn u32_le_bytes(v: u32) -> (r: Vec<u8>)
    ensures
        r@ == le_bytes_u32(v),
{
    let r = vec![
        (v % 256) as u8,
        ((v / 256) % 256) as u8,
        ((v / 65536) % 256) as u8,
        (v / 16777216) as u8,
    ];
    assert(r@ =~= le_bytes_u32(v));
    r
}


/// Raw EDID fields of a display. A field is `None` when the display reports
/// zero for it (virtual or headless displays without a real EDID).
#[derive(Clone, Copy, Debug, PartialEq, Eq, Structural)]
pub struct EdidFields {
    pub manufacture_id: Option<u16>,
    pub product_code: Option<u16>,
    pub connector_instance: Option<u32>,
}

impl Default for EdidFields {
    fn default() -> (r: Self)
        ensures
            r.manufacture_id is None,
            r.product_code is None,
            r.connector_instance is None,
    {
        EdidFields { manufacture_id: None, product_code: None, connector_instance: None }
    }
}

/// The bytes that the EDID hash is computed over: each present field, preceded
/// by a sentinel byte of its own so that different field sets never collide by
/// concatenation.
pub open spec fn edid_hash_bytes(e: EdidFields) -> Seq<u8> {
    (match e.manufacture_id {
        Some(v) => seq![1u8] + le_bytes_u16(v),
        None => Seq::<u8>::empty(),
    }) + (match e.product_code {
        Some(v) => seq![2u8] + le_bytes_u16(v),
        None => Seq::<u8>::empty(),
    }) + (match e.connector_instance {
        Some(v) => seq![3u8] + le_bytes_u32(v),
        None => Seq::<u8>::empty(),
    })
}

/// The little-endian value of two bytes.
pub open spec fn u16_of_le(b: Seq<u8>) -> u16 {
    (b[0] as int + b[1] as int * 256) as u16
}

/// The little-endian value of four bytes.
pub open spec fn u32_of_le(b: Seq<u8>) -> u32 {
    (b[0] as int + b[1] as int * 256 + b[2] as int * 65536 + b[3] as int * 16777216) as u32
}

/// Reads EDID fields back from the bytes the hash is computed over.
pub open spec fn decode_edid_bytes(b: Seq<u8>) -> EdidFields {
    let m = if b.len() >= 3 && b[0] == 1 { Some(u16_of_le(b.subrange(1, 3))) } else { None };
    let r1 = if b.len() >= 3 && b[0] == 1 { b.skip(3) } else { b };
    let p = if r1.len() >= 3 && r1[0] == 2 { Some(u16_of_le(r1.subrange(1, 3))) } else { None };
    let r2 = if r1.len() >= 3 && r1[0] == 2 { r1.skip(3) } else { r1 };
    let c = if r2.len() >= 5 && r2[0] == 3 { Some(u32_of_le(r2.subrange(1, 5))) } else { None };
    EdidFields { manufacture_id: m, product_code: p, connector_instance: c }
}

proof fn lemma_le_round_trip(v16: u16, v32: u32)
    ensures
        u16_of_le(le_bytes_u16(v16)) == v16,
        u32_of_le(le_bytes_u32(v32)) == v32,
{
    let b = le_bytes_u16(v16);
    assert(b[0] as int + b[1] as int * 256 == v16) by (nonlinear_arith)
        requires
            b[0] == (v16 % 256) as u8,
            b[1] == (v16 / 256) as u8,
    ;
    let c = le_bytes_u32(v32);
    assert(c[0] as int + c[1] as int * 256 + c[2] as int * 65536 + c[3] as int * 16777216 == v32) by (nonlinear_arith)
        requires
            c[0] == (v32 % 256) as u8,
            c[1] == ((v32 / 256) % 256) as u8,
            c[2] == ((v32 / 65536) % 256) as u8,
            c[3] == (v32 / 16777216) as u8,
    ;
}

/// The bytes of the EDID hash determine the fields: reading them back gives
/// the fields they were made from.
pub proof fn lemma_edid_bytes_decode(e: EdidFields)
    ensures
        decode_edid_bytes(edid_hash_bytes(e)) == e,
{
    let mb = match e.manufacture_id { Some(v) => seq![1u8] + le_bytes_u16(v), None => Seq::<u8>::empty() };
    let pb = match e.product_code { Some(v) => seq![2u8] + le_bytes_u16(v), None => Seq::<u8>::empty() };
    let cb = match e.connector_instance { Some(v) => seq![3u8] + le_bytes_u32(v), None => Seq::<u8>::empty() };
    let b = edid_hash_bytes(e);
    assert(b == mb + pb + cb);
    lemma_le_round_trip(match e.manufacture_id { Some(v) => v, None => 0 }, match e.connector_instance { Some(v) => v, None => 0 });
    lemma_le_round_trip(match e.product_code { Some(v) => v, None => 0 }, 0);
    let r1 = if b.len() >= 3 && b[0] == 1 { b.skip(3) } else { b };
    assert(r1 =~= pb + cb);
    match e.manufacture_id {
        Some(v) => {
            assert(b.subrange(1, 3) =~= le_bytes_u16(v));
        },
        None => {},
    }
    let r2 = if r1.len() >= 3 && r1[0] == 2 { r1.skip(3) } else { r1 };
    assert(r2 =~= cb);
    match e.product_code {
        Some(v) => {
            assert(r1.subrange(1, 3) =~= le_bytes_u16(v));
        },
        None => {},
    }
    match e.connector_instance {
        Some(v) => {
            assert(r2.subrange(1, 5) =~= le_bytes_u32(v));
        },
        None => {},
    }
}

/// Different EDID field sets never give the same hashed bytes: each present
/// field is preceded by a sentinel byte of its own.
pub proof fn lemma_edid_bytes_injective(e1: EdidFields, e2: EdidFields)
    requires
        edid_hash_bytes(e1) == edid_hash_bytes(e2),
    ensures
        e1 == e2,
{
    lemma_edid_bytes_decode(e1);
    lemma_edid_bytes_decode(e2);
}

impl EdidFields {
    pub open spec fn spec_has_any(self) -> bool {
        self.manufacture_id is Some || self.product_code is Some || self.connector_instance is Some
    }

    /// The stable EDID hash: `None` for displays without EDID data.
    pub open spec fn spec_hash(self) -> Option<u64> {
        if self.spec_has_any() {
            Some(fnv1a_fold(FNV_OFFSET_BASIS, edid_hash_bytes(self)))
        } else {
            None
        }
    }

    /// Both sides carry EDID data and every field present on `self` is equal on `other`.
    pub open spec fn spec_matches(self, other: EdidFields) -> bool {
        &&& self.spec_has_any()
        &&& other.spec_has_any()
        &&& (self.manufacture_id is Some ==> other.manufacture_id == self.manufacture_id)
        &&& (self.product_code is Some ==> other.product_code == self.product_code)
        &&& (self.connector_instance is Some ==> other.connector_instance == self.connector_instance)
    }

    pub fn has_any(&self) -> (r: bool)
        ensures
            r == self.spec_has_any(),
    {
        self.manufacture_id.is_some() || self.product_code.is_some()
            || self.connector_instance.is_some()
    }

    /// Stable hash from the EDID fields only (no device path), so that it
    /// survives adapter LUID changes across reboots.
    pub fn compute_hash(&self) -> (r: Option<u64>)
        ensures
            r == self.spec_hash(),
    {
        if !self.has_any() {
            return None;
        }
        let mut bytes: Vec<u8> = Vec::new();
        if let Some(v) = self.manufacture_id {
            bytes.push(1u8);
            let mut b = u16_le_bytes(v);
            bytes.append(&mut b);
        }
        let ghost after_mfr = bytes@;
        if let Some(v) = self.product_code {
            bytes.push(2u8);
            let mut b = u16_le_bytes(v);
            bytes.append(&mut b);
        }
        let ghost after_prod = bytes@;
        if let Some(v) = self.connector_instance {
            bytes.push(3u8);
            let mut b = u32_le_bytes(v);
            bytes.append(&mut b);
        }
        assert(bytes@ =~= edid_hash_bytes(*self));
        let mut h = Fnv1a64::new();
        h.update(bytes.as_slice());
        Some(h.finish())
    }

    /// True when both sides have EDID data and all fields present on `self`
    /// match; displays without EDID data are never matched this way.
    pub fn matches(&self, other: &EdidFields) -> (r: bool)
        ensures
            r == self.spec_matches(*other),
    {
        if !self.has_any() || !other.has_any() {
            return false;
        }
        let m = match self.manufacture_id {
            Some(v) => match other.manufacture_id {
                Some(w) => v == w,
                None => false,
            },
            None => true,
        };
        let p = match self.product_code {
            Some(v) => match other.product_code {
                Some(w) => v == w,
                None => false,
            },
            None => true,
        };
        let c = match self.connector_instance {
            Some(v) => match other.connector_instance {
                Some(w) => v == w,
                None => false,
            },
            None => true,
        };
        m && p && c
    }
}

/// A display id from its adapter, target and EDID fields.
pub fn make_display_id(adapter_luid: u64, target_id: u32, edid: &EdidFields) -> (id: DisplayId)
    ensures
        id.adapter_luid == adapter_luid,
        id.target_id == target_id,
        id.edid_hash == edid.spec_hash(),
{
    DisplayId { adapter_luid, target_id, edid_hash: edid.compute_hash() }
}

/// The 64-bit value of an adapter LUID: the high part's bits above the low part's.
pub open spec fn luid_value(high_part: i32, low_part: u32) -> u64 {
    ((high_part as u32) as int * 0x1_0000_0000 + low_part as int) as u64
}

/// An adapter LUID as the operating system hands it out.
#[derive(Clone, Copy, Debug, PartialEq, Eq, Structural)]
pub struct Luid {
    pub low_part: u32,
    pub high_part: i32,
}

/// Packs an adapter LUID into a `u64`.
pub fn luid_to_u64(high_part: i32, low_part: u32) -> (r: u64)
    ensures
        r == luid_value(high_part, low_part),
{
    let r: u64 = ((high_part as i64 as u64) << 32) | (low_part as u64);
    assert(r == ((high_part as u32) as u64) * 0x1_0000_0000u64 + (low_part as u64)) by (bit_vector)
        requires
            r == ((high_part as i64 as u64) << 32) | (low_part as u64),
    ;
    r
}

/// Splits a packed `u64` back into an adapter LUID.
pub fn luid_from_u64(val: u64) -> (l: Luid)
    ensures
        l.low_part == val % 0x1_0000_0000,
        l.high_part == ((val / 0x1_0000_0000) as u32) as i32,
{
    let low = val as u32;
    let high = (val >> 32) as i32;
    assert(low == val % 0x1_0000_0000 && high == ((val / 0x1_0000_0000) as u32) as i32) by (bit_vector)
        requires
            low == val as u32,
            high == (val >> 32) as i32,
    ;
    Luid { low_part: low, high_part: high }
}

/// Packing a LUID and splitting the result gives the LUID back, and splitting a
/// packed value and packing it again gives the value back.
pub proof fn lemma_luid_round_trip(high_part: i32, low_part: u32, val: u64)
    ensures
        luid_value(high_part, low_part) % 0x1_0000_0000 == low_part,
        ((luid_value(high_part, low_part) / 0x1_0000_0000) as u32) as i32 == high_part,
        luid_value(((val / 0x1_0000_0000) as u32) as i32, (val % 0x1_0000_0000) as u32) == val,
{
    let v = luid_value(high_part, low_part);
    assert(v == ((high_part as u32) as u64) * 0x1_0000_0000u64 + (low_part as u64));
    assert(v % 0x1_0000_0000 == low_part && ((v / 0x1_0000_0000) as u32) as i32 == high_part)
        by (bit_vector)
        requires
            v == ((high_part as u32) as u64) * 0x1_0000_0000u64 + (low_part as u64),
    ;
    let h = ((val / 0x1_0000_0000) as u32) as i32;
    let l = (val % 0x1_0000_0000) as u32;
    assert(((h as u32) as u64) * 0x1_0000_0000u64 + (l as u64) == val) by (bit_vector)
        requires
            h == ((val / 0x1_0000_0000) as u32) as i32,
            l == (val % 0x1_0000_0000) as u32,
    ;
}

/// The byte that `to_ascii_uppercase` makes of `b`.
pub open spec fn ascii_upper_byte(b: u8) -> u8 {
    if 0x61 <= b <= 0x7a { (b - 0x20) as u8 } else { b }
}

/// The bytes that the device-path hash is computed over.
pub open spec fn stable_hash_bytes(
    edid_manufacture_id: u16,
    edid_product_code_id: u16,
    connector_instance: u32,
    path_bytes: Seq<u8>,
) -> Seq<u8> {
    le_bytes_u16(edid_manufacture_id) + le_bytes_u16(edid_product_code_id) + le_bytes_u32(
        connector_instance,
    ) + path_bytes.map_values(|b: u8| ascii_upper_byte(b))
}

/// FNV-1a over the EDID identifiers and the upper-cased monitor device path.
pub fn stable_display_hash(
    edid_manufacture_id: u16,
    edid_product_code_id: u16,
    connector_instance: u32,
    monitor_device_path: &str,
) -> (r: u64)
    ensures
        r == fnv1a_fold(
            FNV_OFFSET_BASIS,
            stable_hash_bytes(
                edid_manufacture_id,
                edid_product_code_id,
                connector_instance,
                monitor_device_path.spec_bytes(),
            ),
        ),
{
    let mut bytes = u16_le_bytes(edid_manufacture_id);
    let mut b2 = u16_le_bytes(edid_product_code_id);
    bytes.append(&mut b2);
    let mut b3 = u32_le_bytes(connector_instance);
    bytes.append(&mut b3);
    let ghost prefix = bytes@;
    let path = monitor_device_path.as_bytes();
    let mut i: usize = 0;
    while i < path.len()
        invariant
            0 <= i <= path@.len(),
            bytes@ == prefix + path@.take(i as int).map_values(|b: u8| ascii_upper_byte(b)),
        decreases path@.len() - i,
    {
        let b = path[i];
        let u = if 0x61 <= b && b <= 0x7a { b - 0x20 } else { b };
        bytes.push(u);
        assert(path@.take(i + 1).map_values(|b: u8| ascii_upper_byte(b)) =~= path@.take(
            i as int,
        ).map_values(|b: u8| ascii_upper_byte(b)).push(u));
        i = i + 1;
    }
    assert(path@.take(path@.len() as int) =~= path@);
    assert(bytes@ =~= stable_hash_bytes(
        edid_manufacture_id,
        edid_product_code_id,
        connector_instance,
        monitor_device_path.spec_bytes(),
    ));
    let mut h = Fnv1a64::new();
    h.update(bytes.as_slice());
    h.finish()
}


/// Device paths that differ only in the case of ASCII letters give the same
/// stable hash.
pub proof fn lemma_stable_hash_ignores_ascii_case(
    edid_manufacture_id: u16,
    edid_product_code_id: u16,
    connector_instance: u32,
    a: &str,
    b: &str,
)
    requires
        a.spec_bytes().len() == b.spec_bytes().len(),
        forall|i: int| 0 <= i < a.spec_bytes().len() ==> ascii_upper_byte(#[trigger] a.spec_bytes()[i]) == ascii_upper_byte(b.spec_bytes()[i]),
    ensures
        fnv1a_fold(FNV_OFFSET_BASIS, stable_hash_bytes(edid_manufacture_id, edid_product_code_id, connector_instance, a.spec_bytes()))
            == fnv1a_fold(FNV_OFFSET_BASIS, stable_hash_bytes(edid_manufacture_id, edid_product_code_id, connector_instance, b.spec_bytes())),
{
    assert(a.spec_bytes().map_values(|x: u8| ascii_upper_byte(x)) =~= b.spec_bytes().map_values(|x: u8| ascii_upper_byte(x)));
    assert(stable_hash_bytes(edid_manufacture_id, edid_product_code_id, connector_instance, a.spec_bytes())
        =~= stable_hash_bytes(edid_manufacture_id, edid_product_code_id, connector_instance, b.spec_bytes()));
}

} // verus!
