//! The mathematical model of the wire format.
//!
//! A serialized container is a tag byte, a little-endian payload size, a
//! little-endian entry count, and then the entries. Each entry is a
//! length-prefixed key followed by a tagged, length-prefixed value payload.
//! Every piece of framing is self-describing, so a reader with no external
//! schema can reconstruct the data model.

use vstd::prelude::*;

verus! {

/// Tag byte that opens a serialized container and marks a nested container value.
pub const TAG_OBJECT: u8 = 0xE2;
/// Tag byte of a signed 8-bit integer value.
pub const TAG_INT8: u8 = 0x21;
/// Tag byte of a signed 16-bit integer value.
pub const TAG_INT16: u8 = 0x41;
/// Tag byte of a signed 32-bit integer value.
pub const TAG_INT32: u8 = 0x61;
/// Tag byte of a signed 64-bit integer value.
pub const TAG_INT64: u8 = 0x81;
/// Tag byte of an unsigned 8-bit integer value.
pub const TAG_UINT8: u8 = 0x20;
/// Tag byte of an unsigned 16-bit integer value.
pub const TAG_UINT16: u8 = 0x40;
/// Tag byte of an unsigned 32-bit integer value.
pub const TAG_UINT32: u8 = 0x60;
/// Tag byte of an unsigned 64-bit integer value.
pub const TAG_UINT64: u8 = 0x80;
/// Tag byte of a 32-bit floating-point bit pattern.
pub const TAG_FLOAT32: u8 = 0x62;
/// Tag byte of a 64-bit floating-point bit pattern.
pub const TAG_FLOAT64: u8 = 0x82;
/// Tag byte of a boolean value.
pub const TAG_BOOL: u8 = 0x01;
/// Tag byte of a null-terminated text value.
pub const TAG_TEXT: u8 = 0xA0;

/// The model of one stored value: the discriminant identifies the stored
/// type exactly (width and signedness included), and the payload is the
/// stored data. A nested container is held in its serialized form, exactly
/// as it sits in the enclosing buffer. `Other` stands for an entry whose tag
/// is not one this library defines: it is carried through, and a lookup
/// treats it as not representable rather than as corruption.
pub enum ValModel {
    Int8(i8),
    Int16(i16),
    Int32(i32),
    Int64(i64),
    UInt8(u8),
    UInt16(u16),
    UInt32(u32),
    UInt64(u64),
    Float32Bits(u32),
    Float64Bits(u64),
    Bool(bool),
    Text(Seq<u8>),
    Nested(Seq<u8>),
    Other(u8, Seq<u8>),
}

/// The model of a container: its entries in order, each a key and a stored value.
pub type EntriesModel = Seq<(Seq<u8>, ValModel)>;

/// The model of a value as a lookup hands it out: like [`ValModel`], except
/// that a nested container has been opened into its own entries.
pub enum ValView {
    Int8(i8),
    Int16(i16),
    Int32(i32),
    Int64(i64),
    UInt8(u8),
    UInt16(u16),
    UInt32(u32),
    UInt64(u64),
    Float32Bits(u32),
    Float64Bits(u64),
    Bool(bool),
    Text(Seq<u8>),
    Object(EntriesModel),
}

/// The 8-byte little-endian encoding of a 64-bit quantity.
pub open spec fn le64(n: u64) -> Seq<u8> {
    seq![
        (n & 0xff) as u8,
        ((n >> 8) & 0xff) as u8,
        ((n >> 16) & 0xff) as u8,
        ((n >> 24) & 0xff) as u8,
        ((n >> 32) & 0xff) as u8,
        ((n >> 40) & 0xff) as u8,
        ((n >> 48) & 0xff) as u8,
        ((n >> 56) & 0xff) as u8,
    ]
}

/// The 64-bit quantity read from 8 little-endian bytes.
pub open spec fn from_le64(s: Seq<u8>) -> u64
    recommends
        s.len() == 8,
{
    (s[0] as u64) | ((s[1] as u64) << 8) | ((s[2] as u64) << 16) | ((s[3] as u64) << 24)
        | ((s[4] as u64) << 32) | ((s[5] as u64) << 40) | ((s[6] as u64) << 48)
        | ((s[7] as u64) << 56)
}

/// Reading back the little-endian encoding of a quantity yields that quantity.
pub proof fn lemma_le64_roundtrip(n: u64)
    ensures
        le64(n).len() == 8,
        from_le64(le64(n)) == n,
{
    assert(((n & 0xff) as u8 as u64) | ((((n >> 8) & 0xff) as u8 as u64) << 8)
        | ((((n >> 16) & 0xff) as u8 as u64) << 16) | ((((n >> 24) & 0xff) as u8 as u64) << 24)
        | ((((n >> 32) & 0xff) as u8 as u64) << 32) | ((((n >> 40) & 0xff) as u8 as u64) << 40)
        | ((((n >> 48) & 0xff) as u8 as u64) << 48) | ((((n >> 56) & 0xff) as u8 as u64) << 56)
        == n) by (bit_vector);
}

/// The unsigned 8-byte representation of a signed 8-bit integer.
pub open spec fn i8_repr(x: i8) -> u64 {
    if x >= 0 { x as u64 } else { (x + 0x100) as u64 }
}

/// The unsigned 8-byte representation of a signed 16-bit integer.
pub open spec fn i16_repr(x: i16) -> u64 {
    if x >= 0 { x as u64 } else { (x + 0x1_0000) as u64 }
}

/// The unsigned 8-byte representation of a signed 32-bit integer.
pub open spec fn i32_repr(x: i32) -> u64 {
    if x >= 0 { x as u64 } else { (x + 0x1_0000_0000) as u64 }
}

/// The unsigned 8-byte representation of a signed 64-bit integer.
pub open spec fn i64_repr(x: i64) -> u64 {
    if x >= 0 { x as u64 } else { (x + 0x1_0000_0000_0000_0000) as u64 }
}

/// The signed 8-bit integer whose representation a quantity below `0x100` is.
pub open spec fn dec_i8(r: u64) -> i8 {
    if r < 0x80 { r as i8 } else { (r - 0x100) as i8 }
}

/// The signed 16-bit integer whose representation a quantity below `0x1_0000` is.
pub open spec fn dec_i16(r: u64) -> i16 {
    if r < 0x8000 { r as i16 } else { (r - 0x1_0000) as i16 }
}

/// The signed 32-bit integer whose representation a quantity below `0x1_0000_0000` is.
pub open spec fn dec_i32(r: u64) -> i32 {
    if r < 0x8000_0000 { r as i32 } else { (r - 0x1_0000_0000) as i32 }
}

/// The signed 64-bit integer whose representation a 64-bit quantity is.
pub open spec fn dec_i64(r: u64) -> i64 {
    if r < 0x8000_0000_0000_0000 { r as i64 } else { (r - 0x1_0000_0000_0000_0000) as i64 }
}

/// Whether a tag byte is one this library defines.
pub open spec fn known_tag(t: u8) -> bool {
    t == TAG_OBJECT || t == TAG_INT8 || t == TAG_INT16 || t == TAG_INT32 || t == TAG_INT64
        || t == TAG_UINT8 || t == TAG_UINT16 || t == TAG_UINT32 || t == TAG_UINT64
        || t == TAG_FLOAT32 || t == TAG_FLOAT64 || t == TAG_BOOL || t == TAG_TEXT
}

/// Whether a byte sequence is valid stored text: at least the terminator,
/// terminated by exactly one null byte, which is the last.
pub open spec fn text_wf(b: Seq<u8>) -> bool {
    &&& b.len() >= 1
    &&& b[b.len() - 1] == 0
    &&& forall|i: int| 0 <= i < b.len() - 1 ==> b[i] != 0
}

/// Whether a byte sequence is a valid key: null-terminated text is the key
/// encoding, so a key holds no null byte.
pub open spec fn key_wf(k: Seq<u8>) -> bool {
    forall|i: int| 0 <= i < k.len() ==> k[i] != 0
}

/// Whether one stored value is well formed: stored text is null-terminated,
/// and a value carried under an unrecognized tag does not claim a tag this
/// library defines.
pub open spec fn val_wf(m: ValModel) -> bool {
    match m {
        ValModel::Text(b) => text_wf(b),
        ValModel::Other(t, _) => !known_tag(t),
        _ => true,
    }
}

/// Whether no two entries share a key.
pub open spec fn keys_unique(s: EntriesModel) -> bool {
    forall|i: int, j: int| 0 <= i < j < s.len() ==> s[i].0 != s[j].0
}

/// Whether a container's entries are well formed: keys are unique and valid,
/// and every stored value is well formed.
pub open spec fn entries_wf(s: EntriesModel) -> bool {
    &&& keys_unique(s)
    &&& forall|i: int| 0 <= i < s.len() ==> key_wf(#[trigger] s[i].0) && val_wf(s[i].1)
}

/// The tag byte under which a stored value is serialized.
pub open spec fn val_tag(m: ValModel) -> u8 {
    match m {
        ValModel::Int8(_) => TAG_INT8,
        ValModel::Int16(_) => TAG_INT16,
        ValModel::Int32(_) => TAG_INT32,
        ValModel::Int64(_) => TAG_INT64,
        ValModel::UInt8(_) => TAG_UINT8,
        ValModel::UInt16(_) => TAG_UINT16,
        ValModel::UInt32(_) => TAG_UINT32,
        ValModel::UInt64(_) => TAG_UINT64,
        ValModel::Float32Bits(_) => TAG_FLOAT32,
        ValModel::Float64Bits(_) => TAG_FLOAT64,
        ValModel::Bool(_) => TAG_BOOL,
        ValModel::Text(_) => TAG_TEXT,
        ValModel::Nested(_) => TAG_OBJECT,
        ValModel::Other(t, _) => t,
    }
}

/// The payload bytes under which a stored value is serialized: every scalar
/// is its 8-byte little-endian representation; text, nested containers and
/// unrecognized values are their bytes verbatim.
pub open spec fn val_payload(m: ValModel) -> Seq<u8> {
    match m {
        ValModel::Int8(x) => le64(i8_repr(x)),
        ValModel::Int16(x) => le64(i16_repr(x)),
        ValModel::Int32(x) => le64(i32_repr(x)),
        ValModel::Int64(x) => le64(i64_repr(x)),
        ValModel::UInt8(x) => le64(x as u64),
        ValModel::UInt16(x) => le64(x as u64),
        ValModel::UInt32(x) => le64(x as u64),
        ValModel::UInt64(x) => le64(x),
        ValModel::Float32Bits(x) => le64(x as u64),
        ValModel::Float64Bits(x) => le64(x),
        ValModel::Bool(b) => le64(if b { 1 } else { 0 }),
        ValModel::Text(b) => b,
        ValModel::Nested(b) => b,
        ValModel::Other(_, p) => p,
    }
}

/// The serialized form of one value: tag byte, payload length, payload.
pub open spec fn enc_val(m: ValModel) -> Seq<u8> {
    seq![val_tag(m)] + le64(val_payload(m).len() as u64) + val_payload(m)
}

/// The serialized form of one entry: key length, key bytes, value.
pub open spec fn enc_entry(k: Seq<u8>, m: ValModel) -> Seq<u8> {
    le64(k.len() as u64) + k + enc_val(m)
}

/// The serialized form of a run of entries, in order.
pub open spec fn enc_entries(s: EntriesModel) -> Seq<u8>
    decreases s.len(),
{
    if s.len() == 0 {
        Seq::empty()
    } else {
        enc_entry(s[0].0, s[0].1) + enc_entries(s.drop_first())
    }
}

/// The serialized form of a whole container: the container tag byte, the
/// length of the entry bytes, the entry count, and the entries.
pub open spec fn enc_obj(s: EntriesModel) -> Seq<u8> {
    seq![TAG_OBJECT] + le64(enc_entries(s).len() as u64) + le64(s.len() as u64) + enc_entries(s)
}

/// The stored value read back from a tag byte and a payload, if the payload
/// is coherent for that tag. A scalar payload must be exactly 8 bytes and in
/// range for the tag's width; a text payload must be null-terminated; an
/// unrecognized tag carries its payload through.
pub open spec fn decode_val(t: u8, p: Seq<u8>) -> Option<ValModel> {
    if t == TAG_INT8 {
        if p.len() == 8 && from_le64(p) < 0x100 { Some(ValModel::Int8(dec_i8(from_le64(p)))) } else { None }
    } else if t == TAG_INT16 {
        if p.len() == 8 && from_le64(p) < 0x1_0000 { Some(ValModel::Int16(dec_i16(from_le64(p)))) } else { None }
    } else if t == TAG_INT32 {
        if p.len() == 8 && from_le64(p) < 0x1_0000_0000 { Some(ValModel::Int32(dec_i32(from_le64(p)))) } else { None }
    } else if t == TAG_INT64 {
        if p.len() == 8 { Some(ValModel::Int64(dec_i64(from_le64(p)))) } else { None }
    } else if t == TAG_UINT8 {
        if p.len() == 8 && from_le64(p) < 0x100 { Some(ValModel::UInt8(from_le64(p) as u8)) } else { None }
    } else if t == TAG_UINT16 {
        if p.len() == 8 && from_le64(p) < 0x1_0000 { Some(ValModel::UInt16(from_le64(p) as u16)) } else { None }
    } else if t == TAG_UINT32 {
        if p.len() == 8 && from_le64(p) < 0x1_0000_0000 { Some(ValModel::UInt32(from_le64(p) as u32)) } else { None }
    } else if t == TAG_UINT64 {
        if p.len() == 8 { Some(ValModel::UInt64(from_le64(p))) } else { None }
    } else if t == TAG_FLOAT32 {
        if p.len() == 8 && from_le64(p) < 0x1_0000_0000 { Some(ValModel::Float32Bits(from_le64(p) as u32)) } else { None }
    } else if t == TAG_FLOAT64 {
        if p.len() == 8 { Some(ValModel::Float64Bits(from_le64(p))) } else { None }
    } else if t == TAG_BOOL {
        if p.len() == 8 && from_le64(p) < 2 { Some(ValModel::Bool(from_le64(p) == 1)) } else { None }
    } else if t == TAG_TEXT {
        if text_wf(p) { Some(ValModel::Text(p)) } else { None }
    } else if t == TAG_OBJECT {
        Some(ValModel::Nested(p))
    } else {
        Some(ValModel::Other(t, p))
    }
}

/// One entry read from the front of a byte run: its key, its stored value,
/// and how many bytes it occupies; or nothing, if the framing is incoherent.
pub open spec fn parse_entry(b: Seq<u8>) -> Option<(Seq<u8>, ValModel, int)> {
    if b.len() < 8 {
        None
    } else {
        let klen = from_le64(b.subrange(0, 8)) as int;
        if 8 + klen + 9 > b.len() {
            None
        } else {
            let key = b.subrange(8, 8 + klen);
            let tag = b[8 + klen];
            let vlen = from_le64(b.subrange(9 + klen, 17 + klen)) as int;
            if 17 + klen + vlen > b.len() {
                None
            } else {
                let payload = b.subrange(17 + klen, 17 + klen + vlen);
                if !key_wf(key) {
                    None
                } else {
                    match decode_val(tag, payload) {
                        Option::None => None,
                        Option::Some(m) => Some((key, m, 17 + klen + vlen)),
                    }
                }
            }
        }
    }
}

/// Exactly `n` entries read from a byte run that they consume exactly.
pub open spec fn parse_entries(b: Seq<u8>, n: nat) -> Option<EntriesModel>
    decreases n,
{
    if n == 0 {
        if b.len() == 0 { Some(Seq::empty()) } else { None }
    } else {
        match parse_entry(b) {
            Option::None => None,
            Option::Some((k, m, used)) => {
                match parse_entries(b.subrange(used, b.len() as int), (n - 1) as nat) {
                    Option::None => None,
                    Option::Some(rest) => Some(seq![(k, m)] + rest),
                }
            },
        }
    }
}

/// The entries of a serialized container, if the buffer is well formed: the
/// container tag byte opens it, the declared payload size matches the buffer,
/// the declared count of entries parses consuming the whole payload, and the
/// keys are unique.
pub open spec fn parse_obj(b: Seq<u8>) -> Option<EntriesModel> {
    if b.len() < 17 || b[0] != TAG_OBJECT {
        None
    } else {
        let size = from_le64(b.subrange(1, 9)) as int;
        let count = from_le64(b.subrange(9, 17));
        if size != b.len() - 17 {
            None
        } else {
            match parse_entries(b.subrange(17, b.len() as int), count as nat) {
                Option::None => None,
                Option::Some(es) => if keys_unique(es) { Some(es) } else { None },
            }
        }
    }
}

/// The index of the first entry with a key, or the entry count if absent.
pub open spec fn find_idx(s: EntriesModel, k: Seq<u8>) -> int
    decreases s.len(),
{
    if s.len() == 0 {
        0
    } else if s[0].0 == k {
        0
    } else {
        1 + find_idx(s.drop_first(), k)
    }
}

/// The stored value under a key: the first entry that carries the key, or
/// nothing if no entry does.
pub open spec fn lookup(s: EntriesModel, k: Seq<u8>) -> Option<ValModel>
    decreases s.len(),
{
    if s.len() == 0 {
        None
    } else if s[0].0 == k {
        Some(s[0].1)
    } else {
        lookup(s.drop_first(), k)
    }
}

/// The entries after a key is set: the first entry with the key is replaced
/// in place, or a new entry is appended if the key is absent.
pub open spec fn model_set(s: EntriesModel, k: Seq<u8>, m: ValModel) -> EntriesModel {
    if lookup(s, k) is Some {
        s.update(find_idx(s, k), (k, m))
    } else {
        s.push((k, m))
    }
}

/// A stored value as a lookup hands it out: a nested container is opened.
/// When it fails to open, or when the value sits under an unrecognized tag,
/// the value is not representable and the lookup reports absence.
pub open spec fn open_model(m: ValModel) -> Option<ValView> {
    match m {
        ValModel::Int8(x) => Some(ValView::Int8(x)),
        ValModel::Int16(x) => Some(ValView::Int16(x)),
        ValModel::Int32(x) => Some(ValView::Int32(x)),
        ValModel::Int64(x) => Some(ValView::Int64(x)),
        ValModel::UInt8(x) => Some(ValView::UInt8(x)),
        ValModel::UInt16(x) => Some(ValView::UInt16(x)),
        ValModel::UInt32(x) => Some(ValView::UInt32(x)),
        ValModel::UInt64(x) => Some(ValView::UInt64(x)),
        ValModel::Float32Bits(x) => Some(ValView::Float32Bits(x)),
        ValModel::Float64Bits(x) => Some(ValView::Float64Bits(x)),
        ValModel::Bool(x) => Some(ValView::Bool(x)),
        ValModel::Text(b) => Some(ValView::Text(b)),
        ValModel::Nested(b) => match parse_obj(b) {
            Option::None => None,
            Option::Some(es) => Some(ValView::Object(es)),
        },
        ValModel::Other(_, _) => None,
    }
}

/// What a lookup under a key yields: the stored value opened into a view, or
/// nothing if the key is absent or the stored value is not representable.
pub open spec fn get_model(s: EntriesModel, k: Seq<u8>) -> Option<ValView> {
    match lookup(s, k) {
        Option::None => None,
        Option::Some(m) => open_model(m),
    }
}

/// Whether every length that the serialized form frames fits its 8-byte field.
pub open spec fn sizes_ok(s: EntriesModel) -> bool {
    &&& s.len() < 0x1_0000_0000_0000_0000
    &&& enc_entries(s).len() < 0x1_0000_0000_0000_0000
    &&& forall|i: int| 0 <= i < s.len()
        ==> (#[trigger] s[i].0).len() < 0x1_0000_0000_0000_0000
            && val_payload(s[i].1).len() < 0x1_0000_0000_0000_0000
}

} // verus!

