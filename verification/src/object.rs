//! The container type and its typed value interface.

use vstd::prelude::*;
use crate::wire::{
    ValModel, ValView, EntriesModel, le64, from_le64, i8_repr, i16_repr, i32_repr, i64_repr,
    dec_i8, dec_i16, dec_i32, dec_i64, text_wf, key_wf, val_wf, keys_unique, entries_wf, enc_val,
    enc_entry, enc_entries, enc_obj, parse_entry, parse_entries, parse_obj, find_idx, lookup,
    model_set, get_model, TAG_OBJECT, TAG_INT8, TAG_INT16, TAG_INT32, TAG_INT64, TAG_UINT8,
    TAG_UINT16, TAG_UINT32, TAG_UINT64, TAG_FLOAT32, TAG_FLOAT64, TAG_BOOL, TAG_TEXT,
};
use crate::laws::{
    lemma_enc_entries_push, lemma_lookup_characterization, lemma_lookup_set,
    lemma_lookup_at_index,
};

verus! {

/// Error of a typed conversion out of a tagged value whose active variant
/// does not match the requested type.
#[derive(Debug, PartialEq)]
pub struct WrongBinnValue;

/// Error of opening a byte buffer that does not hold a well-formed container.
#[derive(Debug, PartialEq)]
pub struct BinnOpenError;

/// A fresh copy of a range of a byte slice.
fn copy_range(data: &[u8], start: usize, end: usize) -> (r: Vec<u8>)
    requires
        start <= end <= data@.len(),
    ensures
        r@ == data@.subrange(start as int, end as int),
{
    let mut out: Vec<u8> = Vec::new();
    let mut i: usize = start;
    while i < end
        invariant
            start <= i <= end <= data@.len(),
            out@ == data@.subrange(start as int, i as int),
        decreases end - i,
    {
        out.push(data[i]);
        proof {
            assert(data@.subrange(start as int, i + 1 as int)
                =~= data@.subrange(start as int, i as int).push(data@[i as int]));
        }
        i = i + 1;
    }
    out
}

/// Whether two byte slices hold the same bytes.
fn bytes_eq(a: &[u8], b: &[u8]) -> (r: bool)
    ensures
        r == (a@ == b@),
{
    if a.len() != b.len() {
        return false;
    }
    let mut i: usize = 0;
    while i < a.len()
        invariant
            i <= a@.len() == b@.len(),
            forall|j: int| 0 <= j < i ==> a@[j] == b@[j],
        decreases a@.len() - i,
    {
        if a[i] != b[i] {
            return false;
        }
        i = i + 1;
    }
    proof {
        assert(a@ =~= b@);
    }
    true
}

/// Whether no byte of a range of a slice is zero.
fn all_nonzero(data: &[u8], start: usize, end: usize) -> (r: bool)
    requires
        start <= end <= data@.len(),
    ensures
        r == forall|j: int| start <= j < end ==> data@[j] != 0,
{
    let mut i: usize = start;
    while i < end
        invariant
            start <= i <= end <= data@.len(),
            forall|j: int| start <= j < i ==> data@[j] != 0,
        decreases end - i,
    {
        if data[i] == 0 {
            return false;
        }
        i = i + 1;
    }
    true
}

/// Appends the 8-byte little-endian form of a quantity.
fn push_le64(out: &mut Vec<u8>, n: u64)
    ensures
        final(out)@ == old(out)@ + le64(n),
{
    proof {
        assert((n & 0xff) < 256 && ((n >> 8) & 0xff) < 256 && ((n >> 16) & 0xff) < 256
            && ((n >> 24) & 0xff) < 256 && ((n >> 32) & 0xff) < 256 && ((n >> 40) & 0xff) < 256
            && ((n >> 48) & 0xff) < 256 && ((n >> 56) & 0xff) < 256) by (bit_vector);
    }
    out.push((n & 0xff) as u8);
    out.push(((n >> 8) & 0xff) as u8);
    out.push(((n >> 16) & 0xff) as u8);
    out.push(((n >> 24) & 0xff) as u8);
    out.push(((n >> 32) & 0xff) as u8);
    out.push(((n >> 40) & 0xff) as u8);
    out.push(((n >> 48) & 0xff) as u8);
    out.push(((n >> 56) & 0xff) as u8);
    proof {
        assert(out@ =~= old(out)@ + le64(n));
    }
}

/// Appends a run of bytes.
fn push_bytes(out: &mut Vec<u8>, b: &[u8])
    ensures
        final(out)@ == old(out)@ + b@,
{
    let mut i: usize = 0;
    while i < b.len()
        invariant
            i <= b@.len(),
            out@ == old(out)@ + b@.subrange(0, i as int),
        decreases b@.len() - i,
    {
        out.push(b[i]);
        proof {
            assert(old(out)@ + b@.subrange(0, i + 1 as int)
                =~= (old(out)@ + b@.subrange(0, i as int)).push(b@[i as int]));
        }
        i = i + 1;
    }
    proof {
        assert(b@.subrange(0, b@.len() as int) =~= b@);
    }
}

/// The quantity held in 8 little-endian bytes of a slice.
fn read_le64(data: &[u8], pos: usize) -> (r: u64)
    requires
        pos + 8 <= data@.len(),
    ensures
        r == from_le64(data@.subrange(pos as int, pos + 8)),
{
    let r = (data[pos] as u64) | ((data[pos + 1] as u64) << 8) | ((data[pos + 2] as u64) << 16)
        | ((data[pos + 3] as u64) << 24) | ((data[pos + 4] as u64) << 32)
        | ((data[pos + 5] as u64) << 40) | ((data[pos + 6] as u64) << 48)
        | ((data[pos + 7] as u64) << 56);
    proof {
        let s = data@.subrange(pos as int, pos + 8);
        assert(s[0] == data@[pos as int] && s[1] == data@[pos + 1] && s[2] == data@[pos + 2]
            && s[3] == data@[pos + 3] && s[4] == data@[pos + 4] && s[5] == data@[pos + 5]
            && s[6] == data@[pos + 6] && s[7] == data@[pos + 7]);
    }
    r
}

/// The unsigned 8-byte representation of a signed 8-bit integer.
fn i8_to_repr(x: i8) -> (r: u64)
    ensures
        r == i8_repr(x),
{
    if x >= 0 { x as u64 } else { ((x as i64) + 0x100) as u64 }
}

/// The unsigned 8-byte representation of a signed 16-bit integer.
fn i16_to_repr(x: i16) -> (r: u64)
    ensures
        r == i16_repr(x),
{
    if x >= 0 { x as u64 } else { ((x as i64) + 0x1_0000) as u64 }
}

/// The unsigned 8-byte representation of a signed 32-bit integer.
fn i32_to_repr(x: i32) -> (r: u64)
    ensures
        r == i32_repr(x),
{
    if x >= 0 { x as u64 } else { ((x as i64) + 0x1_0000_0000) as u64 }
}

/// The unsigned 8-byte representation of a signed 64-bit integer.
fn i64_to_repr(x: i64) -> (r: u64)
    ensures
        r == i64_repr(x),
{
    if x >= 0 { x as u64 } else { ((x as i128) + 0x1_0000_0000_0000_0000) as u64 }
}

/// The signed 8-bit integer a representation below `0x100` stands for.
fn i8_from_repr(r: u64) -> (x: i8)
    requires
        r < 0x100,
    ensures
        x == dec_i8(r),
{
    if r < 0x80 { r as i8 } else { ((r as i64) - 0x100) as i8 }
}

/// The signed 16-bit integer a representation below `0x1_0000` stands for.
fn i16_from_repr(r: u64) -> (x: i16)
    requires
        r < 0x1_0000,
    ensures
        x == dec_i16(r),
{
    if r < 0x8000 { r as i16 } else { ((r as i64) - 0x1_0000) as i16 }
}

/// The signed 32-bit integer a representation below `0x1_0000_0000` stands for.
fn i32_from_repr(r: u64) -> (x: i32)
    requires
        r < 0x1_0000_0000,
    ensures
        x == dec_i32(r),
{
    if r < 0x8000_0000 { r as i32 } else { ((r as i64) - 0x1_0000_0000) as i32 }
}

/// The signed 64-bit integer a 64-bit representation stands for.
fn i64_from_repr(r: u64) -> (x: i64)
    ensures
        x == dec_i64(r),
{
    if r < 0x8000_0000_0000_0000 {
        r as i64
    } else {
        ((r as i128) - 0x1_0000_0000_0000_0000) as i64
    }
}

/// One stored value, as the container's buffer model holds it: scalars
/// decoded, text owned, a nested container kept in its serialized form, and
/// an unrecognized tag carried through with its payload.
#[derive(Debug, PartialEq)]
pub(crate) enum StoredVal {
    Int8(i8),
    Int16(i16),
    Int32(i32),
    Int64(i64),
    UInt8(u8),
    UInt16(u16),
    UInt32(u32),
    UInt64(u64),
    Float32Bits(u32),
    Float64Bits(u64),
    Bool(bool),
    Text(Vec<u8>),
    Nested(Vec<u8>),
    Other(u8, Vec<u8>),
}

impl StoredVal {
    /// The mathematical model of this stored value.
    pub(crate) open spec fn model(&self) -> ValModel {
        match self {
            StoredVal::Int8(x) => ValModel::Int8(*x),
            StoredVal::Int16(x) => ValModel::Int16(*x),
            StoredVal::Int32(x) => ValModel::Int32(*x),
            StoredVal::Int64(x) => ValModel::Int64(*x),
            StoredVal::UInt8(x) => ValModel::UInt8(*x),
            StoredVal::UInt16(x) => ValModel::UInt16(*x),
            StoredVal::UInt32(x) => ValModel::UInt32(*x),
            StoredVal::UInt64(x) => ValModel::UInt64(*x),
            StoredVal::Float32Bits(x) => ValModel::Float32Bits(*x),
            StoredVal::Float64Bits(x) => ValModel::Float64Bits(*x),
            StoredVal::Bool(x) => ValModel::Bool(*x),
            StoredVal::Text(b) => ValModel::Text(b@),
            StoredVal::Nested(b) => ValModel::Nested(b@),
            StoredVal::Other(t, p) => ValModel::Other(*t, p@),
        }
    }
}

/// One entry of a container: a key and the value stored under it.
#[derive(Debug, PartialEq)]
pub(crate) struct Entry {
    pub(crate) key: Vec<u8>,
    pub(crate) val: StoredVal,
}

impl Entry {
    /// The mathematical model of this entry.
    pub(crate) open spec fn model(&self) -> (Seq<u8>, ValModel) {
        (self.key@, self.val.model())
    }
}

/// An owned, mutable, serializable container of key-tagged typed values.
///
/// A container is built empty with [`BinnObject::new`], populated with
/// [`BinnObject::set`], serialized with [`BinnObject::as_bytes`], and opened
/// back out of a byte buffer with [`BinnObject::open`]. It is meant for
/// exclusive use by one owner at a time.
#[derive(Debug, PartialEq)]
pub struct BinnObject {
    entries: Vec<Entry>,
}

impl View for BinnObject {
    type V = EntriesModel;

    /// The mathematical model of the container: its entries in order.
    closed spec fn view(&self) -> EntriesModel {
        Seq::new(self.entries@.len(), |i: int| self.entries@[i].model())
    }
}

/// A dynamically typed value: one variant per storable type. The two
/// floating-point variants carry the IEEE-754 bit pattern of the value, since
/// this library states nothing about floating-point arithmetic; a caller
/// converts with `to_bits`/`from_bits`.
#[derive(Debug, PartialEq)]
pub enum BinnValue {
    Int8(i8),
    Int16(i16),
    Int32(i32),
    Int64(i64),
    UInt8(u8),
    UInt16(u16),
    UInt32(u32),
    UInt64(u64),
    Float32(u32),
    Float64(u64),
    Bool(bool),
    Str(Vec<u8>),
    Object(BinnObject),
}

impl View for BinnValue {
    type V = ValView;

    /// The mathematical model of this value.
    open spec fn view(&self) -> ValView {
        match self {
            BinnValue::Int8(x) => ValView::Int8(*x),
            BinnValue::Int16(x) => ValView::Int16(*x),
            BinnValue::Int32(x) => ValView::Int32(*x),
            BinnValue::Int64(x) => ValView::Int64(*x),
            BinnValue::UInt8(x) => ValView::UInt8(*x),
            BinnValue::UInt16(x) => ValView::UInt16(*x),
            BinnValue::UInt32(x) => ValView::UInt32(*x),
            BinnValue::UInt64(x) => ValView::UInt64(*x),
            BinnValue::Float32(x) => ValView::Float32Bits(*x),
            BinnValue::Float64(x) => ValView::Float64Bits(*x),
            BinnValue::Bool(x) => ValView::Bool(*x),
            BinnValue::Str(b) => ValView::Text(b@),
            BinnValue::Object(o) => ValView::Object(o@),
        }
    }
}

impl BinnValue {
    /// Whether this value is well formed: text is null-terminated and a
    /// nested container is well formed.
    pub open spec fn wf(&self) -> bool {
        match self {
            BinnValue::Str(b) => text_wf(b@),
            BinnValue::Object(o) => o.wf(),
            _ => true,
        }
    }

    /// The stored form this value takes inside a container: a nested
    /// container is serialized to bytes before insertion, so ownership of its
    /// encoded form is fully transferred.
    pub open spec fn stored(&self) -> ValModel {
        match self {
            BinnValue::Int8(x) => ValModel::Int8(*x),
            BinnValue::Int16(x) => ValModel::Int16(*x),
            BinnValue::Int32(x) => ValModel::Int32(*x),
            BinnValue::Int64(x) => ValModel::Int64(*x),
            BinnValue::UInt8(x) => ValModel::UInt8(*x),
            BinnValue::UInt16(x) => ValModel::UInt16(*x),
            BinnValue::UInt32(x) => ValModel::UInt32(*x),
            BinnValue::UInt64(x) => ValModel::UInt64(*x),
            BinnValue::Float32(x) => ValModel::Float32Bits(*x),
            BinnValue::Float64(x) => ValModel::Float64Bits(*x),
            BinnValue::Bool(x) => ValModel::Bool(*x),
            BinnValue::Str(b) => ValModel::Text(b@),
            BinnValue::Object(o) => ValModel::Nested(enc_obj(o@)),
        }
    }
}

impl BinnObject {
    /// Whether the container is well formed: keys unique and valid, every
    /// stored value well formed. Constructors establish this and methods
    /// preserve it.
    pub open spec fn wf(&self) -> bool {
        entries_wf(self@)
    }

    /// Allocates an empty container in build mode. The declared width and
    /// signedness of an inserted integer are preserved exactly on the wire
    /// and on readback: no compact-integer narrowing is ever applied.
    pub fn new() -> (r: Self)
        ensures
            r@ == Seq::<(Seq<u8>, ValModel)>::empty(),
            r.wf(),
    {
        let r = BinnObject { entries: Vec::new() };
        proof {
            assert(r@ =~= Seq::<(Seq<u8>, ValModel)>::empty());
        }
        r
    }

    /// Appends the serialized form of one stored value.
    fn push_val(out: &mut Vec<u8>, v: &StoredVal)
        ensures
            final(out)@ == old(out)@ + enc_val(v.model()),
    {
        let ghost m = v.model();
        match v {
            StoredVal::Int8(x) => {
                out.push(TAG_INT8);
                push_le64(out, 8);
                push_le64(out, i8_to_repr(*x));
            },
            StoredVal::Int16(x) => {
                out.push(TAG_INT16);
                push_le64(out, 8);
                push_le64(out, i16_to_repr(*x));
            },
            StoredVal::Int32(x) => {
                out.push(TAG_INT32);
                push_le64(out, 8);
                push_le64(out, i32_to_repr(*x));
            },
            StoredVal::Int64(x) => {
                out.push(TAG_INT64);
                push_le64(out, 8);
                push_le64(out, i64_to_repr(*x));
            },
            StoredVal::UInt8(x) => {
                out.push(TAG_UINT8);
                push_le64(out, 8);
                push_le64(out, *x as u64);
            },
            StoredVal::UInt16(x) => {
                out.push(TAG_UINT16);
                push_le64(out, 8);
                push_le64(out, *x as u64);
            },
            StoredVal::UInt32(x) => {
                out.push(TAG_UINT32);
                push_le64(out, 8);
                push_le64(out, *x as u64);
            },
            StoredVal::UInt64(x) => {
                out.push(TAG_UINT64);
                push_le64(out, 8);
                push_le64(out, *x);
            },
            StoredVal::Float32Bits(x) => {
                out.push(TAG_FLOAT32);
                push_le64(out, 8);
                push_le64(out, *x as u64);
            },
            StoredVal::Float64Bits(x) => {
                out.push(TAG_FLOAT64);
                push_le64(out, 8);
                push_le64(out, *x);
            },
            StoredVal::Bool(x) => {
                out.push(TAG_BOOL);
                push_le64(out, 8);
                push_le64(out, if *x { 1 } else { 0 });
            },
            StoredVal::Text(b) => {
                out.push(TAG_TEXT);
                push_le64(out, b.len() as u64);
                push_bytes(out, b.as_slice());
            },
            StoredVal::Nested(b) => {
                out.push(TAG_OBJECT);
                push_le64(out, b.len() as u64);
                push_bytes(out, b.as_slice());
            },
            StoredVal::Other(t, p) => {
                out.push(*t);
                push_le64(out, p.len() as u64);
                push_bytes(out, p.as_slice());
            },
        }
        proof {
            assert(out@ =~= old(out)@ + enc_val(m));
        }
    }

    /// Appends the serialized form of one entry.
    fn push_entry(out: &mut Vec<u8>, e: &Entry)
        ensures
            final(out)@ == old(out)@ + enc_entry(e.key@, e.val.model()),
    {
        push_le64(out, e.key.len() as u64);
        push_bytes(out, e.key.as_slice());
        Self::push_val(out, &e.val);
        proof {
            assert(out@ =~= old(out)@ + enc_entry(e.key@, e.val.model()));
        }
    }

    /// The container's full encoded byte representation: the exact bytes a
    /// peer, a nested insertion or a persistence layer should move verbatim.
    /// The same bytes come back as long as the container is not mutated in
    /// between, since they are a function of the container's entries alone.
    pub fn as_bytes(&self) -> (r: Vec<u8>)
        ensures
            r@ == enc_obj(self@),
    {
        let mut body: Vec<u8> = Vec::new();
        let mut i: usize = 0;
        proof {
            assert(self@.take(0) =~= Seq::<(Seq<u8>, ValModel)>::empty());
        }
        while i < self.entries.len()
            invariant
                i <= self.entries@.len(),
                self@.len() == self.entries@.len(),
                forall|j: int| 0 <= j < self@.len() ==> self@[j] == self.entries@[j].model(),
                body@ == enc_entries(self@.take(i as int)),
            decreases self.entries@.len() - i,
        {
            let ghost prefix = self@.take(i as int);
            Self::push_entry(&mut body, &self.entries[i]);
            proof {
                lemma_enc_entries_push(prefix, self.entries@[i as int].key@,
                    self.entries@[i as int].val.model());
                assert(prefix.push(self@[i as int]) =~= self@.take(i + 1 as int));
            }
            i = i + 1;
        }
        proof {
            assert(self@.take(self@.len() as int) =~= self@);
        }
        let mut out: Vec<u8> = Vec::new();
        out.push(TAG_OBJECT);
        push_le64(&mut out, body.len() as u64);
        push_le64(&mut out, self.entries.len() as u64);
        push_bytes(&mut out, body.as_slice());
        proof {
            assert(out@ =~= enc_obj(self@));
        }
        out
    }
}

/// The mathematical model of a run of entries.
pub(crate) open spec fn entries_model(s: Seq<Entry>) -> EntriesModel {
    Seq::new(s.len(), |i: int| s[i].model())
}

/// The first entry carrying a key, scanning in order.
fn find_key(entries: &Vec<Entry>, key: &[u8]) -> (r: Option<usize>)
    ensures
        match r {
            Option::Some(i) => i < entries@.len() && entries@[i as int].key@ == key@
                && forall|j: int| 0 <= j < i ==> entries@[j].key@ != key@,
            Option::None => forall|j: int| 0 <= j < entries@.len() ==> entries@[j].key@ != key@,
        },
{
    let mut i: usize = 0;
    while i < entries.len()
        invariant
            i <= entries@.len(),
            forall|j: int| 0 <= j < i ==> entries@[j].key@ != key@,
        decreases entries@.len() - i,
    {
        if bytes_eq(entries[i].key.as_slice(), key) {
            return Some(i);
        }
        i = i + 1;
    }
    None
}

/// One entry read from a slice at an offset, mirroring what the wire model
/// reads from the suffix that starts there.
#[verifier::rlimit(60)]
fn parse_one(data: &[u8], pos: usize) -> (r: Option<(Entry, usize)>)
    requires
        pos <= data@.len(),
    ensures
        match r {
            Option::Some((e, newpos)) => {
                &&& parse_entry(data@.subrange(pos as int, data@.len() as int))
                    == Some((e.key@, e.val.model(), newpos - pos as int))
                &&& pos < newpos <= data@.len()
                &&& key_wf(e.key@)
                &&& val_wf(e.val.model())
            },
            Option::None => parse_entry(data@.subrange(pos as int, data@.len() as int)) is None,
        },
{
    let ghost b = data@.subrange(pos as int, data@.len() as int);
    let blen = data.len() - pos;
    if blen < 17 {
        return None;
    }
    let klen64 = read_le64(data, pos);
    proof {
        assert(b.subrange(0, 8) =~= data@.subrange(pos as int, pos + 8));
    }
    if klen64 > (blen - 17) as u64 {
        return None;
    }
    let klen = klen64 as usize;
    let key = copy_range(data, pos + 8, pos + 8 + klen);
    proof {
        assert(b.subrange(8, 8 + klen as int) =~= data@.subrange(pos + 8, pos + 8 + klen));
    }
    if !all_nonzero(data, pos + 8, pos + 8 + klen) {
        proof {
            let i = choose|i: int| pos + 8 <= i < pos + 8 + klen && data@[i] == 0;
            assert(key@[i - pos - 8] == 0);
        }
        return None;
    }
    proof {
        assert forall|i: int| 0 <= i < key@.len() implies key@[i] != 0 by {
            assert(key@[i] == data@[pos + 8 + i]);
        }
    }
    let tag = data[pos + 8 + klen];
    let vlen64 = read_le64(data, pos + 9 + klen);
    proof {
        assert(b[8 + klen as int] == data@[pos + 8 + klen as int]);
        assert(b.subrange(9 + klen as int, 17 + klen as int)
            =~= data@.subrange(pos + 9 + klen, pos + 17 + klen));
    }
    if vlen64 > (blen - 17 - klen) as u64 {
        return None;
    }
    let vlen = vlen64 as usize;
    let ppos = pos + 17 + klen;
    let ghost payload = b.subrange(17 + klen as int, 17 + klen + vlen as int);
    proof {
        assert(payload =~= data@.subrange(ppos as int, ppos + vlen));
    }
    let newpos = ppos + vlen;
    let val: StoredVal = if tag == TAG_INT8 {
        if vlen != 8 {
            return None;
        }
        let repr = read_le64(data, ppos);
        if !(repr < 0x100) {
            return None;
        }
        StoredVal::Int8(i8_from_repr(repr))
    } else if tag == TAG_INT16 {
        if vlen != 8 {
            return None;
        }
        let repr = read_le64(data, ppos);
        if !(repr < 0x1_0000) {
            return None;
        }
        StoredVal::Int16(i16_from_repr(repr))
    } else if tag == TAG_INT32 {
        if vlen != 8 {
            return None;
        }
        let repr = read_le64(data, ppos);
        if !(repr < 0x1_0000_0000) {
            return None;
        }
        StoredVal::Int32(i32_from_repr(repr))
    } else if tag == TAG_INT64 {
        if vlen != 8 {
            return None;
        }
        let repr = read_le64(data, ppos);
        StoredVal::Int64(i64_from_repr(repr))
    } else if tag == TAG_UINT8 {
        if vlen != 8 {
            return None;
        }
        let repr = read_le64(data, ppos);
        if !(repr < 0x100) {
            return None;
        }
        StoredVal::UInt8(repr as u8)
    } else if tag == TAG_UINT16 {
        if vlen != 8 {
            return None;
        }
        let repr = read_le64(data, ppos);
        if !(repr < 0x1_0000) {
            return None;
        }
        StoredVal::UInt16(repr as u16)
    } else if tag == TAG_UINT32 {
        if vlen != 8 {
            return None;
        }
        let repr = read_le64(data, ppos);
        if !(repr < 0x1_0000_0000) {
            return None;
        }
        StoredVal::UInt32(repr as u32)
    } else if tag == TAG_UINT64 {
        if vlen != 8 {
            return None;
        }
        let repr = read_le64(data, ppos);
        StoredVal::UInt64(repr)
    } else if tag == TAG_FLOAT32 {
        if vlen != 8 {
            return None;
        }
        let repr = read_le64(data, ppos);
        if !(repr < 0x1_0000_0000) {
            return None;
        }
        StoredVal::Float32Bits(repr as u32)
    } else if tag == TAG_FLOAT64 {
        if vlen != 8 {
            return None;
        }
        let repr = read_le64(data, ppos);
        StoredVal::Float64Bits(repr)
    } else if tag == TAG_BOOL {
        if vlen != 8 {
            return None;
        }
        let repr = read_le64(data, ppos);
        if !(repr < 2) {
            return None;
        }
        StoredVal::Bool(repr == 1)
    } else if tag == TAG_TEXT {
        if vlen < 1 {
            return None;
        }
        if data[ppos + vlen - 1] != 0 {
            return None;
        }
        if !all_nonzero(data, ppos, ppos + vlen - 1) {
            proof {
                let i = choose|i: int| ppos <= i < ppos + vlen - 1 && data@[i] == 0;
                assert(payload[i - ppos] == 0);
            }
            return None;
        }
        let text = copy_range(data, ppos, ppos + vlen);
        proof {
            assert forall|i: int| 0 <= i < payload.len() - 1 implies payload[i] != 0 by {
                assert(payload[i] == data@[ppos + i]);
            }
            assert(text_wf(payload));
        }
        StoredVal::Text(text)
    } else if tag == TAG_OBJECT {
        StoredVal::Nested(copy_range(data, ppos, ppos + vlen))
    } else {
        StoredVal::Other(tag, copy_range(data, ppos, ppos + vlen))
    };
    Some((Entry { key, val }, newpos))
}

impl BinnObject {
    /// Validates a byte buffer as a serialized container and reconstructs the
    /// container it holds. Succeeds exactly when the buffer is well formed:
    /// on a malformed header, a truncated buffer, incoherent framing or a
    /// duplicate key it reports a distinct failure and never a partially
    /// initialized container.
    #[verifier::rlimit(60)]
    #[verifier::loop_isolation(false)]
    pub fn open(data: &[u8]) -> (r: Result<BinnObject, BinnOpenError>)
        ensures
            match r {
                Result::Ok(o) => parse_obj(data@) == Some(o@) && o.wf(),
                Result::Err(_) => parse_obj(data@) is None,
            },
    {
        if data.len() < 17 {
            return Err(BinnOpenError);
        }
        if data[0] != TAG_OBJECT {
            return Err(BinnOpenError);
        }
        let size = read_le64(data, 1);
        let count = read_le64(data, 9);
        proof {
            assert(data@.subrange(1int, 9int) == data@.subrange(1int, 1int + 8));
            assert(data@.subrange(9int, 17int) == data@.subrange(9int, 9int + 8));
        }
        if size != (data.len() - 17) as u64 {
            return Err(BinnOpenError);
        }
        let ghost full = data@.subrange(17, data@.len() as int);
        let mut entries: Vec<Entry> = Vec::new();
        let mut pos: usize = 17;
        let mut remaining: u64 = count;
        proof {
            assert(entries_model(entries@) =~= Seq::<(Seq<u8>, ValModel)>::empty());
            assert(Seq::<(Seq<u8>, ValModel)>::empty() + parse_entries(full, count as nat)->Some_0
                =~= parse_entries(full, count as nat)->Some_0);
        }
        while remaining > 0
            invariant
                17 <= pos <= data@.len(),
                full == data@.subrange(17, data@.len() as int),
                remaining <= count,
                entries@.len() == count - remaining,
                keys_unique(entries_model(entries@)),
                forall|j: int| 0 <= j < entries@.len()
                    ==> key_wf(#[trigger] entries@[j].key@) && val_wf(entries@[j].val.model()),
                parse_entries(full, count as nat) == (
                    match parse_entries(data@.subrange(pos as int, data@.len() as int),
                        remaining as nat) {
                        Option::None => Option::<EntriesModel>::None,
                        Option::Some(rest) => Option::Some(entries_model(entries@) + rest),
                    }),
            decreases remaining,
        {
            let ghost tail = data@.subrange(pos as int, data@.len() as int);
            let ghost ev = entries_model(entries@);
            match parse_one(data, pos) {
                Option::None => {
                    return Err(BinnOpenError);
                },
                Option::Some((e, newpos)) => {
                    let dup = find_key(&entries, e.key.as_slice());
                    proof {
                        let used = newpos - pos as int;
                        assert(tail.subrange(used, tail.len() as int)
                            =~= data@.subrange(newpos as int, data@.len() as int));
                    }
                    match dup {
                        Option::Some(_) => {
                            proof {
                                if parse_entries(tail, remaining as nat) is Some {
                                    let rest = parse_entries(tail, remaining as nat)->Some_0;
                                    let es = ev + rest;
                                    let j = choose|j: int| 0 <= j < entries@.len()
                                        && entries@[j].key@ == e.key@;
                                    assert(es[j].0 == es[ev.len() as int].0);
                                    assert(!keys_unique(es));
                                }
                            }
                            return Err(BinnOpenError);
                        },
                        Option::None => {
                            proof {
                                if parse_entries(tail, remaining as nat) is Some {
                                    let rest = parse_entries(tail, remaining as nat)->Some_0;
                                    let rest2 = parse_entries(
                                        data@.subrange(newpos as int, data@.len() as int),
                                        (remaining - 1) as nat)->Some_0;
                                    assert(ev + rest
                                        =~= entries_model(entries@.push(e)) + rest2);
                                }
                                assert(entries_model(entries@.push(e))
                                    =~= entries_model(entries@).push((e.key@, e.val.model())));
                                assert(keys_unique(entries_model(entries@.push(e))));
                            }
                            entries.push(e);
                            pos = newpos;
                            remaining = remaining - 1;
                        },
                    }
                },
            }
        }
        if pos != data.len() {
            return Err(BinnOpenError);
        }
        let r = BinnObject { entries };
        proof {
            let tail = data@.subrange(pos as int, data@.len() as int);
            assert(tail.len() == 0);
            assert(parse_entries(tail, 0) == Some(Seq::<(Seq<u8>, ValModel)>::empty()));
            assert(entries_model(r.entries@) + Seq::<(Seq<u8>, ValModel)>::empty()
                =~= entries_model(r.entries@));
            assert(r@ =~= entries_model(r.entries@));
        }
        Ok(r)
    }
}

/// Total, infallible conversion of a concrete value into a tagged value.
/// Every valid value of an implementing type maps to exactly one tagged value.
pub trait IntoBinnValue: Sized {
    /// The tagged value this value converts into.
    spec fn to_value(self) -> BinnValue;

    /// Converts this value into its tagged value.
    fn into_value(self) -> (r: BinnValue)
        ensures
            r == self.to_value(),
    ;
}

/// Typed, partial conversion out of a tagged value. The conversion succeeds
/// iff the active variant matches the requested type; no numeric coercion is
/// performed, so width and signedness are part of the identity of a value.
pub trait FromBinnValue: Sized {
    /// Whether the active variant of a value is the one this type extracts.
    spec fn accepts(vv: ValView) -> bool;

    /// Whether an extracted value is exactly the payload of a value.
    spec fn reflects(x: Self, vv: ValView) -> bool;

    /// Converts a tagged value into this type, if the active variant
    /// matches; reports a wrong-variant failure otherwise, never a crash.
    fn try_from_value(v: BinnValue) -> (r: Result<Self, WrongBinnValue>)
        requires
            v.wf(),
        ensures
            match r {
                Result::Ok(x) => Self::accepts(v@) && Self::reflects(x, v@),
                Result::Err(_) => !Self::accepts(v@),
            },
    ;
}

impl BinnObject {
    /// Looks a key up and reconstructs the tagged value stored under it.
    /// Yields nothing when the key is absent, when the stored tag is not one
    /// this library represents, or when an embedded container fails to
    /// re-open — such a decode failure is local to the key and does not
    /// poison the container.
    pub fn get(&self, key: &[u8]) -> (r: Option<BinnValue>)
        requires
            self.wf(),
        ensures
            match r {
                Option::Some(v) => get_model(self@, key@) == Some(v@) && v.wf(),
                Option::None => get_model(self@, key@) is None,
            },
    {
        match find_key(&self.entries, key) {
            Option::None => {
                proof {
                    lemma_lookup_characterization(self@, key@);
                }
                None
            },
            Option::Some(i) => {
                proof {
                    lemma_lookup_at_index(self@, key@, i as int);
                    assert(val_wf(self@[i as int].1));
                }
                match &self.entries[i].val {
                    StoredVal::Int8(x) => Some(BinnValue::Int8(*x)),
                    StoredVal::Int16(x) => Some(BinnValue::Int16(*x)),
                    StoredVal::Int32(x) => Some(BinnValue::Int32(*x)),
                    StoredVal::Int64(x) => Some(BinnValue::Int64(*x)),
                    StoredVal::UInt8(x) => Some(BinnValue::UInt8(*x)),
                    StoredVal::UInt16(x) => Some(BinnValue::UInt16(*x)),
                    StoredVal::UInt32(x) => Some(BinnValue::UInt32(*x)),
                    StoredVal::UInt64(x) => Some(BinnValue::UInt64(*x)),
                    StoredVal::Float32Bits(x) => Some(BinnValue::Float32(*x)),
                    StoredVal::Float64Bits(x) => Some(BinnValue::Float64(*x)),
                    StoredVal::Bool(x) => Some(BinnValue::Bool(*x)),
                    StoredVal::Text(b) => {
                        let t = copy_range(b.as_slice(), 0, b.len());
                        proof {
                            assert(t@ =~= b@);
                        }
                        Some(BinnValue::Str(t))
                    },
                    StoredVal::Nested(b) => match Self::open(b.as_slice()) {
                        Result::Ok(o) => Some(BinnValue::Object(o)),
                        Result::Err(_) => None,
                    },
                    StoredVal::Other(_, _) => None,
                }
            },
        }
    }

    /// Inserts or overwrites the entry for a key with a typed value. An
    /// existing entry is replaced atomically, value and type together; a
    /// nested container value is serialized to bytes before insertion, so the
    /// inner container may be dropped as soon as the call returns.
    pub fn set<T: IntoBinnValue>(&mut self, key: &[u8], value: T)
        requires
            old(self).wf(),
            key_wf(key@),
            value.to_value().wf(),
        ensures
            final(self).wf(),
            final(self)@ == model_set(old(self)@, key@, value.to_value().stored()),
    {
        let ghost m = value.to_value().stored();
        let bv = value.into_value();
        let sv: StoredVal = match bv {
            BinnValue::Int8(x) => StoredVal::Int8(x),
            BinnValue::Int16(x) => StoredVal::Int16(x),
            BinnValue::Int32(x) => StoredVal::Int32(x),
            BinnValue::Int64(x) => StoredVal::Int64(x),
            BinnValue::UInt8(x) => StoredVal::UInt8(x),
            BinnValue::UInt16(x) => StoredVal::UInt16(x),
            BinnValue::UInt32(x) => StoredVal::UInt32(x),
            BinnValue::UInt64(x) => StoredVal::UInt64(x),
            BinnValue::Float32(x) => StoredVal::Float32Bits(x),
            BinnValue::Float64(x) => StoredVal::Float64Bits(x),
            BinnValue::Bool(x) => StoredVal::Bool(x),
            BinnValue::Str(b) => StoredVal::Text(b),
            BinnValue::Object(o) => StoredVal::Nested(o.as_bytes()),
        };
        proof {
            assert(sv.model() == m);
            assert(val_wf(m));
        }
        let kv = copy_range(key, 0, key.len());
        proof {
            assert(kv@ =~= key@);
        }
        proof {
            lemma_lookup_characterization(old(self)@, key@);
            lemma_lookup_set(old(self)@, key@, m);
        }
        match find_key(&self.entries, key) {
            Option::Some(i) => {
                proof {
                    assert(old(self)@[i as int].0 == key@);
                    assert(forall|j: int| 0 <= j < i ==> old(self)@[j].0 != key@);
                    assert(find_idx(old(self)@, key@) == i as int);
                    assert(lookup(old(self)@, key@) is Some);
                }
                self.entries.set(i, Entry { key: kv, val: sv });
                proof {
                    assert(self@ =~= old(self)@.update(i as int, (key@, m)));
                }
            },
            Option::None => {
                proof {
                    assert(forall|j: int| 0 <= j < old(self)@.len() ==> old(self)@[j].0 != key@);
                    assert(lookup(old(self)@, key@) is None);
                }
                self.entries.push(Entry { key: kv, val: sv });
                proof {
                    assert(self@ =~= old(self)@.push((key@, m)));
                }
            },
        }
    }

    /// Looks a key up and converts the stored value to a concrete type: the
    /// composition of [`BinnObject::get`] and the typed conversion. An absent
    /// key and a present key of a mismatched type are indistinguishable to
    /// the caller: both yield nothing.
    pub fn get_as<T: FromBinnValue>(&self, key: &[u8]) -> (r: Option<T>)
        requires
            self.wf(),
        ensures
            match r {
                Option::Some(x) => get_model(self@, key@) matches Some(vv) && T::accepts(vv)
                    && T::reflects(x, vv),
                Option::None => !(get_model(self@, key@) matches Some(vv) && T::accepts(vv)),
            },
    {
        match self.get(key) {
            Option::Some(v) => match T::try_from_value(v) {
                Result::Ok(x) => Some(x),
                Result::Err(_) => None,
            },
            Option::None => None,
        }
    }
}

impl IntoBinnValue for i8 {
    open spec fn to_value(self) -> BinnValue {
        BinnValue::Int8(self)
    }

    fn into_value(self) -> (r: BinnValue) {
        BinnValue::Int8(self)
    }
}

impl IntoBinnValue for i16 {
    open spec fn to_value(self) -> BinnValue {
        BinnValue::Int16(self)
    }

    fn into_value(self) -> (r: BinnValue) {
        BinnValue::Int16(self)
    }
}

impl IntoBinnValue for i32 {
    open spec fn to_value(self) -> BinnValue {
        BinnValue::Int32(self)
    }

    fn into_value(self) -> (r: BinnValue) {
        BinnValue::Int32(self)
    }
}

impl IntoBinnValue for i64 {
    open spec fn to_value(self) -> BinnValue {
        BinnValue::Int64(self)
    }

    fn into_value(self) -> (r: BinnValue) {
        BinnValue::Int64(self)
    }
}

impl IntoBinnValue for u8 {
    open spec fn to_value(self) -> BinnValue {
        BinnValue::UInt8(self)
    }

    fn into_value(self) -> (r: BinnValue) {
        BinnValue::UInt8(self)
    }
}

impl IntoBinnValue for u16 {
    open spec fn to_value(self) -> BinnValue {
        BinnValue::UInt16(self)
    }

    fn into_value(self) -> (r: BinnValue) {
        BinnValue::UInt16(self)
    }
}

impl IntoBinnValue for u32 {
    open spec fn to_value(self) -> BinnValue {
        BinnValue::UInt32(self)
    }

    fn into_value(self) -> (r: BinnValue) {
        BinnValue::UInt32(self)
    }
}

impl IntoBinnValue for u64 {
    open spec fn to_value(self) -> BinnValue {
        BinnValue::UInt64(self)
    }

    fn into_value(self) -> (r: BinnValue) {
        BinnValue::UInt64(self)
    }
}

impl IntoBinnValue for bool {
    open spec fn to_value(self) -> BinnValue {
        BinnValue::Bool(self)
    }

    fn into_value(self) -> (r: BinnValue) {
        BinnValue::Bool(self)
    }
}

impl IntoBinnValue for Vec<u8> {
    /// Bytes convert into text: the sequence must be null-terminated.
    open spec fn to_value(self) -> BinnValue {
        BinnValue::Str(self)
    }

    fn into_value(self) -> (r: BinnValue) {
        BinnValue::Str(self)
    }
}

impl IntoBinnValue for BinnObject {
    /// A container converts into a nested container value.
    open spec fn to_value(self) -> BinnValue {
        BinnValue::Object(self)
    }

    fn into_value(self) -> (r: BinnValue) {
        BinnValue::Object(self)
    }
}

impl IntoBinnValue for BinnValue {
    /// A tagged value converts into itself.
    open spec fn to_value(self) -> BinnValue {
        self
    }

    fn into_value(self) -> (r: BinnValue) {
        self
    }
}

impl FromBinnValue for i8 {
    open spec fn accepts(vv: ValView) -> bool {
        vv matches ValView::Int8(_)
    }

    open spec fn reflects(x: Self, vv: ValView) -> bool {
        vv == ValView::Int8(x)
    }

    fn try_from_value(v: BinnValue) -> (r: Result<Self, WrongBinnValue>) {
        match v {
            BinnValue::Int8(x) => Ok(x),
            _ => Err(WrongBinnValue),
        }
    }
}

impl FromBinnValue for i16 {
    open spec fn accepts(vv: ValView) -> bool {
        vv matches ValView::Int16(_)
    }

    open spec fn reflects(x: Self, vv: ValView) -> bool {
        vv == ValView::Int16(x)
    }

    fn try_from_value(v: BinnValue) -> (r: Result<Self, WrongBinnValue>) {
        match v {
            BinnValue::Int16(x) => Ok(x),
            _ => Err(WrongBinnValue),
        }
    }
}

impl FromBinnValue for i32 {
    open spec fn accepts(vv: ValView) -> bool {
        vv matches ValView::Int32(_)
    }

    open spec fn reflects(x: Self, vv: ValView) -> bool {
        vv == ValView::Int32(x)
    }

    fn try_from_value(v: BinnValue) -> (r: Result<Self, WrongBinnValue>) {
        match v {
            BinnValue::Int32(x) => Ok(x),
            _ => Err(WrongBinnValue),
        }
    }
}

impl FromBinnValue for i64 {
    open spec fn accepts(vv: ValView) -> bool {
        vv matches ValView::Int64(_)
    }

    open spec fn reflects(x: Self, vv: ValView) -> bool {
        vv == ValView::Int64(x)
    }

    fn try_from_value(v: BinnValue) -> (r: Result<Self, WrongBinnValue>) {
        match v {
            BinnValue::Int64(x) => Ok(x),
            _ => Err(WrongBinnValue),
        }
    }
}

impl FromBinnValue for u8 {
    open spec fn accepts(vv: ValView) -> bool {
        vv matches ValView::UInt8(_)
    }

    open spec fn reflects(x: Self, vv: ValView) -> bool {
        vv == ValView::UInt8(x)
    }

    fn try_from_value(v: BinnValue) -> (r: Result<Self, WrongBinnValue>) {
        match v {
            BinnValue::UInt8(x) => Ok(x),
            _ => Err(WrongBinnValue),
        }
    }
}

impl FromBinnValue for u16 {
    open spec fn accepts(vv: ValView) -> bool {
        vv matches ValView::UInt16(_)
    }

    open spec fn reflects(x: Self, vv: ValView) -> bool {
        vv == ValView::UInt16(x)
    }

    fn try_from_value(v: BinnValue) -> (r: Result<Self, WrongBinnValue>) {
        match v {
            BinnValue::UInt16(x) => Ok(x),
            _ => Err(WrongBinnValue),
        }
    }
}

impl FromBinnValue for u32 {
    open spec fn accepts(vv: ValView) -> bool {
        vv matches ValView::UInt32(_)
    }

    open spec fn reflects(x: Self, vv: ValView) -> bool {
        vv == ValView::UInt32(x)
    }

    fn try_from_value(v: BinnValue) -> (r: Result<Self, WrongBinnValue>) {
        match v {
            BinnValue::UInt32(x) => Ok(x),
            _ => Err(WrongBinnValue),
        }
    }
}

impl FromBinnValue for u64 {
    open spec fn accepts(vv: ValView) -> bool {
        vv matches ValView::UInt64(_)
    }

    open spec fn reflects(x: Self, vv: ValView) -> bool {
        vv == ValView::UInt64(x)
    }

    fn try_from_value(v: BinnValue) -> (r: Result<Self, WrongBinnValue>) {
        match v {
            BinnValue::UInt64(x) => Ok(x),
            _ => Err(WrongBinnValue),
        }
    }
}

impl FromBinnValue for bool {
    open spec fn accepts(vv: ValView) -> bool {
        vv matches ValView::Bool(_)
    }

    open spec fn reflects(x: Self, vv: ValView) -> bool {
        vv == ValView::Bool(x)
    }

    fn try_from_value(v: BinnValue) -> (r: Result<Self, WrongBinnValue>) {
        match v {
            BinnValue::Bool(x) => Ok(x),
            _ => Err(WrongBinnValue),
        }
    }
}

impl FromBinnValue for Vec<u8> {
    /// Text extracts into its bytes, the null terminator included,
    /// byte-for-byte as they were stored.
    open spec fn accepts(vv: ValView) -> bool {
        vv matches ValView::Text(_)
    }

    open spec fn reflects(x: Self, vv: ValView) -> bool {
        vv matches ValView::Text(t) && x@ == t && text_wf(t)
    }

    fn try_from_value(v: BinnValue) -> (r: Result<Self, WrongBinnValue>) {
        match v {
            BinnValue::Str(b) => Ok(b),
            _ => Err(WrongBinnValue),
        }
    }
}

impl FromBinnValue for BinnObject {
    /// A nested container value extracts into the container itself.
    open spec fn accepts(vv: ValView) -> bool {
        vv matches ValView::Object(_)
    }

    open spec fn reflects(x: Self, vv: ValView) -> bool {
        vv matches ValView::Object(es) && x@ == es && x.wf()
    }

    fn try_from_value(v: BinnValue) -> (r: Result<Self, WrongBinnValue>) {
        match v {
            BinnValue::Object(o) => Ok(o),
            _ => Err(WrongBinnValue),
        }
    }
}

/// Width and signedness strictness: a value stored as a signed 64-bit
/// integer looks up as exactly that, and only the 64-bit signed accessor
/// accepts it — every other typed accessor rejects it, even when the numeric
/// value would fit its width.
pub proof fn lemma_width_strictness(s: EntriesModel, k: Seq<u8>, x: i64)
    ensures
        get_model(model_set(s, k, ValModel::Int64(x)), k) == Some(ValView::Int64(x)),
        <i64 as FromBinnValue>::accepts(ValView::Int64(x)),
        !<i8 as FromBinnValue>::accepts(ValView::Int64(x)),
        !<i16 as FromBinnValue>::accepts(ValView::Int64(x)),
        !<i32 as FromBinnValue>::accepts(ValView::Int64(x)),
        !<u8 as FromBinnValue>::accepts(ValView::Int64(x)),
        !<u16 as FromBinnValue>::accepts(ValView::Int64(x)),
        !<u32 as FromBinnValue>::accepts(ValView::Int64(x)),
        !<u64 as FromBinnValue>::accepts(ValView::Int64(x)),
        !<bool as FromBinnValue>::accepts(ValView::Int64(x)),
        !<Vec<u8> as FromBinnValue>::accepts(ValView::Int64(x)),
        !<BinnObject as FromBinnValue>::accepts(ValView::Int64(x)),
{
    lemma_lookup_set(s, k, ValModel::Int64(x));
}

impl Default for BinnObject {
    /// An empty container, as [`BinnObject::new`] builds it.
    fn default() -> (r: Self)
        ensures
            r@ == Seq::<(Seq<u8>, ValModel)>::empty(),
            r.wf(),
    {
        Self::new()
    }
}

} // verus!
