//! Laws that relate the write path, the read path and the codec.

use vstd::prelude::*;
use crate::wire::{
    ValModel, ValView, EntriesModel, le64, from_le64, lemma_le64_roundtrip, i8_repr, i16_repr,
    i32_repr, i64_repr, key_wf, val_wf, entries_wf, val_tag, val_payload, enc_entry, enc_entries,
    enc_obj, decode_val, parse_entry, parse_entries, parse_obj, find_idx, lookup, model_set,
    open_model, get_model, sizes_ok, TAG_OBJECT,
};

verus! {

/// Decoding a well-formed stored value from its own tag and payload yields
/// the value back, exactly.
pub proof fn lemma_decode_enc_val(m: ValModel)
    requires
        val_wf(m),
    ensures
        decode_val(val_tag(m), val_payload(m)) == Some(m),
{
    match m {
        ValModel::Int8(x) => {
            lemma_le64_roundtrip(i8_repr(x));
        },
        ValModel::Int16(x) => {
            lemma_le64_roundtrip(i16_repr(x));
        },
        ValModel::Int32(x) => {
            lemma_le64_roundtrip(i32_repr(x));
        },
        ValModel::Int64(x) => {
            lemma_le64_roundtrip(i64_repr(x));
        },
        ValModel::UInt8(x) => {
            lemma_le64_roundtrip(x as u64);
        },
        ValModel::UInt16(x) => {
            lemma_le64_roundtrip(x as u64);
        },
        ValModel::UInt32(x) => {
            lemma_le64_roundtrip(x as u64);
        },
        ValModel::UInt64(x) => {
            lemma_le64_roundtrip(x);
        },
        ValModel::Float32Bits(x) => {
            lemma_le64_roundtrip(x as u64);
        },
        ValModel::Float64Bits(x) => {
            lemma_le64_roundtrip(x);
        },
        ValModel::Bool(b) => {
            lemma_le64_roundtrip(if b { 1u64 } else { 0u64 });
        },
        ValModel::Text(_) => {},
        ValModel::Nested(_) => {},
        ValModel::Other(_, _) => {},
    }
}

/// One serialized entry at the front of a byte run reads back as exactly its
/// key and value, consuming exactly its own bytes, whatever follows it.
pub proof fn lemma_parse_entry_enc(k: Seq<u8>, m: ValModel, rest: Seq<u8>)
    requires
        key_wf(k),
        val_wf(m),
        k.len() < 0x1_0000_0000_0000_0000,
        val_payload(m).len() < 0x1_0000_0000_0000_0000,
    ensures
        parse_entry(enc_entry(k, m) + rest) == Some((k, m, enc_entry(k, m).len() as int)),
{
    let klen = k.len() as int;
    let p = val_payload(m);
    let plen = p.len() as int;
    let b = enc_entry(k, m) + rest;
    assert(enc_entry(k, m).len() == 17 + klen + plen);
    assert(b.subrange(0, 8) =~= le64(k.len() as u64));
    lemma_le64_roundtrip(k.len() as u64);
    assert(from_le64(b.subrange(0, 8)) as int == klen);
    assert(b.subrange(8, 8 + klen) =~= k);
    assert(b[8 + klen] == val_tag(m));
    assert(b.subrange(9 + klen, 17 + klen) =~= le64(p.len() as u64));
    lemma_le64_roundtrip(p.len() as u64);
    assert(from_le64(b.subrange(9 + klen, 17 + klen)) as int == plen);
    assert(b.subrange(17 + klen, 17 + klen + plen) =~= p);
    lemma_decode_enc_val(m);
}

/// The suffix of a concatenation after the first part is the second part.
proof fn lemma_concat_suffix(a: Seq<u8>, b: Seq<u8>)
    ensures
        (a + b).subrange(a.len() as int, (a + b).len() as int) == b,
{
    assert((a + b).subrange(a.len() as int, (a + b).len() as int) =~= b);
}

/// A serialized run of well-formed entries reads back as exactly those
/// entries, in order.
pub proof fn lemma_parse_entries_enc(s: EntriesModel)
    requires
        forall|i: int| 0 <= i < s.len()
            ==> key_wf(#[trigger] s[i].0) && val_wf(s[i].1)
                && s[i].0.len() < 0x1_0000_0000_0000_0000
                && val_payload(s[i].1).len() < 0x1_0000_0000_0000_0000,
    ensures
        parse_entries(enc_entries(s), s.len() as nat) == Some(s),
    decreases s.len(),
{
    if s.len() == 0 {
        assert(s =~= Seq::<(Seq<u8>, ValModel)>::empty());
    } else {
        let k = s[0].0;
        let m = s[0].1;
        let tail = s.drop_first();
        let e = enc_entry(k, m);
        let b = enc_entries(s);
        assert(b == e + enc_entries(tail));
        lemma_parse_entry_enc(k, m, enc_entries(tail));
        lemma_concat_suffix(e, enc_entries(tail));
        assert(b.subrange(e.len() as int, b.len() as int) == enc_entries(tail));
        assert(forall|i: int| 0 <= i < tail.len() ==> tail[i] == s[i + 1]);
        lemma_parse_entries_enc(tail);
        assert(seq![(k, m)] + tail =~= s);
    }
}

/// Round-trip fidelity of the codec: serializing well-formed entries and
/// opening the bytes yields exactly the entries that were serialized — every
/// value with the width and signedness it was stored under.
pub proof fn lemma_parse_enc_obj(s: EntriesModel)
    requires
        entries_wf(s),
        sizes_ok(s),
    ensures
        parse_obj(enc_obj(s)) == Some(s),
{
    let body = enc_entries(s);
    let b = enc_obj(s);
    assert(b.len() == 17 + body.len());
    assert(b[0] == TAG_OBJECT);
    assert(b.subrange(1, 9) =~= le64(body.len() as u64));
    lemma_le64_roundtrip(body.len() as u64);
    assert(b.subrange(9, 17) =~= le64(s.len() as u64));
    lemma_le64_roundtrip(s.len() as u64);
    assert(b.subrange(17, b.len() as int) =~= body);
    lemma_parse_entries_enc(s);
}

/// Serializing one more entry appends its bytes to the run.
pub proof fn lemma_enc_entries_push(s: EntriesModel, k: Seq<u8>, m: ValModel)
    ensures
        enc_entries(s.push((k, m))) == enc_entries(s) + enc_entry(k, m),
    decreases s.len(),
{
    if s.len() == 0 {
        assert(s.push((k, m)).drop_first() =~= s);
        assert(enc_entries(s) + enc_entry(k, m) =~= enc_entry(k, m) + enc_entries(s));
    } else {
        assert(s.push((k, m)).drop_first() =~= s.drop_first().push((k, m)));
        lemma_enc_entries_push(s.drop_first(), k, m);
        assert(enc_entry(s[0].0, s[0].1) + (enc_entries(s.drop_first()) + enc_entry(k, m))
            =~= (enc_entry(s[0].0, s[0].1) + enc_entries(s.drop_first())) + enc_entry(k, m));
    }
}

/// The first entry carrying a key sits at `find_idx`: every entry before it
/// carries another key, and the lookup yields its value. A key is absent
/// exactly when `find_idx` runs off the end.
pub proof fn lemma_lookup_characterization(s: EntriesModel, k: Seq<u8>)
    ensures
        0 <= find_idx(s, k) <= s.len(),
        forall|j: int| 0 <= j < find_idx(s, k) ==> s[j].0 != k,
        find_idx(s, k) == s.len() ==> lookup(s, k) is None,
        find_idx(s, k) < s.len() ==> s[find_idx(s, k)].0 == k
            && lookup(s, k) == Some(s[find_idx(s, k)].1),
    decreases s.len(),
{
    if s.len() == 0 {
    } else if s[0].0 == k {
    } else {
        lemma_lookup_characterization(s.drop_first(), k);
        assert forall|j: int| 0 <= j < find_idx(s, k) implies s[j].0 != k by {
            if j > 0 {
                assert(s.drop_first()[j - 1] == s[j]);
            }
        }
    }
}

/// Setting a key stores exactly its new value: the key looks up to the value
/// just set, every other key looks up to what it held before, and a container
/// whose entries were well formed stays well formed when the key and the
/// value are valid.
pub proof fn lemma_lookup_set(s: EntriesModel, k: Seq<u8>, m: ValModel)
    ensures
        lookup(model_set(s, k, m), k) == Some(m),
        forall|k2: Seq<u8>| k2 != k ==> lookup(model_set(s, k, m), k2) == lookup(s, k2),
        entries_wf(s) && key_wf(k) && val_wf(m) ==> entries_wf(model_set(s, k, m)),
{
    lemma_lookup_characterization(s, k);
    let s2 = model_set(s, k, m);
    let i = find_idx(s, k);
    lemma_lookup_at_index(s2, k, if i < s.len() { i } else { s.len() as int });
    assert forall|k2: Seq<u8>| k2 != k implies lookup(s2, k2) == lookup(s, k2) by {
        lemma_lookup_frame(s, k, m, k2);
    }
}

/// A lookup of the key of the first entry that carries it yields that entry's value.
pub(crate) proof fn lemma_lookup_at_index(s: EntriesModel, k: Seq<u8>, i: int)
    requires
        0 <= i < s.len(),
        s[i].0 == k,
        forall|j: int| 0 <= j < i ==> s[j].0 != k,
    ensures
        lookup(s, k) == Some(s[i].1),
    decreases s.len(),
{
    if s[0].0 == k {
    } else {
        assert(forall|j: int| 0 <= j < s.drop_first().len() ==> s.drop_first()[j] == s[j + 1]);
        lemma_lookup_at_index(s.drop_first(), k, i - 1);
    }
}

/// Setting one key leaves what every other key looks up to unchanged.
proof fn lemma_lookup_frame(s: EntriesModel, k: Seq<u8>, m: ValModel, k2: Seq<u8>)
    requires
        k2 != k,
    ensures
        lookup(model_set(s, k, m), k2) == lookup(s, k2),
    decreases s.len(),
{
    reveal_with_fuel(lookup, 3);
    lemma_lookup_characterization(s, k);
    let s2 = model_set(s, k, m);
    if s.len() == 0 {
        assert(s2.drop_first() =~= Seq::<(Seq<u8>, ValModel)>::empty());
    } else if lookup(s, k) is Some {
        let i = find_idx(s, k);
        if i == 0 {
            assert(s[0].0 == k);
            assert(s2[0].0 == k);
            assert(s2.drop_first() =~= s.drop_first());
        } else {
            assert(s2[0] == s[0]);
            lemma_find_idx_step(s, k);
            lemma_lookup_characterization(s.drop_first(), k);
            assert(s2.drop_first() =~= model_set(s.drop_first(), k, m));
            lemma_lookup_frame(s.drop_first(), k, m, k2);
        }
    } else {
        assert(s2[0] == s[0]);
        if s[0].0 == k2 {
        } else {
            assert(lookup(s.drop_first(), k) is None);
            assert(s2.drop_first() =~= s.drop_first().push((k, m)));
            lemma_lookup_frame(s.drop_first(), k, m, k2);
        }
    }
}

/// Round-trip fidelity: setting a key in well-formed entries, serializing
/// them and opening the bytes again yields entries in which the key looks up
/// to exactly the value that was set — same width, same signedness, same
/// payload — and every other key looks up to what it held before.
pub proof fn lemma_round_trip_fidelity(s: EntriesModel, k: Seq<u8>, m: ValModel)
    requires
        entries_wf(s),
        key_wf(k),
        val_wf(m),
        sizes_ok(model_set(s, k, m)),
    ensures
        parse_obj(enc_obj(model_set(s, k, m))) == Some(model_set(s, k, m)),
        lookup(model_set(s, k, m), k) == Some(m),
        forall|k2: Seq<u8>| k2 != k ==> lookup(model_set(s, k, m), k2) == lookup(s, k2),
{
    lemma_lookup_set(s, k, m);
    lemma_parse_enc_obj(model_set(s, k, m));
}

/// A missing key: a lookup of a key that no entry carries yields nothing —
/// an absence, indistinguishable from any other unrepresentable value.
pub proof fn lemma_missing_key(s: EntriesModel, k: Seq<u8>)
    requires
        forall|i: int| 0 <= i < s.len() ==> (#[trigger] s[i].0) != k,
    ensures
        lookup(s, k) is None,
        get_model(s, k) is None,
{
    lemma_lookup_characterization(s, k);
}

/// Overwrite semantics: setting the same key twice leaves only the second
/// value retrievable, and preserves well-formedness when the key and both
/// values are valid.
pub proof fn lemma_overwrite(s: EntriesModel, k: Seq<u8>, m1: ValModel, m2: ValModel)
    ensures
        lookup(model_set(model_set(s, k, m1), k, m2), k) == Some(m2),
        forall|k2: Seq<u8>| k2 != k
            ==> lookup(model_set(model_set(s, k, m1), k, m2), k2) == lookup(s, k2),
        entries_wf(s) && key_wf(k) && val_wf(m1) && val_wf(m2)
            ==> entries_wf(model_set(model_set(s, k, m1), k, m2)),
{
    lemma_lookup_set(s, k, m1);
    lemma_lookup_set(model_set(s, k, m1), k, m2);
}

/// Nested round-trip: a well-formed container serialized and stored as a
/// nested value opens back into exactly its own entries.
pub proof fn lemma_nested_round_trip(inner: EntriesModel)
    requires
        entries_wf(inner),
        sizes_ok(inner),
    ensures
        open_model(ValModel::Nested(enc_obj(inner))) == Some(ValView::Object(inner)),
{
    lemma_parse_enc_obj(inner);
    lemma_open_model_nested(enc_obj(inner), inner);
}

/// A nested value whose bytes parse opens into exactly what they parse to.
proof fn lemma_open_model_nested(b: Seq<u8>, es: EntriesModel)
    requires
        parse_obj(b) == Some(es),
    ensures
        open_model(ValModel::Nested(b)) == Some(ValView::Object(es)),
{
}

/// Text round-trip: text set under a key is looked up byte-for-byte
/// identical, its null terminator included.
pub proof fn lemma_text_round_trip(s: EntriesModel, k: Seq<u8>, t: Seq<u8>)
    ensures
        lookup(model_set(s, k, ValModel::Text(t)), k) == Some(ValModel::Text(t)),
        get_model(model_set(s, k, ValModel::Text(t)), k) == Some(ValView::Text(t)),
{
    lemma_lookup_set(s, k, ValModel::Text(t));
}

/// A malformed open, short form: a buffer too short to hold a container
/// header never opens — the empty buffer among them.
pub proof fn lemma_open_short_buffer(b: Seq<u8>)
    requires
        b.len() < 17,
    ensures
        parse_obj(b) is None,
{
}

/// A malformed open, truncated form: any strict prefix of a serialized
/// container fails to open; truncation is detected, never read past.
pub proof fn lemma_open_truncated(s: EntriesModel, i: int)
    requires
        entries_wf(s),
        sizes_ok(s),
        0 <= i < enc_obj(s).len(),
    ensures
        parse_obj(enc_obj(s).take(i)) is None,
{
    let b = enc_obj(s);
    let t = b.take(i);
    if i >= 17 {
        assert(t.subrange(1, 9) =~= b.subrange(1, 9));
        assert(b.subrange(1, 9) =~= le64(enc_entries(s).len() as u64));
        lemma_le64_roundtrip(enc_entries(s).len() as u64);
        assert(b.len() == 17 + enc_entries(s).len());
        assert(from_le64(t.subrange(1, 9)) as int != t.len() - 17);
    }
}

/// When the first entry carries another key, `find_idx` steps past it.
proof fn lemma_find_idx_step(s: EntriesModel, k: Seq<u8>)
    requires
        s.len() > 0,
        s[0].0 != k,
    ensures
        find_idx(s, k) == 1 + find_idx(s.drop_first(), k),
        lookup(s, k) == lookup(s.drop_first(), k),
{
}

} // verus!
