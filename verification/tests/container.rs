use binn::{BinnObject, BinnValue, FromBinnValue, WrongBinnValue};

fn k(s: &str) -> Vec<u8> {
    s.as_bytes().to_vec()
}

#[test]
fn create_object_test() {
    let _binn = BinnObject::new();
}

#[test]
fn setters_getters_test() {
    let mut binn = BinnObject::new();

    let hello = b"hello\0".to_vec();

    binn.set(&k("i8"), 42i8);
    binn.set(&k("i16"), 42i16);
    binn.set(&k("i32"), 42i32);
    binn.set(&k("i64"), 42i64);
    binn.set(&k("u8"), 42u8);
    binn.set(&k("u16"), 42u16);
    binn.set(&k("u32"), 42u32);
    binn.set(&k("u64"), 42u64);
    binn.set(&k("f32"), BinnValue::Float32(3.14f32.to_bits()));
    binn.set(&k("f64"), BinnValue::Float64(3.14f64.to_bits()));
    binn.set(&k("bool"), true);
    binn.set(&k("str"), hello.clone());

    assert_eq!(binn.get_as::<i8>(&k("i8")), Some(42));
    assert_eq!(binn.get_as::<i16>(&k("i16")), Some(42));
    assert_eq!(binn.get_as::<i32>(&k("i32")), Some(42));
    assert_eq!(binn.get_as::<i64>(&k("i64")), Some(42));
    assert_eq!(binn.get_as::<u8>(&k("u8")), Some(42));
    assert_eq!(binn.get_as::<u16>(&k("u16")), Some(42));
    assert_eq!(binn.get_as::<u32>(&k("u32")), Some(42));
    assert_eq!(binn.get_as::<u64>(&k("u64")), Some(42));
    assert_eq!(binn.get(&k("f32")), Some(BinnValue::Float32(3.14f32.to_bits())));
    assert_eq!(binn.get(&k("f64")), Some(BinnValue::Float64(3.14f64.to_bits())));
    assert_eq!(binn.get_as::<bool>(&k("bool")), Some(true));
    assert_eq!(binn.get_as::<Vec<u8>>(&k("str")), Some(hello));
    assert_eq!(binn.get_as::<bool>(&k("random")), None);
}

#[test]
fn as_bytes_test() {
    let mut binn = BinnObject::new();

    let hello = b"hello\0".to_vec();

    binn.set(&k("i8"), 42i8);
    binn.set(&k("i16"), 42i16);
    binn.set(&k("i32"), 42i32);
    binn.set(&k("i64"), 42i64);
    binn.set(&k("u8"), 42u8);
    binn.set(&k("u16"), 42u16);
    binn.set(&k("u32"), 42u32);
    binn.set(&k("u64"), 42u64);
    binn.set(&k("f32"), BinnValue::Float32(3.14f32.to_bits()));
    binn.set(&k("f64"), BinnValue::Float64(3.14f64.to_bits()));
    binn.set(&k("bool"), true);
    binn.set(&k("str"), hello.clone());

    let bytes = binn.as_bytes();
    let other_binn = BinnObject::open(&bytes).expect("failed to deserialize");

    assert_eq!(other_binn.get_as::<i8>(&k("i8")), Some(42));
    assert_eq!(other_binn.get_as::<i16>(&k("i16")), Some(42));
    assert_eq!(other_binn.get_as::<i32>(&k("i32")), Some(42));
    assert_eq!(other_binn.get_as::<i64>(&k("i64")), Some(42));
    assert_eq!(other_binn.get_as::<u8>(&k("u8")), Some(42));
    assert_eq!(other_binn.get_as::<u16>(&k("u16")), Some(42));
    assert_eq!(other_binn.get_as::<u32>(&k("u32")), Some(42));
    assert_eq!(other_binn.get_as::<u64>(&k("u64")), Some(42));
    assert_eq!(other_binn.get(&k("f32")), Some(BinnValue::Float32(3.14f32.to_bits())));
    assert_eq!(other_binn.get(&k("f64")), Some(BinnValue::Float64(3.14f64.to_bits())));
    assert_eq!(other_binn.get_as::<bool>(&k("bool")), Some(true));
    assert_eq!(other_binn.get_as::<Vec<u8>>(&k("str")), Some(hello));
    assert_eq!(other_binn.get_as::<bool>(&k("random")), None);
}

#[test]
fn recursive_object_test() {
    let mut outer = BinnObject::new();
    let mut inner = BinnObject::new();

    inner.set(&k("val"), 42i8);
    outer.set(&k("obj"), inner);

    assert_eq!(
        outer
            .get_as::<BinnObject>(&k("obj"))
            .and_then(|o| o.get_as::<i8>(&k("val"))),
        Some(42)
    );
}

#[test]
fn empty_container_exact_bytes() {
    // Tag byte, 8-byte payload size (0), 8-byte entry count (0).
    let binn = BinnObject::new();
    let mut expected = vec![0xE2u8];
    expected.extend_from_slice(&[0u8; 16]);
    assert_eq!(binn.as_bytes(), expected);
}

#[test]
fn single_entry_exact_bytes() {
    // One u8 entry under key "a": key length, key, tag, payload length,
    // 8-byte little-endian payload.
    let mut binn = BinnObject::new();
    binn.set(&k("a"), 42u8);

    let mut body: Vec<u8> = Vec::new();
    body.extend_from_slice(&[1, 0, 0, 0, 0, 0, 0, 0]); // key length
    body.push(b'a'); // key
    body.push(0x20); // unsigned 8-bit tag
    body.extend_from_slice(&[8, 0, 0, 0, 0, 0, 0, 0]); // payload length
    body.extend_from_slice(&[42, 0, 0, 0, 0, 0, 0, 0]); // payload

    let mut expected = vec![0xE2u8];
    expected.extend_from_slice(&(body.len() as u64).to_le_bytes());
    expected.extend_from_slice(&1u64.to_le_bytes());
    expected.extend_from_slice(&body);

    assert_eq!(binn.as_bytes(), expected);
}

#[test]
fn as_bytes_stable_between_calls() {
    let mut binn = BinnObject::new();
    binn.set(&k("x"), 7i32);
    assert_eq!(binn.as_bytes(), binn.as_bytes());
}

#[test]
fn width_and_signedness_strictness() {
    let mut binn = BinnObject::new();
    binn.set(&k("k"), 1i64);

    assert_eq!(binn.get_as::<i8>(&k("k")), None);
    assert_eq!(binn.get_as::<i16>(&k("k")), None);
    assert_eq!(binn.get_as::<i32>(&k("k")), None);
    assert_eq!(binn.get_as::<u8>(&k("k")), None);
    assert_eq!(binn.get_as::<u16>(&k("k")), None);
    assert_eq!(binn.get_as::<u32>(&k("k")), None);
    assert_eq!(binn.get_as::<u64>(&k("k")), None);
    assert_eq!(binn.get_as::<bool>(&k("k")), None);
    assert_eq!(binn.get_as::<Vec<u8>>(&k("k")), None);
    assert_eq!(binn.get_as::<i64>(&k("k")), Some(1));
}

#[test]
fn missing_key_yields_none() {
    let mut binn = BinnObject::new();
    binn.set(&k("present"), 5u32);
    assert_eq!(binn.get(&k("absent")), None);
    assert_eq!(binn.get_as::<u32>(&k("absent")), None);
}

#[test]
fn overwrite_leaves_second_value() {
    let mut binn = BinnObject::new();
    binn.set(&k("k"), 9i64);
    binn.set(&k("k"), true);

    assert_eq!(binn.get_as::<i64>(&k("k")), None);
    assert_eq!(binn.get_as::<bool>(&k("k")), Some(true));

    // An overwrite leaves other keys untouched.
    binn.set(&k("other"), 3u16);
    binn.set(&k("k"), 8u8);
    assert_eq!(binn.get_as::<u16>(&k("other")), Some(3));
    assert_eq!(binn.get_as::<u8>(&k("k")), Some(8));
}

#[test]
fn text_round_trip_byte_for_byte() {
    let mut binn = BinnObject::new();
    let hello = b"hello\0".to_vec();
    binn.set(&k("str"), hello.clone());

    let reopened = BinnObject::open(&binn.as_bytes()).expect("well-formed bytes must open");
    assert_eq!(reopened.get_as::<Vec<u8>>(&k("str")), Some(hello));
}

#[test]
fn open_rejects_empty_and_short_buffers() {
    assert!(BinnObject::open(&[]).is_err());
    for n in 1..17 {
        assert!(BinnObject::open(&vec![0xE2u8; n]).is_err());
    }
}

#[test]
fn open_rejects_truncated_buffers() {
    let mut binn = BinnObject::new();
    binn.set(&k("a"), 1u8);
    binn.set(&k("b"), b"text\0".to_vec());
    let bytes = binn.as_bytes();
    for n in 0..bytes.len() {
        assert!(BinnObject::open(&bytes[..n]).is_err());
    }
}

#[test]
fn open_never_succeeds_silently_on_garbage() {
    // A crude deterministic byte generator; open must reject or faithfully
    // re-serialize every buffer, and never crash or read out of bounds.
    let mut state: u64 = 0x2545F4914F6CDD1D;
    for len in 0..200usize {
        let mut buf = Vec::with_capacity(len);
        for _ in 0..len {
            state = state.wrapping_mul(6364136223846793005).wrapping_add(1442695040888963407);
            buf.push((state >> 33) as u8);
        }
        if let Ok(obj) = BinnObject::open(&buf) {
            assert_eq!(obj.as_bytes(), buf);
        }
    }
}

#[test]
fn wrong_variant_conversion_is_recoverable() {
    assert_eq!(
        <i8 as FromBinnValue>::try_from_value(BinnValue::Bool(true)),
        Err(WrongBinnValue)
    );
    assert_eq!(<i8 as FromBinnValue>::try_from_value(BinnValue::Int8(5)), Ok(5));
}

#[test]
fn corrupt_nested_container_is_local() {
    // An entry framed as a nested container whose payload is garbage: the
    // buffer opens, the corrupt key reads as absent, the rest still works.
    let mut body: Vec<u8> = Vec::new();
    body.extend_from_slice(&1u64.to_le_bytes());
    body.push(b'k');
    body.push(0xE2); // nested-container tag
    body.extend_from_slice(&3u64.to_le_bytes());
    body.extend_from_slice(&[1, 2, 3]); // not a well-formed container
    body.extend_from_slice(&1u64.to_le_bytes());
    body.push(b'g');
    body.push(0x01); // boolean tag
    body.extend_from_slice(&8u64.to_le_bytes());
    body.extend_from_slice(&1u64.to_le_bytes());

    let mut buf = vec![0xE2u8];
    buf.extend_from_slice(&(body.len() as u64).to_le_bytes());
    buf.extend_from_slice(&2u64.to_le_bytes());
    buf.extend_from_slice(&body);

    let obj = BinnObject::open(&buf).expect("framing is coherent");
    assert_eq!(obj.get(&k("k")), None);
    assert_eq!(obj.get_as::<bool>(&k("g")), Some(true));
}

#[test]
fn unrecognized_tag_reads_as_absent() {
    // An entry under a tag this library does not define: carried through on
    // open, treated as not representable on lookup.
    let mut body: Vec<u8> = Vec::new();
    body.extend_from_slice(&1u64.to_le_bytes());
    body.push(b'k');
    body.push(0x99); // no such tag
    body.extend_from_slice(&2u64.to_le_bytes());
    body.extend_from_slice(&[7, 7]);

    let mut buf = vec![0xE2u8];
    buf.extend_from_slice(&(body.len() as u64).to_le_bytes());
    buf.extend_from_slice(&1u64.to_le_bytes());
    buf.extend_from_slice(&body);

    let obj = BinnObject::open(&buf).expect("framing is coherent");
    assert_eq!(obj.get(&k("k")), None);
    // The unknown entry survives a round trip verbatim.
    assert_eq!(obj.as_bytes(), buf);
}

#[test]
fn open_rejects_duplicate_keys() {
    let mut entry: Vec<u8> = Vec::new();
    entry.extend_from_slice(&1u64.to_le_bytes());
    entry.push(b'k');
    entry.push(0x01);
    entry.extend_from_slice(&8u64.to_le_bytes());
    entry.extend_from_slice(&0u64.to_le_bytes());

    let mut body = entry.clone();
    body.extend_from_slice(&entry);

    let mut buf = vec![0xE2u8];
    buf.extend_from_slice(&(body.len() as u64).to_le_bytes());
    buf.extend_from_slice(&2u64.to_le_bytes());
    buf.extend_from_slice(&body);

    assert!(BinnObject::open(&buf).is_err());
}

#[test]
fn default_is_empty() {
    let binn = BinnObject::default();
    assert_eq!(binn.as_bytes(), BinnObject::new().as_bytes());
    assert_eq!(binn.get(&k("any")), None);
}

#[test]
fn nested_round_trip_through_bytes() {
    let mut inner = BinnObject::new();
    inner.set(&k("val"), 42i8);
    let mut mid = BinnObject::new();
    mid.set(&k("inner"), inner);
    mid.set(&k("note"), b"deep\0".to_vec());
    let mut outer = BinnObject::new();
    outer.set(&k("mid"), mid);

    let reopened = BinnObject::open(&outer.as_bytes()).expect("well-formed bytes must open");
    let mid_back = reopened.get_as::<BinnObject>(&k("mid")).expect("mid present");
    assert_eq!(mid_back.get_as::<Vec<u8>>(&k("note")), Some(b"deep\0".to_vec()));
    let inner_back = mid_back.get_as::<BinnObject>(&k("inner")).expect("inner present");
    assert_eq!(inner_back.get_as::<i8>(&k("val")), Some(42));
}

#[test]
fn negative_scalars_round_trip() {
    let mut binn = BinnObject::new();
    binn.set(&k("i8"), -42i8);
    binn.set(&k("i16"), -30000i16);
    binn.set(&k("i32"), i32::MIN);
    binn.set(&k("i64"), i64::MIN);
    binn.set(&k("u64max"), u64::MAX);

    let reopened = BinnObject::open(&binn.as_bytes()).expect("well-formed bytes must open");
    assert_eq!(reopened.get_as::<i8>(&k("i8")), Some(-42));
    assert_eq!(reopened.get_as::<i16>(&k("i16")), Some(-30000));
    assert_eq!(reopened.get_as::<i32>(&k("i32")), Some(i32::MIN));
    assert_eq!(reopened.get_as::<i64>(&k("i64")), Some(i64::MIN));
    assert_eq!(reopened.get_as::<u64>(&k("u64max")), Some(u64::MAX));
}
