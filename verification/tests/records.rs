use wrpc_blobstore::records::{
    ContainerMetadata, EncodeError, Field, ObjectId, ObjectMetadata, ReceiveError, Received,
};

fn complete<T>(r: Result<Received<T, Field>, ReceiveError>) -> (T, Vec<u8>) {
    match r {
        Ok(Received::Complete { value, rest }) => (value, rest),
        Ok(Received::Incomplete(f)) => panic!("incomplete in {f:?}"),
        Err(e) => panic!("error: {}", e.message()),
    }
}

#[test]
fn container_metadata_encodes_as_leb128() {
    let mut buf = Vec::new();
    ContainerMetadata { created_at: 300 }.encode_sync(&mut buf).unwrap();
    assert_eq!(buf, vec![0xac, 0x02]);
    let mut small = Vec::new();
    ContainerMetadata { created_at: 5 }.encode_sync(&mut small).unwrap();
    assert_eq!(small, vec![0x05]);
}

#[test]
fn container_metadata_round_trip_keeps_following_bytes() {
    let m = ContainerMetadata { created_at: 1_725_029_869 };
    let mut buf = Vec::new();
    m.encode_sync(&mut buf).unwrap();
    buf.extend_from_slice(&[7, 8]);
    let (v, rest) = complete(ContainerMetadata::receive(&buf));
    assert_eq!(v, m);
    assert_eq!(rest, vec![7, 8]);
}

#[test]
fn u64_max_takes_ten_bytes() {
    let m = ContainerMetadata { created_at: u64::MAX };
    let mut buf = Vec::new();
    m.encode_sync(&mut buf).unwrap();
    assert_eq!(buf, vec![0xff, 0xff, 0xff, 0xff, 0xff, 0xff, 0xff, 0xff, 0xff, 0x01]);
    let (v, rest) = complete(ContainerMetadata::receive(&buf));
    assert_eq!(v.created_at, u64::MAX);
    assert!(rest.is_empty());
}

#[test]
fn overflowing_integer_is_invalid() {
    let bytes = [0xff, 0xff, 0xff, 0xff, 0xff, 0xff, 0xff, 0xff, 0xff, 0x02];
    match ContainerMetadata::receive(&bytes) {
        Err(e) => assert_eq!(e, ReceiveError { field: Field::CreatedAt }),
        _ => panic!("expected an error"),
    }
}

#[test]
fn padded_integer_is_accepted() {
    let (v, rest) = complete(ContainerMetadata::receive(&[0x80, 0x00]));
    assert_eq!(v.created_at, 0);
    assert!(rest.is_empty());
}

#[test]
fn empty_and_partial_input_is_incomplete() {
    assert!(matches!(ContainerMetadata::receive(&[]), Ok(Received::Incomplete(Field::CreatedAt))));
    assert!(matches!(ContainerMetadata::receive(&[0x80]), Ok(Received::Incomplete(Field::CreatedAt))));
    let m = ObjectMetadata { created_at: 200, size: 70_000 };
    let mut buf = Vec::new();
    m.encode_sync(&mut buf).unwrap();
    for n in 0..buf.len() {
        let field = if n < 2 { Field::CreatedAt } else { Field::Size };
        match ObjectMetadata::receive(&buf[..n]) {
            Ok(Received::Incomplete(f)) => assert_eq!(f, field),
            _ => panic!("expected incomplete"),
        }
    }
}

#[test]
fn object_metadata_round_trip() {
    let m = ObjectMetadata { created_at: 200, size: 70_000 };
    let mut buf = Vec::new();
    m.encode_sync(&mut buf).unwrap();
    assert_eq!(buf, vec![0xc8, 0x01, 0xf0, 0xa2, 0x04]);
    let (v, rest) = complete(ObjectMetadata::receive(&buf));
    assert_eq!(v, m);
    assert!(rest.is_empty());
}

#[test]
fn object_metadata_invalid_size_names_the_field() {
    let bytes = [0x01, 0xff, 0xff, 0xff, 0xff, 0xff, 0xff, 0xff, 0xff, 0xff, 0x7f];
    match ObjectMetadata::receive(&bytes) {
        Err(e) => {
            assert_eq!(e.field, Field::Size);
            assert_eq!(e.message(), "failed to receive `size`");
        }
        _ => panic!("expected an error"),
    }
}

#[test]
fn object_id_encodes_length_prefixed_strings() {
    let id = ObjectId { container: "a".to_string(), object: "bc".to_string() };
    let mut buf = Vec::new();
    id.encode_sync(&mut buf).unwrap();
    assert_eq!(buf, vec![1, b'a', 2, b'b', b'c']);
    let (v, rest) = complete(ObjectId::receive(&buf));
    assert_eq!(v, id);
    assert!(rest.is_empty());
}

#[test]
fn object_id_utf8_round_trip() {
    let id = ObjectId { container: "bücher".to_string(), object: "".to_string() };
    let mut buf = Vec::new();
    id.encode_sync(&mut buf).unwrap();
    assert_eq!(buf[0], 7);
    buf.push(0x42);
    let (v, rest) = complete(ObjectId::receive(&buf));
    assert_eq!(v, id);
    assert_eq!(rest, vec![0x42]);
}

#[test]
fn object_id_invalid_utf8_is_refused() {
    match ObjectId::receive(&[1, 0xff, 0]) {
        Err(e) => assert_eq!(e.field, Field::Container),
        _ => panic!("expected an error"),
    }
    match ObjectId::receive(&[0, 2, 0xc3, 0x28]) {
        Err(e) => assert_eq!(e.field, Field::Object),
        _ => panic!("expected an error"),
    }
}

#[test]
fn object_id_partial_input_is_incomplete() {
    let id = ObjectId { container: "box".to_string(), object: "item".to_string() };
    let mut buf = Vec::new();
    id.encode_sync(&mut buf).unwrap();
    for n in 0..buf.len() {
        let field = if n < 4 { Field::Container } else { Field::Object };
        match ObjectId::receive(&buf[..n]) {
            Ok(Received::Incomplete(f)) => assert_eq!(f, field),
            _ => panic!("expected incomplete"),
        }
    }
}

#[test]
fn error_messages_name_the_field() {
    assert_eq!(EncodeError { field: Field::Container }.message(), "failed to encode `container`");
    assert_eq!(EncodeError { field: Field::Object }.message(), "failed to encode `object`");
    assert_eq!(ReceiveError { field: Field::CreatedAt }.message(), "failed to receive `created-at`");
    assert_eq!(Field::Size.name(), "size");
}

#[test]
fn stream_ending_in_size_names_size() {
    let m = ObjectMetadata { created_at: 1, size: 300 };
    let mut buf = Vec::new();
    m.encode_sync(&mut buf).unwrap();
    match ObjectMetadata::receive(&buf[..2]) {
        Ok(Received::Incomplete(f)) => {
            assert_eq!(f, Field::Size);
            assert_eq!(ReceiveError { field: f }.message(), "failed to receive `size`");
        }
        _ => panic!("expected incomplete"),
    }
    match ObjectMetadata::receive(&[]) {
        Ok(Received::Incomplete(f)) => assert_eq!(f, Field::CreatedAt),
        _ => panic!("expected incomplete"),
    }
}
