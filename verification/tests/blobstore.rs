use wrpc_blobstore::blobstore::{
    encode_bool_result, encode_container_metadata_result, encode_container_params,
    encode_delete_objects_params, encode_get_container_data_params,
    encode_list_container_objects_params, encode_object_metadata_result,
    encode_object_pair_params, encode_object_params, encode_unit_result, instance,
    receive_bool_result, receive_container_metadata_result, receive_container_params,
    receive_delete_objects_params, receive_get_container_data_params,
    receive_list_container_objects_params, receive_object_metadata_result,
    receive_object_pair_params, receive_object_params, receive_unit_result, BlobstoreFunction,
    ParamsError, ResultsError,
};
use wrpc_blobstore::records::{ContainerMetadata, Field, ObjectId, ObjectMetadata, Received};

fn id(c: &str, o: &str) -> ObjectId {
    ObjectId { container: c.to_string(), object: o.to_string() }
}

fn done<T, E: std::fmt::Debug>(r: Result<Received<T, E>, E>) -> (T, Vec<u8>) {
    match r {
        Ok(Received::Complete { value, rest }) => (value, rest),
        Ok(Received::Incomplete(w)) => panic!("incomplete in {w:?}"),
        Err(e) => panic!("error: {e:?}"),
    }
}

#[test]
fn function_names_and_instance() {
    assert_eq!(instance(), "wrpc:blobstore/blobstore@0.1.0");
    assert_eq!(BlobstoreFunction::ClearContainer.name(), "clear-container");
    assert_eq!(BlobstoreFunction::ListContainerObjects.name(), "list-container-objects");
    assert_eq!(BlobstoreFunction::WriteContainerData.name(), "write-container-data");
    assert_eq!(BlobstoreFunction::HasObject.name(), "has-object");
}

#[test]
fn container_params_round_trip() {
    let bytes = encode_container_params("photos").unwrap();
    assert_eq!(bytes, b"\x06photos".to_vec());
    let (name, rest) = done(receive_container_params(&bytes));
    assert_eq!(name, "photos");
    assert!(rest.is_empty());
}

#[test]
fn list_container_objects_params_round_trip() {
    let bytes = encode_list_container_objects_params("c", Some(300), None).unwrap();
    assert_eq!(bytes, vec![1, b'c', 1, 0xac, 0x02, 0]);
    let ((name, limit, offset), rest) = done(receive_list_container_objects_params(&bytes));
    assert_eq!(name, "c");
    assert_eq!(limit, Some(300));
    assert_eq!(offset, None);
    assert!(rest.is_empty());
    for n in 0..bytes.len() {
        let param = if n < 2 { 0 } else if n < 5 { 1 } else { 2 };
        match receive_list_container_objects_params(&bytes[..n]) {
            Ok(Received::Incomplete(w)) => assert_eq!(w, ParamsError { param, field: None }),
            _ => panic!("expected incomplete"),
        }
    }
}

#[test]
fn invalid_option_flag_names_the_parameter() {
    match receive_list_container_objects_params(&[1, b'c', 2]) {
        Err(e) => assert_eq!(e, ParamsError { param: 1, field: None }),
        _ => panic!("expected an error"),
    }
}

#[test]
fn object_params_round_trip() {
    let bytes = encode_object_params(&id("c", "o")).unwrap();
    let (v, rest) = done(receive_object_params(&bytes));
    assert_eq!(v, id("c", "o"));
    assert!(rest.is_empty());
}

#[test]
fn object_pair_params_round_trip() {
    let bytes = encode_object_pair_params(&id("a", "b"), &id("c", "d")).unwrap();
    assert_eq!(bytes, vec![1, b'a', 1, b'b', 1, b'c', 1, b'd']);
    let ((src, dest), rest) = done(receive_object_pair_params(&bytes));
    assert_eq!(src, id("a", "b"));
    assert_eq!(dest, id("c", "d"));
    assert!(rest.is_empty());
}

#[test]
fn object_pair_invalid_destination_names_the_parameter() {
    match receive_object_pair_params(&[1, b'a', 1, b'b', 1, 0xff]) {
        Err(e) => assert_eq!(e, ParamsError { param: 1, field: Some(Field::Container) }),
        _ => panic!("expected an error"),
    }
}

#[test]
fn delete_objects_params_round_trip() {
    let bytes = encode_delete_objects_params("c", &["x", "yz"]).unwrap();
    assert_eq!(bytes, vec![1, b'c', 2, 1, b'x', 2, b'y', b'z']);
    let ((container, objects), rest) = done(receive_delete_objects_params(&bytes));
    assert_eq!(container, "c");
    assert_eq!(objects, vec!["x".to_string(), "yz".to_string()]);
    assert!(rest.is_empty());
    let empty = encode_delete_objects_params("c", &[]).unwrap();
    assert_eq!(empty, vec![1, b'c', 0]);
}

#[test]
fn get_container_data_params_round_trip() {
    let bytes = encode_get_container_data_params(&id("c", "o"), 0, 128).unwrap();
    assert_eq!(bytes, vec![1, b'c', 1, b'o', 0, 0x80, 0x01]);
    let ((v, start, end), rest) = done(receive_get_container_data_params(&bytes));
    assert_eq!(v, id("c", "o"));
    assert_eq!((start, end), (0, 128));
    assert!(rest.is_empty());
}

#[test]
fn unit_result_round_trip() {
    let ok = encode_unit_result(&Ok(())).unwrap();
    assert_eq!(ok, vec![0]);
    let (v, _) = done(receive_unit_result(&ok));
    assert_eq!(v, Ok(()));
    let err = encode_unit_result(&Err("no".to_string())).unwrap();
    assert_eq!(err, vec![1, 2, b'n', b'o']);
    let (v, _) = done(receive_unit_result(&err));
    assert_eq!(v, Err("no".to_string()));
}

#[test]
fn bool_result_round_trip() {
    let bytes = encode_bool_result(&Ok(true)).unwrap();
    assert_eq!(bytes, vec![0, 1]);
    let (v, _) = done(receive_bool_result(&bytes));
    assert_eq!(v, Ok(true));
    match receive_bool_result(&[0, 2]) {
        Err(e) => assert_eq!(e, ResultsError::Value(None)),
        _ => panic!("expected an error"),
    }
}

#[test]
fn invalid_discriminant_is_refused() {
    match receive_unit_result(&[2]) {
        Err(e) => assert_eq!(e, ResultsError::Discriminant),
        _ => panic!("expected an error"),
    }
    assert!(matches!(receive_unit_result(&[]), Ok(Received::Incomplete(ResultsError::Discriminant))));
    assert!(matches!(receive_unit_result(&[1, 3, b'a']), Ok(Received::Incomplete(ResultsError::Message))));
    assert!(matches!(receive_object_metadata_result(&[0, 1]), Ok(Received::Incomplete(ResultsError::Value(Some(Field::Size))))));
}

#[test]
fn metadata_results_round_trip() {
    let m = ContainerMetadata { created_at: 42 };
    let bytes = encode_container_metadata_result(&Ok(m)).unwrap();
    assert_eq!(bytes, vec![0, 42]);
    let (v, _) = done(receive_container_metadata_result(&bytes));
    assert_eq!(v, Ok(m));
    let o = ObjectMetadata { created_at: 1, size: 2 };
    let bytes = encode_object_metadata_result(&Ok(o)).unwrap();
    assert_eq!(bytes, vec![0, 1, 2]);
    let (v, rest) = done(receive_object_metadata_result(&bytes));
    assert_eq!(v, Ok(o));
    assert!(rest.is_empty());
    let bytes = encode_object_metadata_result(&Err("gone".to_string())).unwrap();
    let (v, _) = done(receive_object_metadata_result(&bytes));
    assert_eq!(v, Err("gone".to_string()));
}

#[test]
fn metadata_result_invalid_value_names_the_field() {
    match receive_object_metadata_result(&[0, 1, 0xff, 0xff, 0xff, 0xff, 0xff, 0xff, 0xff, 0xff, 0xff, 0x03]) {
        Err(e) => assert_eq!(e, ResultsError::Value(Some(Field::Size))),
        _ => panic!("expected an error"),
    }
}

#[test]
fn params_agree_with_the_transport_encoding() {
    let mut buf = bytes::BytesMut::new();
    wrpc_transport::pack_ready(("c", Some(300u64), None::<u64>), &mut buf).unwrap();
    assert_eq!(encode_list_container_objects_params("c", Some(300), None).unwrap(), buf.to_vec());

    let mut buf = bytes::BytesMut::new();
    wrpc_transport::pack_ready(("box", vec!["x", "yz"]), &mut buf).unwrap();
    assert_eq!(encode_delete_objects_params("box", &["x", "yz"]).unwrap(), buf.to_vec());

    let mut buf = bytes::BytesMut::from(&encode_container_params("photos").unwrap()[..]);
    let name: String = wrpc_transport::unpack(&mut buf).unwrap();
    assert_eq!(name, "photos");
}

#[test]
fn results_agree_with_the_transport_encoding() {
    let mut buf = bytes::BytesMut::new();
    wrpc_transport::pack_ready(Err::<bool, String>("nope".to_string()), &mut buf).unwrap();
    assert_eq!(encode_bool_result(&Err("nope".to_string())).unwrap(), buf.to_vec());

    let mut buf = bytes::BytesMut::new();
    wrpc_transport::pack_ready(Ok::<(), String>(()), &mut buf).unwrap();
    assert_eq!(encode_unit_result(&Ok(())).unwrap(), buf.to_vec());

    let mut buf = bytes::BytesMut::from(&encode_bool_result(&Ok(false)).unwrap()[..]);
    let v: Result<bool, String> = wrpc_transport::unpack(&mut buf).unwrap();
    assert_eq!(v, Ok(false));
}
