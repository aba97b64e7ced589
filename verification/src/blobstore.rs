//! The functions of the `wrpc:blobstore/blobstore` interface: their names,
//! and the encoding of the parameters that an invocation sends.
use vstd::prelude::*;
use vstd::string::*;
use vstd::utf8::*;
use vstd::arithmetic::power2::*;
use crate::records::{
    lemma_container_metadata_round_trip, lemma_object_id_round_trip,
    lemma_object_metadata_round_trip, lemma_read_string_bounds, lemma_read_u64_bounds, lemma_skip_skip,
    ContainerMetadata, Field, ObjectId, ObjectIdView, ObjectMetadata, Received, RecordRead,
};
use crate::wire::{
    lemma_read_flag_of_wire_flag, lemma_read_option_of_wire_option, lemma_read_string_list_of_wire_string_list,
    lemma_read_string_of_wire_string, lemma_read_uleb128_of_uleb128, list_encodable, pack_bool,
    pack_option_u64, pack_result_tag, pack_str, pack_str_list, pack_u64, read_flag,
    read_option_u64, read_string, read_string_list, read_strings, read_uleb128, str_views, uleb128,
    unpack_bool, unpack_option_u64, unpack_result_tag, unpack_string, unpack_string_list,
    unpack_u64, wire_flag, wire_option_u64, wire_string, wire_string_list, LebRead, StrRead,
    ValueRead,
};

verus! {

/// The instance that serves the blobstore functions.
pub fn instance() -> (r: &'static str)
    ensures
        r@ == "wrpc:blobstore/blobstore@0.1.0"@,
{
    "wrpc:blobstore/blobstore@0.1.0"
}

/// A function of the blobstore interface.
#[derive(Clone, Copy, Debug, PartialEq, Eq, Structural)]
pub enum BlobstoreFunction {
    ClearContainer,
    ContainerExists,
    CreateContainer,
    DeleteContainer,
    GetContainerInfo,
    ListContainerObjects,
    CopyObject,
    DeleteObject,
    DeleteObjects,
    GetContainerData,
    GetObjectInfo,
    HasObject,
    MoveObject,
    WriteContainerData,
}

impl BlobstoreFunction {
    /// The function's name in the interface.
    pub open spec fn name_spec(self) -> Seq<char> {
        match self {
            BlobstoreFunction::ClearContainer => "clear-container"@,
            BlobstoreFunction::ContainerExists => "container-exists"@,
            BlobstoreFunction::CreateContainer => "create-container"@,
            BlobstoreFunction::DeleteContainer => "delete-container"@,
            BlobstoreFunction::GetContainerInfo => "get-container-info"@,
            BlobstoreFunction::ListContainerObjects => "list-container-objects"@,
            BlobstoreFunction::CopyObject => "copy-object"@,
            BlobstoreFunction::DeleteObject => "delete-object"@,
            BlobstoreFunction::DeleteObjects => "delete-objects"@,
            BlobstoreFunction::GetContainerData => "get-container-data"@,
            BlobstoreFunction::GetObjectInfo => "get-object-info"@,
            BlobstoreFunction::HasObject => "has-object"@,
            BlobstoreFunction::MoveObject => "move-object"@,
            BlobstoreFunction::WriteContainerData => "write-container-data"@,
        }
    }

    /// The function's name in the interface.
    pub fn name(&self) -> (r: &'static str)
        ensures
            r@ == self.name_spec(),
    {
        match self {
            BlobstoreFunction::ClearContainer => "clear-container",
            BlobstoreFunction::ContainerExists => "container-exists",
            BlobstoreFunction::CreateContainer => "create-container",
            BlobstoreFunction::DeleteContainer => "delete-container",
            BlobstoreFunction::GetContainerInfo => "get-container-info",
            BlobstoreFunction::ListContainerObjects => "list-container-objects",
            BlobstoreFunction::CopyObject => "copy-object",
            BlobstoreFunction::DeleteObject => "delete-object",
            BlobstoreFunction::DeleteObjects => "delete-objects",
            BlobstoreFunction::GetContainerData => "get-container-data",
            BlobstoreFunction::GetObjectInfo => "get-object-info",
            BlobstoreFunction::HasObject => "has-object",
            BlobstoreFunction::MoveObject => "move-object",
            BlobstoreFunction::WriteContainerData => "write-container-data",
        }
    }
}

/// The functions of the interface as its definition declares them: each
/// function with the name it is declared under, in declaration order.
pub open spec fn interface_declarations() -> Seq<(BlobstoreFunction, Seq<char>)> {
    seq![
        (BlobstoreFunction::ClearContainer, "clear-container"@),
        (BlobstoreFunction::ContainerExists, "container-exists"@),
        (BlobstoreFunction::CreateContainer, "create-container"@),
        (BlobstoreFunction::DeleteContainer, "delete-container"@),
        (BlobstoreFunction::GetContainerInfo, "get-container-info"@),
        (BlobstoreFunction::ListContainerObjects, "list-container-objects"@),
        (BlobstoreFunction::CopyObject, "copy-object"@),
        (BlobstoreFunction::DeleteObject, "delete-object"@),
        (BlobstoreFunction::DeleteObjects, "delete-objects"@),
        (BlobstoreFunction::GetContainerData, "get-container-data"@),
        (BlobstoreFunction::GetObjectInfo, "get-object-info"@),
        (BlobstoreFunction::HasObject, "has-object"@),
        (BlobstoreFunction::MoveObject, "move-object"@),
        (BlobstoreFunction::WriteContainerData, "write-container-data"@),
    ]
}

/// Invocations are routed by the name they carry: every function is invoked
/// and served under the name that the interface declares for it, and no two
/// functions share a name, so an invocation reaches the function it was made
/// for and no other.
pub proof fn lemma_function_names(f: BlobstoreFunction, g: BlobstoreFunction)
    ensures
        exists|i: int|
            0 <= i < interface_declarations().len() && #[trigger] interface_declarations()[i].0 == f,
        forall|i: int|
            0 <= i < interface_declarations().len() && (#[trigger] interface_declarations()[i]).0
                == f ==> interface_declarations()[i].1 == f.name_spec(),
        f.name_spec() == g.name_spec() ==> f == g,
{
    reveal_strlit("clear-container");
    reveal_strlit("container-exists");
    reveal_strlit("create-container");
    reveal_strlit("delete-container");
    reveal_strlit("get-container-info");
    reveal_strlit("list-container-objects");
    reveal_strlit("copy-object");
    reveal_strlit("delete-object");
    reveal_strlit("delete-objects");
    reveal_strlit("get-container-data");
    reveal_strlit("get-object-info");
    reveal_strlit("has-object");
    reveal_strlit("move-object");
    reveal_strlit("write-container-data");
    let d = interface_declarations();
    let i: int = match f {
        BlobstoreFunction::ClearContainer => 0,
        BlobstoreFunction::ContainerExists => 1,
        BlobstoreFunction::CreateContainer => 2,
        BlobstoreFunction::DeleteContainer => 3,
        BlobstoreFunction::GetContainerInfo => 4,
        BlobstoreFunction::ListContainerObjects => 5,
        BlobstoreFunction::CopyObject => 6,
        BlobstoreFunction::DeleteObject => 7,
        BlobstoreFunction::DeleteObjects => 8,
        BlobstoreFunction::GetContainerData => 9,
        BlobstoreFunction::GetObjectInfo => 10,
        BlobstoreFunction::HasObject => 11,
        BlobstoreFunction::MoveObject => 12,
        BlobstoreFunction::WriteContainerData => 13,
    };
    assert(d[i].0 == f);
    if f.name_spec() == g.name_spec() {
        let a = f.name_spec();
        let b = g.name_spec();
        assert(a.len() == b.len());
        assert(a[0] == b[0]);
        assert(a[1] == b[1]);
        if a.len() == 18 {
            assert(a[14] == b[14]);
        }
    }
}

/// A parameter that cannot be encoded: a string or a list longer than
/// `u32::MAX`. `param` is its position among the function's parameters,
/// `field` the field of an object identity that is too long.
#[derive(Clone, Copy, Debug, PartialEq, Eq, Structural)]
pub struct ParamsError {
    pub param: usize,
    pub field: Option<Field>,
}

/// The UTF-8 length of a string fits the encoding's 32-bit length.
pub open spec fn encodable_str(s: Seq<char>) -> bool {
    encode_utf8(s).len() <= u32::MAX
}

/// The parameters of `clear-container`, `container-exists`,
/// `create-container`, `delete-container` and `get-container-info`: the
/// container's name.
pub fn encode_container_params(name: &str) -> (r: Result<Vec<u8>, ParamsError>)
    ensures
        r is Ok <==> encodable_str(name@),
        r matches Ok(bytes) ==> bytes@ == wire_string(name@),
        r matches Err(e) ==> e == (ParamsError { param: 0, field: None }),
{
    let mut out: Vec<u8> = Vec::new();
    if pack_str(name, &mut out).is_err() {
        return Err(ParamsError { param: 0, field: None });
    }
    Ok(out)
}

/// The parameters of `list-container-objects`: the container's name, then
/// the optional limit and offset.
pub fn encode_list_container_objects_params(
    name: &str,
    limit: Option<u64>,
    offset: Option<u64>,
) -> (r: Result<Vec<u8>, ParamsError>)
    ensures
        r is Ok <==> encodable_str(name@),
        r matches Ok(bytes) ==> bytes@ == wire_string(name@) + wire_option_u64(limit)
            + wire_option_u64(offset),
        r matches Err(e) ==> e == (ParamsError { param: 0, field: None }),
{
    let mut out: Vec<u8> = Vec::new();
    if pack_str(name, &mut out).is_err() {
        return Err(ParamsError { param: 0, field: None });
    }
    let _ = pack_option_u64(limit, &mut out);
    let _ = pack_option_u64(offset, &mut out);
    Ok(out)
}

/// The error for the object identity at position `param` that cannot be encoded.
pub open spec fn id_error(param: usize, id: ObjectIdView) -> ParamsError {
    ParamsError {
        param,
        field: Some(if !encodable_str(id.container) { Field::Container } else { Field::Object }),
    }
}

/// The parameters of `delete-object`, `get-object-info` and `has-object`:
/// the object's identity.
pub fn encode_object_params(id: &ObjectId) -> (r: Result<Vec<u8>, ParamsError>)
    ensures
        r is Ok <==> id@.encodable(),
        r matches Ok(bytes) ==> bytes@ == id@.wire(),
        r matches Err(e) ==> e == id_error(0, id@),
{
    let mut out: Vec<u8> = Vec::new();
    match id.encode_sync(&mut out) {
        Ok(()) => Ok(out),
        Err(e) => Err(ParamsError { param: 0, field: Some(e.field) }),
    }
}

/// The parameters of `copy-object` and `move-object`: the source's
/// identity, then the destination's.
pub fn encode_object_pair_params(src: &ObjectId, dest: &ObjectId) -> (r: Result<Vec<u8>, ParamsError>)
    ensures
        r is Ok <==> src@.encodable() && dest@.encodable(),
        r matches Ok(bytes) ==> bytes@ == src@.wire() + dest@.wire(),
        r matches Err(e) ==> e == if !src@.encodable() {
            id_error(0, src@)
        } else {
            id_error(1, dest@)
        },
{
    let mut out: Vec<u8> = Vec::new();
    match src.encode_sync(&mut out) {
        Ok(()) => {},
        Err(e) => {
            return Err(ParamsError { param: 0, field: Some(e.field) });
        },
    }
    match dest.encode_sync(&mut out) {
        Ok(()) => Ok(out),
        Err(e) => Err(ParamsError { param: 1, field: Some(e.field) }),
    }
}

/// The parameters of `delete-objects`: the container's name, then the list
/// of the objects' names.
pub fn encode_delete_objects_params(container: &str, objects: &[&str]) -> (r: Result<
    Vec<u8>,
    ParamsError,
>)
    ensures
        r is Ok <==> encodable_str(container@) && list_encodable(str_views(objects@)),
        r matches Ok(bytes) ==> bytes@ == wire_string(container@) + wire_string_list(
            str_views(objects@),
        ),
        r matches Err(e) ==> e == if !encodable_str(container@) {
            ParamsError { param: 0, field: None }
        } else {
            ParamsError { param: 1, field: None }
        },
{
    let mut out: Vec<u8> = Vec::new();
    if pack_str(container, &mut out).is_err() {
        return Err(ParamsError { param: 0, field: None });
    }
    if pack_str_list(objects, &mut out).is_err() {
        return Err(ParamsError { param: 1, field: None });
    }
    Ok(out)
}

/// The parameters of `get-container-data`: the object's identity, then the
/// start and end offsets.
pub fn encode_get_container_data_params(id: &ObjectId, start: u64, end: u64) -> (r: Result<
    Vec<u8>,
    ParamsError,
>)
    ensures
        r is Ok <==> id@.encodable(),
        r matches Ok(bytes) ==> bytes@ == id@.wire() + uleb128(start as nat) + uleb128(end as nat),
        r matches Err(e) ==> e == id_error(0, id@),
{
    let mut out: Vec<u8> = Vec::new();
    match id.encode_sync(&mut out) {
        Ok(()) => {},
        Err(e) => {
            return Err(ParamsError { param: 0, field: Some(e.field) });
        },
    }
    let _ = pack_u64(start, &mut out);
    let _ = pack_u64(end, &mut out);
    Ok(out)
}

/// What reading a function's parameters or results from the front of a
/// byte sequence yields, over views.
pub enum Read<V, E> {
    /// The bytes end while the part `E` names is being read.
    Incomplete(E),
    Invalid(E),
    Done(V, nat),
}

/// `r` is the exec outcome of the read `expected` of `bytes`, values taken by `view`.
pub open spec fn received_with<T, V, E>(
    r: Result<Received<T, E>, E>,
    expected: Read<V, E>,
    bytes: Seq<u8>,
    view: spec_fn(T) -> V,
) -> bool {
    match expected {
        Read::Incomplete(w) => r matches Ok(Received::Incomplete(x)) && x == w,
        Read::Invalid(e) => r == Err::<Received<T, E>, E>(e),
        Read::Done(v, n) => r matches Ok(Received::Complete { value, rest }) && view(value) == v
            && rest@ == bytes.skip(n as int),
    }
}

/// Reading the parameters of the functions that take a container's name.
pub open spec fn read_container_params(bytes: Seq<u8>) -> Read<Seq<char>, ParamsError> {
    match read_string(bytes) {
        StrRead::Incomplete => Read::Incomplete(ParamsError { param: 0, field: None }),
        StrRead::Invalid => Read::Invalid(ParamsError { param: 0, field: None }),
        StrRead::Done { chars, len } => Read::Done(chars, len),
    }
}

/// Receives the parameters of `clear-container`, `container-exists`,
/// `create-container`, `delete-container` and `get-container-info`.
pub fn receive_container_params(bytes: &[u8]) -> (r: Result<Received<String, ParamsError>, ParamsError>)
    ensures
        received_with(r, read_container_params(bytes@), bytes@, |s: String| s@),
{
    match unpack_string(bytes) {
        Err(_) => Err(ParamsError { param: 0, field: None }),
        Ok(None) => Ok(Received::Incomplete(ParamsError { param: 0, field: None })),
        Ok(Some((name, rest))) => Ok(Received::Complete { value: name, rest }),
    }
}

/// The parameters that take a container's name read back as they were encoded.
pub proof fn lemma_container_params_round_trip(name: Seq<char>, rest: Seq<u8>)
    requires
        encodable_str(name),
    ensures
        read_container_params(wire_string(name) + rest) == Read::<Seq<char>, ParamsError>::Done(
            name,
            wire_string(name).len(),
        ),
{
    lemma_read_string_of_wire_string(name, rest);
}

/// The encoding of `list-container-objects`'s parameters.
pub open spec fn wire_list_container_objects_params(
    name: Seq<char>,
    limit: Option<u64>,
    offset: Option<u64>,
) -> Seq<u8> {
    wire_string(name) + wire_option_u64(limit) + wire_option_u64(offset)
}

/// Reading the parameters of `list-container-objects`.
pub open spec fn read_list_container_objects_params(bytes: Seq<u8>) -> Read<
    (Seq<char>, Option<u64>, Option<u64>),
    ParamsError,
> {
    match read_string(bytes) {
        StrRead::Incomplete => Read::Incomplete(ParamsError { param: 0, field: None }),
        StrRead::Invalid => Read::Invalid(ParamsError { param: 0, field: None }),
        StrRead::Done { chars, len: a } => match read_option_u64(bytes.skip(a as int)) {
            ValueRead::Incomplete => Read::Incomplete(ParamsError { param: 1, field: None }),
            ValueRead::Invalid => Read::Invalid(ParamsError { param: 1, field: None }),
            ValueRead::Done(limit, b) => match read_option_u64(bytes.skip((a + b) as int)) {
                ValueRead::Incomplete => Read::Incomplete(ParamsError { param: 2, field: None }),
                ValueRead::Invalid => Read::Invalid(ParamsError { param: 2, field: None }),
                ValueRead::Done(offset, c) => Read::Done((chars, limit, offset), a + b + c),
            },
        },
    }
}

/// An optional integer read consumes at least one byte and at most all of them.
proof fn lemma_read_option_bounds(bytes: Seq<u8>)
    ensures
        read_option_u64(bytes) matches ValueRead::Done(_, n) ==> 1 <= n <= bytes.len(),
{
    lemma_read_u64_bounds(bytes.skip(1), 64);
}

/// Receives the parameters of `list-container-objects`.
pub fn receive_list_container_objects_params(bytes: &[u8]) -> (r: Result<
    Received<(String, Option<u64>, Option<u64>), ParamsError>,
    ParamsError,
>)
    ensures
        received_with(
            r,
            read_list_container_objects_params(bytes@),
            bytes@,
            |p: (String, Option<u64>, Option<u64>)| (p.0@, p.1, p.2),
        ),
{
    let (name, rest) = match unpack_string(bytes) {
        Err(_) => {
            return Err(ParamsError { param: 0, field: None });
        },
        Ok(None) => {
            return Ok(Received::Incomplete(ParamsError { param: 0, field: None }));
        },
        Ok(Some(x)) => x,
    };
    let (limit, rest2) = match unpack_option_u64(rest.as_slice()) {
        Err(_) => {
            return Err(ParamsError { param: 1, field: None });
        },
        Ok(None) => {
            return Ok(Received::Incomplete(ParamsError { param: 1, field: None }));
        },
        Ok(Some(x)) => x,
    };
    proof {
        lemma_read_string_bounds(bytes@);
        lemma_read_option_bounds(rest@);
        lemma_skip_skip(bytes@, bytes@.len() - rest@.len(), rest@.len() - rest2@.len());
    }
    let (offset, rest3) = match unpack_option_u64(rest2.as_slice()) {
        Err(_) => {
            return Err(ParamsError { param: 2, field: None });
        },
        Ok(None) => {
            return Ok(Received::Incomplete(ParamsError { param: 2, field: None }));
        },
        Ok(Some(x)) => x,
    };
    proof {
        lemma_read_option_bounds(rest2@);
        lemma_skip_skip(bytes@, bytes@.len() - rest2@.len(), rest2@.len() - rest3@.len());
    }
    Ok(Received::Complete { value: (name, limit, offset), rest: rest3 })
}

/// The parameters of `list-container-objects` read back as they were encoded.
pub proof fn lemma_list_container_objects_params_round_trip(
    name: Seq<char>,
    limit: Option<u64>,
    offset: Option<u64>,
    rest: Seq<u8>,
)
    requires
        encodable_str(name),
    ensures
        read_list_container_objects_params(
            wire_list_container_objects_params(name, limit, offset) + rest,
        ) == Read::<(Seq<char>, Option<u64>, Option<u64>), ParamsError>::Done(
            (name, limit, offset),
            wire_list_container_objects_params(name, limit, offset).len(),
        ),
{
    let a = wire_string(name);
    let b = wire_option_u64(limit);
    let c = wire_option_u64(offset);
    let bytes = wire_list_container_objects_params(name, limit, offset) + rest;
    assert(bytes =~= a + (b + c + rest));
    lemma_read_string_of_wire_string(name, b + c + rest);
    assert(bytes.skip(a.len() as int) =~= b + (c + rest));
    lemma_read_option_of_wire_option(limit, c + rest);
    assert(bytes.skip((a.len() + b.len()) as int) =~= c + rest);
    lemma_read_option_of_wire_option(offset, rest);
}

/// Reading an object identity as the parameter at position `param`.
pub open spec fn read_id_param(bytes: Seq<u8>, param: usize) -> Read<ObjectIdView, ParamsError> {
    match ObjectId::read(bytes) {
        RecordRead::Incomplete(f) => Read::Incomplete(ParamsError { param, field: Some(f) }),
        RecordRead::Invalid(f) => Read::Invalid(ParamsError { param, field: Some(f) }),
        RecordRead::Done(id, n) => Read::Done(id, n),
    }
}

/// An object identity read consumes at least one byte and at most all of them.
proof fn lemma_read_id_bounds(bytes: Seq<u8>)
    ensures
        ObjectId::read(bytes) matches RecordRead::Done(_, n) ==> 1 <= n <= bytes.len(),
{
    lemma_read_string_bounds(bytes);
    if let StrRead::Done { len, .. } = read_string(bytes) {
        lemma_read_string_bounds(bytes.skip(len as int));
    }
}

/// Receives an object identity as the parameter at position `param`.
fn receive_id_param(bytes: &[u8], param: usize) -> (r: Result<Received<ObjectId, ParamsError>, ParamsError>)
    ensures
        received_with(r, read_id_param(bytes@, param), bytes@, |id: ObjectId| id@),
{
    match ObjectId::receive(bytes) {
        Err(e) => Err(ParamsError { param, field: Some(e.field) }),
        Ok(Received::Incomplete(f)) => Ok(Received::Incomplete(ParamsError { param, field: Some(f) })),
        Ok(Received::Complete { value, rest }) => Ok(Received::Complete { value, rest }),
    }
}

/// Receives the parameters of `delete-object`, `get-object-info` and `has-object`.
pub fn receive_object_params(bytes: &[u8]) -> (r: Result<Received<ObjectId, ParamsError>, ParamsError>)
    ensures
        received_with(r, read_id_param(bytes@, 0), bytes@, |id: ObjectId| id@),
{
    receive_id_param(bytes, 0)
}

/// The parameters that take an object's identity read back as they were encoded.
pub proof fn lemma_object_params_round_trip(id: ObjectIdView, rest: Seq<u8>)
    requires
        id.encodable(),
    ensures
        read_id_param(id.wire() + rest, 0) == Read::<ObjectIdView, ParamsError>::Done(id, id.wire().len()),
{
    lemma_object_id_round_trip(id, rest);
}

/// Reading the parameters of `copy-object` and `move-object`.
pub open spec fn read_object_pair_params(bytes: Seq<u8>) -> Read<(ObjectIdView, ObjectIdView), ParamsError> {
    match read_id_param(bytes, 0) {
        Read::Incomplete(e) => Read::Incomplete(e),
        Read::Invalid(e) => Read::Invalid(e),
        Read::Done(src, a) => match read_id_param(bytes.skip(a as int), 1) {
            Read::Incomplete(e) => Read::Incomplete(e),
            Read::Invalid(e) => Read::Invalid(e),
            Read::Done(dest, b) => Read::Done((src, dest), a + b),
        },
    }
}

/// Receives the parameters of `copy-object` and `move-object`.
pub fn receive_object_pair_params(bytes: &[u8]) -> (r: Result<Received<(ObjectId, ObjectId), ParamsError>, ParamsError>)
    ensures
        received_with(
            r,
            read_object_pair_params(bytes@),
            bytes@,
            |p: (ObjectId, ObjectId)| (p.0@, p.1@),
        ),
{
    let (src, rest) = match receive_id_param(bytes, 0) {
        Err(e) => {
            return Err(e);
        },
        Ok(Received::Incomplete(e)) => {
            return Ok(Received::Incomplete(e));
        },
        Ok(Received::Complete { value, rest }) => (value, rest),
    };
    let (dest, rest2) = match receive_id_param(rest.as_slice(), 1) {
        Err(e) => {
            return Err(e);
        },
        Ok(Received::Incomplete(e)) => {
            return Ok(Received::Incomplete(e));
        },
        Ok(Received::Complete { value, rest }) => (value, rest),
    };
    proof {
        lemma_read_id_bounds(bytes@);
        lemma_read_id_bounds(rest@);
        lemma_skip_skip(bytes@, bytes@.len() - rest@.len(), rest@.len() - rest2@.len());
    }
    Ok(Received::Complete { value: (src, dest), rest: rest2 })
}

/// The parameters of `copy-object` and `move-object` read back as they were encoded.
pub proof fn lemma_object_pair_params_round_trip(src: ObjectIdView, dest: ObjectIdView, rest: Seq<u8>)
    requires
        src.encodable(),
        dest.encodable(),
    ensures
        read_object_pair_params(src.wire() + dest.wire() + rest) == Read::<
            (ObjectIdView, ObjectIdView),
            ParamsError,
        >::Done((src, dest), src.wire().len() + dest.wire().len()),
{
    let bytes = src.wire() + dest.wire() + rest;
    assert(bytes =~= src.wire() + (dest.wire() + rest));
    lemma_object_id_round_trip(src, dest.wire() + rest);
    assert(bytes.skip(src.wire().len() as int) =~= dest.wire() + rest);
    lemma_object_id_round_trip(dest, rest);
}

/// Reading the parameters of `get-container-data`.
pub open spec fn read_get_container_data_params(bytes: Seq<u8>) -> Read<(ObjectIdView, u64, u64), ParamsError> {
    match read_id_param(bytes, 0) {
        Read::Incomplete(e) => Read::Incomplete(e),
        Read::Invalid(e) => Read::Invalid(e),
        Read::Done(id, a) => match read_uleb128(bytes.skip(a as int), 64) {
            LebRead::Incomplete => Read::Incomplete(ParamsError { param: 1, field: None }),
            LebRead::Invalid => Read::Invalid(ParamsError { param: 1, field: None }),
            LebRead::Done { value: start, len: b } => match read_uleb128(bytes.skip((a + b) as int), 64) {
                LebRead::Incomplete => Read::Incomplete(ParamsError { param: 2, field: None }),
                LebRead::Invalid => Read::Invalid(ParamsError { param: 2, field: None }),
                LebRead::Done { value: end, len: c } => Read::Done((id, start as u64, end as u64), a + b + c),
            },
        },
    }
}

/// Receives the parameters of `get-container-data`.
pub fn receive_get_container_data_params(bytes: &[u8]) -> (r: Result<Received<(ObjectId, u64, u64), ParamsError>, ParamsError>)
    ensures
        received_with(
            r,
            read_get_container_data_params(bytes@),
            bytes@,
            |p: (ObjectId, u64, u64)| (p.0@, p.1, p.2),
        ),
{
    let (id, rest) = match receive_id_param(bytes, 0) {
        Err(e) => {
            return Err(e);
        },
        Ok(Received::Incomplete(e)) => {
            return Ok(Received::Incomplete(e));
        },
        Ok(Received::Complete { value, rest }) => (value, rest),
    };
    let (start, rest2) = match unpack_u64(rest.as_slice()) {
        Err(_) => {
            return Err(ParamsError { param: 1, field: None });
        },
        Ok(None) => {
            return Ok(Received::Incomplete(ParamsError { param: 1, field: None }));
        },
        Ok(Some(x)) => x,
    };
    proof {
        lemma_read_id_bounds(bytes@);
        lemma_read_u64_bounds(rest@, 64);
        lemma_skip_skip(bytes@, bytes@.len() - rest@.len(), rest@.len() - rest2@.len());
    }
    let (end, rest3) = match unpack_u64(rest2.as_slice()) {
        Err(_) => {
            return Err(ParamsError { param: 2, field: None });
        },
        Ok(None) => {
            return Ok(Received::Incomplete(ParamsError { param: 2, field: None }));
        },
        Ok(Some(x)) => x,
    };
    proof {
        lemma_read_u64_bounds(rest2@, 64);
        lemma_skip_skip(bytes@, bytes@.len() - rest2@.len(), rest2@.len() - rest3@.len());
    }
    Ok(Received::Complete { value: (id, start, end), rest: rest3 })
}

/// The parameters of `get-container-data` read back as they were encoded.
pub proof fn lemma_get_container_data_params_round_trip(id: ObjectIdView, start: u64, end: u64, rest: Seq<u8>)
    requires
        id.encodable(),
    ensures
        read_get_container_data_params(id.wire() + uleb128(start as nat) + uleb128(end as nat) + rest)
            == Read::<(ObjectIdView, u64, u64), ParamsError>::Done(
            (id, start, end),
            id.wire().len() + uleb128(start as nat).len() + uleb128(end as nat).len(),
        ),
{
    let a = id.wire();
    let b = uleb128(start as nat);
    let c = uleb128(end as nat);
    let bytes = a + b + c + rest;
    lemma2_to64();
    assert(bytes =~= a + (b + c + rest));
    lemma_object_id_round_trip(id, b + c + rest);
    assert(bytes.skip(a.len() as int) =~= b + (c + rest));
    lemma_read_uleb128_of_uleb128(start as nat, c + rest, 64);
    assert(bytes.skip((a.len() + b.len()) as int) =~= c + rest);
    lemma_read_uleb128_of_uleb128(end as nat, rest, 64);
}

/// Reading strings consumes at most the bytes there are.
proof fn lemma_read_strings_bounds(bytes: Seq<u8>, n: nat)
    ensures
        read_strings(bytes, n) matches ValueRead::Done(_, j) ==> j <= bytes.len(),
    decreases n,
{
    if n > 0 {
        lemma_read_string_bounds(bytes);
        if let StrRead::Done { len, .. } = read_string(bytes) {
            lemma_read_strings_bounds(bytes.skip(len as int), (n - 1) as nat);
        }
    }
}

/// Reading a list of strings consumes at most the bytes there are.
proof fn lemma_read_string_list_bounds(bytes: Seq<u8>)
    ensures
        read_string_list(bytes) matches ValueRead::Done(_, j) ==> j <= bytes.len(),
{
    lemma_read_u64_bounds(bytes, 32);
    if let LebRead::Done { value, len } = read_uleb128(bytes, 32) {
        lemma_read_strings_bounds(bytes.skip(len as int), value);
    }
}

/// Reading the parameters of `delete-objects`.
pub open spec fn read_delete_objects_params(bytes: Seq<u8>) -> Read<(Seq<char>, Seq<Seq<char>>), ParamsError> {
    match read_string(bytes) {
        StrRead::Incomplete => Read::Incomplete(ParamsError { param: 0, field: None }),
        StrRead::Invalid => Read::Invalid(ParamsError { param: 0, field: None }),
        StrRead::Done { chars, len: a } => match read_string_list(bytes.skip(a as int)) {
            ValueRead::Incomplete => Read::Incomplete(ParamsError { param: 1, field: None }),
            ValueRead::Invalid => Read::Invalid(ParamsError { param: 1, field: None }),
            ValueRead::Done(objects, b) => Read::Done((chars, objects), a + b),
        },
    }
}

/// Receives the parameters of `delete-objects`.
pub fn receive_delete_objects_params(bytes: &[u8]) -> (r: Result<Received<(String, Vec<String>), ParamsError>, ParamsError>)
    ensures
        received_with(
            r,
            read_delete_objects_params(bytes@),
            bytes@,
            |p: (String, Vec<String>)| (p.0@, p.1@.map_values(|s: String| s@)),
        ),
{
    let (container, rest) = match unpack_string(bytes) {
        Err(_) => {
            return Err(ParamsError { param: 0, field: None });
        },
        Ok(None) => {
            return Ok(Received::Incomplete(ParamsError { param: 0, field: None }));
        },
        Ok(Some(x)) => x,
    };
    let (objects, rest2) = match unpack_string_list(rest.as_slice()) {
        Err(_) => {
            return Err(ParamsError { param: 1, field: None });
        },
        Ok(None) => {
            return Ok(Received::Incomplete(ParamsError { param: 1, field: None }));
        },
        Ok(Some(x)) => x,
    };
    proof {
        lemma_read_string_bounds(bytes@);
        lemma_read_string_list_bounds(rest@);
        lemma_skip_skip(bytes@, bytes@.len() - rest@.len(), rest@.len() - rest2@.len());
    }
    Ok(Received::Complete { value: (container, objects), rest: rest2 })
}

/// The parameters of `delete-objects` read back as they were encoded.
pub proof fn lemma_delete_objects_params_round_trip(container: Seq<char>, objects: Seq<Seq<char>>, rest: Seq<u8>)
    requires
        encodable_str(container),
        list_encodable(objects),
    ensures
        read_delete_objects_params(wire_string(container) + wire_string_list(objects) + rest)
            == Read::<(Seq<char>, Seq<Seq<char>>), ParamsError>::Done(
            (container, objects),
            wire_string(container).len() + wire_string_list(objects).len(),
        ),
{
    let a = wire_string(container);
    let b = wire_string_list(objects);
    let bytes = a + b + rest;
    assert(bytes =~= a + (b + rest));
    lemma_read_string_of_wire_string(container, b + rest);
    assert(bytes.skip(a.len() as int) =~= b + rest);
    lemma_read_string_list_of_wire_string_list(objects, rest);
}

/// Why a function's results cannot be received, or cannot be encoded.
#[derive(Clone, Copy, Debug, PartialEq, Eq, Structural)]
pub enum ResultsError {
    /// The result's discriminant is neither `ok` nor `err`.
    Discriminant,
    /// The `ok` value is invalid: the record field, if the value is a record.
    Value(Option<Field>),
    /// The `err` message is invalid, or too long to encode.
    Message,
}

/// The encoding of a function's result: the discriminant, then the `ok`
/// value's encoding or the `err` message's.
pub open spec fn wire_result<V>(r: Result<V, Seq<char>>, ok: spec_fn(V) -> Seq<u8>) -> Seq<u8> {
    match r {
        Ok(v) => wire_flag(false) + ok(v),
        Err(m) => wire_flag(true) + wire_string(m),
    }
}

/// Reading a function's result, the `ok` value as `ok` reads it.
pub open spec fn read_result<V>(
    bytes: Seq<u8>,
    ok: spec_fn(Seq<u8>) -> Read<V, ResultsError>,
) -> Read<Result<V, Seq<char>>, ResultsError> {
    match read_flag(bytes) {
        ValueRead::Incomplete => Read::Incomplete(ResultsError::Discriminant),
        ValueRead::Invalid => Read::Invalid(ResultsError::Discriminant),
        ValueRead::Done(false, _) => match ok(bytes.skip(1)) {
            Read::Incomplete(e) => Read::Incomplete(e),
            Read::Invalid(e) => Read::Invalid(e),
            Read::Done(v, n) => Read::Done(Ok(v), n + 1),
        },
        ValueRead::Done(true, _) => match read_string(bytes.skip(1)) {
            StrRead::Incomplete => Read::Incomplete(ResultsError::Message),
            StrRead::Invalid => Read::Invalid(ResultsError::Message),
            StrRead::Done { chars, len } => Read::Done(Err(chars), len + 1),
        },
    }
}

/// The view of a result whose `err` is a message.
pub open spec fn result_view<T, V>(r: Result<T, String>, ok: spec_fn(T) -> V) -> Result<V, Seq<char>> {
    match r {
        Ok(v) => Ok(ok(v)),
        Err(m) => Err(m@),
    }
}

/// A result reads back as it was encoded, when its `ok` values do.
pub proof fn lemma_result_round_trip<V>(
    r: Result<V, Seq<char>>,
    rest: Seq<u8>,
    ok_wire: spec_fn(V) -> Seq<u8>,
    ok_read: spec_fn(Seq<u8>) -> Read<V, ResultsError>,
)
    requires
        forall|v: V, more: Seq<u8>| #[trigger] ok_read(ok_wire(v) + more) == Read::<V, ResultsError>::Done(v, ok_wire(v).len()),
        r matches Err(m) ==> encodable_str(m),
    ensures
        read_result(wire_result(r, ok_wire) + rest, ok_read) == Read::<Result<V, Seq<char>>, ResultsError>::Done(
            r,
            wire_result(r, ok_wire).len(),
        ),
{
    let bytes = wire_result(r, ok_wire) + rest;
    match r {
        Ok(v) => {
            assert(bytes =~= wire_flag(false) + (ok_wire(v) + rest));
            lemma_read_flag_of_wire_flag(false, ok_wire(v) + rest);
            assert(bytes.skip(1) =~= ok_wire(v) + rest);
            assert(ok_read(ok_wire(v) + rest) == Read::<V, ResultsError>::Done(v, ok_wire(v).len()));
        },
        Err(m) => {
            assert(bytes =~= wire_flag(true) + (wire_string(m) + rest));
            lemma_read_flag_of_wire_flag(true, wire_string(m) + rest);
            assert(bytes.skip(1) =~= wire_string(m) + rest);
            lemma_read_string_of_wire_string(m, rest);
        },
    }
}

/// Appends an `err` result: the discriminant, then the message.
fn encode_error_message(m: &String, out: &mut Vec<u8>) -> (r: Result<(), ResultsError>)
    ensures
        r is Ok <==> encodable_str(m@),
        r is Ok ==> final(out)@ == old(out)@ + wire_flag(true) + wire_string(m@),
        r matches Err(e) ==> e == ResultsError::Message,
{
    let _ = pack_result_tag(Err(()), out);
    if pack_str(m.as_str(), out).is_err() {
        return Err(ResultsError::Message);
    }
    Ok(())
}

/// Receives an `err` message, after the discriminant.
fn receive_error_message<T>(after_tag: &[u8]) -> (r: Result<Received<Result<T, String>, ResultsError>, ResultsError>)
    ensures
        match read_string(after_tag@) {
            StrRead::Incomplete => r matches Ok(Received::Incomplete(w)) && w == ResultsError::Message,
            StrRead::Invalid => r == Err::<Received<Result<T, String>, ResultsError>, ResultsError>(ResultsError::Message),
            StrRead::Done { chars, len } => r matches Ok(Received::Complete { value: Err(m), rest })
                && m@ == chars && rest@ == after_tag@.skip(len as int),
        },
{
    match unpack_string(after_tag) {
        Err(_) => Err(ResultsError::Message),
        Ok(None) => Ok(Received::Incomplete(ResultsError::Message)),
        Ok(Some((m, rest))) => Ok(Received::Complete { value: Err(m), rest }),
    }
}

/// The message after the discriminant ends where the result does.
proof fn lemma_error_message_skip(bytes: Seq<u8>, rest: Seq<u8>)
    requires
        bytes.len() >= 1,
        rest == bytes.skip(1),
    ensures
        read_string(rest) matches StrRead::Done { len, .. } ==> rest.skip(len as int) == bytes.skip(
            (len + 1) as int,
        ),
{
    lemma_read_string_bounds(rest);
    if let StrRead::Done { len, .. } = read_string(rest) {
        lemma_skip_skip(bytes, 1, len as int);
    }
}

/// Reading the `ok` value of a function that returns nothing.
pub open spec fn read_unit(bytes: Seq<u8>) -> Read<(), ResultsError> {
    Read::Done((), 0)
}

/// Encodes the result of `clear-container`, `create-container`,
/// `delete-container`, `copy-object`, `delete-object`, `delete-objects`,
/// `move-object` and `write-container-data`.
pub fn encode_unit_result(r: &Result<(), String>) -> (out: Result<Vec<u8>, ResultsError>)
    ensures
        out is Ok <==> (r matches Err(m) ==> encodable_str(m@)),
        out matches Ok(bytes) ==> bytes@ == wire_result(result_view(*r, |u: ()| u), |u: ()| Seq::<u8>::empty()),
        out matches Err(e) ==> e == ResultsError::Message,
{
    let mut out: Vec<u8> = Vec::new();
    match r {
        Ok(()) => {
            let _ = pack_result_tag(Ok(()), &mut out);
            assert(out@ =~= wire_flag(false) + Seq::<u8>::empty());
        },
        Err(m) => {
            encode_error_message(m, &mut out)?;
        },
    }
    Ok(out)
}

/// Receives the result of a function that returns nothing.
pub fn receive_unit_result(bytes: &[u8]) -> (r: Result<Received<Result<(), String>, ResultsError>, ResultsError>)
    ensures
        received_with(
            r,
            read_result(bytes@, |b: Seq<u8>| read_unit(b)),
            bytes@,
            |v: Result<(), String>| result_view(v, |u: ()| u),
        ),
{
    match unpack_result_tag(bytes) {
        Err(_) => Err(ResultsError::Discriminant),
        Ok(None) => Ok(Received::Incomplete(ResultsError::Discriminant)),
        Ok(Some((Ok(()), rest))) => {
            assert(rest@.skip(0) =~= rest@);
            Ok(Received::Complete { value: Ok(()), rest })
        },
        Ok(Some((Err(()), rest))) => {
            let r = receive_error_message(rest.as_slice());
            proof {
                lemma_error_message_skip(bytes@, rest@);
            }
            r
        },
    }
}

/// Reading a boolean `ok` value.
pub open spec fn read_bool_value(bytes: Seq<u8>) -> Read<bool, ResultsError> {
    match read_flag(bytes) {
        ValueRead::Incomplete => Read::Incomplete(ResultsError::Value(None)),
        ValueRead::Invalid => Read::Invalid(ResultsError::Value(None)),
        ValueRead::Done(b, n) => Read::Done(b, n),
    }
}

/// Encodes the result of `container-exists` and `has-object`.
pub fn encode_bool_result(r: &Result<bool, String>) -> (out: Result<Vec<u8>, ResultsError>)
    ensures
        out is Ok <==> (r matches Err(m) ==> encodable_str(m@)),
        out matches Ok(bytes) ==> bytes@ == wire_result(result_view(*r, |b: bool| b), |b: bool| wire_flag(b)),
        out matches Err(e) ==> e == ResultsError::Message,
{
    let mut out: Vec<u8> = Vec::new();
    match r {
        Ok(b) => {
            let _ = pack_result_tag(Ok(()), &mut out);
            let _ = pack_bool(*b, &mut out);
        },
        Err(m) => {
            encode_error_message(m, &mut out)?;
        },
    }
    Ok(out)
}

/// Receives the result of `container-exists` and `has-object`.
pub fn receive_bool_result(bytes: &[u8]) -> (r: Result<Received<Result<bool, String>, ResultsError>, ResultsError>)
    ensures
        received_with(
            r,
            read_result(bytes@, |b: Seq<u8>| read_bool_value(b)),
            bytes@,
            |v: Result<bool, String>| result_view(v, |b: bool| b),
        ),
{
    match unpack_result_tag(bytes) {
        Err(_) => Err(ResultsError::Discriminant),
        Ok(None) => Ok(Received::Incomplete(ResultsError::Discriminant)),
        Ok(Some((Ok(()), rest))) => match unpack_bool(rest.as_slice()) {
            Err(_) => Err(ResultsError::Value(None)),
            Ok(None) => Ok(Received::Incomplete(ResultsError::Value(None))),
            Ok(Some((b, rest2))) => {
                proof {
                    lemma_skip_skip(bytes@, 1, 1);
                }
                Ok(Received::Complete { value: Ok(b), rest: rest2 })
            },
        },
        Ok(Some((Err(()), rest))) => {
            let r = receive_error_message(rest.as_slice());
            proof {
                lemma_error_message_skip(bytes@, rest@);
            }
            r
        },
    }
}

/// Reading a record `ok` value.
pub open spec fn record_value<V>(r: RecordRead<V>) -> Read<V, ResultsError> {
    match r {
        RecordRead::Incomplete(f) => Read::Incomplete(ResultsError::Value(Some(f))),
        RecordRead::Invalid(f) => Read::Invalid(ResultsError::Value(Some(f))),
        RecordRead::Done(v, n) => Read::Done(v, n),
    }
}

/// Encodes the result of `get-container-info`.
pub fn encode_container_metadata_result(r: &Result<ContainerMetadata, String>) -> (out: Result<Vec<u8>, ResultsError>)
    ensures
        out is Ok <==> (r matches Err(m) ==> encodable_str(m@)),
        out matches Ok(bytes) ==> bytes@ == wire_result(
            result_view(*r, |m: ContainerMetadata| m),
            |m: ContainerMetadata| m.wire(),
        ),
        out matches Err(e) ==> e == ResultsError::Message,
{
    let mut out: Vec<u8> = Vec::new();
    match r {
        Ok(m) => {
            let _ = pack_result_tag(Ok(()), &mut out);
            let _ = m.encode_sync(&mut out);
        },
        Err(m) => {
            encode_error_message(m, &mut out)?;
        },
    }
    Ok(out)
}

/// Receives the result of `get-container-info`.
pub fn receive_container_metadata_result(bytes: &[u8]) -> (r: Result<
    Received<Result<ContainerMetadata, String>, ResultsError>,
    ResultsError,
>)
    ensures
        received_with(
            r,
            read_result(bytes@, |b: Seq<u8>| record_value(ContainerMetadata::read(b))),
            bytes@,
            |v: Result<ContainerMetadata, String>| result_view(v, |m: ContainerMetadata| m),
        ),
{
    match unpack_result_tag(bytes) {
        Err(_) => Err(ResultsError::Discriminant),
        Ok(None) => Ok(Received::Incomplete(ResultsError::Discriminant)),
        Ok(Some((Ok(()), rest))) => match ContainerMetadata::receive(rest.as_slice()) {
            Err(e) => Err(ResultsError::Value(Some(e.field))),
            Ok(Received::Incomplete(f)) => Ok(Received::Incomplete(ResultsError::Value(Some(f)))),
            Ok(Received::Complete { value, rest: rest2 }) => {
                proof {
                    lemma_read_u64_bounds(rest@, 64);
                    lemma_skip_skip(bytes@, 1, rest@.len() - rest2@.len());
                }
                Ok(Received::Complete { value: Ok(value), rest: rest2 })
            },
        },
        Ok(Some((Err(()), rest))) => {
            let r = receive_error_message(rest.as_slice());
            proof {
                lemma_error_message_skip(bytes@, rest@);
            }
            r
        },
    }
}

/// Encodes the result of `get-object-info`.
pub fn encode_object_metadata_result(r: &Result<ObjectMetadata, String>) -> (out: Result<Vec<u8>, ResultsError>)
    ensures
        out is Ok <==> (r matches Err(m) ==> encodable_str(m@)),
        out matches Ok(bytes) ==> bytes@ == wire_result(
            result_view(*r, |m: ObjectMetadata| m),
            |m: ObjectMetadata| m.wire(),
        ),
        out matches Err(e) ==> e == ResultsError::Message,
{
    let mut out: Vec<u8> = Vec::new();
    match r {
        Ok(m) => {
            let _ = pack_result_tag(Ok(()), &mut out);
            let _ = m.encode_sync(&mut out);
        },
        Err(m) => {
            encode_error_message(m, &mut out)?;
        },
    }
    Ok(out)
}

/// Receives the result of `get-object-info`.
pub fn receive_object_metadata_result(bytes: &[u8]) -> (r: Result<
    Received<Result<ObjectMetadata, String>, ResultsError>,
    ResultsError,
>)
    ensures
        received_with(
            r,
            read_result(bytes@, |b: Seq<u8>| record_value(ObjectMetadata::read(b))),
            bytes@,
            |v: Result<ObjectMetadata, String>| result_view(v, |m: ObjectMetadata| m),
        ),
{
    match unpack_result_tag(bytes) {
        Err(_) => Err(ResultsError::Discriminant),
        Ok(None) => Ok(Received::Incomplete(ResultsError::Discriminant)),
        Ok(Some((Ok(()), rest))) => match ObjectMetadata::receive(rest.as_slice()) {
            Err(e) => Err(ResultsError::Value(Some(e.field))),
            Ok(Received::Incomplete(f)) => Ok(Received::Incomplete(ResultsError::Value(Some(f)))),
            Ok(Received::Complete { value, rest: rest2 }) => {
                proof {
                    lemma_read_object_metadata_bounds(rest@);
                    lemma_skip_skip(bytes@, 1, rest@.len() - rest2@.len());
                }
                Ok(Received::Complete { value: Ok(value), rest: rest2 })
            },
        },
        Ok(Some((Err(()), rest))) => {
            let r = receive_error_message(rest.as_slice());
            proof {
                lemma_error_message_skip(bytes@, rest@);
            }
            r
        },
    }
}

/// A result without a value reads back as it was encoded.
pub proof fn lemma_unit_result_round_trip(r: Result<(), Seq<char>>, rest: Seq<u8>)
    requires
        r matches Err(m) ==> encodable_str(m),
    ensures
        read_result(wire_result(r, |u: ()| Seq::<u8>::empty()) + rest, |b: Seq<u8>| read_unit(b))
            == Read::<Result<(), Seq<char>>, ResultsError>::Done(r, wire_result(r, |u: ()| Seq::<u8>::empty()).len()),
{
    let ok_wire = |u: ()| Seq::<u8>::empty();
    let ok_read = |b: Seq<u8>| read_unit(b);
    assert forall|v: (), more: Seq<u8>| #[trigger] ok_read(ok_wire(v) + more) == Read::<(), ResultsError>::Done(v, ok_wire(v).len()) by {}
    lemma_result_round_trip(r, rest, ok_wire, ok_read);
}

/// A boolean result reads back as it was encoded.
pub proof fn lemma_bool_result_round_trip(r: Result<bool, Seq<char>>, rest: Seq<u8>)
    requires
        r matches Err(m) ==> encodable_str(m),
    ensures
        read_result(wire_result(r, |b: bool| wire_flag(b)) + rest, |b: Seq<u8>| read_bool_value(b))
            == Read::<Result<bool, Seq<char>>, ResultsError>::Done(r, wire_result(r, |b: bool| wire_flag(b)).len()),
{
    let ok_wire = |b: bool| wire_flag(b);
    let ok_read = |b: Seq<u8>| read_bool_value(b);
    assert forall|v: bool, more: Seq<u8>| #[trigger] ok_read(ok_wire(v) + more) == Read::<bool, ResultsError>::Done(v, ok_wire(v).len()) by {
        lemma_read_flag_of_wire_flag(v, more);
    }
    lemma_result_round_trip(r, rest, ok_wire, ok_read);
}

/// A container's metadata result reads back as it was encoded.
pub proof fn lemma_container_metadata_result_round_trip(r: Result<ContainerMetadata, Seq<char>>, rest: Seq<u8>)
    requires
        r matches Err(m) ==> encodable_str(m),
    ensures
        read_result(
            wire_result(r, |m: ContainerMetadata| m.wire()) + rest,
            |b: Seq<u8>| record_value(ContainerMetadata::read(b)),
        ) == Read::<Result<ContainerMetadata, Seq<char>>, ResultsError>::Done(
            r,
            wire_result(r, |m: ContainerMetadata| m.wire()).len(),
        ),
{
    let ok_wire = |m: ContainerMetadata| m.wire();
    let ok_read = |b: Seq<u8>| record_value(ContainerMetadata::read(b));
    assert forall|v: ContainerMetadata, more: Seq<u8>| #[trigger] ok_read(ok_wire(v) + more) == Read::<ContainerMetadata, ResultsError>::Done(v, ok_wire(v).len()) by {
        lemma_container_metadata_round_trip(v, more);
    }
    lemma_result_round_trip(r, rest, ok_wire, ok_read);
}

/// An object's metadata result reads back as it was encoded.
pub proof fn lemma_object_metadata_result_round_trip(r: Result<ObjectMetadata, Seq<char>>, rest: Seq<u8>)
    requires
        r matches Err(m) ==> encodable_str(m),
    ensures
        read_result(
            wire_result(r, |m: ObjectMetadata| m.wire()) + rest,
            |b: Seq<u8>| record_value(ObjectMetadata::read(b)),
        ) == Read::<Result<ObjectMetadata, Seq<char>>, ResultsError>::Done(
            r,
            wire_result(r, |m: ObjectMetadata| m.wire()).len(),
        ),
{
    let ok_wire = |m: ObjectMetadata| m.wire();
    let ok_read = |b: Seq<u8>| record_value(ObjectMetadata::read(b));
    assert forall|v: ObjectMetadata, more: Seq<u8>| #[trigger] ok_read(ok_wire(v) + more) == Read::<ObjectMetadata, ResultsError>::Done(v, ok_wire(v).len()) by {
        lemma_object_metadata_round_trip(v, more);
    }
    lemma_result_round_trip(r, rest, ok_wire, ok_read);
}

/// An object's metadata read consumes at most the bytes there are.
proof fn lemma_read_object_metadata_bounds(bytes: Seq<u8>)
    ensures
        ObjectMetadata::read(bytes) matches RecordRead::Done(_, n) ==> n <= bytes.len(),
{
    lemma_read_u64_bounds(bytes, 64);
    if let LebRead::Done { len, .. } = read_uleb128(bytes, 64) {
        lemma_read_u64_bounds(bytes.skip(len as int), 64);
    }
}

} // verus!
