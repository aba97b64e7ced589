//! The records of the blobstore interface and their wire encoding: each
//! record is the concatenation of its fields' encodings, in declaration order.
use vstd::prelude::*;
use vstd::arithmetic::power2::*;
use vstd::string::*;
use vstd::utf8::*;
use crate::wire::{
    lemma_read_string_extend, lemma_read_string_of_wire_string, lemma_read_string_prefix,
    lemma_read_uleb128_extend, lemma_read_uleb128_of_uleb128, lemma_read_uleb128_prefix,
    pack_str, pack_u64, read_string, read_uleb128, uleb128, unpack_string, unpack_u64,
    wire_string, LebRead, StrRead,
};

verus! {

broadcast use vstd::seq::group_seq_axioms;

/// A field of a record, as the interface names it.
#[derive(Clone, Copy, Debug, PartialEq, Eq, Structural)]
pub enum Field {
    CreatedAt,
    Size,
    Container,
    Object,
}

impl Field {
    /// The field's name in the interface definition.
    pub open spec fn name_spec(self) -> Seq<char> {
        match self {
            Field::CreatedAt => "created-at"@,
            Field::Size => "size"@,
            Field::Container => "container"@,
            Field::Object => "object"@,
        }
    }

    /// The field's name in the interface definition.
    pub fn name(&self) -> (r: &'static str)
        ensures
            r@ == self.name_spec(),
    {
        match self {
            Field::CreatedAt => "created-at",
            Field::Size => "size",
            Field::Container => "container",
            Field::Object => "object",
        }
    }
}

/// A field could not be encoded: a string longer than `u32::MAX` bytes.
#[derive(Clone, Copy, Debug, PartialEq, Eq, Structural)]
pub struct EncodeError {
    pub field: Field,
}

/// A field could not be decoded: its bytes are not a valid encoding.
#[derive(Clone, Copy, Debug, PartialEq, Eq, Structural)]
pub struct ReceiveError {
    pub field: Field,
}

impl EncodeError {
    /// The error's description, naming the field.
    pub fn message(&self) -> (r: String)
        ensures
            r@ == "failed to encode `"@ + self.field.name_spec() + "`"@,
    {
        let mut s = <String as StringExecFns>::from_str("failed to encode `");
        s.append(self.field.name());
        s.append("`");
        s
    }
}

impl ReceiveError {
    /// The error's description, naming the field.
    pub fn message(&self) -> (r: String)
        ensures
            r@ == "failed to receive `"@ + self.field.name_spec() + "`"@,
    {
        let mut s = <String as StringExecFns>::from_str("failed to receive `");
        s.append(self.field.name());
        s.append("`");
        s
    }
}

/// The outcome of receiving a value from a buffer.
#[derive(Debug)]
pub enum Received<T, W> {
    /// The buffer ends while the part `W` names is being read: more bytes
    /// are needed.
    Incomplete(W),
    /// The record, and the bytes that follow it.
    Complete { value: T, rest: Vec<u8> },
}

/// What reading a record from the front of a byte sequence yields, over views.
pub enum RecordRead<V> {
    /// The bytes end inside the field.
    Incomplete(Field),
    Invalid(Field),
    Done(V, nat),
}

/// `r` is the exec outcome of the read `expected` of `bytes`.
pub open spec fn received_as<T: View>(
    r: Result<Received<T, Field>, ReceiveError>,
    expected: RecordRead<T::V>,
    bytes: Seq<u8>,
) -> bool {
    match expected {
        RecordRead::Incomplete(f) => r matches Ok(Received::Incomplete(g)) && g == f,
        RecordRead::Invalid(f) => r == Err::<Received<T, Field>, ReceiveError>(ReceiveError { field: f }),
        RecordRead::Done(v, n) => r matches Ok(Received::Complete { value, rest })
            && value@ == v && rest@ == bytes.skip(n as int),
    }
}

/// A `u64` read: the value fits in 64 bits and the length in the bytes.
pub proof fn lemma_read_u64_bounds(bytes: Seq<u8>, bits: nat)
    ensures
        read_uleb128(bytes, bits) matches LebRead::Done { value, len } ==> value < pow2(bits)
            && 1 <= len <= bytes.len(),
    decreases bytes.len(),
{
    lemma2_to64();
    if bytes.len() > 0 && bytes[0] >= 128 && bits > 7 {
        lemma_read_u64_bounds(bytes.drop_first(), (bits - 7) as nat);
        if let LebRead::Done { value, len } = read_uleb128(bytes.drop_first(), (bits - 7) as nat) {
            lemma_pow2_adds(7, (bits - 7) as nat);
            assert(128 * value + (bytes[0] - 128) < pow2(bits)) by (nonlinear_arith)
                requires
                    value < pow2((bits - 7) as nat),
                    pow2(bits) == 128 * pow2((bits - 7) as nat),
                    bytes[0] - 128 < 128,
            ;
        }
    }
}

/// The metadata of a container.
#[derive(Clone, Copy, Debug, PartialEq, Eq, Structural)]
pub struct ContainerMetadata {
    pub created_at: u64,
}

impl View for ContainerMetadata {
    type V = ContainerMetadata;

    open spec fn view(&self) -> ContainerMetadata {
        *self
    }
}

impl ContainerMetadata {
    /// The record's encoding.
    pub open spec fn wire(self) -> Seq<u8> {
        uleb128(self.created_at as nat)
    }

    /// Reading the record from the front of `bytes`.
    pub open spec fn read(bytes: Seq<u8>) -> RecordRead<ContainerMetadata> {
        match read_uleb128(bytes, 64) {
            LebRead::Incomplete => RecordRead::Incomplete(Field::CreatedAt),
            LebRead::Invalid => RecordRead::Invalid(Field::CreatedAt),
            LebRead::Done { value, len } => RecordRead::Done(
                ContainerMetadata { created_at: value as u64 },
                len,
            ),
        }
    }

    /// Appends the record's encoding to `payload`.
    pub fn encode_sync(&self, payload: &mut Vec<u8>) -> (r: Result<(), EncodeError>)
        ensures
            r is Ok,
            final(payload)@ == old(payload)@ + self.wire(),
    {
        let _ = pack_u64(self.created_at, payload);
        Ok(())
    }

    /// Reads the record from the front of `payload`.
    pub fn receive(payload: &[u8]) -> (r: Result<Received<ContainerMetadata, Field>, ReceiveError>)
        ensures
            received_as(r, Self::read(payload@), payload@),
    {
        match unpack_u64(payload) {
            Err(_) => Err(ReceiveError { field: Field::CreatedAt }),
            Ok(None) => Ok(Received::Incomplete(Field::CreatedAt)),
            Ok(Some((created_at, rest))) => Ok(
                Received::Complete { value: ContainerMetadata { created_at }, rest },
            ),
        }
    }
}

/// The metadata of an object.
#[derive(Clone, Copy, Debug, PartialEq, Eq, Structural)]
pub struct ObjectMetadata {
    pub created_at: u64,
    pub size: u64,
}

impl View for ObjectMetadata {
    type V = ObjectMetadata;

    open spec fn view(&self) -> ObjectMetadata {
        *self
    }
}

impl ObjectMetadata {
    /// The record's encoding.
    pub open spec fn wire(self) -> Seq<u8> {
        uleb128(self.created_at as nat) + uleb128(self.size as nat)
    }

    /// Reading the record from the front of `bytes`.
    pub open spec fn read(bytes: Seq<u8>) -> RecordRead<ObjectMetadata> {
        match read_uleb128(bytes, 64) {
            LebRead::Incomplete => RecordRead::Incomplete(Field::CreatedAt),
            LebRead::Invalid => RecordRead::Invalid(Field::CreatedAt),
            LebRead::Done { value: a, len: k } => match read_uleb128(bytes.skip(k as int), 64) {
                LebRead::Incomplete => RecordRead::Incomplete(Field::Size),
                LebRead::Invalid => RecordRead::Invalid(Field::Size),
                LebRead::Done { value: b, len: j } => RecordRead::Done(
                    ObjectMetadata { created_at: a as u64, size: b as u64 },
                    k + j,
                ),
            },
        }
    }

    /// Appends the record's encoding to `payload`.
    pub fn encode_sync(&self, payload: &mut Vec<u8>) -> (r: Result<(), EncodeError>)
        ensures
            r is Ok,
            final(payload)@ == old(payload)@ + self.wire(),
    {
        let _ = pack_u64(self.created_at, payload);
        let _ = pack_u64(self.size, payload);
        Ok(())
    }

    /// Reads the record from the front of `payload`.
    pub fn receive(payload: &[u8]) -> (r: Result<Received<ObjectMetadata, Field>, ReceiveError>)
        ensures
            received_as(r, Self::read(payload@), payload@),
    {
        match unpack_u64(payload) {
            Err(_) => Err(ReceiveError { field: Field::CreatedAt }),
            Ok(None) => Ok(Received::Incomplete(Field::CreatedAt)),
            Ok(Some((created_at, rest))) => {
                match unpack_u64(rest.as_slice()) {
                    Err(_) => Err(ReceiveError { field: Field::Size }),
                    Ok(None) => Ok(Received::Incomplete(Field::Size)),
                    Ok(Some((size, rest2))) => {
                        proof {
                            lemma_read_u64_bounds(payload@, 64);
                            lemma_read_u64_bounds(rest@, 64);
                            lemma_skip_skip(payload@, payload@.len() - rest@.len(), rest@.len() - rest2@.len());
                        }
                        Ok(Received::Complete { value: ObjectMetadata { created_at, size }, rest: rest2 })
                    },
                }
            },
        }
    }
}

/// The identity of an object: its container and its name.
#[derive(Clone, Debug)]
pub struct ObjectId {
    pub container: String,
    pub object: String,
}

/// The view of an [`ObjectId`].
pub struct ObjectIdView {
    pub container: Seq<char>,
    pub object: Seq<char>,
}

impl View for ObjectId {
    type V = ObjectIdView;

    open spec fn view(&self) -> ObjectIdView {
        ObjectIdView { container: self.container@, object: self.object@ }
    }
}

impl PartialEq for ObjectId {
    fn eq(&self, other: &Self) -> (r: bool) {
        self.container == other.container && self.object == other.object
    }
}

impl Eq for ObjectId {
}

impl vstd::std_specs::cmp::PartialEqSpecImpl for ObjectId {
    open spec fn obeys_eq_spec() -> bool {
        true
    }

    open spec fn eq_spec(&self, other: &Self) -> bool {
        self.container@ == other.container@ && self.object@ == other.object@
    }
}

impl ObjectIdView {
    /// Both names fit the encoding's 32-bit length.
    pub open spec fn encodable(self) -> bool {
        encode_utf8(self.container).len() <= u32::MAX && encode_utf8(self.object).len() <= u32::MAX
    }

    /// The record's encoding.
    pub open spec fn wire(self) -> Seq<u8> {
        wire_string(self.container) + wire_string(self.object)
    }
}

impl ObjectId {
    /// Reading the record from the front of `bytes`.
    pub open spec fn read(bytes: Seq<u8>) -> RecordRead<ObjectIdView> {
        match read_string(bytes) {
            StrRead::Incomplete => RecordRead::Incomplete(Field::Container),
            StrRead::Invalid => RecordRead::Invalid(Field::Container),
            StrRead::Done { chars: c, len: k } => match read_string(bytes.skip(k as int)) {
                StrRead::Incomplete => RecordRead::Incomplete(Field::Object),
                StrRead::Invalid => RecordRead::Invalid(Field::Object),
                StrRead::Done { chars: o, len: j } => RecordRead::Done(
                    ObjectIdView { container: c, object: o },
                    k + j,
                ),
            },
        }
    }

    /// Appends the record's encoding to `payload`. A name longer than
    /// `u32::MAX` bytes cannot be encoded; the fields before it stay written.
    pub fn encode_sync(&self, payload: &mut Vec<u8>) -> (r: Result<(), EncodeError>)
        ensures
            r is Ok <==> self@.encodable(),
            r is Ok ==> final(payload)@ == old(payload)@ + self@.wire(),
            encode_utf8(self.container@).len() > u32::MAX ==> r == Err::<(), EncodeError>(
                EncodeError { field: Field::Container },
            ) && final(payload)@ == old(payload)@,
            encode_utf8(self.container@).len() <= u32::MAX && encode_utf8(self.object@).len()
                > u32::MAX ==> r == Err::<(), EncodeError>(EncodeError { field: Field::Object })
                && final(payload)@ == old(payload)@ + wire_string(self.container@),
    {
        if pack_str(self.container.as_str(), payload).is_err() {
            return Err(EncodeError { field: Field::Container });
        }
        if pack_str(self.object.as_str(), payload).is_err() {
            return Err(EncodeError { field: Field::Object });
        }
        Ok(())
    }

    /// Reads the record from the front of `payload`.
    pub fn receive(payload: &[u8]) -> (r: Result<Received<ObjectId, Field>, ReceiveError>)
        ensures
            received_as(r, Self::read(payload@), payload@),
    {
        match unpack_string(payload) {
            Err(_) => Err(ReceiveError { field: Field::Container }),
            Ok(None) => Ok(Received::Incomplete(Field::Container)),
            Ok(Some((container, rest))) => {
                match unpack_string(rest.as_slice()) {
                    Err(_) => Err(ReceiveError { field: Field::Object }),
                    Ok(None) => Ok(Received::Incomplete(Field::Object)),
                    Ok(Some((object, rest2))) => {
                        proof {
                            lemma_read_string_bounds(payload@);
                            lemma_read_string_bounds(rest@);
                            lemma_skip_skip(payload@, payload@.len() - rest@.len(), rest@.len() - rest2@.len());
                        }
                        Ok(Received::Complete { value: ObjectId { container, object }, rest: rest2 })
                    },
                }
            },
        }
    }
}

/// Two outcomes of receiving agree: the same error, incompleteness in the
/// same part, or the same value (by view) and the same remaining bytes.
pub open spec fn same_outcome<T: View, W, E>(r1: Result<Received<T, W>, E>, r2: Result<Received<T, W>, E>) -> bool {
    match (r1, r2) {
        (Ok(Received::Incomplete(a)), Ok(Received::Incomplete(b))) => a == b,
        (Ok(Received::Complete { value: v1, rest: s1 }), Ok(Received::Complete { value: v2, rest: s2 })) =>
            v1@ == v2@ && s1@ == s2@,
        (Err(e1), Err(e2)) => e1 == e2,
        _ => false,
    }
}

/// What is received is determined by the read of the bytes alone: two
/// outcomes of the same read of the same bytes agree.
pub proof fn lemma_received_as_determined<T: View>(
    r1: Result<Received<T, Field>, ReceiveError>,
    r2: Result<Received<T, Field>, ReceiveError>,
    expected: RecordRead<T::V>,
    bytes: Seq<u8>,
)
    requires
        received_as(r1, expected, bytes),
        received_as(r2, expected, bytes),
    ensures
        same_outcome(r1, r2),
{
}

/// Receiving an object's identity depends on the payload alone: two
/// receptions of equal payloads give the same outcome.
pub proof fn lemma_object_id_receive_determined(
    r1: Result<Received<ObjectId, Field>, ReceiveError>,
    r2: Result<Received<ObjectId, Field>, ReceiveError>,
    p1: Seq<u8>,
    p2: Seq<u8>,
)
    requires
        p1 == p2,
        received_as(r1, ObjectId::read(p1), p1),
        received_as(r2, ObjectId::read(p2), p2),
    ensures
        same_outcome(r1, r2),
{
    lemma_received_as_determined(r1, r2, ObjectId::read(p1), p1);
}

/// Receiving a container's metadata gives back what was encoded, whatever follows.
pub proof fn lemma_container_metadata_round_trip(m: ContainerMetadata, rest: Seq<u8>)
    ensures
        ContainerMetadata::read(m.wire() + rest) == RecordRead::Done(m, m.wire().len()),
{
    lemma2_to64();
    lemma_read_uleb128_of_uleb128(m.created_at as nat, rest, 64);
}

/// A proper prefix of a container's metadata encoding is incomplete in `created-at`.
pub proof fn lemma_container_metadata_prefix(m: ContainerMetadata, n: int)
    requires
        0 <= n < m.wire().len(),
    ensures
        ContainerMetadata::read(m.wire().take(n)) == RecordRead::<ContainerMetadata>::Incomplete(
            Field::CreatedAt,
        ),
{
    lemma2_to64();
    lemma_read_uleb128_prefix(m.created_at as nat, n, 64);
}

/// Bytes that arrive after a complete (or invalid) container's metadata do not change what is received.
pub proof fn lemma_container_metadata_extend(bytes: Seq<u8>, more: Seq<u8>)
    ensures
        !(ContainerMetadata::read(bytes) is Incomplete) ==> ContainerMetadata::read(bytes + more)
            == ContainerMetadata::read(bytes),
{
    lemma_read_uleb128_extend(bytes, more, 64);
}

/// Receiving an object's metadata gives back what was encoded, whatever follows.
pub proof fn lemma_object_metadata_round_trip(m: ObjectMetadata, rest: Seq<u8>)
    ensures
        ObjectMetadata::read(m.wire() + rest) == RecordRead::Done(m, m.wire().len()),
{
    lemma2_to64();
    let a = uleb128(m.created_at as nat);
    let b = uleb128(m.size as nat);
    assert(m.wire() + rest =~= a + (b + rest));
    lemma_read_uleb128_of_uleb128(m.created_at as nat, b + rest, 64);
    assert((m.wire() + rest).skip(a.len() as int) =~= b + rest);
    lemma_read_uleb128_of_uleb128(m.size as nat, rest, 64);
}

/// A proper prefix of an object's metadata encoding is incomplete in the
/// field that it cuts: `created-at` when it ends inside that field's
/// encoding, `size` otherwise.
pub proof fn lemma_object_metadata_prefix(m: ObjectMetadata, n: int)
    requires
        0 <= n < m.wire().len(),
    ensures
        ObjectMetadata::read(m.wire().take(n)) == RecordRead::<ObjectMetadata>::Incomplete(
            if n < uleb128(m.created_at as nat).len() {
                Field::CreatedAt
            } else {
                Field::Size
            },
        ),
{
    lemma2_to64();
    let a = uleb128(m.created_at as nat);
    let b = uleb128(m.size as nat);
    let bytes = m.wire().take(n);
    if n < a.len() {
        assert(bytes =~= a.take(n));
        lemma_read_uleb128_prefix(m.created_at as nat, n, 64);
    } else {
        assert(bytes =~= a + b.take(n - a.len()));
        lemma_read_uleb128_of_uleb128(m.created_at as nat, b.take(n - a.len()), 64);
        assert(bytes.skip(a.len() as int) =~= b.take(n - a.len()));
        lemma_read_uleb128_prefix(m.size as nat, n - a.len(), 64);
    }
}

/// Bytes that arrive after a complete (or invalid) object's metadata do not change what is received.
pub proof fn lemma_object_metadata_extend(bytes: Seq<u8>, more: Seq<u8>)
    ensures
        !(ObjectMetadata::read(bytes) is Incomplete) ==> ObjectMetadata::read(bytes + more)
            == ObjectMetadata::read(bytes),
{
    lemma_read_uleb128_extend(bytes, more, 64);
    if let LebRead::Done { value, len } = read_uleb128(bytes, 64) {
        lemma_read_u64_bounds(bytes, 64);
        assert((bytes + more).skip(len as int) =~= bytes.skip(len as int) + more);
        lemma_read_uleb128_extend(bytes.skip(len as int), more, 64);
    }
}

/// Receiving an object's identity gives back what was encoded, whatever follows.
pub proof fn lemma_object_id_round_trip(id: ObjectIdView, rest: Seq<u8>)
    requires
        id.encodable(),
    ensures
        ObjectId::read(id.wire() + rest) == RecordRead::Done(id, id.wire().len()),
{
    let a = wire_string(id.container);
    let b = wire_string(id.object);
    assert(id.wire() + rest =~= a + (b + rest));
    lemma_read_string_of_wire_string(id.container, b + rest);
    assert((id.wire() + rest).skip(a.len() as int) =~= b + rest);
    lemma_read_string_of_wire_string(id.object, rest);
}

/// A proper prefix of an object identity's encoding is incomplete in the
/// field that it cuts: `container` when it ends inside that name's encoding,
/// `object` otherwise.
pub proof fn lemma_object_id_prefix(id: ObjectIdView, n: int)
    requires
        id.encodable(),
        0 <= n < id.wire().len(),
    ensures
        ObjectId::read(id.wire().take(n)) == RecordRead::<ObjectIdView>::Incomplete(
            if n < wire_string(id.container).len() {
                Field::Container
            } else {
                Field::Object
            },
        ),
{
    let a = wire_string(id.container);
    let b = wire_string(id.object);
    let bytes = id.wire().take(n);
    if n < a.len() {
        assert(bytes =~= a.take(n));
        lemma_read_string_prefix(id.container, n);
    } else {
        assert(bytes =~= a + b.take(n - a.len()));
        lemma_read_string_of_wire_string(id.container, b.take(n - a.len()));
        assert(bytes.skip(a.len() as int) =~= b.take(n - a.len()));
        lemma_read_string_prefix(id.object, n - a.len());
    }
}

/// Bytes that arrive after a complete (or invalid) object identity do not change what is received.
pub proof fn lemma_object_id_extend(bytes: Seq<u8>, more: Seq<u8>)
    ensures
        !(ObjectId::read(bytes) is Incomplete) ==> ObjectId::read(bytes + more) == ObjectId::read(
            bytes,
        ),
{
    lemma_read_string_extend(bytes, more);
    if let StrRead::Done { chars, len } = read_string(bytes) {
        lemma_read_string_bounds(bytes);
        assert((bytes + more).skip(len as int) =~= bytes.skip(len as int) + more);
        lemma_read_string_extend(bytes.skip(len as int), more);
    }
}

/// Skipping twice is skipping the sum.
pub proof fn lemma_skip_skip(s: Seq<u8>, a: int, b: int)
    requires
        0 <= a <= s.len(),
        0 <= b <= s.len() - a,
    ensures
        s.skip(a).skip(b) == s.skip(a + b),
{
    assert(s.skip(a).skip(b) =~= s.skip(a + b));
}

/// A string read consumes at least one byte and at most all of them.
pub proof fn lemma_read_string_bounds(bytes: Seq<u8>)
    ensures
        read_string(bytes) matches StrRead::Done { len, .. } ==> 1 <= len <= bytes.len(),
{
    lemma_read_u64_bounds(bytes, 32);
}

} // verus!
