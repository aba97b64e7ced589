//! The wRPC value encoding of the primitive values that the blobstore
//! interface sends: unsigned integers (LEB128), strings (length-prefixed
//! UTF-8) and optional integers.
//!
//! Encoding and decoding are performed by `wrpc-transport` and its codecs;
//! this module states what they produce and proves the facts that the
//! record codecs rely on.
use vstd::prelude::*;
use vstd::arithmetic::power2::*;
use vstd::utf8::*;
use vstd::string::*;

verus! {

broadcast use vstd::seq::group_seq_axioms;

/// Unsigned LEB128: seven bits per byte, least significant group first,
/// the high bit of every byte but the last one set.
pub open spec fn uleb128(v: nat) -> Seq<u8>
    decreases v,
{
    if v < 128 {
        seq![v as u8]
    } else {
        seq![(v % 128 + 128) as u8] + uleb128(v / 128)
    }
}

/// What reading a LEB128 integer from the front of a byte sequence yields.
pub enum LebRead {
    /// The bytes end before the integer does.
    Incomplete,
    /// The bytes cannot encode an integer of the requested width.
    Invalid,
    /// The integer `value`, encoded in the first `len` bytes.
    Done { value: nat, len: nat },
}

/// Reading an unsigned LEB128 integer of at most `bits` bits, as the
/// WebAssembly binary format defines `uN`: a byte below 128 ends the number
/// and must fit in the remaining bits; a byte of 128 or more contributes its
/// low seven bits and is followed by a number of `bits - 7` bits.
pub open spec fn read_uleb128(bytes: Seq<u8>, bits: nat) -> LebRead
    decreases bytes.len(),
{
    if bytes.len() == 0 {
        LebRead::Incomplete
    } else if bytes[0] < 128 {
        if (bytes[0] as nat) < pow2(bits) {
            LebRead::Done { value: bytes[0] as nat, len: 1 }
        } else {
            LebRead::Invalid
        }
    } else if bits <= 7 {
        LebRead::Invalid
    } else {
        match read_uleb128(bytes.drop_first(), (bits - 7) as nat) {
            LebRead::Done { value, len } => LebRead::Done {
                value: (128 * value + (bytes[0] - 128)) as nat,
                len: len + 1,
            },
            other => other,
        }
    }
}

/// The encoding of a string: the LEB128 length of its UTF-8 bytes, then the bytes.
pub open spec fn wire_string(s: Seq<char>) -> Seq<u8> {
    uleb128(encode_utf8(s).len()) + encode_utf8(s)
}

/// The encoding of an optional integer: a tag byte, then the integer if present.
pub open spec fn wire_option_u64(v: Option<u64>) -> Seq<u8> {
    match v {
        None => seq![0u8],
        Some(x) => seq![1u8] + uleb128(x as nat),
    }
}

/// The encodings of the strings of `items`, one after the other.
pub open spec fn wire_strings(items: Seq<Seq<char>>) -> Seq<u8>
    decreases items.len(),
{
    if items.len() == 0 {
        Seq::empty()
    } else {
        wire_string(items[0]) + wire_strings(items.drop_first())
    }
}

/// The encoding of a list of strings: its LEB128 length, then its items.
pub open spec fn wire_string_list(items: Seq<Seq<char>>) -> Seq<u8> {
    uleb128(items.len()) + wire_strings(items)
}

/// The views of a sequence of string slices.
pub open spec fn str_views(items: Seq<&str>) -> Seq<Seq<char>> {
    items.map_values(|o: &str| o@)
}

/// A list of strings can be encoded: its length and each string's UTF-8
/// length fit in 32 bits.
pub open spec fn list_encodable(items: Seq<Seq<char>>) -> bool {
    &&& items.len() <= u32::MAX
    &&& forall|i: int| 0 <= i < items.len() ==> encode_utf8(#[trigger] items[i]).len() <= u32::MAX
}

/// What reading a string from the front of a byte sequence yields.
pub enum StrRead {
    Incomplete,
    Invalid,
    Done { chars: Seq<char>, len: nat },
}

/// Reading a string: a LEB128 length of at most 32 bits, then that many
/// bytes, which must be valid UTF-8.
pub open spec fn read_string(bytes: Seq<u8>) -> StrRead {
    match read_uleb128(bytes, 32) {
        LebRead::Incomplete => StrRead::Incomplete,
        LebRead::Invalid => StrRead::Invalid,
        LebRead::Done { value: n, len: k } => if bytes.len() < k + n {
            StrRead::Incomplete
        } else if valid_utf8(bytes.subrange(k as int, (k + n) as int)) {
            StrRead::Done {
                chars: decode_utf8(bytes.subrange(k as int, (k + n) as int)),
                len: k + n,
            }
        } else {
            StrRead::Invalid
        },
    }
}

/// What reading a value from the front of a byte sequence yields.
pub enum ValueRead<V> {
    Incomplete,
    Invalid,
    Done(V, nat),
}

/// Reading a one-byte flag, as booleans and result discriminants are
/// encoded: 0 is `false`, 1 is `true`, any other byte is invalid.
pub open spec fn read_flag(bytes: Seq<u8>) -> ValueRead<bool> {
    if bytes.len() == 0 {
        ValueRead::Incomplete
    } else if bytes[0] == 0 {
        ValueRead::Done(false, 1)
    } else if bytes[0] == 1 {
        ValueRead::Done(true, 1)
    } else {
        ValueRead::Invalid
    }
}

/// The encoding of a flag.
pub open spec fn wire_flag(b: bool) -> Seq<u8> {
    seq![if b { 1u8 } else { 0u8 }]
}

/// Reading an optional integer: a flag, then the integer when it is set.
pub open spec fn read_option_u64(bytes: Seq<u8>) -> ValueRead<Option<u64>> {
    match read_flag(bytes) {
        ValueRead::Incomplete => ValueRead::Incomplete,
        ValueRead::Invalid => ValueRead::Invalid,
        ValueRead::Done(false, _) => ValueRead::Done(None, 1),
        ValueRead::Done(true, _) => match read_uleb128(bytes.skip(1), 64) {
            LebRead::Incomplete => ValueRead::Incomplete,
            LebRead::Invalid => ValueRead::Invalid,
            LebRead::Done { value, len } => ValueRead::Done(Some(value as u64), len + 1),
        },
    }
}

/// Reading `n` strings one after the other.
pub open spec fn read_strings(bytes: Seq<u8>, n: nat) -> ValueRead<Seq<Seq<char>>>
    decreases n,
{
    if n == 0 {
        ValueRead::Done(Seq::empty(), 0)
    } else {
        match read_string(bytes) {
            StrRead::Incomplete => ValueRead::Incomplete,
            StrRead::Invalid => ValueRead::Invalid,
            StrRead::Done { chars, len } => match read_strings(bytes.skip(len as int), (n - 1) as nat) {
                ValueRead::Done(rest, j) => ValueRead::Done(seq![chars] + rest, len + j),
                other => other,
            },
        }
    }
}

/// Reading a list of strings: a 32-bit LEB128 count, then the strings.
pub open spec fn read_string_list(bytes: Seq<u8>) -> ValueRead<Seq<Seq<char>>> {
    match read_uleb128(bytes, 32) {
        LebRead::Incomplete => ValueRead::Incomplete,
        LebRead::Invalid => ValueRead::Invalid,
        LebRead::Done { value: n, len: k } => match read_strings(bytes.skip(k as int), n) {
            ValueRead::Done(items, j) => ValueRead::Done(items, k + j),
            other => other,
        },
    }
}

/// The error type of `wrpc-transport`'s codecs.
#[verifier::external_type_specification]
#[verifier::external_body]
pub struct ExIoError(std::io::Error);

/// Appends the encoding of `v`: `wrpc_transport::pack_ready` on a `u64`, whose
/// encoder (`wasm_tokio::cm::U64Codec`, that is `leb128_tokio::Leb128Encoder`)
/// writes the minimal unsigned LEB128 form and never fails.
#[verifier::external_body]
pub(crate) fn pack_u64(v: u64, dst: &mut Vec<u8>) -> (r: Result<(), std::io::Error>)
    ensures
        r is Ok,
        final(dst)@ == old(dst)@ + uleb128(v as nat),
{
    let mut buf = bytes::BytesMut::new();
    wrpc_transport::pack_ready(v, &mut buf)?;
    dst.extend_from_slice(&buf);
    Ok(())
}

/// Appends the encoding of `s`: `wrpc_transport::pack_ready` on a `&str`, whose
/// encoder (`wasm_tokio::CoreNameEncoder`) writes the LEB128 byte length and
/// the UTF-8 bytes, and fails, writing nothing, when the length exceeds `u32::MAX`.
#[verifier::external_body]
pub(crate) fn pack_str(s: &str, dst: &mut Vec<u8>) -> (r: Result<(), std::io::Error>)
    ensures
        r is Ok <==> s.spec_bytes().len() <= u32::MAX,
        r is Ok ==> final(dst)@ == old(dst)@ + wire_string(s@),
        r is Err ==> final(dst)@ == old(dst)@,
{
    let mut buf = bytes::BytesMut::new();
    wrpc_transport::pack_ready(s, &mut buf)?;
    dst.extend_from_slice(&buf);
    Ok(())
}

/// Appends the encoding of `v`: `wrpc_transport::pack_ready` on an
/// `Option<u64>`, whose encoder (`wasm_tokio::cm::OptionEncoder`) writes the
/// byte 0 for `None`, and the byte 1 followed by the LEB128 integer for `Some`.
#[verifier::external_body]
pub(crate) fn pack_option_u64(v: Option<u64>, dst: &mut Vec<u8>) -> (r: Result<(), std::io::Error>)
    ensures
        r is Ok,
        final(dst)@ == old(dst)@ + wire_option_u64(v),
{
    let mut buf = bytes::BytesMut::new();
    wrpc_transport::pack_ready(v, &mut buf)?;
    dst.extend_from_slice(&buf);
    Ok(())
}

/// Appends the encoding of the list `items`: `wrpc_transport::pack_ready` on
/// a `&[&str]`, whose encoder (`wrpc_transport::ListEncoder`) writes the
/// LEB128 length, failing when it exceeds `u32::MAX`, then each string as
/// `pack_str` does, failing when one of them is too long. On failure nothing
/// is appended.
#[verifier::external_body]
pub(crate) fn pack_str_list(items: &[&str], dst: &mut Vec<u8>) -> (r: Result<(), std::io::Error>)
    ensures
        r is Ok <==> list_encodable(str_views(items@)),
        r is Ok ==> final(dst)@ == old(dst)@ + wire_string_list(str_views(items@)),
        r is Err ==> final(dst)@ == old(dst)@,
{
    let mut buf = bytes::BytesMut::new();
    wrpc_transport::pack_ready(items, &mut buf)?;
    dst.extend_from_slice(&buf);
    Ok(())
}

/// Appends a result's discriminant: `wrpc_transport::pack_ready` on a
/// `Result<(), ()>`, whose encoder (`wasm_tokio::cm::ResultEncoder`) writes the
/// byte 0 for `Ok` and 1 for `Err`, and nothing for the unit payload.
#[verifier::external_body]
pub(crate) fn pack_result_tag(tag: Result<(), ()>, dst: &mut Vec<u8>) -> (r: Result<(), std::io::Error>)
    ensures
        r is Ok,
        final(dst)@ == old(dst)@ + wire_flag(tag is Err),
{
    let mut buf = bytes::BytesMut::new();
    wrpc_transport::pack_ready(tag, &mut buf)?;
    dst.extend_from_slice(&buf);
    Ok(())
}

/// Appends a boolean: `wrpc_transport::pack_ready` on a `bool`, whose encoder
/// (`wasm_tokio::cm::BoolCodec`) writes the byte 0 or 1.
#[verifier::external_body]
pub(crate) fn pack_bool(b: bool, dst: &mut Vec<u8>) -> (r: Result<(), std::io::Error>)
    ensures
        r is Ok,
        final(dst)@ == old(dst)@ + wire_flag(b),
{
    let mut buf = bytes::BytesMut::new();
    wrpc_transport::pack_ready(b, &mut buf)?;
    dst.extend_from_slice(&buf);
    Ok(())
}

/// Decodes a result's discriminant from the front of `bytes` with the decoder
/// that `wrpc_transport::Decode` names for `Result<(), ()>`
/// (`wasm_tokio::cm::ResultDecoder`): the byte 0 is `Ok`, 1 is `Err`, any
/// other byte an error.
#[verifier::external_body]
pub(crate) fn unpack_result_tag(bytes: &[u8]) -> (r: Result<Option<(Result<(), ()>, Vec<u8>)>, std::io::Error>)
    ensures
        match read_flag(bytes@) {
            ValueRead::Incomplete => r matches Ok(None),
            ValueRead::Invalid => r is Err,
            ValueRead::Done(is_err, len) => r matches Ok(Some((v, rest))) && (v is Err) == is_err
                && rest@ == bytes@.skip(len as int),
        },
{
    let mut buf = bytes::BytesMut::from(bytes);
    let mut dec = <Result<(), ()> as wrpc_transport::Decode>::Decoder::default();
    match tokio_util::codec::Decoder::decode(&mut dec, &mut buf)? {
        Some(tag) => Ok(Some((tag, buf.to_vec()))),
        None => Ok(None),
    }
}

/// Decodes a boolean from the front of `bytes` with the decoder that
/// `wrpc_transport::Decode` names for `bool` (`wasm_tokio::cm::BoolCodec`).
#[verifier::external_body]
pub(crate) fn unpack_bool(bytes: &[u8]) -> (r: Result<Option<(bool, Vec<u8>)>, std::io::Error>)
    ensures
        match read_flag(bytes@) {
            ValueRead::Incomplete => r matches Ok(None),
            ValueRead::Invalid => r is Err,
            ValueRead::Done(b, len) => r matches Ok(Some((v, rest))) && v == b && rest@
                == bytes@.skip(len as int),
        },
{
    let mut buf = bytes::BytesMut::from(bytes);
    let mut dec = <bool as wrpc_transport::Decode>::Decoder::default();
    match tokio_util::codec::Decoder::decode(&mut dec, &mut buf)? {
        Some(v) => Ok(Some((v, buf.to_vec()))),
        None => Ok(None),
    }
}

/// Decodes an optional `u64` from the front of `bytes` with the decoder that
/// `wrpc_transport::Decode` names for `Option<u64>` (`wasm_tokio::cm::OptionDecoder`):
/// a flag byte, then the LEB128 integer when it is 1.
#[verifier::external_body]
pub(crate) fn unpack_option_u64(bytes: &[u8]) -> (r: Result<Option<(Option<u64>, Vec<u8>)>, std::io::Error>)
    ensures
        match read_option_u64(bytes@) {
            ValueRead::Incomplete => r matches Ok(None),
            ValueRead::Invalid => r is Err,
            ValueRead::Done(o, len) => r matches Ok(Some((v, rest))) && v == o && rest@
                == bytes@.skip(len as int),
        },
{
    let mut buf = bytes::BytesMut::from(bytes);
    let mut dec = <Option<u64> as wrpc_transport::Decode>::Decoder::default();
    match tokio_util::codec::Decoder::decode(&mut dec, &mut buf)? {
        Some(v) => Ok(Some((v, buf.to_vec()))),
        None => Ok(None),
    }
}

/// Decodes a list of strings from the front of `bytes` with the decoder that
/// `wrpc_transport::Decode` names for `Vec<String>` (`wasm_tokio::CoreVecDecoder`
/// of `CoreNameDecoder`): a 32-bit LEB128 count, then that many strings.
#[verifier::external_body]
pub(crate) fn unpack_string_list(bytes: &[u8]) -> (r: Result<Option<(Vec<String>, Vec<u8>)>, std::io::Error>)
    ensures
        match read_string_list(bytes@) {
            ValueRead::Incomplete => r matches Ok(None),
            ValueRead::Invalid => r is Err,
            ValueRead::Done(items, len) => r matches Ok(Some((v, rest))) && v@.map_values(
                |s: String| s@,
            ) == items && rest@ == bytes@.skip(len as int),
        },
{
    let mut buf = bytes::BytesMut::from(bytes);
    let mut dec = <Vec<String> as wrpc_transport::Decode>::Decoder::default();
    match tokio_util::codec::Decoder::decode(&mut dec, &mut buf)? {
        Some(v) => Ok(Some((v, buf.to_vec()))),
        None => Ok(None),
    }
}

/// Decodes a `u64` from the front of `bytes` with the decoder that
/// `wrpc_transport::Decode` names for `u64` (`leb128_tokio::Leb128DecoderU64`):
/// `None` when the bytes end early, an error when a tenth byte exceeds 1,
/// otherwise the value and the bytes after it.
#[verifier::external_body]
pub(crate) fn unpack_u64(bytes: &[u8]) -> (r: Result<Option<(u64, Vec<u8>)>, std::io::Error>)
    ensures
        match read_uleb128(bytes@, 64) {
            LebRead::Incomplete => r matches Ok(None),
            LebRead::Invalid => r is Err,
            LebRead::Done { value, len } => r matches Ok(Some((v, rest)))
                && v == value && rest@ == bytes@.skip(len as int),
        },
{
    let mut buf = bytes::BytesMut::from(bytes);
    let mut dec = <u64 as wrpc_transport::Decode>::Decoder::default();
    match tokio_util::codec::Decoder::decode(&mut dec, &mut buf)? {
        Some(v) => Ok(Some((v, buf.to_vec()))),
        None => Ok(None),
    }
}

/// Decodes a string from the front of `bytes` with the decoder that
/// `wrpc_transport::Decode` names for `String` (`wasm_tokio::CoreNameDecoder`):
/// a 32-bit LEB128 length, then that many bytes, which must be UTF-8.
#[verifier::external_body]
pub(crate) fn unpack_string(bytes: &[u8]) -> (r: Result<Option<(String, Vec<u8>)>, std::io::Error>)
    ensures
        match read_string(bytes@) {
            StrRead::Incomplete => r matches Ok(None),
            StrRead::Invalid => r is Err,
            StrRead::Done { chars, len } => r matches Ok(Some((s, rest)))
                && s@ == chars && rest@ == bytes@.skip(len as int),
        },
{
    let mut buf = bytes::BytesMut::from(bytes);
    let mut dec = <String as wrpc_transport::Decode>::Decoder::default();
    match tokio_util::codec::Decoder::decode(&mut dec, &mut buf)? {
        Some(s) => Ok(Some((s, buf.to_vec()))),
        None => Ok(None),
    }
}

/// Reading back an encoding gives the value and the encoding's length,
/// whatever follows it, when the value fits in the width read.
pub proof fn lemma_read_uleb128_of_uleb128(v: nat, rest: Seq<u8>, bits: nat)
    requires
        v < pow2(bits),
    ensures
        read_uleb128(uleb128(v) + rest, bits) == (LebRead::Done { value: v, len: uleb128(v).len() }),
    decreases v,
{
    lemma2_to64();
    let bytes = uleb128(v) + rest;
    if v < 128 {
        assert(bytes[0] == v as u8);
    } else {
        if bits <= 7 {
            if bits < 7 {
                lemma_pow2_strictly_increases(bits, 7);
            }
            assert(false);
        }
        lemma_pow2_adds(7, (bits - 7) as nat);
        assert(v / 128 < pow2((bits - 7) as nat)) by (nonlinear_arith)
            requires
                v < pow2(bits),
                pow2(bits) == 128 * pow2((bits - 7) as nat),
        ;
        lemma_read_uleb128_of_uleb128(v / 128, rest, (bits - 7) as nat);
        assert(bytes.drop_first() =~= uleb128(v / 128) + rest);
        assert(bytes[0] == (v % 128 + 128) as u8);
    }
}

/// A proper prefix of an encoding reads as incomplete.
pub proof fn lemma_read_uleb128_prefix(v: nat, n: int, bits: nat)
    requires
        v < pow2(bits),
        0 <= n < uleb128(v).len(),
    ensures
        read_uleb128(uleb128(v).take(n), bits) == LebRead::Incomplete,
    decreases v,
{
    lemma2_to64();
    let bytes = uleb128(v).take(n);
    if n > 0 {
        if v < 128 {
        } else {
            if bits <= 7 {
                if bits < 7 {
                    lemma_pow2_strictly_increases(bits, 7);
                }
                assert(false);
            }
            lemma_pow2_adds(7, (bits - 7) as nat);
            assert(v / 128 < pow2((bits - 7) as nat)) by (nonlinear_arith)
                requires
                    v < pow2(bits),
                    pow2(bits) == 128 * pow2((bits - 7) as nat),
            ;
            lemma_read_uleb128_prefix(v / 128, n - 1, (bits - 7) as nat);
            assert(bytes.drop_first() =~= uleb128(v / 128).take(n - 1));
            assert(bytes[0] == (v % 128 + 128) as u8);
        }
    }
}

/// Reading back a string encoding gives the string and the encoding's length.
pub proof fn lemma_read_string_of_wire_string(s: Seq<char>, rest: Seq<u8>)
    requires
        encode_utf8(s).len() <= u32::MAX,
    ensures
        read_string(wire_string(s) + rest) == (StrRead::Done { chars: s, len: wire_string(s).len() }),
{
    let body = encode_utf8(s);
    let head = uleb128(body.len());
    let bytes = wire_string(s) + rest;
    lemma2_to64();
    assert(bytes =~= head + (body + rest));
    lemma_read_uleb128_of_uleb128(body.len(), body + rest, 32);
    assert(bytes.subrange(head.len() as int, (head.len() + body.len()) as int) =~= body);
    encode_utf8_valid_utf8(s);
    encode_utf8_decode_utf8(s);
}

/// A proper prefix of a string encoding reads as incomplete.
pub proof fn lemma_read_string_prefix(s: Seq<char>, n: int)
    requires
        encode_utf8(s).len() <= u32::MAX,
        0 <= n < wire_string(s).len(),
    ensures
        read_string(wire_string(s).take(n)) == StrRead::Incomplete,
{
    let body = encode_utf8(s);
    let head = uleb128(body.len());
    let bytes = wire_string(s).take(n);
    lemma2_to64();
    if n < head.len() {
        assert(bytes =~= head.take(n));
        lemma_read_uleb128_prefix(body.len(), n, 32);
    } else {
        assert(bytes =~= head + bytes.skip(head.len() as int));
        lemma_read_uleb128_of_uleb128(body.len(), bytes.skip(head.len() as int), 32);
    }
}

/// Reading back a flag gives it, whatever follows.
pub proof fn lemma_read_flag_of_wire_flag(b: bool, rest: Seq<u8>)
    ensures
        read_flag(wire_flag(b) + rest) == ValueRead::Done(b, 1),
{
    assert((wire_flag(b) + rest)[0] == wire_flag(b)[0]);
}

/// Reading back an optional integer gives it, whatever follows.
pub proof fn lemma_read_option_of_wire_option(v: Option<u64>, rest: Seq<u8>)
    ensures
        read_option_u64(wire_option_u64(v) + rest) == ValueRead::Done(v, wire_option_u64(v).len()),
{
    let bytes = wire_option_u64(v) + rest;
    assert(bytes[0] == wire_option_u64(v)[0]);
    if let Some(x) = v {
        lemma2_to64();
        assert(bytes.skip(1) =~= uleb128(x as nat) + rest);
        lemma_read_uleb128_of_uleb128(x as nat, rest, 64);
    }
}

/// Reading back `items.len()` strings gives them, whatever follows.
pub proof fn lemma_read_strings_of_wire_strings(items: Seq<Seq<char>>, rest: Seq<u8>)
    requires
        forall|i: int| 0 <= i < items.len() ==> encode_utf8(#[trigger] items[i]).len() <= u32::MAX,
    ensures
        read_strings(wire_strings(items) + rest, items.len()) == ValueRead::Done(
            items,
            wire_strings(items).len(),
        ),
    decreases items.len(),
{
    if items.len() == 0 {
        assert(items =~= Seq::<Seq<char>>::empty());
    } else {
        let tail = items.drop_first();
        let bytes = wire_strings(items) + rest;
        assert forall|i: int| 0 <= i < tail.len() implies encode_utf8(#[trigger] tail[i]).len()
            <= u32::MAX by {
            assert(tail[i] == items[i + 1]);
        }
        assert(bytes =~= wire_string(items[0]) + (wire_strings(tail) + rest));
        lemma_read_string_of_wire_string(items[0], wire_strings(tail) + rest);
        assert(bytes.skip(wire_string(items[0]).len() as int) =~= wire_strings(tail) + rest);
        lemma_read_strings_of_wire_strings(tail, rest);
        assert(seq![items[0]] + tail =~= items);
    }
}

/// Reading back a list of strings gives it, whatever follows.
pub proof fn lemma_read_string_list_of_wire_string_list(items: Seq<Seq<char>>, rest: Seq<u8>)
    requires
        list_encodable(items),
    ensures
        read_string_list(wire_string_list(items) + rest) == ValueRead::Done(
            items,
            wire_string_list(items).len(),
        ),
{
    let head = uleb128(items.len());
    let bytes = wire_string_list(items) + rest;
    lemma2_to64();
    assert(bytes =~= head + (wire_strings(items) + rest));
    lemma_read_uleb128_of_uleb128(items.len(), wire_strings(items) + rest, 32);
    assert(bytes.skip(head.len() as int) =~= wire_strings(items) + rest);
    lemma_read_strings_of_wire_strings(items, rest);
}

/// Bytes appended after a complete or invalid integer do not change the read.
pub proof fn lemma_read_uleb128_extend(bytes: Seq<u8>, more: Seq<u8>, bits: nat)
    ensures
        !(read_uleb128(bytes, bits) is Incomplete) ==> read_uleb128(bytes + more, bits)
            == read_uleb128(bytes, bits),
    decreases bytes.len(),
{
    if bytes.len() > 0 {
        assert((bytes + more)[0] == bytes[0]);
        if bytes[0] >= 128 && bits > 7 {
            lemma_read_uleb128_extend(bytes.drop_first(), more, (bits - 7) as nat);
            assert((bytes + more).drop_first() =~= bytes.drop_first() + more);
        }
    }
}

/// Bytes appended after a complete or invalid string do not change the read.
pub proof fn lemma_read_string_extend(bytes: Seq<u8>, more: Seq<u8>)
    ensures
        !(read_string(bytes) is Incomplete) ==> read_string(bytes + more) == read_string(bytes),
{
    lemma_read_uleb128_extend(bytes, more, 32);
    if let LebRead::Done { value: n, len: k } = read_uleb128(bytes, 32) {
        if bytes.len() >= k + n {
            assert((bytes + more).subrange(k as int, (k + n) as int) =~= bytes.subrange(
                k as int,
                (k + n) as int,
            ));
        }
    }
}

} // verus!
