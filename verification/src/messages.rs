//! Packet types and message payloads of the UI protocol, and the binary
//! encoding of identifiers and strings on `bytes` buffers.

use vstd::prelude::*;
use vstd::utf8::{decode_utf8, encode_utf8, valid_utf8};
use bytes::{Buf, BufMut, Bytes, BytesMut};
use crate::error::{UiError, UiResult};
use crate::strings::{decimal, push_all, push_decimal};
use crate::text::{chars_to_string, str_chars};

verus! {

/// UI system packet types.
#[derive(Debug, Clone, Copy, PartialEq, Eq, Structural)]
pub enum UiPacketType {
    // Client to server
    CreateElement,
    UpdateElement,
    DeleteElement,
    InputEvent,
    ResizeScreen,
    RequestState,
    // Server to client
    ElementCreated,
    ElementUpdated,
    ElementDeleted,
    StateSync,
    RenderBatch,
    ThemeUpdate,
    // Terminal
    TerminalInput,
    TerminalOutput,
    TerminalConnect,
    TerminalDisconnect,
    TerminalState,
}

/// The wire number of a packet type.
pub open spec fn packet_code(t: UiPacketType) -> u16 {
    match t {
        UiPacketType::CreateElement => 1,
        UiPacketType::UpdateElement => 2,
        UiPacketType::DeleteElement => 3,
        UiPacketType::InputEvent => 4,
        UiPacketType::ResizeScreen => 5,
        UiPacketType::RequestState => 6,
        UiPacketType::ElementCreated => 100,
        UiPacketType::ElementUpdated => 101,
        UiPacketType::ElementDeleted => 102,
        UiPacketType::StateSync => 103,
        UiPacketType::RenderBatch => 104,
        UiPacketType::ThemeUpdate => 105,
        UiPacketType::TerminalInput => 200,
        UiPacketType::TerminalOutput => 201,
        UiPacketType::TerminalConnect => 202,
        UiPacketType::TerminalDisconnect => 203,
        UiPacketType::TerminalState => 204,
    }
}

/// The packet type with wire number `v`, if any.
pub open spec fn packet_of_code(v: u16) -> Option<UiPacketType> {
    if v == 1 {
        Some(UiPacketType::CreateElement)
    } else if v == 2 {
        Some(UiPacketType::UpdateElement)
    } else if v == 3 {
        Some(UiPacketType::DeleteElement)
    } else if v == 4 {
        Some(UiPacketType::InputEvent)
    } else if v == 5 {
        Some(UiPacketType::ResizeScreen)
    } else if v == 6 {
        Some(UiPacketType::RequestState)
    } else if v == 100 {
        Some(UiPacketType::ElementCreated)
    } else if v == 101 {
        Some(UiPacketType::ElementUpdated)
    } else if v == 102 {
        Some(UiPacketType::ElementDeleted)
    } else if v == 103 {
        Some(UiPacketType::StateSync)
    } else if v == 104 {
        Some(UiPacketType::RenderBatch)
    } else if v == 105 {
        Some(UiPacketType::ThemeUpdate)
    } else if v == 200 {
        Some(UiPacketType::TerminalInput)
    } else if v == 201 {
        Some(UiPacketType::TerminalOutput)
    } else if v == 202 {
        Some(UiPacketType::TerminalConnect)
    } else if v == 203 {
        Some(UiPacketType::TerminalDisconnect)
    } else if v == 204 {
        Some(UiPacketType::TerminalState)
    } else {
        None
    }
}

/// Reading a packet type's wire number gives the packet type back, and a
/// number read as a packet type is that type's wire number.
pub proof fn lemma_packet_code_round_trip(t: UiPacketType, v: u16)
    ensures
        packet_of_code(packet_code(t)) == Some(t),
        packet_of_code(v) matches Some(u) ==> packet_code(u) == v,
{
}

impl UiPacketType {
    /// The wire number of the packet type.
    pub fn as_u16(self) -> (v: u16)
        ensures
            v == packet_code(self),
    {
        match self {
            UiPacketType::CreateElement => 1,
            UiPacketType::UpdateElement => 2,
            UiPacketType::DeleteElement => 3,
            UiPacketType::InputEvent => 4,
            UiPacketType::ResizeScreen => 5,
            UiPacketType::RequestState => 6,
            UiPacketType::ElementCreated => 100,
            UiPacketType::ElementUpdated => 101,
            UiPacketType::ElementDeleted => 102,
            UiPacketType::StateSync => 103,
            UiPacketType::RenderBatch => 104,
            UiPacketType::ThemeUpdate => 105,
            UiPacketType::TerminalInput => 200,
            UiPacketType::TerminalOutput => 201,
            UiPacketType::TerminalConnect => 202,
            UiPacketType::TerminalDisconnect => 203,
            UiPacketType::TerminalState => 204,
        }
    }

    /// The packet type with wire number `value`; an unknown number is an
    /// invalid operation.
    pub fn try_from(value: u16) -> (r: UiResult<UiPacketType>)
        ensures
            match r {
                Ok(t) => packet_of_code(value) == Some(t),
                Err(e) => packet_of_code(value) is None && (e matches UiError::InvalidOperation(m)
                    && m@ == "Invalid packet type: "@ + decimal(value as nat)),
            },
    {
        if value == 1 {
            Ok(UiPacketType::CreateElement)
        } else if value == 2 {
            Ok(UiPacketType::UpdateElement)
        } else if value == 3 {
            Ok(UiPacketType::DeleteElement)
        } else if value == 4 {
            Ok(UiPacketType::InputEvent)
        } else if value == 5 {
            Ok(UiPacketType::ResizeScreen)
        } else if value == 6 {
            Ok(UiPacketType::RequestState)
        } else if value == 100 {
            Ok(UiPacketType::ElementCreated)
        } else if value == 101 {
            Ok(UiPacketType::ElementUpdated)
        } else if value == 102 {
            Ok(UiPacketType::ElementDeleted)
        } else if value == 103 {
            Ok(UiPacketType::StateSync)
        } else if value == 104 {
            Ok(UiPacketType::RenderBatch)
        } else if value == 105 {
            Ok(UiPacketType::ThemeUpdate)
        } else if value == 200 {
            Ok(UiPacketType::TerminalInput)
        } else if value == 201 {
            Ok(UiPacketType::TerminalOutput)
        } else if value == 202 {
            Ok(UiPacketType::TerminalConnect)
        } else if value == 203 {
            Ok(UiPacketType::TerminalDisconnect)
        } else if value == 204 {
            Ok(UiPacketType::TerminalState)
        } else {
            let mut text = str_chars("Invalid packet type: ");
            push_decimal(&mut text, value as usize);
            Err(UiError::InvalidOperation(chars_to_string(text.as_slice())))
        }
    }
}

/// Input modifiers.
#[derive(Debug, Clone, Copy)]
pub struct InputModifiers {
    pub shift: bool,
    pub control: bool,
    pub alt: bool,
    pub meta: bool,
}

/// Terminal input message.
#[derive(Debug, Clone)]
pub struct TerminalInputMessage {
    pub terminal_id: u128,
    pub input: String,
}

/// Terminal output message.
#[derive(Debug, Clone)]
pub struct TerminalOutputMessage {
    pub terminal_id: u128,
    pub output: String,
    pub is_error: bool,
}

/// Terminal connect message.
#[derive(Debug, Clone)]
pub struct TerminalConnectMessage {
    pub terminal_id: u128,
    pub shell_path: Option<String>,
    pub working_dir: Option<String>,
}

/// Terminal state message.
#[derive(Debug, Clone, Copy)]
pub struct TerminalStateMessage {
    pub terminal_id: u128,
    pub connected: bool,
    pub ready: bool,
}

#[verifier::external_type_specification]
#[verifier::external_body]
pub struct ExBytes(Bytes);

#[verifier::external_type_specification]
#[verifier::external_body]
pub struct ExBytesMut(BytesMut);

/// The bytes left to read in a `Bytes` buffer.
pub uninterp spec fn bytes_view(b: Bytes) -> Seq<u8>;

/// The bytes written so far to a `BytesMut` buffer.
pub uninterp spec fn bytes_mut_view(b: BytesMut) -> Seq<u8>;

/// `256` to the power `k`.
pub open spec fn pow256(k: nat) -> nat
    decreases k,
{
    if k == 0 {
        1
    } else {
        256 * pow256((k - 1) as nat)
    }
}

/// The `k` low-order bytes of `n`, most significant first.
pub open spec fn be_bytes(n: nat, k: nat) -> Seq<u8>
    decreases k,
{
    if k == 0 {
        Seq::empty()
    } else {
        be_bytes(n / 256, (k - 1) as nat).push((n % 256) as u8)
    }
}

/// The number whose bytes, most significant first, are `s`.
pub open spec fn be_value(s: Seq<u8>) -> nat
    decreases s.len(),
{
    if s.len() == 0 {
        0
    } else {
        be_value(s.drop_last()) * 256 + s.last() as nat
    }
}

/// A number below `256^k` is given back by reading its `k` bytes.
pub proof fn lemma_be_round_trip(n: nat, k: nat)
    requires
        n < pow256(k),
    ensures
        be_bytes(n, k).len() == k,
        be_value(be_bytes(n, k)) == n,
    decreases k,
{
    if k > 0 {
        let p = pow256((k - 1) as nat);
        assert(n / 256 < p) by (nonlinear_arith)
            requires
                n < 256 * p,
        {
        }
        lemma_be_round_trip(n / 256, (k - 1) as nat);
        assert(be_bytes(n, k).drop_last() =~= be_bytes(n / 256, (k - 1) as nat));
    }
}

/// Reading `k` bytes gives a number below `256^k`, whose bytes are those read.
pub proof fn lemma_be_value(s: Seq<u8>)
    ensures
        be_value(s) < pow256(s.len()),
        be_bytes(be_value(s), s.len()) == s,
    decreases s.len(),
{
    if s.len() > 0 {
        lemma_be_value(s.drop_last());
        let v = be_value(s.drop_last());
        let p = pow256((s.len() - 1) as nat);
        assert(v * 256 + s.last() < 256 * p) by (nonlinear_arith)
            requires
                v < p,
                s.last() < 256,
        {
        }
        assert(be_bytes(be_value(s), s.len()) =~= s);
    }
}

/// `256^16` is one past the largest `u128`.
pub proof fn lemma_pow256_16()
    ensures
        pow256(16) == u128::MAX + 1,
        pow256(4) == u32::MAX + 1,
{
    reveal_with_fuel(pow256, 17);
}

/// `BufMut::put_u32` on `BytesMut`: appends the four bytes of `n`, most
/// significant first. It panics when the buffer would outgrow `isize::MAX` bytes.
#[verifier::external_body]
fn put_u32(buf: &mut BytesMut, n: u32)
    requires
        bytes_mut_view(*old(buf)).len() + 4 <= isize::MAX,
    ensures
        bytes_mut_view(*final(buf)) == bytes_mut_view(*old(buf)) + be_bytes(n as nat, 4),
{
    buf.put_u32(n)
}

/// `BufMut::put_slice` on `BytesMut`: appends the bytes of `src`. It panics
/// when the buffer would outgrow `isize::MAX` bytes.
#[verifier::external_body]
fn put_slice(buf: &mut BytesMut, src: &[u8])
    requires
        bytes_mut_view(*old(buf)).len() + src@.len() <= isize::MAX,
    ensures
        bytes_mut_view(*final(buf)) == bytes_mut_view(*old(buf)) + src@,
{
    buf.put_slice(src)
}

/// `BytesMut::new`: an empty buffer.
#[verifier::external_body]
fn bytes_mut_new() -> (b: BytesMut)
    ensures
        bytes_mut_view(b) == Seq::<u8>::empty(),
{
    BytesMut::new()
}

/// `BytesMut::freeze`: the written bytes as a `Bytes` buffer to read from.
#[verifier::external_body]
fn freeze(buf: BytesMut) -> (b: Bytes)
    ensures
        bytes_view(b) == bytes_mut_view(buf),
{
    buf.freeze()
}

/// `Buf::remaining` on `Bytes`: the number of bytes left to read.
#[verifier::external_body]
fn remaining(buf: &Bytes) -> (n: usize)
    ensures
        n == bytes_view(*buf).len(),
{
    buf.remaining()
}

/// `Buf::get_u32` on `Bytes`: reads four bytes as a number, most significant
/// first. It panics when fewer than four bytes are left.
#[verifier::external_body]
fn get_u32(buf: &mut Bytes) -> (n: u32)
    requires
        bytes_view(*old(buf)).len() >= 4,
    ensures
        n == be_value(bytes_view(*old(buf)).take(4)),
        bytes_view(*final(buf)) == bytes_view(*old(buf)).skip(4),
{
    buf.get_u32()
}

/// `Buf::copy_to_slice` on `Bytes` into a new vector of `n` bytes: reads the
/// next `n` bytes. It panics when fewer than `n` bytes are left.
#[verifier::external_body]
fn copy_to_vec(buf: &mut Bytes, n: usize) -> (v: Vec<u8>)
    requires
        bytes_view(*old(buf)).len() >= n,
    ensures
        v@ == bytes_view(*old(buf)).take(n as int),
        bytes_view(*final(buf)) == bytes_view(*old(buf)).skip(n as int),
{
    let mut v = vec![0u8; n];
    buf.copy_to_slice(&mut v);
    v
}

/// `String::from_utf8`: the text the bytes encode when they are valid UTF-8;
/// otherwise the error's message (its wording is std's and is not restated here).
#[verifier::external_body]
fn string_from_utf8(bytes: Vec<u8>) -> (r: Result<String, String>)
    ensures
        match r {
            Ok(s) => valid_utf8(bytes@) && s@ == decode_utf8(bytes@),
            Err(_) => !valid_utf8(bytes@),
        },
{
    match String::from_utf8(bytes) {
        Ok(s) => Ok(s),
        Err(e) => Err(e.to_string()),
    }
}

/// `r` is a serialization error with the message `msg`.
pub open spec fn is_serialization_error<T>(r: UiResult<T>, msg: Seq<char>) -> bool {
    r matches Err(UiError::SerializationError(m)) && m@ == msg
}

/// The encoding of a string: its UTF-8 byte length as four bytes, most
/// significant first (the length is cut to 32 bits), then its bytes.
pub open spec fn string_encoding(s: Seq<char>) -> Seq<u8> {
    be_bytes(encode_utf8(s).len() % pow256(4), 4) + encode_utf8(s)
}

/// Appends the `k` low-order bytes of `n`, most significant first.
fn push_be(out: &mut Vec<u8>, n: u128, k: usize)
    requires
        k <= 16,
    ensures
        final(out)@ == old(out)@ + be_bytes(n as nat, k as nat),
    decreases k,
{
    if k > 0 {
        push_be(out, n / 256, k - 1);
        out.push((n % 256) as u8);
        proof {
            assert(out@ =~= old(out)@ + be_bytes(n as nat, k as nat));
        }
    }
}

/// Writes a UUID as its sixteen bytes, most significant first.
pub fn encode_uuid(buf: &mut BytesMut, id: u128)
    requires
        bytes_mut_view(*old(buf)).len() + 16 <= isize::MAX,
    ensures
        bytes_mut_view(*final(buf)) == bytes_mut_view(*old(buf)) + be_bytes(id as nat, 16),
{
    let mut bytes: Vec<u8> = Vec::new();
    push_be(&mut bytes, id, 16);
    proof {
        lemma_pow256_16();
        lemma_be_round_trip(id as nat, 16);
        assert(bytes@ =~= be_bytes(id as nat, 16));
    }
    put_slice(buf, bytes.as_slice());
}

/// Reads a UUID written by `encode_uuid`; fewer than sixteen bytes left is a
/// serialization error and reads nothing.
pub fn decode_uuid(buf: &mut Bytes) -> (r: UiResult<u128>)
    ensures
        bytes_view(*old(buf)).len() < 16 ==> is_serialization_error(r, "Not enough bytes for UUID"@)
            && bytes_view(*final(buf)) == bytes_view(*old(buf)),
        bytes_view(*old(buf)).len() >= 16 ==> r == Ok::<u128, UiError>(be_value(bytes_view(*old(buf)).take(16)) as u128)
            && bytes_view(*final(buf)) == bytes_view(*old(buf)).skip(16),
{
    if remaining(buf) < 16 {
        return Err(UiError::SerializationError(String::from_str("Not enough bytes for UUID")));
    }
    let bytes = copy_to_vec(buf, 16);
    let mut acc: u128 = 0;
    let mut i: usize = 0;
    proof {
        lemma_pow256_16();
        assert(bytes@.take(0) =~= Seq::<u8>::empty());
    }
    while i < 16
        invariant
            0 <= i <= 16,
            bytes@.len() == 16,
            acc as nat == be_value(bytes@.take(i as int)),
            be_value(bytes@.take(i as int)) < pow256(i as nat),
            pow256(16) == u128::MAX + 1,
        decreases 16 - i,
    {
        proof {
            assert(bytes@.take(i + 1).drop_last() =~= bytes@.take(i as int));
            lemma_be_value(bytes@.take(i + 1));
            assert(pow256((i + 1) as nat) <= pow256(16)) by {
                lemma_pow256_mono((i + 1) as nat, 16);
            }
        }
        acc = acc * 256 + bytes[i] as u128;
        i = i + 1;
    }
    proof {
        assert(bytes@.take(16) =~= bytes@);
    }
    Ok(acc)
}

/// Powers of `256` grow with the exponent.
pub proof fn lemma_pow256_mono(j: nat, k: nat)
    requires
        j <= k,
    ensures
        pow256(j) <= pow256(k),
    decreases k - j,
{
    if j < k {
        lemma_pow256_mono(j, (k - 1) as nat);
    }
}

/// Writes a string as its UTF-8 byte length (four bytes, most significant
/// first, cut to 32 bits) followed by its bytes.
pub fn encode_string(buf: &mut BytesMut, s: &str)
    requires
        bytes_mut_view(*old(buf)).len() + 4 + encode_utf8(s@).len() <= isize::MAX,
    ensures
        bytes_mut_view(*final(buf)) == bytes_mut_view(*old(buf)) + string_encoding(s@),
{
    let bytes = s.as_bytes();
    let n = bytes.len();
    let len32: u32 = ((n as u64) % 4294967296u64) as u32;
    proof {
        lemma_pow256_16();
        lemma_be_round_trip(len32 as nat, 4);
        assert(bytes@ == encode_utf8(s@));
    }
    put_u32(buf, len32);
    put_slice(buf, bytes);
    proof {
        assert(bytes_mut_view(*buf) =~= bytes_mut_view(*old(buf)) + string_encoding(s@));
    }
}

/// Reads a string written by `encode_string`.
///
/// Fewer than four bytes left is a serialization error that reads nothing;
/// fewer bytes than the length read is a serialization error after the
/// length was read; bytes that are not UTF-8 are a serialization error after
/// they were read.
pub fn decode_string(buf: &mut Bytes) -> (r: UiResult<String>)
    ensures
        bytes_view(*old(buf)).len() < 4 ==> is_serialization_error(r, "Not enough bytes for string length"@)
            && bytes_view(*final(buf)) == bytes_view(*old(buf)),
        bytes_view(*old(buf)).len() >= 4 ==> ({
            let len = be_value(bytes_view(*old(buf)).take(4));
            let rest = bytes_view(*old(buf)).skip(4);
            &&& rest.len() < len ==> is_serialization_error(
                r,
                "Not enough bytes for string: expected "@ + decimal(len) + ", got "@ + decimal(rest.len()),
            ) && bytes_view(*final(buf)) == rest
            &&& rest.len() >= len ==> bytes_view(*final(buf)) == rest.skip(len as int)
            &&& rest.len() >= len && valid_utf8(rest.take(len as int)) ==> (r matches Ok(s) && s@ == decode_utf8(rest.take(len as int)))
            &&& rest.len() >= len && !valid_utf8(rest.take(len as int)) ==> (r matches Err(UiError::SerializationError(m))
                && m@.len() >= 15 && m@.take(15) == "Invalid UTF-8: "@)
        }),
{
    if remaining(buf) < 4 {
        return Err(UiError::SerializationError(String::from_str("Not enough bytes for string length")));
    }
    let len = get_u32(buf) as usize;
    let left = remaining(buf);
    if left < len {
        let mut text = str_chars("Not enough bytes for string: expected ");
        push_decimal(&mut text, len);
        push_all(&mut text, &str_chars(", got "));
        push_decimal(&mut text, left);
        return Err(UiError::SerializationError(chars_to_string(text.as_slice())));
    }
    let bytes = copy_to_vec(buf, len);
    match string_from_utf8(bytes) {
        Ok(s) => Ok(s),
        Err(e) => {
            let prefix = str_chars("Invalid UTF-8: ");
            let mut text = str_chars("Invalid UTF-8: ");
            push_all(&mut text, &str_chars(e.as_str()));
            proof {
                reveal_strlit("Invalid UTF-8: ");
                assert(text@.take(15) =~= prefix@);
            }
            Err(UiError::SerializationError(chars_to_string(text.as_slice())))
        },
    }
}

/// A fresh buffer holding the encoding of `id`, ready to be read back.
pub fn encoded_uuid(id: u128) -> (b: Bytes)
    ensures
        bytes_view(b) == be_bytes(id as nat, 16),
{
    let mut buf = bytes_mut_new();
    encode_uuid(&mut buf, id);
    proof {
        assert(Seq::<u8>::empty() + be_bytes(id as nat, 16) =~= be_bytes(id as nat, 16));
    }
    freeze(buf)
}

/// A fresh buffer holding the encoding of `s`, ready to be read back.
pub fn encoded_string(s: &str) -> (b: Bytes)
    requires
        4 + encode_utf8(s@).len() <= isize::MAX,
    ensures
        bytes_view(b) == string_encoding(s@),
{
    let mut buf = bytes_mut_new();
    encode_string(&mut buf, s);
    proof {
        assert(Seq::<u8>::empty() + string_encoding(s@) =~= string_encoding(s@));
    }
    freeze(buf)
}

/// Reading back what `encode_string` wrote gives the string back and leaves
/// what followed it, for strings shorter than `2^32` bytes.
pub proof fn lemma_string_encoding(s: Seq<char>, rest: Seq<u8>)
    requires
        encode_utf8(s).len() < pow256(4),
    ensures
        ({
            let data = string_encoding(s) + rest;
            &&& data.len() >= 4
            &&& be_value(data.take(4)) == encode_utf8(s).len()
            &&& data.skip(4).len() >= encode_utf8(s).len()
            &&& data.skip(4).take(encode_utf8(s).len() as int) == encode_utf8(s)
            &&& data.skip(4).skip(encode_utf8(s).len() as int) == rest
            &&& valid_utf8(encode_utf8(s))
            &&& decode_utf8(encode_utf8(s)) == s
        }),
{
    let e = encode_utf8(s);
    let data = string_encoding(s) + rest;
    assert(e.len() % pow256(4) == e.len()) by (nonlinear_arith)
        requires
            e.len() < pow256(4),
    {
    }
    lemma_be_round_trip(e.len(), 4);
    assert(data.take(4) =~= be_bytes(e.len(), 4));
    assert(data.skip(4) =~= e + rest);
    assert((e + rest).take(e.len() as int) =~= e);
    assert((e + rest).skip(e.len() as int) =~= rest);
    vstd::utf8::encode_utf8_valid_utf8(s);
    vstd::utf8::encode_utf8_decode_utf8(s);
}

/// Reading back what `encode_uuid` wrote gives the identifier back and leaves
/// what followed it.
pub proof fn lemma_uuid_encoding(id: u128, rest: Seq<u8>)
    ensures
        ({
            let data = be_bytes(id as nat, 16) + rest;
            &&& data.len() >= 16
            &&& be_value(data.take(16)) == id
            &&& data.skip(16) == rest
        }),
{
    lemma_pow256_16();
    lemma_be_round_trip(id as nat, 16);
    let data = be_bytes(id as nat, 16) + rest;
    assert(data.take(16) =~= be_bytes(id as nat, 16));
    assert(data.skip(16) =~= rest);
}

} // verus!
