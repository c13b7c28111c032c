//! Byte access to one region, clamped to the region's bounds.
//!
//! A region's memory is handed over as a byte slice, which carries the base
//! address and the size together: no access through it can leave the region.

use vstd::prelude::*;
use vstd::utf8::*;

verus! {

/// The region's bytes after `payload` was written to its start: as much of the
/// payload as fits, then the bytes that were there.
pub open spec fn written(region: Seq<u8>, payload: Seq<u8>) -> Seq<u8> {
    Seq::new(
        region.len(),
        |i: int|
            if i < payload.len() {
                payload[i]
            } else {
                region[i]
            },
    )
}

/// The bytes that a read of `length` bytes takes from the region's start: the
/// whole region where `length` exceeds it.
pub open spec fn read_back(region: Seq<u8>, length: nat) -> Seq<u8> {
    if length <= region.len() {
        region.take(length as int)
    } else {
        region
    }
}

/// The text that the `Debug` format gives for a `Vec<u8>` of these bytes. The
/// standard library produces one text for given bytes but lays its form down
/// nowhere, so it has a name here and no definition.
pub uninterp spec fn debug_text(bytes: Seq<u8>) -> Seq<char>;

/// How bytes that were read are shown: as the text they encode where they are
/// UTF-8, else as the list of their values.
pub open spec fn rendered(bytes: Seq<u8>) -> Seq<char> {
    if valid_utf8(bytes) {
        decode_utf8(bytes)
    } else {
        debug_text(bytes)
    }
}

/// Calls `String::from_utf8`. Trusted: it gives a string exactly where the
/// bytes are valid UTF-8, and the string is then made of these bytes.
#[verifier::external_body]
fn text_of(bytes: Vec<u8>) -> (text: Option<String>)
    ensures
        text is Some <==> valid_utf8(bytes@),
        text matches Some(t) ==> encode_utf8(t@) == bytes@,
{
    String::from_utf8(bytes).ok()
}

/// Calls `format!` with `{:?}` on the bytes. Trusted: the result is the text
/// that `debug_text` names, which depends on the bytes alone.
#[verifier::external_body]
fn debug_rendering(bytes: &Vec<u8>) -> (text: String)
    ensures
        text@ == debug_text(bytes@),
{
    format!("{:?}", bytes)
}

/// Copies the bytes of `data` to the start of the region, as many as fit. The
/// rest of the region keeps what it held. Never fails.
pub fn write_memory(region: &mut [u8], data: &str) -> (result: Result<(), String>)
    ensures
        result is Ok,
        final(region)@ == written(old(region)@, encode_utf8(data@)),
{
    let payload = data.as_bytes();
    let write_size: usize = if payload.len() < region.len() {
        payload.len()
    } else {
        region.len()
    };
    let mut index: usize = 0;
    while index < write_size
        invariant
            index <= write_size,
            write_size <= payload@.len(),
            write_size <= region@.len(),
            region@.len() == old(region)@.len(),
            forall|i: int| 0 <= i < index ==> region@[i] == payload@[i],
            forall|i: int| index <= i < region@.len() ==> region@[i] == old(region)@[i],
        decreases write_size - index,
    {
        region[index] = payload[index];
        index += 1;
    }
    assert(region@ =~= written(old(region)@, encode_utf8(data@)));
    Ok(())
}

/// Reads `length` bytes from the start of the region, or the whole region
/// where it is shorter, and shows them as text. Never fails: bytes that are
/// not UTF-8 are shown as the list of their values.
pub fn read_memory(region: &[u8], length: usize) -> (result: Result<String, String>)
    ensures
        result matches Ok(text) && text@ == rendered(read_back(region@, length as nat)),
{
    let safe_length: usize = if length < region.len() {
        length
    } else {
        region.len()
    };
    let mut buffer: Vec<u8> = Vec::new();
    let mut index: usize = 0;
    while index < safe_length
        invariant
            index <= safe_length <= region@.len(),
            buffer@ == region@.take(index as int),
        decreases safe_length - index,
    {
        buffer.push(region[index]);
        index += 1;
        assert(buffer@ =~= region@.take(index as int));
    }
    assert(buffer@ =~= read_back(region@, length as nat));
    match text_of(buffer.clone()) {
        Some(text) => {
            proof {
                encode_utf8_decode_utf8(text@);
            }
            Ok(text)
        },
        None => Ok(debug_rendering(&buffer)),
    }
}

/// Writing a text that fits and reading as many bytes as it has gives the
/// text back.
pub proof fn write_then_read_gives_text(region: Seq<u8>, text: Seq<char>)
    requires
        encode_utf8(text).len() <= region.len(),
    ensures
        rendered(read_back(written(region, encode_utf8(text)), encode_utf8(text).len()))
            == text,
{
    let payload = encode_utf8(text);
    assert(read_back(written(region, payload), payload.len()) =~= payload);
    encode_utf8_valid_utf8(text);
    encode_utf8_decode_utf8(text);
}

/// A write never changes the region's length: a payload at least as long as
/// the region fills it with its first bytes and goes no further, and a
/// shorter one leaves the bytes behind it as they were.
pub proof fn write_stays_within_region(region: Seq<u8>, payload: Seq<u8>)
    ensures
        written(region, payload).len() == region.len(),
        payload.len() >= region.len() ==> written(region, payload) == payload.take(
            region.len() as int,
        ),
        forall|i: int|
            payload.len() <= i < region.len() ==> #[trigger] written(region, payload)[i]
                == region[i],
        forall|i: int|
            0 <= i < region.len() && i < payload.len() ==> #[trigger] written(region, payload)[i]
                == payload[i],
{
    if payload.len() >= region.len() {
        assert(written(region, payload) =~= payload.take(region.len() as int));
    }
}

/// A read never gives more than the region holds: asked for more, it gives
/// the whole region; asked for less, that many bytes from its start.
pub proof fn read_stays_within_region(region: Seq<u8>, length: nat)
    ensures
        read_back(region, length).len() == (if length <= region.len() {
            length
        } else {
            region.len()
        }),
        length >= region.len() ==> read_back(region, length) == region,
        forall|i: int|
            0 <= i < read_back(region, length).len() ==> #[trigger] read_back(region, length)[i]
                == region[i],
{
    if length == region.len() {
        assert(region.take(length as int) =~= region);
    }
}

} // verus!
