//! Downloads arrive in chunks: the path travels in a header, the bytes in the
//! body of the request.

use crate::encoding::{
    base64, base64_bytes, base64_decode, base64_error, law_base64_reads_back, string_from_utf8,
    utf8_error,
};
use crate::text::{outcome, str_text};
use std::borrow::Cow;
use vstd::prelude::*;
use vstd::utf8::{decode_utf8, encode_utf8, valid_utf8};

verus! {

// ---------------------------------------------------------------------------
// The path
// ---------------------------------------------------------------------------

/// The path that a header carries, or the message that refuses it. The header
/// holds the Base64 form of the path in UTF-8, since headers are ASCII and paths
/// are not.
pub open spec fn carried_path(header: Option<Seq<char>>) -> Result<Seq<char>, Seq<char>> {
    match header {
        None => Err("Header x-wa-path ausente"@),
        Some(encoded) => match base64_bytes(encoded) {
            None => Err("Header x-wa-path invalido: "@ + base64_error(encoded)),
            Some(bytes) => if valid_utf8(bytes) {
                Ok(decode_utf8(bytes))
            } else {
                Err("Caminho de destino invalido: "@ + utf8_error(bytes))
            },
        },
    }
}

fn refusal(what: &str, why: String) -> (r: String)
    ensures
        r@ == what@ + why@,
{
    let mut message = what.to_string();
    message.append(why.as_str());
    message
}

/// The path to write a chunk to.
pub fn destination_path(header: Option<&str>) -> (r: Result<String, String>)
    ensures
        outcome(r) == carried_path(str_text(header)),
{
    let encoded = match header {
        Some(encoded) => encoded,
        None => {
            return Err("Header x-wa-path ausente".to_string());
        },
    };
    match base64_decode(encoded) {
        Ok(bytes) => {
            proof {
                law_base64_reads_back(bytes@);
            }
            match string_from_utf8(bytes) {
                Ok(path) => Ok(path),
                Err(e) => Err(refusal("Caminho de destino invalido: ", e)),
            }
        },
        Err(e) => Err(refusal("Header x-wa-path invalido: ", e)),
    }
}

/// Whatever path is sent as the Base64 form of its UTF-8 bytes arrives as it was.
pub proof fn law_path_arrives_unchanged(path: Seq<char>)
    ensures
        carried_path(Some(base64(encode_utf8(path)))) == Ok::<Seq<char>, Seq<char>>(path),
{
    law_base64_reads_back(encode_utf8(path));
    vstd::utf8::encode_utf8_valid_utf8(path);
    vstd::utf8::encode_utf8_decode_utf8(path);
}

// ---------------------------------------------------------------------------
// The bytes
// ---------------------------------------------------------------------------

/// A value of the serde_json crate, kept as it is.
#[verifier::external_type_specification]
#[verifier::external_body]
pub struct ExJsonValue(serde_json::Value);

/// Whether a JSON value is an array.
pub uninterp spec fn json_is_array(value: serde_json::Value) -> bool;

/// What the items of a JSON array are as `u64`, each of them where it is one.
pub uninterp spec fn json_items(value: serde_json::Value) -> Seq<Option<u64>>;

/// `Value::as_array` of the serde_json crate, with each item taken by its
/// `Value::as_u64`: the numbers of an array, and nothing for a value of another
/// kind.
#[verifier::external_body]
fn json_array(value: &serde_json::Value) -> (r: Option<Vec<Option<u64>>>)
    ensures
        r is Some == json_is_array(*value),
        r matches Some(items) ==> items@ == json_items(*value),
{
    value.as_array().map(|items| items.iter().map(|item| item.as_u64()).collect())
}

/// The body of a request: bytes, or the JSON that stands in for them where the
/// page may not use the direct way.
#[derive(Debug)]
pub enum InvokeBody {
    Json(serde_json::Value),
    Raw(Vec<u8>),
}

/// Every item is a number that fits in a byte.
pub open spec fn all_bytes(items: Seq<Option<u64>>) -> bool {
    forall|i: int| 0 <= i < items.len() ==> (#[trigger] items[i]) is Some && items[i]->0 <= 255
}

/// The bytes that a list of numbers stands for, or the message that refuses it.
pub open spec fn bytes_of(items: Seq<Option<u64>>) -> Result<Seq<u8>, Seq<char>> {
    if all_bytes(items) {
        Ok(items.map_values(|item: Option<u64>| item->0 as u8))
    } else {
        Err("Corpo da requisicao nao contem bytes validos"@)
    }
}

/// The bytes of a body, or the message that refuses it.
pub open spec fn body_bytes(body: InvokeBody) -> Result<Seq<u8>, Seq<char>> {
    match body {
        InvokeBody::Raw(bytes) => Ok(bytes@),
        InvokeBody::Json(value) => if json_is_array(value) {
            bytes_of(json_items(value))
        } else {
            Err("Corpo da requisicao nao e binario"@)
        },
    }
}

/// The bytes that a list of numbers stands for.
pub fn bytes_from_numbers(items: &[Option<u64>]) -> (r: Result<Vec<u8>, String>)
    ensures
        match r {
            Ok(bytes) => bytes_of(items@) == Ok::<Seq<u8>, Seq<char>>(bytes@),
            Err(e) => bytes_of(items@) == Err::<Seq<u8>, Seq<char>>(e@),
        },
{
    let mut bytes: Vec<u8> = Vec::new();
    for i in 0..items.len()
        invariant
            bytes@.len() == i,
            forall|j: int|
                0 <= j < i ==> (#[trigger] items@[j]) is Some && items@[j]->0 <= 255 && bytes@[j]
                    == items@[j]->0 as u8,
    {
        match items[i] {
            Some(n) => {
                if n > 255 {
                    assert(!all_bytes(items@)) by {
                        assert(items@[i as int]->0 > 255);
                    }
                    return Err("Corpo da requisicao nao contem bytes validos".to_string());
                }
                bytes.push(n as u8);
            },
            None => {
                assert(!all_bytes(items@)) by {
                    assert(items@[i as int] is None);
                }
                return Err("Corpo da requisicao nao contem bytes validos".to_string());
            },
        }
    }
    assert(bytes@ =~= items@.map_values(|item: Option<u64>| item->0 as u8));
    Ok(bytes)
}

/// The bytes of a chunk, from either form of the body.
pub fn download_bytes(body: &InvokeBody) -> (r: Result<Cow<'_, [u8]>, String>)
    ensures
        match r {
            Ok(bytes) => body_bytes(*body) == Ok::<Seq<u8>, Seq<char>>(bytes@),
            Err(e) => body_bytes(*body) == Err::<Seq<u8>, Seq<char>>(e@),
        },
{
    match body {
        InvokeBody::Raw(bytes) => Ok(Cow::Borrowed(bytes.as_slice())),
        InvokeBody::Json(value) => match json_array(value) {
            Some(items) => match bytes_from_numbers(items.as_slice()) {
                Ok(bytes) => Ok(Cow::Owned(bytes)),
                Err(e) => Err(e),
            },
            None => Err("Corpo da requisicao nao e binario".to_string()),
        },
    }
}

/// Where to write a chunk and what to write, or the message that refuses it: the
/// path is looked at first.
pub fn append_binary_file<'a>(header: Option<&str>, body: &'a InvokeBody) -> (r: Result<
    (String, Cow<'a, [u8]>),
    String,
>)
    ensures
        match carried_path(str_text(header)) {
            Err(e) => r is Err && r->Err_0@ == e,
            Ok(path) => match body_bytes(*body) {
                Err(e) => r is Err && r->Err_0@ == e,
                Ok(bytes) => r is Ok && r->Ok_0.0@ == path && r->Ok_0.1@ == bytes,
            },
        },
{
    let path = match destination_path(header) {
        Ok(path) => path,
        Err(e) => {
            return Err(e);
        },
    };
    match download_bytes(body) {
        Ok(bytes) => Ok((path, bytes)),
        Err(e) => Err(e),
    }
}

/// The JSON form of a chunk, a list of its bytes, gives the bytes back.
pub proof fn law_listed_bytes_read_back(bytes: Seq<u8>)
    ensures
        bytes_of(bytes.map_values(|b: u8| Some(b as u64))) == Ok::<Seq<u8>, Seq<char>>(bytes),
{
    let items = bytes.map_values(|b: u8| Some(b as u64));
    assert(items.map_values(|item: Option<u64>| item->0 as u8) =~= bytes);
}

// ---------------------------------------------------------------------------
// Laws of what arrives and what is refused
// ---------------------------------------------------------------------------

/// The raw form of a chunk gives its bytes back, all of them, however many there are.
pub proof fn law_raw_bytes_read_back(bytes: Vec<u8>)
    ensures
        body_bytes(InvokeBody::Raw(bytes)) is Ok,
        body_bytes(InvokeBody::Raw(bytes))->Ok_0.len() == bytes@.len(),
        forall|i: int|
            0 <= i < bytes@.len() ==> #[trigger] body_bytes(InvokeBody::Raw(bytes))->Ok_0[i]
                == bytes@[i],
{
}

/// An array whose items are all numbers up to 255 gives as many bytes, each the
/// number in its place.
pub proof fn law_array_of_bytes_reads_back(value: serde_json::Value)
    requires
        json_is_array(value),
        forall|i: int|
            0 <= i < json_items(value).len() ==> (#[trigger] json_items(value)[i]) is Some
                && json_items(value)[i]->0 < 256,
    ensures
        body_bytes(InvokeBody::Json(value)) is Ok,
        body_bytes(InvokeBody::Json(value))->Ok_0.len() == json_items(value).len(),
        forall|i: int|
            0 <= i < json_items(value).len() ==> (#[trigger] body_bytes(
                InvokeBody::Json(value),
            )->Ok_0[i]) as int == json_items(value)[i]->0 as int,
{
    assert(all_bytes(json_items(value)));
}

/// One item that is no number or does not fit in a byte is enough to refuse a list,
/// wherever it stands.
pub proof fn law_one_wrong_item_refuses_a_list(items: Seq<Option<u64>>, i: int)
    requires
        0 <= i < items.len(),
        items[i] is None || items[i]->0 > 255,
    ensures
        bytes_of(items) == Err::<Seq<u8>, Seq<char>>(
            "Corpo da requisicao nao contem bytes validos"@,
        ),
        forall|value: serde_json::Value|
            json_is_array(value) && #[trigger] json_items(value) == items ==> body_bytes(
                InvokeBody::Json(value),
            ) == bytes_of(items),
{
    if all_bytes(items) {
        assert(items[i] is Some && items[i]->0 <= 255);
    }
}

/// A list of numbers is taken or refused as a whole: the bytes are as many as the
/// numbers, and the same.
pub proof fn law_numbers_are_bytes(items: Seq<Option<u64>>)
    requires
        forall|i: int|
            0 <= i < items.len() ==> (#[trigger] items[i]) is Some && items[i]->0 < 256,
    ensures
        bytes_of(items) is Ok,
        bytes_of(items)->Ok_0.len() == items.len(),
        forall|i: int|
            0 <= i < items.len() ==> (#[trigger] bytes_of(items)->Ok_0[i]) as int
                == items[i]->0 as int,
{
    assert(all_bytes(items));
}

/// A JSON value that is no array is refused.
pub proof fn law_other_json_is_refused(value: serde_json::Value)
    requires
        !json_is_array(value),
    ensures
        body_bytes(InvokeBody::Json(value)) == Err::<Seq<u8>, Seq<char>>(
            "Corpo da requisicao nao e binario"@,
        ),
{
}

/// A path is refused where there is no header, where the header is the Base64 form of
/// nothing, and where the bytes are no UTF-8; each refusal says so. Any other header
/// is read.
pub proof fn law_path_is_refused_for_a_reason(encoded: Seq<char>, bytes: Seq<u8>)
    ensures
        carried_path(None) == Err::<Seq<char>, Seq<char>>("Header x-wa-path ausente"@),
        (forall|b: Seq<u8>| #[trigger] base64(b) != encoded) ==> carried_path(Some(encoded)) == Err::<
            Seq<char>,
            Seq<char>,
        >("Header x-wa-path invalido: "@ + base64_error(encoded)),
        !valid_utf8(bytes) ==> carried_path(Some(base64(bytes))) == Err::<Seq<char>, Seq<char>>(
            "Caminho de destino invalido: "@ + utf8_error(bytes),
        ),
        valid_utf8(bytes) ==> carried_path(Some(base64(bytes))) == Ok::<Seq<char>, Seq<char>>(
            decode_utf8(bytes),
        ),
{
    law_base64_reads_back(bytes);
}

} // verus!
