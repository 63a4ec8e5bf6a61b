//! The opaque-token strategy: `page_token` and `page_size` query parameters,
//! a versioned URL-safe continuation-token codec, and `Link` URLs that carry
//! `page_size=` and `page_token=`.

use base64::Engine;
use crate::digits::{dec_int, i32_to_dec};
use crate::links::PaginationTrait;
use crate::normalize::{page_size_or_default, spec_page_size_value};
use vstd::prelude::*;
use vstd::string::StringExecFns;

verus! {

/// The validated parameters of one request: the opaque continuation token
/// exactly as the query carried it (an empty value stays an empty string;
/// only a wholly absent key becomes `None`), and the clamped page size.
pub struct TokenPaginationParams {
    pub page_token: Option<String>,
    pub page_size: i32,
}

/// The `page_size` value used when the query does not carry one.
pub fn default_page_size() -> (r: i32)
    ensures
        r == 250,
{
    250
}

impl TokenPaginationParams {
    /// Takes the raw `page_token` verbatim and normalizes the raw
    /// `page_size` query value; never fails.
    pub fn from_raw(page_token: Option<String>, page_size: Option<&str>) -> (r: Self)
        ensures
            r.page_token == page_token,
            r.page_size as int == spec_page_size_value(page_size.deep_view()),
    {
        TokenPaginationParams { page_token, page_size: page_size_or_default(page_size) }
    }
}

/// The wire content of a continuation token: an offset into the collection
/// and a format version, carried for forward compatibility and currently
/// always 1.
pub struct Token {
    pub offset: i32,
    pub version: i32,
}

/// The compact JSON text of a token: both fields in declaration order,
/// no whitespace.
pub open spec fn spec_token_text(offset: int, version: int) -> Seq<char> {
    "{\"offset\":"@ + dec_int(offset) + ",\"version\":"@ + dec_int(version) + "}"@
}

impl Token {
    /// Serializes the token as compact JSON.
    pub fn to_json_text(&self) -> (r: String)
        ensures
            r@ == spec_token_text(self.offset as int, self.version as int),
    {
        let mut s = String::from_str("{\"offset\":");
        let offset_text = i32_to_dec(self.offset);
        s.append(offset_text.as_str());
        s.append(",\"version\":");
        let version_text = i32_to_dec(self.version);
        s.append(version_text.as_str());
        s.append("}");
        proof {
            reveal_strlit("{\"offset\":");
            reveal_strlit(",\"version\":");
            reveal_strlit("}");
            assert(s@ =~= spec_token_text(self.offset as int, self.version as int));
        }
        s
    }
}

/// Decoding a token failed: it is not valid unpadded base64url, its bytes
/// are not valid UTF-8, the text is not valid JSON, or the JSON carries no
/// `offset` field with an integer in the 32-bit signed range.
#[derive(Debug)]
pub struct DecodeError;

/// What URL-safe unpadded base64 encoding yields on the UTF-8 bytes of a
/// text; a function of the text alone.
pub uninterp spec fn b64url_of_str(text: Seq<char>) -> Seq<char>;

/// What URL-safe unpadded base64 decoding, followed by UTF-8 decoding,
/// yields on a token: `None` when the token is not valid unpadded base64url
/// or its decoded bytes are not valid UTF-8; a function of the token alone.
pub uninterp spec fn b64url_str_of(token: Seq<char>) -> Option<Seq<char>>;

/// The `offset` field of a JSON text: `None` when the text is not valid
/// JSON or no `offset` field holds an integer in the 32-bit signed range;
/// a function of the text alone.
pub uninterp spec fn json_offset_of(text: Seq<char>) -> Option<i32>;

/// Relies on base64's `Engine::encode` with the `URL_SAFE_NO_PAD` engine:
/// the result is URL-safe unpadded base64 of the UTF-8 bytes of `text`, a
/// function of `text` alone.
#[verifier::external_body]
fn b64url_encode(text: &str) -> (r: String)
    ensures
        r@ == b64url_of_str(text@),
{
    base64::engine::general_purpose::URL_SAFE_NO_PAD.encode(text.as_bytes())
}

/// Relies on base64's `Engine::decode` with the `URL_SAFE_NO_PAD` engine and
/// on `String::from_utf8`: decoding succeeds exactly on valid unpadded
/// base64url of valid UTF-8 bytes, and decoding what `Engine::encode`
/// produced returns the bytes that were encoded.
#[verifier::external_body]
fn b64url_decode(token: &str) -> (r: Option<String>)
    ensures
        r is Some <==> b64url_str_of(token@) is Some,
        r matches Some(s) ==> b64url_str_of(token@) == Some(s@),
        r is None ==> forall|text: Seq<char>| token@ != b64url_of_str(text),
        r matches Some(s) ==> forall|text: Seq<char>|
            token@ == b64url_of_str(text) ==> s@ == text,
{
    match base64::engine::general_purpose::URL_SAFE_NO_PAD.decode(token) {
        Ok(bytes) => match String::from_utf8(bytes) {
            Ok(s) => Some(s),
            Err(_) => None,
        },
        Err(_) => None,
    }
}

/// Relies on serde_json's `from_str` (as a `Value`), `Value::get` and
/// `Value::as_i64`: together they extract the `offset` field of a JSON
/// text, a function of the text alone; and on the compact token JSON this
/// library frames, the field reads back exactly.
#[verifier::external_body]
fn json_extract_offset(text: &str) -> (r: Option<i32>)
    ensures
        r == json_offset_of(text@),
        r is None ==> forall|n: i32| text@ != spec_token_text(n as int, 1),
        r matches Some(v) ==> forall|n: i32| text@ == spec_token_text(n as int, 1) ==> v == n,
{
    let value: serde_json::Value = serde_json::from_str(text).ok()?;
    let n = value.get("offset")?.as_i64()?;
    i32::try_from(n).ok()
}

/// The opaque token that encodes an offset: unpadded base64url of the
/// compact token JSON at format version 1.
pub open spec fn spec_encode(offset: i32) -> Seq<char> {
    b64url_of_str(spec_token_text(offset as int, 1))
}

/// What decoding yields on a token: the `offset` field of the JSON text the
/// token carries, when every stage succeeds.
pub open spec fn spec_decode(token: Seq<char>) -> Option<i32> {
    match b64url_str_of(token) {
        Option::None => Option::None,
        Option::Some(text) => json_offset_of(text),
    }
}

/// The opaque-token pagination strategy.
pub struct TokenPagination;

impl TokenPagination {
    /// Encodes an offset into a versioned, URL-safe opaque token.
    pub fn encode(offset: i32) -> (r: String)
        ensures
            r@ == spec_encode(offset),
    {
        let token = Token { offset, version: 1 };
        let text = token.to_json_text();
        b64url_encode(text.as_str())
    }

    /// Decodes and validates an opaque token back to the offset it carries.
    /// Every token `encode` produces decodes to the offset it was built
    /// from, the whole 32-bit signed range included.
    pub fn decode(token: &str) -> (r: Result<i32, DecodeError>)
        ensures
            r is Ok <==> spec_decode(token@) is Some,
            r matches Ok(v) ==> spec_decode(token@) == Some(v),
            forall|v: i32| token@ == spec_encode(v) ==> r == Ok::<i32, DecodeError>(v),
    {
        match b64url_decode(token) {
            Option::None => {
                let e: Result<i32, DecodeError> = Err(DecodeError);
                proof {
                    assert forall|v: i32| token@ == spec_encode(v) implies e == Ok::<
                        i32,
                        DecodeError,
                    >(v) by {
                        assert(token@ == b64url_of_str(spec_token_text(v as int, 1)));
                        assert(false);
                    }
                }
                e
            },
            Option::Some(text) => {
                match json_extract_offset(text.as_str()) {
                    Option::None => {
                        let e: Result<i32, DecodeError> = Err(DecodeError);
                        proof {
                            assert forall|v: i32| token@ == spec_encode(v) implies e == Ok::<
                                i32,
                                DecodeError,
                            >(v) by {
                                assert(token@ == b64url_of_str(spec_token_text(v as int, 1)));
                                assert(text@ == spec_token_text(v as int, 1));
                                assert(false);
                            }
                        }
                        e
                    },
                    Option::Some(v) => {
                        let k: Result<i32, DecodeError> = Ok(v);
                        proof {
                            assert forall|w: i32| token@ == spec_encode(w) implies k == Ok::<
                                i32,
                                DecodeError,
                            >(w) by {
                                assert(token@ == b64url_of_str(spec_token_text(w as int, 1)));
                                assert(text@ == spec_token_text(w as int, 1));
                            }
                        }
                        k
                    },
                }
            },
        }
    }
}

impl PaginationTrait for TokenPagination {
    open spec fn spec_header(
        base_url: Seq<char>,
        rel: Seq<char>,
        items_per_page: int,
        offset: int,
    ) -> Seq<char> {
        "<"@ + base_url + "?page_size="@ + dec_int(items_per_page) + "&page_token="@ + spec_encode(
            offset as i32,
        ) + ">; rel=\""@ + rel + "\""@
    }

    fn header(base_url: &str, rel: &str, items_per_page: i32, offset: i32) -> (r: String) {
        let mut s = String::from_str("<");
        s.append(base_url);
        s.append("?page_size=");
        let size_text = i32_to_dec(items_per_page);
        s.append(size_text.as_str());
        s.append("&page_token=");
        let token_text = Self::encode(offset);
        s.append(token_text.as_str());
        s.append(">; rel=\"");
        s.append(rel);
        s.append("\"");
        proof {
            reveal_strlit("<");
            reveal_strlit("?page_size=");
            reveal_strlit("&page_token=");
            reveal_strlit(">; rel=\"");
            reveal_strlit("\"");
            assert(s@ =~= Self::spec_header(
                base_url@,
                rel@,
                items_per_page as int,
                offset as int,
            ));
        }
        s
    }
}

} // verus!
