//! The caller's user id, read from the `X-Clawchat-User-Id` header.
use vstd::prelude::*;
use crate::api_error::{ApiError, BAD_REQUEST, api_error};
use crate::api_error;
use crate::headers::HeaderFields;
use crate::headers;
use crate::text;

verus! {

/// The header that carries the caller's user id.
pub const X_CLAWCHAT_USER_ID: &'static str = "X-Clawchat-User-Id";

/// The longest user id accepted.
pub const MAX_USER_ID_LEN: usize = 64;

/// A character that a user id may hold: ASCII letters and digits, `-`, `_`.
pub open spec fn is_user_id_char(c: char) -> bool {
    let u = c as u32;
    ||| 0x30 <= u <= 0x39
    ||| 0x41 <= u <= 0x5A
    ||| 0x61 <= u <= 0x7A
    ||| u == 0x2D
    ||| u == 0x5F
}

/// What `extract_user_id` answers for the header fields `fields`: the
/// trimmed header value when it is a well-formed user id, else a
/// `400 Bad Request` that says why.
pub open spec fn user_id_outcome(fields: Seq<(Seq<char>, Seq<u8>)>) -> Result<
    Seq<char>,
    (u16, Seq<char>),
> {
    match headers::header_lookup(fields, "X-Clawchat-User-Id"@) {
        None => Err(
            (BAD_REQUEST, "missing_user_header: X-Clawchat-User-Id required on this endpoint"@),
        ),
        Some(raw) => match text::header_text(raw) {
            None => Err((BAD_REQUEST, "missing_user_header: header is not ASCII"@)),
            Some(value) => {
                let s = text::trim(value);
                if s.len() == 0 {
                    Err((BAD_REQUEST, "missing_user_header: empty value"@))
                } else if s.len() > MAX_USER_ID_LEN || !(forall|i: int|
                    0 <= i < s.len() ==> is_user_id_char(#[trigger] s[i])) {
                    Err((BAD_REQUEST, "missing_user_header: invalid shape"@))
                } else {
                    Ok(s)
                }
            },
        },
    }
}

fn is_user_id_character(c: char) -> (res: bool)
    ensures
        res == is_user_id_char(c),
{
    let u = c as u32;
    (0x30 <= u && u <= 0x39) || (0x41 <= u && u <= 0x5A) || (0x61 <= u && u <= 0x7A) || u == 0x2D
        || u == 0x5F
}

/// Reads the caller's user id from the `X-Clawchat-User-Id` header.
///
/// The value, once trimmed, must be 1 to 64 ASCII letters, digits, `-` or
/// `_`; every other case is answered with `400 Bad Request`.
pub fn extract_user_id(headers: &HeaderFields) -> (res: Result<String, ApiError>)
    ensures
        match res {
            Ok(s) => user_id_outcome(headers@) == Ok::<Seq<char>, (u16, Seq<char>)>(s@),
            Err(e) => user_id_outcome(headers@) == Err::<Seq<char>, (u16, Seq<char>)>(
                api_error::error_view(e),
            ),
        },
{
    let raw = match headers.get(X_CLAWCHAT_USER_ID) {
        Some(raw) => raw,
        None => {
            return Err(
                api_error(
                    BAD_REQUEST,
                    "missing_user_header: X-Clawchat-User-Id required on this endpoint",
                ),
            );
        },
    };
    let value = match text::header_value_text(raw.as_slice()) {
        Some(v) => v,
        None => {
            return Err(api_error(BAD_REQUEST, "missing_user_header: header is not ASCII"));
        },
    };
    let s = text::trimmed(value.as_str());
    let n = s.as_str().unicode_len();
    if n == 0 {
        return Err(api_error(BAD_REQUEST, "missing_user_header: empty value"));
    }
    let mut well_formed = n <= MAX_USER_ID_LEN;
    let mut i: usize = 0;
    while i < n
        invariant
            n == s@.len(),
            i <= n,
            well_formed == (n <= MAX_USER_ID_LEN && forall|j: int|
                0 <= j < i ==> is_user_id_char(#[trigger] s@[j])),
        decreases n - i,
    {
        if !is_user_id_character(s.as_str().get_char(i)) {
            well_formed = false;
        }
        i = i + 1;
    }
    if !well_formed {
        return Err(api_error(BAD_REQUEST, "missing_user_header: invalid shape"));
    }
    Ok(s)
}


/// Every user id that is accepted is 1 to 64 characters, each an ASCII
/// letter, digit, `-` or `_`; every refusal is a `400 Bad Request`.
pub proof fn law_user_id_shape(fields: Seq<(Seq<char>, Seq<u8>)>)
    ensures
        user_id_outcome(fields) matches Ok(s) ==> 0 < s.len() <= MAX_USER_ID_LEN && forall|i: int|
            0 <= i < s.len() ==> is_user_id_char(#[trigger] s[i]),
        user_id_outcome(fields) matches Err(e) ==> e.0 == BAD_REQUEST,
{
}

/// The bytes of a header value that holds the ASCII text `s`.
pub open spec fn ascii_bytes(s: Seq<char>) -> Seq<u8> {
    Seq::new(s.len(), |i: int| (s[i] as u32) as u8)
}

/// An accepted user id is accepted again, unchanged, when it is sent back as
/// the only header of a request.
pub proof fn law_accepted_user_id_is_fixed_point(fields: Seq<(Seq<char>, Seq<u8>)>, s: Seq<char>)
    requires
        user_id_outcome(fields) == Ok::<Seq<char>, (u16, Seq<char>)>(s),
    ensures
        user_id_outcome(seq![("X-Clawchat-User-Id"@, ascii_bytes(s))]) == Ok::<
            Seq<char>,
            (u16, Seq<char>),
        >(s),
{
    let name = "X-Clawchat-User-Id"@;
    let b = ascii_bytes(s);
    let f = seq![(name, b)];
    assert(headers::is_first_named(f, name, 0));
    let k = choose|k: int| headers::is_first_named(f, name, k);
    assert(k == 0);
    assert(headers::header_lookup(f, name) == Some(b));
    assert forall|i: int| 0 <= i < s.len() implies text::is_visible_ascii(#[trigger] b[i])
        && b[i] as char == s[i] by {
        assert(is_user_id_char(s[i]));
        let x = s[i] as u32;
        assert(x < 128);
        assert((x as u8) as u32 == x) by (bit_vector)
            requires
                x < 128,
        ;
        assert(b[i] as u32 == x);
        vstd::utf8::char_u32_cast(s[i], x);
        assert(x as char == s[i]);
    }
    assert(text::ascii_chars(b) =~= s);
    assert(text::header_text(b) == Some(s));
    assert(!text::is_white_space(s[0])) by {
        assert(is_user_id_char(s[0]));
    }
    assert(!text::is_white_space(s.last())) by {
        assert(is_user_id_char(s[s.len() - 1]));
    }
    assert(text::trim_start(s) == s);
    assert(text::trim_end(s) == s);
    assert(text::trim(s) == s);
}

/// A user id character as the original tests it: an ASCII letter or digit,
/// `-` or `_`, written out over characters.
pub open spec fn is_ascii_alnum_dash_underscore(c: char) -> bool {
    ||| '0' <= c && c <= '9'
    ||| 'A' <= c && c <= 'Z'
    ||| 'a' <= c && c <= 'z'
    ||| c == '-'
    ||| c == '_'
}

proof fn lemma_id_char(c: char)
    ensures
        is_ascii_alnum_dash_underscore(c) == is_user_id_char(c),
{
}

/// Every well-formed user id is accepted: when the first
/// `X-Clawchat-User-Id` value is text whose trimmed form has 1 to 64
/// characters, each an ASCII letter, digit, `-` or `_`, the caller's user id
/// is exactly that trimmed text. When the trimmed text has any other
/// character, or is longer, or empty, or the value is not text, or there is
/// no such header, the request is refused.
pub proof fn law_user_id_complete(fields: Seq<(Seq<char>, Seq<u8>)>)
    ensures
        ({
            let raw = headers::header_lookup(fields, "X-Clawchat-User-Id"@);
            &&& raw is Some
            &&& text::all_visible_ascii(raw->0)
            &&& 1 <= text::trim(text::ascii_chars(raw->0)).len() <= 64
            &&& forall|i: int|
                0 <= i < text::trim(text::ascii_chars(raw->0)).len()
                    ==> is_ascii_alnum_dash_underscore(
                    #[trigger] text::trim(text::ascii_chars(raw->0))[i],
                )
        }) <==> user_id_outcome(fields) is Ok,
        user_id_outcome(fields) matches Ok(s) ==> s == text::trim(
            text::ascii_chars(headers::header_lookup(fields, "X-Clawchat-User-Id"@)->0),
        ),
{
    let raw = headers::header_lookup(fields, "X-Clawchat-User-Id"@);
    if raw is Some && text::all_visible_ascii(raw->0) {
        let s = text::trim(text::ascii_chars(raw->0));
        assert forall|i: int| 0 <= i < s.len() implies is_ascii_alnum_dash_underscore(#[trigger] s[i])
            == is_user_id_char(s[i]) by {
            lemma_id_char(s[i]);
        }
    }
}

/// Each refusal says why: no header, a value that is not text, a value that
/// is blank, or one that is too long or holds another character.
pub proof fn law_user_id_refusals(fields: Seq<(Seq<char>, Seq<u8>)>)
    ensures
        headers::header_lookup(fields, "X-Clawchat-User-Id"@) is None ==> user_id_outcome(fields)
            == Err::<Seq<char>, (u16, Seq<char>)>(
            (400, "missing_user_header: X-Clawchat-User-Id required on this endpoint"@),
        ),
        headers::header_lookup(fields, "X-Clawchat-User-Id"@) matches Some(raw)
            && !text::all_visible_ascii(raw) ==> user_id_outcome(fields) == Err::<
            Seq<char>,
            (u16, Seq<char>),
        >((400, "missing_user_header: header is not ASCII"@)),
        headers::header_lookup(fields, "X-Clawchat-User-Id"@) matches Some(raw)
            && text::all_visible_ascii(raw) && text::trim(text::ascii_chars(raw)).len() == 0
            ==> user_id_outcome(fields) == Err::<Seq<char>, (u16, Seq<char>)>(
            (400, "missing_user_header: empty value"@),
        ),
        headers::header_lookup(fields, "X-Clawchat-User-Id"@) matches Some(raw)
            && text::all_visible_ascii(raw) && text::trim(text::ascii_chars(raw)).len() > 0 && (
        text::trim(text::ascii_chars(raw)).len() > 64 || exists|i: int|
            0 <= i < text::trim(text::ascii_chars(raw)).len() && !is_ascii_alnum_dash_underscore(
                #[trigger] text::trim(text::ascii_chars(raw))[i],
            )) ==> user_id_outcome(fields) == Err::<Seq<char>, (u16, Seq<char>)>(
            (400, "missing_user_header: invalid shape"@),
        ),
{
    let raw = headers::header_lookup(fields, "X-Clawchat-User-Id"@);
    if raw is Some && text::all_visible_ascii(raw->0) {
        let s = text::trim(text::ascii_chars(raw->0));
        if exists|i: int| 0 <= i < s.len() && !is_ascii_alnum_dash_underscore(#[trigger] s[i]) {
            let i = choose|i: int| 0 <= i < s.len() && !is_ascii_alnum_dash_underscore(#[trigger] s[i]);
            lemma_id_char(s[i]);
        }
    }
}

} // verus!



