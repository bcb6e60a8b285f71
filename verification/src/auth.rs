//! Proxy authorization: `Bearer <token>`, or `Basic` credentials whose password
//! is the token, or that are the token.
use base64::Engine;
use vstd::prelude::*;
use vstd::utf8::*;
use crate::text;

verus! {

/// What the standard base64 alphabet with padding makes of some bytes; `None`
/// where they are not well-formed.
pub uninterp spec fn base64_decoded(data: Seq<u8>) -> Option<Seq<u8>>;

/// Wraps `base64::engine::general_purpose::STANDARD.decode`: the decoded bytes,
/// which depend on the input alone.
#[verifier::external_body]
pub(crate) fn decode_base64(data: &[u8]) -> (r: Option<Vec<u8>>)
    ensures
        match r {
            Some(v) => base64_decoded(data@) == Some(v@),
            None => base64_decoded(data@) is None,
        },
{
    base64::engine::general_purpose::STANDARD.decode(data).ok()
}

/// Whether a byte of a header value is visible ASCII, a space or a tab.
pub open spec fn is_header_text(b: u8) -> bool {
    32 <= b < 127 || b == 9
}

/// The text of a header value, when all of it is text.
pub open spec fn header_text(value: Seq<u8>) -> Option<Seq<char>> {
    if forall|i: int| 0 <= i < value.len() ==> is_header_text(#[trigger] value[i]) {
        Some(value.map_values(|b: u8| b as char))
    } else {
        None
    }
}

/// Reads the text of a header value.
pub fn read_header_text(value: &[u8]) -> (r: Option<String>)
    ensures
        match header_text(value@) {
            Some(t) => r matches Some(s) && s@ == t,
            None => r is None,
        },
{
    let mut out = String::new();
    let n: usize = value.len();
    let ghost all = value@.map_values(|b: u8| b as char);
    assert(out@ == all.take(0));
    for i in 0..n
        invariant
            n == value@.len(),
            all == value@.map_values(|b: u8| b as char),
            out@ == all.take(i as int),
            forall|k: int| 0 <= k < i ==> is_header_text(#[trigger] value@[k]),
    {
        let b: u8 = value[i];
        if !((32 <= b && b < 127) || b == 9) {
            assert(!is_header_text(value@[i as int]));
            return None;
        }
        out.push(b as char);
        assert(all.take(i + 1) == all.take(i as int).push(all[i as int]));
    }
    assert(all.take(n as int) == all);
    Some(out)
}

pub const BEARER: &'static str = "Bearer ";

pub const BASIC: &'static str = "Basic ";

/// The password of `user:password`: what follows the first colon, if there is one.
pub open spec fn password_of(credential: Seq<char>) -> Option<Seq<char>> {
    let k = text::find_first(credential, ':');
    if k < credential.len() {
        Some(credential.skip(k + 1))
    } else {
        None
    }
}

/// Whether decoded Basic credentials carry the token: as the password of
/// `user:password`, or as the whole.
pub open spec fn credential_matches(decoded: Seq<u8>, token: Seq<char>) -> bool {
    let s = decode_utf8(decoded);
    valid_utf8(decoded) && (s == token || password_of(s) == Some(token))
}

/// Checks decoded Basic credentials against the token.
pub fn check_credential(decoded: Vec<u8>, token: &str) -> (r: bool)
    ensures
        r == credential_matches(decoded@, token@),
{
    match text::string_from_utf8(decoded) {
        Some(s) => {
            if text::str_equal(s.as_str(), token) {
                return true;
            }
            match text::split_once(s.as_str(), ':') {
                Some((_, password)) => text::str_equal(password, token),
                None => false,
            }
        },
        None => false,
    }
}

/// Whether a header value authorizes its sender.
pub open spec fn value_authorizes(value: Seq<char>, token: Seq<char>) -> bool {
    if BEARER@.is_prefix_of(value) {
        text::trim_seq(value.skip(BEARER@.len() as int)) == token
    } else if BASIC@.is_prefix_of(value) {
        match base64_decoded(
            encode_utf8(text::trim_seq(value.skip(BASIC@.len() as int))),
        ) {
            Some(decoded) => credential_matches(decoded, token),
            None => false,
        }
    } else {
        false
    }
}

/// Whether a request is authorized: there is a token, there is a header, and
/// the header carries the token.
pub open spec fn authorized(header: Option<Seq<u8>>, token: Option<Seq<char>>) -> bool {
    match (token, header) {
        (Some(t), Some(h)) => match header_text(h) {
            Some(value) => value_authorizes(value, t),
            None => false,
        },
        _ => false,
    }
}

/// What an optional byte string holds.
pub open spec fn bytes_view(v: Option<&[u8]>) -> Option<Seq<u8>> {
    match v {
        Some(b) => Some(b@),
        None => None,
    }
}

/// What an optional text holds.
pub open spec fn text_view(v: Option<&str>) -> Option<Seq<char>> {
    match v {
        Some(s) => Some(s@),
        None => None,
    }
}

/// Checks the `Proxy-Authorization` header against the token.
pub fn check_proxy_auth(header: Option<&[u8]>, token: Option<&str>) -> (r: bool)
    ensures
        r == authorized(bytes_view(header), text_view(token)),
{
    let token = match token {
        Some(t) => t,
        None => return false,
    };
    let header = match header {
        Some(h) => h,
        None => return false,
    };
    let value = match read_header_text(header) {
        Some(v) => v,
        None => return false,
    };
    if let Some(rest) = text::strip_prefix(value.as_str(), BEARER) {
        return text::str_equal(text::trim(rest), token);
    }
    if let Some(rest) = text::strip_prefix(value.as_str(), BASIC) {
        return match decode_base64(text::trim(rest).as_bytes()) {
            Some(decoded) => check_credential(decoded, token),
            None => false,
        };
    }
    false
}

/// Whether a token can be sent as it is: visible, and without white space at
/// either end.
pub open spec fn plain_token(token: Seq<char>) -> bool {
    &&& forall|i: int| 0 <= i < token.len() ==> ' ' <= #[trigger] token[i] <= '~'
    &&& text::trim_seq(token) == token
}

/// The bytes of an ASCII text.
pub open spec fn ascii_bytes(s: Seq<char>) -> Seq<u8> {
    s.map_values(|c: char| c as u8)
}

/// A client that sends the token as a bearer token is let in.
pub proof fn lemma_bearer_accepted(token: Seq<char>)
    requires
        plain_token(token),
    ensures
        authorized(Some(ascii_bytes(BEARER@ + token)), Some(token)),
{
    reveal_strlit("Bearer ");
    let text = BEARER@ + token;
    let raw = ascii_bytes(text);
    assert forall|i: int| 0 <= i < raw.len() implies is_header_text(#[trigger] raw[i]) by {
        if i >= 7 {
            assert(text[i] == token[i - 7]);
        }
    }
    let value = raw.map_values(|b: u8| b as char);
    assert forall|i: int| 0 <= i < value.len() implies value[i] == text[i] by {
        assert(raw[i] == text[i] as u8);
        if i >= 7 {
            assert(text[i] == token[i - 7]);
        }
    }
    assert(value == text);
    assert(BEARER@.is_prefix_of(value));
    assert(value.skip(BEARER@.len() as int) == token);
}

/// A header is good for one token at most: whoever sends another is refused.
/// Only a Basic credential can be good for two, and then one of them is the
/// password in the other.
pub proof fn lemma_one_token(header: Seq<u8>, token: Seq<char>, other: Seq<char>)
    requires
        authorized(Some(header), Some(token)),
        other != token,
        header_text(header) matches Some(value) && BASIC@.is_prefix_of(value)
            ==> password_of(token) != Some(other) && password_of(other) != Some(token),
    ensures
        !authorized(Some(header), Some(other)),
{
}

/// A credential with any user name that does not hold a colon, and the token as
/// the password, is accepted; so is the token alone.
pub proof fn lemma_basic_credentials(user: Seq<char>, token: Seq<char>)
    requires
        !user.contains(':'),
    ensures
        credential_matches(encode_utf8(user.push(':') + token), token),
        credential_matches(encode_utf8(token), token),
{
    let s = user.push(':') + token;
    encode_utf8_valid_utf8(s);
    encode_utf8_decode_utf8(s);
    encode_utf8_valid_utf8(token);
    encode_utf8_decode_utf8(token);
    assert forall|i: int| 0 <= i < user.len() implies s[i] != ':' by {
        assert(user.contains(user[i]));
    }
    text::lemma_find_first_unique(s, ':', user.len() as int);
    assert(s.skip(user.len() as int + 1) == token);
}

/// A bearer token is accepted with white space round it or not, and no other
/// token is.
pub proof fn lemma_bearer(l: Seq<char>, sent: Seq<char>, r: Seq<char>, token: Seq<char>)
    requires
        text::all_space(l),
        text::all_space(r),
        sent.len() == 0 || (!text::is_space(sent[0]) && !text::is_space(sent.last())),
    ensures
        value_authorizes("Bearer "@ + l + sent + r, token) <==> sent == token,
{
    let value = "Bearer "@ + l + sent + r;
    let n = "Bearer "@.len() as int;
    assert(value.take(n) == "Bearer "@);
    assert("Bearer "@.is_prefix_of(value));
    assert(value.skip(n) == l + sent + r);
    text::lemma_trim(l, sent, r);
}

/// A Basic credential is accepted exactly when what it encodes is the token, or
/// ends in the token behind its first colon.
pub proof fn lemma_basic(encoded: Seq<char>, user: Seq<char>, password: Seq<char>, token: Seq<char>)
    requires
        encoded.len() > 0,
        !text::is_space(encoded[0]),
        !text::is_space(encoded.last()),
        !user.contains(':'),
    ensures
        base64_decoded(encode_utf8(encoded)) == Some(encode_utf8(user.push(':') + password)) ==> (
        value_authorizes("Basic "@ + encoded, token) <==> password == token || user.push(':')
            + password == token),
        base64_decoded(encode_utf8(encoded)) == Some(encode_utf8(user)) ==> (value_authorizes(
            "Basic "@ + encoded,
            token,
        ) <==> user == token),
        base64_decoded(encode_utf8(encoded)) is None ==> !value_authorizes(
            "Basic "@ + encoded,
            token,
        ),
{
    reveal_strlit("Basic ");
    reveal_strlit("Bearer ");
    let value = "Basic "@ + encoded;
    assert(value.take(6) == "Basic "@);
    assert("Basic "@.is_prefix_of(value));
    assert(value[1] == 'a' && "Bearer "@[1] == 'e');
    assert(!"Bearer "@.is_prefix_of(value));
    assert(value.skip(6) == encoded);
    let nothing = Seq::<char>::empty();
    assert(nothing + encoded + nothing == encoded);
    text::lemma_trim(nothing, encoded, nothing);
    let whole = user.push(':') + password;
    encode_utf8_decode_utf8(whole);
    encode_utf8_valid_utf8(whole);
    encode_utf8_decode_utf8(user);
    encode_utf8_valid_utf8(user);
    let n = user.len() as int;
    assert forall|i: int| 0 <= i < n implies whole[i] != ':' && user[i] != ':' by {
        assert(user.contains(user[i]));
    }
    text::lemma_find_first_unique(whole, ':', n);
    text::lemma_find_first_unique(user, ':', n);
    assert(whole.skip(n + 1) == password);
}

/// Nobody is let in without a token to compare with, without a header, with
/// another scheme, or with a header that is not text: the schemes are `Bearer`
/// and `Basic`, written so and followed by a space.
pub proof fn lemma_refused(header: Seq<u8>, value: Seq<char>, token: Seq<char>, i: int)
    ensures
        !authorized(None, Some(token)),
        !authorized(Some(header), None),
        !authorized(None, None),
        !"Bearer "@.is_prefix_of(value) && !"Basic "@.is_prefix_of(value) ==> !value_authorizes(
            value,
            token,
        ),
        0 <= i < header.len() && (header[i] >= 127 || (header[i] < 32 && header[i] != 9))
            ==> !authorized(Some(header), Some(token)),
{
    if 0 <= i < header.len() && (header[i] >= 127 || (header[i] < 32 && header[i] != 9)) {
        assert(!is_header_text(header[i]));
    }
}

/// Every visible byte, and every space and tab, of a header stands for the
/// character with its number.
pub proof fn lemma_header_text(header: Seq<u8>)
    requires
        forall|i: int| 0 <= i < header.len() ==> 32 <= #[trigger] header[i] < 127 || header[i] == 9,
    ensures
        header_text(header) matches Some(value) && value.len() == header.len() && forall|i: int|
            0 <= i < value.len() ==> (#[trigger] value[i]) as int == header[i],
{
}

} // verus!
