//! HTTP Basic Authentication: taking the credentials out of the
//! `Authorization` header.
//!
//! The header is read as the bytes it was sent as. A well-formed header is
//! the scheme `Basic`, one or more spaces, and the base64 text of
//! `username:password` in UTF-8; the username ends at the first colon and the
//! password is everything after it.

use crate::base64::{decode, decoded};
use vstd::prelude::*;
use vstd::slice::{slice_subrange, slice_to_vec};
use vstd::string::StringSliceAdditionalSpecFns;
use vstd::utf8::{
    char_is_scalar, char_u32_cast, decode_utf8, decode_utf8_encode_utf8, encode_scalar, encode_utf8,
    encode_utf8_decode_utf8, encode_utf8_valid_utf8, has_width_1_encoding, pop_first_scalar,
    valid_utf8, valid_utf8_concat,
};

verus! {

/// Why a request was not authenticated.
#[derive(Clone, Copy, Debug, PartialEq, Eq, Structural)]
pub enum AuthError {
    /// The request carried no `Authorization` header.
    MissingCredentials,
    /// The header does not hold the `Basic` scheme and the base64 text of
    /// `username:password`.
    MalformedCredentials,
    /// The credential store knows no such user, or the password is wrong.
    InvalidCredentials,
}

/// The space that parts the scheme from the token.
pub const SPACE: u8 = 32;

/// The colon that parts the username from the password.
pub const COLON: u8 = 58;

/// The bytes of `Basic` and the space after it.
pub open spec fn scheme_prefix() -> Seq<u8> {
    seq![66u8, 97u8, 115u8, 105u8, 99u8, 32u8]
}

/// `bytes` without the spaces it starts with.
pub open spec fn without_leading_spaces(bytes: Seq<u8>) -> Seq<u8>
    decreases bytes.len(),
{
    if bytes.len() > 0 && bytes[0] == SPACE {
        without_leading_spaces(bytes.skip(1))
    } else {
        bytes
    }
}

/// The token of a header: what follows the scheme `Basic` and the spaces
/// after it. `None` where the header does not start with `Basic` and a space.
pub open spec fn token_of(header: Seq<u8>) -> Option<Seq<u8>> {
    if header.len() >= 6 && header.take(6) == scheme_prefix() {
        Some(without_leading_spaces(header.skip(6)))
    } else {
        None
    }
}

/// The parts of `s` before and after the first `needle` in it, where there
/// is one.
pub open spec fn split_at_first<A>(s: Seq<A>, needle: A) -> Option<(Seq<A>, Seq<A>)> {
    match s.index_of_first(needle) {
        Some(at) => Some((s.take(at), s.skip(at + 1))),
        None => None,
    }
}

/// The username and password that a payload holds: the payload is a text in
/// UTF-8 with a colon in it, the username is the text before the first colon
/// and the password the text after it, which may hold more colons.
pub open spec fn payload_credentials(payload: Seq<u8>) -> Result<
    (Seq<char>, Seq<char>),
    AuthError,
> {
    if valid_utf8(payload) {
        match split_at_first(decode_utf8(payload), ':') {
            Some(pair) => Ok(pair),
            None => Err(AuthError::MalformedCredentials),
        }
    } else {
        Err(AuthError::MalformedCredentials)
    }
}

/// The username and password that a base64 token holds: those of the payload
/// that the token decodes to.
pub open spec fn token_credentials(token: Seq<u8>) -> Result<(Seq<char>, Seq<char>), AuthError> {
    match decoded(token) {
        None => Err(AuthError::MalformedCredentials),
        Some(payload) => payload_credentials(payload),
    }
}

/// The username and password that a header holds.
pub open spec fn header_credentials(header: Seq<u8>) -> Result<(Seq<char>, Seq<char>), AuthError> {
    match token_of(header) {
        None => Err(AuthError::MalformedCredentials),
        Some(token) => token_credentials(token),
    }
}

/// The username and password of a request, whose header may be absent.
pub open spec fn request_credentials(header: Option<Seq<u8>>) -> Result<
    (Seq<char>, Seq<char>),
    AuthError,
> {
    match header {
        None => Err(AuthError::MissingCredentials),
        Some(bytes) => header_credentials(bytes),
    }
}

/// The credentials that a request claims.
#[derive(Clone, Debug, PartialEq, Eq)]
pub struct BasicAuth {
    pub username: String,
    pub password: String,
}

impl BasicAuth {
    /// The claimed username and password as a pair of texts.
    pub open spec fn pair(&self) -> (Seq<char>, Seq<char>) {
        (self.username@, self.password@)
    }
}

/// What an extraction yields, as the pair of texts or the error.
pub open spec fn extraction_view(r: Result<BasicAuth, AuthError>) -> Result<
    (Seq<char>, Seq<char>),
    AuthError,
> {
    match r {
        Ok(auth) => Ok(auth.pair()),
        Err(e) => Err(e),
    }
}

proof fn lemma_first_is<A>(s: Seq<A>, needle: A, at: int)
    requires
        0 <= at < s.len(),
        s[at] == needle,
        forall|j: int| 0 <= j < at ==> s[j] != needle,
    ensures
        s.index_of_first(needle) == Some(at),
{
    s.index_of_first_ensures(needle);
    assert(s.contains(needle));
}

proof fn lemma_first_is_none<A>(s: Seq<A>, needle: A)
    requires
        forall|j: int| 0 <= j < s.len() ==> s[j] != needle,
    ensures
        s.index_of_first(needle) is None,
{
    s.index_of_first_ensures(needle);
}

/// The bytes of a colon are the one byte `COLON`, and the bytes of any other
/// character hold no `COLON`.
proof fn lemma_scalar_bytes(c: char)
    ensures
        encode_scalar(c as u32).len() >= 1,
        c == ':' ==> encode_scalar(c as u32) == seq![COLON],
        c != ':' ==> forall|j: int|
            0 <= j < encode_scalar(c as u32).len() ==> #[trigger] encode_scalar(c as u32)[j]
                != COLON,
{
    let scalar = c as u32;
    char_is_scalar(c);
    if has_width_1_encoding(scalar) {
        assert(scalar <= 0x7f ==> scalar & 0x7f == scalar) by (bit_vector);
        if c == ':' {
            assert(encode_scalar(scalar) =~= seq![COLON]);
        } else {
            char_u32_cast(c, scalar);
            char_u32_cast(':', 58u32);
        }
    } else {
        let b6 = ((scalar >> 6) & 0x1F) as u8;
        let b12 = ((scalar >> 12) & 0x0F) as u8;
        let b18 = ((scalar >> 18) & 0x7) as u8;
        let c0 = (scalar & 0x3F) as u8;
        let c6 = ((scalar >> 6) & 0x3F) as u8;
        let c12 = ((scalar >> 12) & 0x3F) as u8;
        assert(0xC0u8 | b6 >= 0x80) by (bit_vector);
        assert(0xE0u8 | b12 >= 0x80) by (bit_vector);
        assert(0xF0u8 | b18 >= 0x80) by (bit_vector);
        assert(0x80u8 | c0 >= 0x80) by (bit_vector);
        assert(0x80u8 | c6 >= 0x80) by (bit_vector);
        assert(0x80u8 | c12 >= 0x80) by (bit_vector);
    }
}

/// Splitting a text at its first colon and splitting its bytes at their
/// first `COLON` come to the same.
proof fn lemma_split_bytes_of_text(text: Seq<char>)
    ensures
        match split_at_first(text, ':') {
            Some((before, after)) => split_at_first(encode_utf8(text), COLON) == Some(
                (encode_utf8(before), encode_utf8(after)),
            ),
            None => split_at_first(encode_utf8(text), COLON) is None,
        },
    decreases text.len(),
{
    let bytes = encode_utf8(text);
    text.index_of_first_ensures(':');
    if text.len() == 0 {
        lemma_first_is_none(bytes, COLON);
    } else {
        let first = encode_scalar(text[0] as u32);
        let rest = text.drop_first();
        let rest_bytes = encode_utf8(rest);
        lemma_scalar_bytes(text[0]);
        assert(bytes == first + rest_bytes);
        if text[0] == ':' {
            lemma_first_is(text, ':', 0);
            lemma_first_is(bytes, COLON, 0);
            assert(text.take(0) =~= Seq::<char>::empty());
            assert(text.skip(1) =~= rest);
            assert(bytes.take(0) =~= encode_utf8(Seq::<char>::empty()));
            assert(bytes.skip(1) =~= rest_bytes);
        } else {
            lemma_split_bytes_of_text(rest);
            rest.index_of_first_ensures(':');
            rest_bytes.index_of_first_ensures(COLON);
            match rest.index_of_first(':') {
                Some(k) => {
                    let i = rest_bytes.index_of_first(COLON)->0;
                    let width = first.len() as int;
                    assert(forall|j: int| 0 <= j < k + 1 ==> text[j] != ':') by {
                        assert forall|j: int| 0 <= j < k + 1 implies text[j] != ':' by {
                            if j > 0 {
                                assert(text[j] == rest[j - 1]);
                            }
                        }
                    }
                    assert(text[k + 1] == rest[k]);
                    lemma_first_is(text, ':', k + 1);
                    assert forall|j: int| 0 <= j < width + i implies bytes[j] != COLON by {
                        if j >= width {
                            assert(bytes[j] == rest_bytes[j - width]);
                        } else {
                            assert(bytes[j] == first[j]);
                        }
                    }
                    assert(bytes[width + i] == rest_bytes[i]);
                    lemma_first_is(bytes, COLON, width + i);
                    let before = text.take(k + 1);
                    assert(before.drop_first() =~= rest.take(k));
                    assert(before[0] == text[0]);
                    assert(bytes.take(width + i) =~= first + rest_bytes.take(i));
                    assert(encode_utf8(before) == first + encode_utf8(rest.take(k)));
                    assert(text.skip(k + 2) =~= rest.skip(k + 1));
                    assert(bytes.skip(width + i + 1) =~= rest_bytes.skip(i + 1));
                },
                None => {
                    assert forall|j: int| 0 <= j < bytes.len() implies bytes[j] != COLON by {
                        if j >= first.len() {
                            assert(bytes[j] == rest_bytes[j - first.len()]);
                        } else {
                            assert(bytes[j] == first[j]);
                        }
                    }
                    lemma_first_is_none(bytes, COLON);
                    assert forall|j: int| 0 <= j < text.len() implies text[j] != ':' by {
                        if j > 0 {
                            assert(text[j] == rest[j - 1]);
                        }
                    }
                    lemma_first_is_none(text, ':');
                },
            }
        }
    }
}

/// The credentials of a payload, read off its bytes: the payload is split at
/// its first `COLON`, and each part must be a text in UTF-8.
pub proof fn lemma_payload_credentials(payload: Seq<u8>)
    ensures
        payload_credentials(payload) == match split_at_first(payload, COLON) {
            Some((before, after)) => if valid_utf8(before) && valid_utf8(after) {
                Ok((decode_utf8(before), decode_utf8(after)))
            } else {
                Err(AuthError::MalformedCredentials)
            },
            None => Err(AuthError::MalformedCredentials),
        },
{
    if valid_utf8(payload) {
        let text = decode_utf8(payload);
        decode_utf8_encode_utf8(payload);
        lemma_split_bytes_of_text(text);
        match split_at_first(text, ':') {
            Some((before, after)) => {
                encode_utf8_valid_utf8(before);
                encode_utf8_valid_utf8(after);
                encode_utf8_decode_utf8(before);
                encode_utf8_decode_utf8(after);
            },
            None => {},
        }
    } else {
        payload.index_of_first_ensures(COLON);
        match split_at_first(payload, COLON) {
            Some((before, after)) => {
                if valid_utf8(before) && valid_utf8(after) {
                    let colon = seq![COLON];
                    assert(valid_utf8(colon)) by {
                        assert(pop_first_scalar(colon) =~= Seq::<u8>::empty());
                        assert(valid_utf8(pop_first_scalar(colon)));
                    }
                    valid_utf8_concat(before, colon);
                    valid_utf8_concat(before + colon, after);
                    assert(payload =~= before + colon + after);
                }
            },
            None => {},
        }
    }
}

/// `String::from_utf8` of the standard library: the text that `bytes` encode
/// in UTF-8, and `None` where they are not valid UTF-8. This is taken from
/// its documentation and not proved.
#[verifier::external_body]
fn string_from_utf8(bytes: Vec<u8>) -> (text: Option<String>)
    ensures
        text is Some <==> valid_utf8(bytes@),
        text matches Some(s) ==> s@ == decode_utf8(bytes@),
{
    match String::from_utf8(bytes) {
        Ok(s) => Some(s),
        Err(_) => None,
    }
}

/// The position of the first colon in `payload`.
fn find_colon(payload: &[u8]) -> (r: Option<usize>)
    ensures
        match r {
            Some(i) => i < payload@.len() && payload@.index_of_first(COLON) == Some(i as int),
            None => payload@.index_of_first(COLON) is None,
        },
{
    let n = payload.len();
    let mut i: usize = 0;
    while i < n && payload[i] != COLON
        invariant
            n == payload@.len(),
            i <= n,
            forall|j: int| 0 <= j < i ==> payload@[j] != COLON,
        decreases n - i,
    {
        i = i + 1;
    }
    proof {
        payload@.index_of_first_ensures(COLON);
    }
    if i < n {
        Some(i)
    } else {
        None
    }
}

impl BasicAuth {
    fn from_token(token: &[u8]) -> (r: Result<BasicAuth, AuthError>)
        ensures
            extraction_view(r) == token_credentials(token@),
    {
        let payload = match decode(token) {
            Some(payload) => payload,
            None => {
                return Err(AuthError::MalformedCredentials);
            },
        };
        proof {
            lemma_payload_credentials(payload@);
        }
        let colon = match find_colon(payload.as_slice()) {
            Some(colon) => colon,
            None => {
                return Err(AuthError::MalformedCredentials);
            },
        };
        let username_bytes = slice_to_vec(slice_subrange(payload.as_slice(), 0, colon));
        let password_bytes = slice_to_vec(
            slice_subrange(payload.as_slice(), colon + 1, payload.len()),
        );
        assert(username_bytes@ =~= payload@.take(colon as int));
        assert(password_bytes@ =~= payload@.skip(colon + 1));
        match (string_from_utf8(username_bytes), string_from_utf8(password_bytes)) {
            (Some(username), Some(password)) => Ok(BasicAuth { username, password }),
            _ => Err(AuthError::MalformedCredentials),
        }
    }

    /// Reads the credentials out of a base64 token, the part of the header
    /// after the scheme.
    pub fn from_base64_encoded(base64_string: &str) -> (r: Result<BasicAuth, AuthError>)
        ensures
            extraction_view(r) == token_credentials(base64_string.spec_bytes()),
    {
        BasicAuth::from_token(base64_string.as_bytes())
    }

    /// Reads the credentials out of the value of an `Authorization` header.
    ///
    /// Every header that is not the scheme `Basic`, spaces and the base64 text
    /// of a payload with a colon in it is `MalformedCredentials`.
    pub fn from_authorization_header(header: &str) -> (r: Result<BasicAuth, AuthError>)
        ensures
            extraction_view(r) == header_credentials(header.spec_bytes()),
    {
        let bytes = header.as_bytes();
        let n = bytes.len();
        if n < 6 || bytes[0] != 66 || bytes[1] != 97 || bytes[2] != 115 || bytes[3] != 105
            || bytes[4] != 99 || bytes[5] != SPACE {
            assert(n >= 6 ==> bytes@.take(6)[0] == bytes@[0] && bytes@.take(6)[1] == bytes@[1]
                && bytes@.take(6)[2] == bytes@[2] && bytes@.take(6)[3] == bytes@[3]
                && bytes@.take(6)[4] == bytes@[4] && bytes@.take(6)[5] == bytes@[5]);
            return Err(AuthError::MalformedCredentials);
        }
        assert(bytes@.take(6) =~= scheme_prefix());
        let mut i: usize = 6;
        while i < n && bytes[i] == SPACE
            invariant
                n == bytes@.len(),
                6 <= i <= n,
                without_leading_spaces(bytes@.skip(6)) == without_leading_spaces(
                    bytes@.skip(i as int),
                ),
            decreases n - i,
        {
            assert(bytes@.skip(i as int).skip(1) =~= bytes@.skip(i + 1));
            i = i + 1;
        }
        let token = slice_subrange(bytes, i, n);
        assert(token@ =~= bytes@.skip(i as int));
        BasicAuth::from_token(token)
    }

    /// Reads the credentials of a request whose `Authorization` header may be
    /// absent: no header is `MissingCredentials`.
    pub fn extract(header: Option<&str>) -> (r: Result<BasicAuth, AuthError>)
        ensures
            extraction_view(r) == request_credentials(
                match header {
                    Some(h) => Some(h.spec_bytes()),
                    None => None,
                },
            ),
    {
        match header {
            None => Err(AuthError::MissingCredentials),
            Some(h) => BasicAuth::from_authorization_header(h),
        }
    }
}

/// Every failure to read credentials out of a header that is present is the
/// same one: the error does not tell which part of the header was wrong.
pub proof fn lemma_header_errors_are_malformed(header: Seq<u8>)
    ensures
        header_credentials(header) is Err ==> header_credentials(header)
            == Err::<(Seq<char>, Seq<char>), AuthError>(AuthError::MalformedCredentials),
{
}

} // verus!
