//! The authenticated-request protocol: every call carries a public-key
//! header, a signature header and — when a body is present — a
//! content-length and a base64 "algorithm=digest" content-digest
//! header over the exact raw body bytes.  The checks here are pure:
//! they never touch ceremony state.

use crate::digests::base64_decode;
use crate::digests::base64_decode_of;
use crate::digests::base64_encode;
use crate::digests::base64_of;
use crate::digests::sha256_digest;
use crate::digests::sha256_of;
use crate::errors::CoordinatorError;
use crate::objects::Task;
use vstd::prelude::*;

verus! {

/// The header carrying the body digest.
pub const BODY_DIGEST_HEADER: &'static str = "Digest";

/// The header carrying the caller's public key.
pub const PUBKEY_HEADER: &'static str = "ATS-Pubkey";

/// The header carrying the request signature.
pub const SIGNATURE_HEADER: &'static str = "ATS-Signature";

/// The header carrying the body length.
pub const CONTENT_LENGTH_HEADER: &'static str = "Content-Length";

/// A failure of the request layer.
#[derive(Debug)]
pub enum ResponseError {
    /// The managed coordinator failed.
    CoordinatorError(CoordinatorError),
    /// The named header is badly formatted.
    InvalidHeader(&'static str),
    /// The request's signature is invalid.
    InvalidSignature,
    /// The body's checksum does not match the declared one: first the
    /// declared digest, then the actual one.
    MismatchingChecksum(String, String),
    /// The named required header was missing from the request.
    MissingRequiredHeader(&'static str),
    /// No signing key accompanied the request.
    MissingSigningKey,
    /// The ceremony could not be terminated.
    ShutdownError(String),
    /// The participant may not access the endpoint: identity, then
    /// endpoint.
    UnauthorizedParticipant(String, String),
    /// No contributor carries the given public key.
    UnknownContributor(String),
    /// The task is not known to the coordinator state.
    UnknownTask(Task),
    /// A contribution failed verification.
    VerificationError(String),
    /// The digest of the request's body is not base64 encoded.
    WrongDigestEncoding,
}

impl ResponseError {
    /// The HTTP status code this failure maps to.
    pub open spec fn spec_status_code(&self) -> u16 {
        match self {
            ResponseError::InvalidHeader(_) => 400,
            ResponseError::InvalidSignature => 400,
            ResponseError::MismatchingChecksum(_, _) => 400,
            ResponseError::MissingRequiredHeader(_) => 400,
            ResponseError::MissingSigningKey => 400,
            ResponseError::UnauthorizedParticipant(_, _) => 401,
            ResponseError::WrongDigestEncoding => 400,
            _ => 500,
        }
    }

    /// The HTTP status code this failure maps to: bad requests for
    /// malformed or unverifiable input, unauthorized for a caller the
    /// endpoint does not admit, internal error for everything else.
    pub fn status_code(&self) -> (r: u16)
        ensures
            r == self.spec_status_code(),
    {
        match self {
            ResponseError::InvalidHeader(_) => 400,
            ResponseError::InvalidSignature => 400,
            ResponseError::MismatchingChecksum(_, _) => 400,
            ResponseError::MissingRequiredHeader(_) => 400,
            ResponseError::MissingSigningKey => 400,
            ResponseError::UnauthorizedParticipant(_, _) => 401,
            ResponseError::WrongDigestEncoding => 400,
            _ => 500,
        }
    }
}

/// Whether the character is a decimal digit.
pub open spec fn is_dec_digit(c: char) -> bool {
    '0' <= c && c <= '9'
}

/// The numeric value of a decimal digit string.
pub open spec fn dec_value(s: Seq<char>) -> int
    decreases s.len(),
{
    if s.len() == 0 {
        0
    } else {
        dec_value(s.drop_last()) * 10 + (s.last() as int - '0' as int)
    }
}

/// What parsing a length header yields: the value of a non-empty,
/// all-digit string that fits the machine, nothing otherwise.
pub open spec fn parse_usize_spec(s: Seq<char>) -> Option<int> {
    if s.len() > 0 && (forall|i: int| 0 <= i < s.len() ==> is_dec_digit(#[trigger] s[i]))
        && dec_value(s) <= usize::MAX {
        Some(dec_value(s))
    } else {
        None
    }
}

/// Appending digits never shrinks the value.
proof fn lemma_dec_value_mono(s: Seq<char>, i: int)
    requires
        0 <= i <= s.len(),
        forall|j: int| 0 <= j < s.len() ==> is_dec_digit(#[trigger] s[j]),
    ensures
        dec_value(s.take(i)) <= dec_value(s),
        dec_value(s) >= 0,
    decreases s.len() - i,
{
    if i == s.len() {
        assert(s.take(i) =~= s);
        lemma_dec_value_nonneg(s);
    } else {
        lemma_dec_value_mono(s, i + 1);
        let t = s.take(i + 1);
        assert(t.last() == s[i]);
        assert(t.drop_last() =~= s.take(i));
        lemma_dec_value_nonneg(s.take(i));
        assert(dec_value(s.take(i + 1)) == dec_value(s.take(i)) * 10 + (s[i] as int - '0' as int));
    }
}

proof fn lemma_dec_value_nonneg(s: Seq<char>)
    requires
        forall|j: int| 0 <= j < s.len() ==> is_dec_digit(#[trigger] s[j]),
    ensures
        dec_value(s) >= 0,
    decreases s.len(),
{
    if s.len() > 0 {
        assert(s.last() == s[s.len() - 1]);
        assert(forall|j: int| 0 <= j < s.len() - 1 ==> s.drop_last()[j] == s[j]);
        lemma_dec_value_nonneg(s.drop_last());
    }
}

/// Parses a decimal length: the value of a non-empty, all-digit
/// string, or nothing where a digit is missing or the value overflows
/// the machine's sizes.
pub fn parse_usize(s: &str) -> (r: Option<usize>)
    ensures
        match r {
            Some(v) => parse_usize_spec(s@) == Some(v as int),
            None => parse_usize_spec(s@) is None,
        },
{
    let n = s.unicode_len();
    if n == 0 {
        return None;
    }
    let mut value: usize = 0;
    let mut i: usize = 0;
    proof {
        assert(s@.take(0) =~= Seq::<char>::empty());
    }
    while i < n
        invariant
            i <= n,
            n == s@.len(),
            forall|j: int| 0 <= j < i ==> is_dec_digit(#[trigger] s@[j]),
            value == dec_value(s@.take(i as int)),
        decreases n - i,
    {
        let c = s.get_char(i);
        if !(c >= '0' && c <= '9') {
            return None;
        }
        let d = (c as u32 - '0' as u32) as usize;
        proof {
            let t = s@.take(i as int + 1);
            assert(t.last() == s@[i as int]);
            assert(t.drop_last() =~= s@.take(i as int));
        }
        if value > usize::MAX / 10 || (value == usize::MAX / 10 && d > usize::MAX % 10) {
            // the digits read so far already exceed the machine
            proof {
                assert(dec_value(s@.take(i as int + 1)) > usize::MAX) by {
                    assert(dec_value(s@.take(i as int + 1)) == value * 10 + d);
                }
                if parse_usize_spec(s@) is Some {
                    lemma_dec_value_mono(s@, i as int + 1);
                }
            }
            return None;
        }
        value = value * 10 + d;
        i = i + 1;
    }
    proof {
        assert(s@.take(n as int) =~= s@);
    }
    Some(value)
}

/// The index of the first `=` in `s` at or after `i`, if any.
pub open spec fn first_eq_from(s: Seq<char>, i: int) -> Option<int>
    decreases s.len() - i,
{
    if i < 0 || i >= s.len() {
        None
    } else if s[i] == '=' {
        Some(i)
    } else {
        first_eq_from(s, i + 1)
    }
}

/// What a digest header declares: everything after the first `=`
/// (the algorithm label), or nothing where no `=` occurs.
pub open spec fn declared_digest(s: Seq<char>) -> Option<Seq<char>> {
    match first_eq_from(s, 0) {
        Option::Some(i) => Some(s.subrange(i + 1, s.len() as int)),
        Option::None => None,
    }
}

/// The first `=` of a string is at `k` when `k` holds one and nothing
/// before it does.
pub proof fn lemma_first_eq_at(s: Seq<char>, k: int)
    requires
        0 <= k < s.len(),
        s[k] == '=',
        forall|j: int| 0 <= j < k ==> s[j] != '=',
    ensures
        first_eq_from(s, 0) == Some(k),
{
    lemma_first_eq_seg(s, 0, k);
}

proof fn lemma_first_eq_seg(s: Seq<char>, i: int, k: int)
    requires
        0 <= i <= k < s.len(),
        s[k] == '=',
        forall|j: int| i <= j < k ==> s[j] != '=',
    ensures
        first_eq_from(s, i) == Some(k),
    decreases k - i,
{
    if i < k {
        lemma_first_eq_seg(s, i + 1, k);
    }
}

proof fn lemma_first_eq_none(s: Seq<char>, i: int)
    requires
        0 <= i <= s.len(),
        forall|j: int| i <= j < s.len() ==> s[j] != '=',
    ensures
        first_eq_from(s, i) is None,
    decreases s.len() - i,
{
    if i < s.len() {
        lemma_first_eq_none(s, i + 1);
    }
}

/// The content info of a request body: its length and the base64
/// digest declared for it.
pub struct RequestContent {
    pub len: usize,
    pub digest: String,
}

impl RequestContent {
    /// Builds the content info for a body: the length and the base64
    /// encoding of the given digest bytes.
    pub fn new(len: usize, digest: &[u8]) -> (r: RequestContent)
        ensures
            r.len == len,
            r.digest@ == base64_of(digest@),
            base64_decode_of(r.digest@) == Some(digest@),
    {
        RequestContent { len, digest: base64_encode(digest) }
    }

    /// The pair to put on the wire: the length and the digest prefixed
    /// with its algorithm.
    pub fn to_header(&self) -> (r: (usize, String))
        ensures
            r.0 == self.len,
            r.1@ == "sha-256="@ + self.digest@,
    {
        let mut s = String::from_str("sha-256=");
        s.append(self.digest.as_str());
        (self.len, s)
    }

    /// Reads the content info from the two header values: the digest
    /// is whatever follows the first `=` (the algorithm label), must
    /// be valid base64, and the length must be a plain decimal.
    pub fn try_from_header(len: &str, digest: &str) -> (r: Result<RequestContent, ResponseError>)
        ensures
            match r {
                Ok(rc) => {
                    &&& declared_digest(digest@) matches Some(d) && rc.digest@ == d
                        && base64_decode_of(d) is Some
                    &&& parse_usize_spec(len@) == Some(rc.len as int)
                },
                Err(e) => match e {
                    ResponseError::InvalidHeader(h) => (h@ == BODY_DIGEST_HEADER@
                        && declared_digest(digest@) is None) || (h@ == CONTENT_LENGTH_HEADER@ && (
                    declared_digest(digest@) matches Some(d) && base64_decode_of(d) is Some)
                        && parse_usize_spec(len@) is None),
                    ResponseError::WrongDigestEncoding => declared_digest(digest@) matches Some(d)
                        && base64_decode_of(d) is None,
                    _ => false,
                },
            },
    {
        let n = digest.unicode_len();
        let mut i: usize = 0;
        let mut found: Option<usize> = None;
        while i < n
            invariant
                i <= n,
                n == digest@.len(),
                match found {
                    Some(k) => k < i && digest@[k as int] == '=' && forall|j: int|
                        0 <= j < k ==> digest@[j] != '=',
                    None => forall|j: int| 0 <= j < i ==> digest@[j] != '=',
                },
            decreases n - i,
        {
            if found.is_none() && digest.get_char(i) == '=' {
                found = Some(i);
            }
            i = i + 1;
        }
        let at = match found {
            Some(k) => {
                proof {
                    lemma_first_eq_seg(digest@, 0, k as int);
                }
                k
            },
            None => {
                proof {
                    lemma_first_eq_none(digest@, 0);
                }
                return Err(ResponseError::InvalidHeader(BODY_DIGEST_HEADER));
            },
        };
        let value = digest.substring_char(at + 1, n);
        if base64_decode(value).is_none() {
            return Err(ResponseError::WrongDigestEncoding);
        }
        let parsed = match parse_usize(len) {
            Some(v) => v,
            None => {
                return Err(ResponseError::InvalidHeader(CONTENT_LENGTH_HEADER));
            },
        };
        Ok(RequestContent { len: parsed, digest: String::from_str(value) })
    }
}

/// The decimal digit character for a value below ten.
pub open spec fn dec_digit(d: int) -> char {
    if d == 0 {
        '0'
    } else if d == 1 {
        '1'
    } else if d == 2 {
        '2'
    } else if d == 3 {
        '3'
    } else if d == 4 {
        '4'
    } else if d == 5 {
        '5'
    } else if d == 6 {
        '6'
    } else if d == 7 {
        '7'
    } else if d == 8 {
        '8'
    } else {
        '9'
    }
}

/// The decimal representation of a number, most significant digit
/// first.
pub open spec fn dec_str(n: nat) -> Seq<char>
    decreases n,
{
    if n < 10 {
        seq![dec_digit(n as int)]
    } else {
        dec_str(n / 10).push(dec_digit((n % 10) as int))
    }
}

/// The decimal rendering consists of digits and parses back to the
/// number it renders: rendering and parsing are mutually inverse.
pub proof fn lemma_dec_str_parses(n: usize)
    ensures
        parse_usize_spec(dec_str(n as nat)) == Some(n as int),
{
    lemma_dec_str_digits(n as nat);
    lemma_dec_value_of_dec_str(n as nat);
}

proof fn lemma_dec_str_digits(n: nat)
    ensures
        dec_str(n).len() > 0,
        forall|i: int| 0 <= i < dec_str(n).len() ==> is_dec_digit(#[trigger] dec_str(n)[i]),
    decreases n,
{
    if n < 10 {
        assert(is_dec_digit(dec_digit(n as int)));
    } else {
        lemma_dec_str_digits(n / 10);
        assert(is_dec_digit(dec_digit((n % 10) as int)));
        assert forall|i: int| 0 <= i < dec_str(n).len() implies is_dec_digit(
            #[trigger] dec_str(n)[i],
        ) by {
            if i < dec_str(n).len() - 1 {
                assert(dec_str(n)[i] == dec_str(n / 10)[i]);
            }
        }
    }
}

proof fn lemma_dec_value_of_dec_str(n: nat)
    ensures
        dec_value(dec_str(n)) == n,
    decreases n,
{
    if n < 10 {
        let s = dec_str(n);
        assert(s.len() == 1);
        assert(s.drop_last() =~= Seq::<char>::empty());
        assert(dec_value(s.drop_last()) == 0);
        assert(dec_value(s) == dec_value(s.drop_last()) * 10 + (s.last() as int - '0' as int));
        assert(s.last() == dec_digit(n as int));
        assert(dec_digit(n as int) as int - '0' as int == n);
    } else {
        lemma_dec_value_of_dec_str(n / 10);
        let s = dec_str(n);
        assert(s.len() > 0);
        assert(dec_value(s) == dec_value(s.drop_last()) * 10 + (s.last() as int - '0' as int));
        assert(s.last() == dec_digit((n % 10) as int));
        assert(s.drop_last() =~= dec_str(n / 10));
        assert(dec_digit((n % 10) as int) as int - '0' as int == n % 10);
        assert((n / 10) * 10 + n % 10 == n) by {
            vstd::arithmetic::div_mod::lemma_fundamental_div_mod(n as int, 10);
        }
    }
}

/// The one-character string for a decimal digit.
fn digit_str(d: usize) -> (r: &'static str)
    requires
        d < 10,
    ensures
        r@ == seq![dec_digit(d as int)],
{
    proof {
        reveal_strlit("0");
        reveal_strlit("1");
        reveal_strlit("2");
        reveal_strlit("3");
        reveal_strlit("4");
        reveal_strlit("5");
        reveal_strlit("6");
        reveal_strlit("7");
        reveal_strlit("8");
        reveal_strlit("9");
        assert("0"@ =~= seq!['0']);
        assert("1"@ =~= seq!['1']);
        assert("2"@ =~= seq!['2']);
        assert("3"@ =~= seq!['3']);
        assert("4"@ =~= seq!['4']);
        assert("5"@ =~= seq!['5']);
        assert("6"@ =~= seq!['6']);
        assert("7"@ =~= seq!['7']);
        assert("8"@ =~= seq!['8']);
        assert("9"@ =~= seq!['9']);
    }
    if d == 0 {
        "0"
    } else if d == 1 {
        "1"
    } else if d == 2 {
        "2"
    } else if d == 3 {
        "3"
    } else if d == 4 {
        "4"
    } else if d == 5 {
        "5"
    } else if d == 6 {
        "6"
    } else if d == 7 {
        "7"
    } else if d == 8 {
        "8"
    } else {
        "9"
    }
}

/// The decimal string of a length.
pub fn usize_to_dec(n: usize) -> (r: String)
    ensures
        r@ == dec_str(n as nat),
    decreases n,
{
    if n < 10 {
        String::from_str(digit_str(n))
    } else {
        let mut s = usize_to_dec(n / 10);
        s.append(digit_str(n % 10));
        proof {
            assert(dec_str((n / 10) as nat).push(dec_digit((n % 10) as int)) =~= dec_str(
                (n / 10) as nat,
            ) + seq![dec_digit((n % 10) as int)]);
        }
        s
    }
}

/// The headers involved in the signature of a request.
pub struct SignatureHeaders {
    pub pubkey: String,
    pub content: Option<RequestContent>,
    pub signature: Option<String>,
}

impl SignatureHeaders {
    pub fn new(pubkey: String, content: Option<RequestContent>, signature: Option<String>) -> (r:
        SignatureHeaders)
        ensures
            r.pubkey == pubkey,
            r.content == content,
            r.signature == signature,
    {
        SignatureHeaders { pubkey, content, signature }
    }

    /// The exact message the caller must sign: its public key, then —
    /// when a body is present — the content length and the declared
    /// digest, with nothing in between.
    pub fn to_string(&self) -> (r: String)
        ensures
            match self.content {
                Some(c) => r@ == self.pubkey@ + dec_str(c.len as nat) + c.digest@,
                None => r@ == self.pubkey@,
            },
    {
        match &self.content {
            Some(c) => {
                let mut s = self.pubkey.clone();
                let len_str = usize_to_dec(c.len);
                s.append(len_str.as_str());
                s.append(c.digest.as_str());
                s
            },
            None => self.pubkey.clone(),
        }
    }

    /// Decides the signature check.  `scheme_accepts` is the verdict
    /// of the external signature scheme on this request's public key,
    /// message (see [`Self::to_string`]) and signature; the caller
    /// obtains it from that collaborator and hands it in.  A request
    /// without a signature cannot be checked at all.
    pub fn try_verify_signature(&self, scheme_accepts: bool) -> (r: Result<bool, ResponseError>)
        ensures
            match r {
                Ok(b) => self.signature is Some && b == scheme_accepts,
                Err(e) => self.signature is None && e matches ResponseError::MissingSigningKey,
            },
    {
        match &self.signature {
            Some(_) => Ok(scheme_accepts),
            None => Err(ResponseError::MissingSigningKey),
        }
    }

    /// Assembles the signature headers from the raw header values of a
    /// request: the public key and signature headers must be present,
    /// and a POST request declaring a body digest must also carry a
    /// well-formed content length and digest.
    pub fn from_header_values(
        pubkey: Option<&str>,
        signature: Option<&str>,
        is_post: bool,
        digest: Option<&str>,
        content_length: Option<&str>,
    ) -> (r: Result<SignatureHeaders, ResponseError>)
        ensures
            match r {
                Ok(h) => {
                    &&& pubkey is Some && h.pubkey@ == pubkey->Some_0@
                    &&& signature is Some && (h.signature matches Some(sg) && sg@
                        == signature->Some_0@)
                    &&& h.content matches Some(rc) ==> {
                        &&& is_post && digest is Some && content_length is Some
                        &&& (declared_digest(digest->Some_0@) matches Some(d) && rc.digest@ == d
                            && base64_decode_of(d) is Some)
                        &&& parse_usize_spec(content_length->Some_0@) == Some(rc.len as int)
                    }
                    &&& h.content is None ==> !is_post || digest is None
                    &&& (is_post && digest is Some) ==> h.content is Some
                },
                Err(e) => match e {
                    ResponseError::InvalidHeader(name) => {
                        ||| (name@ == PUBKEY_HEADER@ && pubkey is None)
                        ||| (name@ == SIGNATURE_HEADER@ && pubkey is Some && signature is None)
                        ||| (name@ == CONTENT_LENGTH_HEADER@ && pubkey is Some && signature
                            is Some && is_post && digest is Some && (content_length is None || ((
                        declared_digest(digest->Some_0@) matches Some(d) && base64_decode_of(
                            d,
                        ) is Some) && parse_usize_spec(content_length->Some_0@) is None)))
                        ||| (name@ == BODY_DIGEST_HEADER@ && pubkey is Some && signature is Some
                            && is_post && digest is Some && content_length is Some
                            && declared_digest(digest->Some_0@) is None)
                    },
                    ResponseError::WrongDigestEncoding => pubkey is Some && signature is Some
                        && is_post && digest is Some && content_length is Some && (declared_digest(
                        digest->Some_0@,
                    ) matches Some(d) && base64_decode_of(d) is None),
                    _ => false,
                },
            },
    {
        let pk = match pubkey {
            Some(p) => p,
            None => {
                return Err(ResponseError::InvalidHeader(PUBKEY_HEADER));
            },
        };
        let sig = match signature {
            Some(sg) => sg,
            None => {
                return Err(ResponseError::InvalidHeader(SIGNATURE_HEADER));
            },
        };
        let mut body: Option<RequestContent> = None;
        if is_post {
            match digest {
                Some(d) => {
                    let cl = match content_length {
                        Some(c) => c,
                        None => {
                            return Err(ResponseError::InvalidHeader(CONTENT_LENGTH_HEADER));
                        },
                    };
                    match RequestContent::try_from_header(cl, d) {
                        Ok(content) => {
                            body = Some(content);
                        },
                        Err(e) => {
                            return Err(e);
                        },
                    }
                },
                None => {},
            }
        }
        Ok(
            SignatureHeaders {
                pubkey: String::from_str(pk),
                content: body,
                signature: Some(String::from_str(sig)),
            },
        )
    }
}

/// Admission to the coordinator-only endpoints: the caller must be the
/// coordinator's own designated verifier.
pub struct ServerAuth;

impl ServerAuth {
    /// Admits the caller exactly when its public key is the
    /// coordinator's designated verifier identity.
    pub fn check(pubkey: &String, verifier: &String, endpoint: &str) -> (r: Result<
        ServerAuth,
        ResponseError,
    >)
        ensures
            r is Ok <==> pubkey@ == verifier@,
            r matches Err(e) ==> e matches ResponseError::UnauthorizedParticipant(p, ep) && p@
                == pubkey@ && ep@ == endpoint@,
    {
        if *pubkey == *verifier {
            Ok(ServerAuth)
        } else {
            Err(
                ResponseError::UnauthorizedParticipant(
                    pubkey.clone(),
                    String::from_str(endpoint),
                ),
            )
        }
    }
}

/// The request guard: reads the signature headers, decides the
/// signature check with the scheme's verdict, and derives the caller's
/// identity.  `scheme_accepts` is the external signature scheme's
/// verdict on the assembled message (see
/// [`SignatureHeaders::to_string`]) and the request's signature.  A
/// request whose headers are complete and well formed, and whose
/// signature the scheme accepts, is owed an identity.  Nothing here
/// mutates ceremony state.
pub fn verify_request(
    pubkey: Option<&str>,
    signature: Option<&str>,
    is_post: bool,
    digest: Option<&str>,
    content_length: Option<&str>,
    scheme_accepts: bool,
) -> (r: Result<crate::objects::Participant, ResponseError>)
    ensures
        match r {
            Ok(p) => {
                &&& pubkey is Some && p.address@ == pubkey->Some_0@
                &&& p.role == crate::objects::Role::Contributor
                &&& signature is Some
                &&& scheme_accepts
            },
            Err(e) => match e {
                ResponseError::InvalidSignature => pubkey is Some && signature is Some
                    && !scheme_accepts,
                ResponseError::InvalidHeader(name) => {
                    ||| (name@ == PUBKEY_HEADER@ && pubkey is None)
                    ||| (name@ == SIGNATURE_HEADER@ && pubkey is Some && signature is None)
                    ||| (name@ == CONTENT_LENGTH_HEADER@ && pubkey is Some && signature is Some
                        && is_post && digest is Some && (content_length is None || ((
                    declared_digest(digest->Some_0@) matches Some(d) && base64_decode_of(
                        d,
                    ) is Some) && parse_usize_spec(content_length->Some_0@) is None)))
                    ||| (name@ == BODY_DIGEST_HEADER@ && pubkey is Some && signature is Some
                        && is_post && digest is Some && content_length is Some && declared_digest(
                        digest->Some_0@,
                    ) is None)
                },
                ResponseError::WrongDigestEncoding => pubkey is Some && signature is Some
                    && is_post && digest is Some && content_length is Some && (declared_digest(
                    digest->Some_0@,
                ) matches Some(d) && base64_decode_of(d) is None),
                _ => false,
            },
        },
        // success is owed: complete, well-formed, accepted requests pass
        (pubkey is Some && signature is Some && scheme_accepts && (!is_post || digest is None || (
        content_length is Some && (declared_digest(digest->Some_0@) matches Some(d)
            && base64_decode_of(d) is Some) && parse_usize_spec(content_length->Some_0@) is Some)))
            ==> r is Ok,
{
    let headers = match SignatureHeaders::from_header_values(
        pubkey,
        signature,
        is_post,
        digest,
        content_length,
    ) {
        Ok(h) => h,
        Err(e) => {
            return Err(e);
        },
    };
    match headers.try_verify_signature(scheme_accepts) {
        Ok(true) => Ok(crate::objects::Participant::new_contributor(headers.pubkey.as_str())),
        Ok(false) => Err(ResponseError::InvalidSignature),
        Err(e) => Err(e),
    }
}

/// Checks the received body against the declared content digest: the
/// declared base64 digest must equal the base64 encoding of the
/// SHA-256 digest of the exact raw body bytes.  A mismatch is rejected
/// here, before anything attempts to deserialize the body.
pub fn check_body(expected: &RequestContent, body: &[u8]) -> (r: Result<(), ResponseError>)
    ensures
        r is Ok <==> expected.digest@ == base64_of(sha256_of(body@)),
        r matches Err(e) ==> e matches ResponseError::MismatchingChecksum(d, a) && d@
            == expected.digest@ && a@ == base64_of(sha256_of(body@)),
{
    let digest = sha256_digest(body);
    let actual = base64_encode(digest.as_slice());
    if expected.digest == actual {
        Ok(())
    } else {
        Err(ResponseError::MismatchingChecksum(expected.digest.clone(), actual))
    }
}

/// The full body gate of a request: the digest and length headers
/// must be present and well formed, and the declared digest must
/// match the actual digest of the raw body bytes.  A body whose
/// declared digest is the true one is owed passage; only after this
/// may the body be deserialized.
pub fn check_request_body(
    digest_header: Option<&str>,
    content_length: Option<&str>,
    body: &[u8],
) -> (r: Result<RequestContent, ResponseError>)
    ensures
        match r {
            Ok(rc) => {
                &&& digest_header is Some && content_length is Some
                &&& (declared_digest(digest_header->Some_0@) matches Some(d) && rc.digest@ == d
                    && base64_decode_of(d) is Some)
                &&& parse_usize_spec(content_length->Some_0@) == Some(rc.len as int)
                &&& rc.digest@ == base64_of(sha256_of(body@))
            },
            Err(e) => match e {
                ResponseError::MissingRequiredHeader(h) => (h@ == BODY_DIGEST_HEADER@
                    && digest_header is None) || (h@ == CONTENT_LENGTH_HEADER@ && digest_header
                    is Some && content_length is None),
                ResponseError::InvalidHeader(h) => digest_header is Some && content_length is Some
                    && ((h@ == BODY_DIGEST_HEADER@ && declared_digest(
                    digest_header->Some_0@,
                ) is None) || (h@ == CONTENT_LENGTH_HEADER@ && (declared_digest(
                    digest_header->Some_0@,
                ) matches Some(d) && base64_decode_of(d) is Some) && parse_usize_spec(
                    content_length->Some_0@,
                ) is None)),
                ResponseError::WrongDigestEncoding => digest_header is Some && content_length
                    is Some && (declared_digest(digest_header->Some_0@) matches Some(d)
                    && base64_decode_of(d) is None),
                ResponseError::MismatchingChecksum(dd, a) => digest_header is Some
                    && content_length is Some && (declared_digest(
                    digest_header->Some_0@,
                ) matches Some(d) && dd@ == d && base64_decode_of(d) is Some) && a@ == base64_of(
                    sha256_of(body@),
                ) && dd@ != a@,
                _ => false,
            },
        },
{
    let d = match digest_header {
        Some(d) => d,
        None => {
            return Err(ResponseError::MissingRequiredHeader(BODY_DIGEST_HEADER));
        },
    };
    let cl = match content_length {
        Some(c) => c,
        None => {
            return Err(ResponseError::MissingRequiredHeader(CONTENT_LENGTH_HEADER));
        },
    };
    let content = match RequestContent::try_from_header(cl, d) {
        Ok(c) => c,
        Err(e) => {
            return Err(e);
        },
    };
    match check_body(&content, body) {
        Ok(()) => Ok(content),
        Err(e) => Err(e),
    }
}

} // verus!
