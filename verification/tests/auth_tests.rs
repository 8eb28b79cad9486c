use phase1_coordinator::auth::check_body;
use phase1_coordinator::auth::check_request_body;
use phase1_coordinator::auth::parse_usize;
use phase1_coordinator::auth::usize_to_dec;
use phase1_coordinator::auth::verify_request;
use phase1_coordinator::auth::RequestContent;
use phase1_coordinator::auth::ResponseError;
use phase1_coordinator::auth::ServerAuth;
use phase1_coordinator::auth::SignatureHeaders;

fn sha256_base64(body: &[u8]) -> String {
    let mut hasher = <sha2::Sha256 as sha2::Digest>::new();
    sha2::Digest::update(&mut hasher, body);
    base64::encode(sha2::Digest::finalize(hasher))
}

#[test]
fn parse_usize_accepts_digits_only() {
    assert_eq!(parse_usize("0"), Some(0));
    assert_eq!(parse_usize("42"), Some(42));
    assert_eq!(parse_usize("18446744073709551615"), Some(usize::MAX));
    assert_eq!(parse_usize(""), None);
    assert_eq!(parse_usize("12a"), None);
    assert_eq!(parse_usize("-3"), None);
    assert_eq!(parse_usize("99999999999999999999999"), None);
}

#[test]
fn usize_to_dec_renders_decimal() {
    assert_eq!(usize_to_dec(0), "0");
    assert_eq!(usize_to_dec(7), "7");
    assert_eq!(usize_to_dec(1234567890), "1234567890");
}

#[test]
fn request_content_round_trips_through_header() {
    let digest_bytes = vec![0xde, 0xad, 0xbe, 0xef];
    let rc = RequestContent::new(4, &digest_bytes);
    assert_eq!(rc.digest, base64::encode(&digest_bytes));
    let (len, header) = rc.to_header();
    assert_eq!(len, 4);
    assert_eq!(header, format!("sha-256={}", base64::encode(&digest_bytes)));

    let parsed = RequestContent::try_from_header("4", &header).expect("well-formed header");
    assert_eq!(parsed.len, 4);
    assert_eq!(parsed.digest, base64::encode(&digest_bytes));
}

#[test]
fn try_from_header_rejects_bad_input() {
    // no algorithm separator at all
    assert!(matches!(
        RequestContent::try_from_header("4", "no-separator"),
        Err(ResponseError::InvalidHeader(h)) if h == "Digest"
    ));
    // digest that is not base64
    assert!(matches!(
        RequestContent::try_from_header("4", "sha-256=!!!not-base64!!!"),
        Err(ResponseError::WrongDigestEncoding)
    ));
    // unparseable length
    assert!(matches!(
        RequestContent::try_from_header("four", "sha-256=AAAA"),
        Err(ResponseError::InvalidHeader(h)) if h == "Content-Length"
    ));
}

#[test]
fn signature_message_concatenates_parts() {
    let rc = RequestContent::new(11, b"digest-seed");
    let digest = rc.digest.clone();
    let headers = SignatureHeaders::new(
        String::from("pubkey-1"),
        Some(rc),
        Some(String::from("sig")),
    );
    assert_eq!(headers.to_string(), format!("pubkey-1{}{}", 11, digest));

    let bare = SignatureHeaders::new(String::from("pubkey-1"), None, Some(String::from("sig")));
    assert_eq!(bare.to_string(), "pubkey-1");
}

#[test]
fn try_verify_signature_needs_a_signature() {
    let with = SignatureHeaders::new(String::from("pk"), None, Some(String::from("sig")));
    assert_eq!(with.try_verify_signature(true).unwrap(), true);
    assert_eq!(with.try_verify_signature(false).unwrap(), false);

    let without = SignatureHeaders::new(String::from("pk"), None, None);
    assert!(matches!(
        without.try_verify_signature(true),
        Err(ResponseError::MissingSigningKey)
    ));
}

#[test]
fn from_header_values_requires_the_auth_headers() {
    assert!(matches!(
        SignatureHeaders::from_header_values(None, Some("sig"), false, None, None),
        Err(ResponseError::InvalidHeader(h)) if h == "ATS-Pubkey"
    ));
    assert!(matches!(
        SignatureHeaders::from_header_values(Some("pk"), None, false, None, None),
        Err(ResponseError::InvalidHeader(h)) if h == "ATS-Signature"
    ));
    // a POST with a digest but no content length
    assert!(matches!(
        SignatureHeaders::from_header_values(Some("pk"), Some("sig"), true, Some("sha-256=AAAA"), None),
        Err(ResponseError::InvalidHeader(h)) if h == "Content-Length"
    ));
    // a GET needs no body headers
    let h = SignatureHeaders::from_header_values(Some("pk"), Some("sig"), false, None, None)
        .expect("headers are complete");
    assert_eq!(h.pubkey, "pk");
    assert!(h.content.is_none());
    // a POST with a well-formed body
    let h = SignatureHeaders::from_header_values(
        Some("pk"),
        Some("sig"),
        true,
        Some("sha-256=AAAA"),
        Some("12"),
    )
    .expect("headers are complete");
    let content = h.content.expect("body content expected");
    assert_eq!(content.len, 12);
    assert_eq!(content.digest, "AAAA");
}

#[test]
fn server_auth_admits_only_the_verifier() {
    let verifier = String::from("the-verifier");
    assert!(ServerAuth::check(&verifier, &verifier, "/update").is_ok());
    let stranger = String::from("stranger");
    match ServerAuth::check(&stranger, &verifier, "/update") {
        Err(ResponseError::UnauthorizedParticipant(p, ep)) => {
            assert_eq!(p, "stranger");
            assert_eq!(ep, "/update");
        },
        other => panic!("expected an authorization failure, got {:?}", other.is_ok()),
    }
}

#[test]
fn check_body_accepts_the_true_digest() {
    let body = b"{\"x\": 1}";
    let rc = RequestContent::try_from_header(
        &body.len().to_string(),
        &format!("sha-256={}", sha256_base64(body)),
    )
    .unwrap();
    assert!(check_body(&rc, body).is_ok());
}

/// A declared digest that does not match the actual body hash is
/// rejected as a mismatching checksum — before anything parses the
/// body.
#[test]
fn mismatching_digest_is_rejected_before_parsing() {
    let body = b"{\"answer\": 42}";
    match check_request_body(Some("sha-256=AAAA"), Some(&body.len().to_string()), body) {
        Err(ResponseError::MismatchingChecksum(declared, actual)) => {
            assert_eq!(declared, "AAAA");
            assert_eq!(actual, sha256_base64(body));
        },
        other => panic!("expected a checksum mismatch, got ok={}", other.is_ok()),
    }
    // missing headers are caught first
    assert!(matches!(
        check_request_body(None, Some("14"), body),
        Err(ResponseError::MissingRequiredHeader(h)) if h == "Digest"
    ));
    assert!(matches!(
        check_request_body(Some("sha-256=AAAA"), None, body),
        Err(ResponseError::MissingRequiredHeader(h)) if h == "Content-Length"
    ));
    // a true digest is accepted
    let ok = check_request_body(
        Some(&format!("sha-256={}", sha256_base64(body))),
        Some(&body.len().to_string()),
        body,
    );
    assert!(ok.is_ok());
}

#[test]
fn status_codes_follow_the_taxonomy() {
    assert_eq!(ResponseError::InvalidSignature.status_code(), 400);
    assert_eq!(ResponseError::WrongDigestEncoding.status_code(), 400);
    assert_eq!(ResponseError::MissingSigningKey.status_code(), 400);
    assert_eq!(
        ResponseError::UnauthorizedParticipant(String::from("p"), String::from("/e")).status_code(),
        401
    );
    assert_eq!(
        ResponseError::VerificationError(String::from("bad")).status_code(),
        500
    );
}

#[test]
fn verify_request_derives_the_identity() {
    let p = verify_request(Some("pk-1"), Some("sig"), false, None, None, true)
        .expect("a signed request with a valid signature passes");
    assert_eq!(p.address(), "pk-1");

    assert!(matches!(
        verify_request(Some("pk-1"), Some("sig"), false, None, None, false),
        Err(ResponseError::InvalidSignature)
    ));
    assert!(matches!(
        verify_request(None, Some("sig"), false, None, None, true),
        Err(ResponseError::InvalidHeader(h)) if h == "ATS-Pubkey"
    ));
}
