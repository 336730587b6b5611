use ironbucket::digest::etag_of;
use ironbucket::sigv4::{parse_authorization, verify_signature_v4, AuthError, SignedRequest};
use ironbucket::access::{action_for, client_ip, policy_resource, presigned_expired, authorize};
use ironbucket::routes::Method;

const EMPTY_SHA: &str = "e3b0c44298fc1c149afbf4c8996fb92427ae41e4649b934ca495991b7852b855";

fn example_request(range: &str) -> SignedRequest {
    SignedRequest {
        method: "GET".to_string(),
        path: "/test.txt".to_string(),
        query: String::new(),
        headers: vec![
            ("host".to_string(), "examplebucket.s3.amazonaws.com".to_string()),
            ("range".to_string(), range.to_string()),
            ("x-amz-content-sha256".to_string(), EMPTY_SHA.to_string()),
            ("x-amz-date".to_string(), "20130524T000000Z".to_string()),
        ],
    }
}

fn example_credentials() -> Vec<(String, String)> {
    vec![("SECRET-REDACTED".to_string(), "wJalrXUtnFEMI/K7MDENG/bPxRfiCYEXAMPLEKEY".to_string())]
}

const EXAMPLE_AUTH: &str = "AWS4-HMAC-SHA256 Credential=SECRET-REDACTED/20130524/us-east-1/s3/aws4_request, SignedHeaders=host;range;x-amz-content-sha256;x-amz-date, Signature=f0e8bdb87c964420e857bd35b5d6ed310bd44f0170aba48dd91039c6036bdb41";

#[test]
fn etag_is_hex_md5() {
    assert_eq!(etag_of(b"world"), "7d793037a0760186574b0282f2f435e7");
    assert_eq!(etag_of(b""), "d41d8cd98f00b204e9800998ecf8427e");
}

#[test]
fn signature_of_documented_example_verifies() {
    assert_eq!(verify_signature_v4(&example_request("bytes=0-9"), EXAMPLE_AUTH, &example_credentials()), Ok(()));
}

#[test]
fn one_changed_header_byte_breaks_signature() {
    assert_eq!(
        verify_signature_v4(&example_request("bytes=0-8"), EXAMPLE_AUTH, &example_credentials()),
        Err(AuthError::SignatureDoesNotMatch)
    );
}

#[test]
fn unknown_access_key_is_reported() {
    let creds = vec![("OTHER".to_string(), "x".to_string())];
    assert_eq!(verify_signature_v4(&example_request("bytes=0-9"), EXAMPLE_AUTH, &creds), Err(AuthError::InvalidAccessKeyId));
}

#[test]
fn malformed_headers_are_rejected() {
    assert!(matches!(parse_authorization("Basic abc"), Err(AuthError::MalformedAuthorization)));
    assert!(matches!(
        parse_authorization("AWS4-HMAC-SHA256 Credential=AK/20130524/us-east-1/s3, SignedHeaders=host, Signature=ab"),
        Err(AuthError::MalformedCredential)
    ));
    let p = parse_authorization(EXAMPLE_AUTH).ok().unwrap();
    assert_eq!(p.access_key.iter().collect::<String>(), "SECRET-REDACTED");
    assert_eq!(p.region.iter().collect::<String>(), "us-east-1");
    assert_eq!(p.signed_headers.iter().collect::<String>(), "host;range;x-amz-content-sha256;x-amz-date");
}

#[test]
fn client_address_selection() {
    assert_eq!(client_ip(Some("10.0.0.5"), Some("1.1.1.1")), "10.0.0.5");
    assert_eq!(client_ip(None, Some(" 192.168.1.1 , 10.0.0.1")), "192.168.1.1");
    assert_eq!(client_ip(None, None), "127.0.0.1");
}

#[test]
fn actions_and_resources() {
    assert_eq!(action_for(Method::Get), "s3:GetObject");
    assert_eq!(action_for(Method::Head), "s3:GetObject");
    assert_eq!(action_for(Method::Put), "s3:PutObject");
    assert_eq!(action_for(Method::Delete), "s3:DeleteObject");
    assert_eq!(action_for(Method::Post), "s3:*");
    assert_eq!(policy_resource("x", "a/b.txt"), "arn:aws:s3:::x/a/b.txt*");
}

#[test]
fn no_policy_means_allowed() {
    assert!(authorize(None, "s3:GetObject", "arn:aws:s3:::x/k*", "AK", Some("1.2.3.4")));
    let p = r#"{"Statement":[{"Effect":"Allow","Principal":"*","Action":"s3:GetObject","Resource":"arn:aws:s3:::x/*","Condition":{"IpAddress":{"aws:SourceIp":["10.0.0.0/8"]}}}]}"#;
    assert!(authorize(Some(p), "s3:GetObject", "arn:aws:s3:::x/k*", "AK", Some("10.0.0.5")));
    assert!(!authorize(Some(p), "s3:GetObject", "arn:aws:s3:::x/k*", "AK", Some("192.168.1.1")));
}

#[test]
fn presigned_expiry() {
    assert!(!presigned_expired(1000, 1600, 600));
    assert!(presigned_expired(1000, 1601, 600));
}
