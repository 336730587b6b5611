use ironbucket::access::{admit_presigned, authorize, PresignedOutcome};
use ironbucket::bucket_docs::{acl_xml, cors_xml, lifecycle_xml, location_xml, parse_cors_config, parse_lifecycle_config, policy_is_valid, uploads_xml};
use ironbucket::envelope::seal_with;
use ironbucket::multipart::MultipartTable;
use ironbucket::settings::default_acl;

#[test]
fn cors_configuration_round_trip() {
    let body = "<CORSConfiguration><CORSRule><ID>r1</ID><AllowedOrigin>*</AllowedOrigin><AllowedMethod>GET</AllowedMethod><AllowedMethod>PUT</AllowedMethod><AllowedHeader>*</AllowedHeader><MaxAgeSeconds>3000</MaxAgeSeconds></CORSRule><CORSRule><AllowedOrigin>x</AllowedOrigin></CORSRule></CORSConfiguration>";
    let c = parse_cors_config(body).unwrap();
    assert_eq!(c.cors_rules.len(), 1);
    let r = &c.cors_rules[0];
    assert_eq!(r.id.as_deref(), Some("r1"));
    assert_eq!(r.allowed_methods, vec!["GET".to_string(), "PUT".to_string()]);
    assert_eq!(r.allowed_headers, Some(vec!["*".to_string()]));
    assert_eq!(r.expose_headers, None);
    assert_eq!(r.max_age_seconds, Some(3000));
    let doc = cors_xml(&c);
    assert!(doc.contains("<CORSRule><ID>r1</ID><AllowedOrigin>*</AllowedOrigin><AllowedMethod>GET</AllowedMethod><AllowedMethod>PUT</AllowedMethod><AllowedHeader>*</AllowedHeader><MaxAgeSeconds>3000</MaxAgeSeconds></CORSRule>"));
    assert!(parse_cors_config("<CORSConfiguration></CORSConfiguration>").is_none());
}

#[test]
fn lifecycle_configuration_round_trip() {
    let body = "<LifecycleConfiguration><Rule><ID>old</ID><Filter><Prefix>logs/</Prefix></Filter><Status>Enabled</Status><Expiration><Days>30</Days></Expiration><Transition><Days>7</Days></Transition></Rule><Rule><Filter><Tag><Key>k</Key><Value>v</Value></Tag></Filter></Rule></LifecycleConfiguration>";
    let c = parse_lifecycle_config(body).unwrap();
    assert_eq!(c.rules.len(), 2);
    let r = &c.rules[0];
    assert_eq!(r.id.as_deref(), Some("old"));
    assert_eq!(r.status, "Enabled");
    assert_eq!(r.filter.as_ref().unwrap().prefix.as_deref(), Some("logs/"));
    assert_eq!(r.expiration.as_ref().unwrap().days, Some(30));
    let ts = r.transitions.as_ref().unwrap();
    assert_eq!((ts[0].days, ts[0].storage_class.as_str()), (Some(7), "STANDARD_IA"));
    let t = c.rules[1].filter.as_ref().unwrap().tag.as_ref().unwrap();
    assert_eq!((t.key.as_str(), t.value.as_str()), ("k", "v"));
    assert_eq!(c.rules[1].status, "Enabled");
    let doc = lifecycle_xml(&c);
    assert!(doc.contains("<Rule><ID>old</ID><Status>Enabled</Status><Filter><Prefix>logs/</Prefix></Filter><Expiration><Days>30</Days></Expiration><Transition><Days>7</Days><StorageClass>STANDARD_IA</StorageClass></Transition></Rule>"));
    assert!(parse_lifecycle_config("<LifecycleConfiguration/>").is_none());
}

#[test]
fn policy_validation_and_unparsable_policy() {
    assert!(policy_is_valid(r#"{"Statement":[]}"#));
    assert!(!policy_is_valid("{not json"));
    assert!(authorize(Some("{not json"), "s3:GetObject", "arn:aws:s3:::x/k*", "AK", None));
}

#[test]
fn other_bucket_answers() {
    assert!(location_xml().contains(">us-east-1</LocationConstraint>"));
    let acl = acl_xml(&default_acl());
    assert!(acl.contains("<Owner><ID>ironbucket</ID><DisplayName>IronBucket User</DisplayName></Owner>"));
    let mut t = MultipartTable::new();
    t.initiate("U1".to_string(), "x".to_string(), "big".to_string(), "t".to_string());
    t.initiate("U2".to_string(), "y".to_string(), "other".to_string(), "t".to_string());
    let doc = uploads_xml(&t, "x");
    assert!(doc.contains("<Upload><Key>big</Key><UploadId>U1</UploadId></Upload>"));
    assert!(!doc.contains("U2"));
}

#[test]
fn presigned_admission() {
    let keys = vec![("AK".to_string(), "secret".to_string())];
    assert_eq!(admit_presigned(None, &keys, None, None, 0), PresignedOutcome::MissingCredential);
    assert_eq!(admit_presigned(Some("AK/20130524/us-east-1/s3/aws4_request"), &keys, None, None, 0), PresignedOutcome::Admitted("AK".to_string()));
    assert_eq!(admit_presigned(Some("ZZ/20130524/us-east-1/s3/aws4_request"), &keys, None, None, 0), PresignedOutcome::UnknownAccessKey);
    let signed = 1369353600;
    assert_eq!(admit_presigned(Some("AK/x"), &keys, Some("20130524T000000Z"), Some("60"), signed + 60), PresignedOutcome::Admitted("AK".to_string()));
    assert_eq!(admit_presigned(Some("AK/x"), &keys, Some("20130524T000000Z"), Some("60"), signed + 61), PresignedOutcome::Expired);
}

#[test]
fn sealing_succeeds() {
    assert!(seal_with(b"abc", &[1u8; 32], &[2u8; 12]).is_some());
}
