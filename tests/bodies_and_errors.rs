use ironbucket::batch::{encrypts_new_objects, parse_delete_request, parse_encryption_config, parse_tagging, parse_versioning};
use ironbucket::objects::VersionEntry;
use ironbucket::settings::VersioningStatus;
use ironbucket::xml::{delete_result_xml, encryption_xml, list_buckets_xml, list_objects_xml, tagging_xml, versioning_xml, versions_xml};
use ironbucket::dates::{http_date, parse_amz_date, year_month};
use ironbucket::errors::{new_uuid, Error};
use ironbucket::housekeeping::{removable, sweep_interval_ms};
use ironbucket::objects::{decode_put_body, is_directory_key};

#[test]
fn batch_delete_body() {
    let body = "<Delete><Object><Key>a.txt</Key></Object><Object><Key>b/c</Key><VersionId>v1</VersionId></Object><Object><Key></Key></Object></Delete>";
    let t = parse_delete_request(body);
    assert_eq!(t.len(), 2);
    assert_eq!(t[0].key, "a.txt");
    assert_eq!(t[0].version_id, None);
    assert_eq!(t[1].key, "b/c");
    assert_eq!(t[1].version_id.as_deref(), Some("v1"));
    assert!(parse_delete_request("<Delete></Delete>").is_empty());
}

#[test]
fn tagging_body() {
    let body = "<Tagging><TagSet><Tag><Key>env</Key><Value>prod</Value></Tag><Tag><Key>team</Key></Tag></TagSet></Tagging>";
    assert_eq!(parse_tagging(body), vec![("env".to_string(), "prod".to_string()), ("team".to_string(), String::new())]);
}

#[test]
fn amz_dates() {
    assert_eq!(parse_amz_date("20130524T000000Z"), Some(1369353600));
    assert_eq!(parse_amz_date("20130524T00000Z"), None);
    assert_eq!(parse_amz_date("20131324T000000Z"), None);
    assert_eq!(parse_amz_date("2013a524T000000Z"), None);
    assert_eq!(http_date(784111777000), "Sun, 06 Nov 1994 08:49:37 GMT");
    assert_eq!(year_month(784111777000), "1994-11");
}

#[test]
fn error_documents() {
    assert_eq!(Error::QuotaExceeded.status_code(), 507);
    assert_eq!(Error::SignatureDoesNotMatch.status_code(), 403);
    assert_eq!(Error::NoSuchUpload.status_code(), 404);
    assert_eq!(Error::BucketNotEmpty.status_code(), 409);
    assert_eq!(Error::NotImplemented.status_code(), 501);
    assert_eq!(Error::InternalError("x".to_string()).error_code(), "InternalServerError");
    let doc = Error::AccessDenied.to_xml("/b/<k>", "req-1");
    assert!(doc.contains("<Code>AccessDenied</Code>"));
    assert!(doc.contains("<Resource>/b/&lt;k&gt;</Resource>"));
    assert!(doc.contains("<RequestId>req-1</RequestId>"));
    assert_eq!(new_uuid().len(), 36);
}

#[test]
fn housekeeping_rules() {
    assert!(removable("photos", false, true));
    assert!(!removable("photos", false, false));
    assert!(!removable("bucket", true, true));
    assert!(!removable(".multipart", false, true));
    assert_eq!(sweep_interval_ms(false, 5), None);
    assert_eq!(sweep_interval_ms(true, 5), Some(300_000));
}

#[test]
fn put_body_decoding() {
    let sig = "0".repeat(64);
    let mut body = format!("b;chunk-signature={}\r\nhello world\r\n", sig).into_bytes();
    body.extend_from_slice(format!("0;chunk-signature={}\r\n\r\n", sig).as_bytes());
    assert_eq!(decode_put_body(&body), b"hello world".to_vec());
    let short = b"5;chunk-signature=x\r\nhello\r\n".to_vec();
    assert_eq!(decode_put_body(&short), short);
    assert!(is_directory_key("a/"));
    assert!(is_directory_key(""));
    assert!(!is_directory_key("a"));
}

#[test]
fn response_documents() {
    assert_eq!(
        list_buckets_xml(&vec!["a".to_string(), "b&c".to_string()]),
        "<?xml version=\"1.0\" encoding=\"UTF-8\"?>\n<ListAllMyBucketsResult><Buckets><Bucket><Name>a</Name></Bucket><Bucket><Name>b&amp;c</Name></Bucket></Buckets></ListAllMyBucketsResult>"
    );
    let doc = list_objects_xml("x", "p/", 2, true, Some("p/b"), &vec![("p/a".to_string(), 3), ("p/b".to_string(), 10)], &vec!["p/d/".to_string()]);
    assert!(doc.contains("<MaxKeys>2</MaxKeys><IsTruncated>true</IsTruncated><KeyCount>2</KeyCount><NextContinuationToken>p/b</NextContinuationToken>"));
    assert!(doc.contains("<Contents><Key>p/b</Key><Size>10</Size>"));
    assert!(doc.ends_with("<CommonPrefixes><Prefix>p/d/</Prefix></CommonPrefixes></ListBucketResult>"));
    assert!(tagging_xml(&vec![("k".to_string(), "<v>".to_string())]).contains("<Tag><Key>k</Key><Value>&lt;v&gt;</Value></Tag>"));
    assert!(delete_result_xml(&vec!["a".to_string()]).contains("<Deleted><Key>a</Key></Deleted>"));
    assert!(versioning_xml(Some("Enabled")).contains("<VersioningConfiguration><Status>Enabled</Status></VersioningConfiguration>"));
    assert!(versioning_xml(None).contains("<VersioningConfiguration></VersioningConfiguration>"));
    let v = vec![
        VersionEntry { version_id: "new".to_string(), last_modified_ms: 2, size: 2 },
        VersionEntry { version_id: "old".to_string(), last_modified_ms: 1, size: 1 },
    ];
    let doc = versions_xml("o", &v);
    assert!(doc.contains("<VersionId>new</VersionId><IsLatest>true</IsLatest>"));
    assert!(doc.contains("<VersionId>old</VersionId><IsLatest>false</IsLatest>"));
}

#[test]
fn versioning_body() {
    assert_eq!(parse_versioning("<VersioningConfiguration><Status>Enabled</Status></VersioningConfiguration>"), Some(VersioningStatus::Enabled));
    assert_eq!(parse_versioning("<Status>Suspended</Status>"), Some(VersioningStatus::Suspended));
    assert_eq!(parse_versioning("<Status>Off</Status>"), None);
}

#[test]
fn encryption_configuration_body() {
    let c = parse_encryption_config("<ServerSideEncryptionConfiguration><Rule><ApplyServerSideEncryptionByDefault><SSEAlgorithm>aws:kms</SSEAlgorithm><KMSMasterKeyID>key-1</KMSMasterKeyID></ApplyServerSideEncryptionByDefault></Rule></ServerSideEncryptionConfiguration>").unwrap();
    assert_eq!(c.algorithm, "aws:kms");
    assert_eq!(c.kms_key_id.as_deref(), Some("key-1"));
    let d = parse_encryption_config("<ServerSideEncryptionConfiguration/>").unwrap();
    assert_eq!(d.algorithm, "AES256");
    assert!(parse_encryption_config("<SSEAlgorithm>DES</SSEAlgorithm>").is_none());
    assert!(encrypts_new_objects("AES256"));
    assert!(encrypts_new_objects("aws:kms"));
    assert!(!encrypts_new_objects("none"));
    assert!(encryption_xml(&c).contains("<SSEAlgorithm>aws:kms</SSEAlgorithm><KMSMasterKeyID>key-1</KMSMasterKeyID>"));
}
