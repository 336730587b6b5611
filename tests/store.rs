use ironbucket::multipart::{MultipartError, MultipartTable};
use ironbucket::quota::{check_quota, is_object_file, usage_from_files, BucketQuota, BucketStats, Operation, QuotaManager};
use ironbucket::objects::{merge_metadata, parse_directive, sort_newest_first, user_metadata, MetadataDirective, VersionEntry, delete_status, metadata_without_sidecar, copied_content_type};
use ironbucket::envelope::{open_object, seal_object, seal_with};

#[test]
fn multipart_parts_assemble_in_number_order() {
    let mut t = MultipartTable::new();
    t.initiate("U".to_string(), "x".to_string(), "big".to_string(), "text/plain".to_string());
    let e2 = t.upload_part("U", 2, b"world".to_vec()).unwrap();
    assert_eq!(e2, "7d793037a0760186574b0282f2f435e7");
    t.upload_part("U", 1, b"hello ".to_vec()).unwrap();
    let done = t.complete("U").unwrap();
    assert_eq!(done.data, b"hello world".to_vec());
    assert_eq!(done.bucket, "x");
    assert_eq!(done.key, "big");
    assert_eq!(done.etag, "5eb63bbbe01eeed093cb22bb8f5acdc3");
    assert_eq!(t.complete("U").unwrap().data, b"hello world".to_vec());
    assert!(t.contains("U"));
    assert!(t.abort("U"));
    assert!(!t.contains("U"));
    assert_eq!(t.complete("U").err(), Some(MultipartError::NoSuchUpload));
}

#[test]
fn multipart_any_upload_order_gives_same_object() {
    let mut t = MultipartTable::new();
    t.initiate("A".to_string(), "b".to_string(), "k".to_string(), "t".to_string());
    t.initiate("B".to_string(), "b".to_string(), "k".to_string(), "t".to_string());
    for (n, d) in [(3u32, "C"), (1, "A"), (2, "B")] {
        t.upload_part("A", n, d.as_bytes().to_vec()).unwrap();
    }
    for (n, d) in [(1u32, "A"), (2, "B"), (3, "C")] {
        t.upload_part("B", n, d.as_bytes().to_vec()).unwrap();
    }
    assert_eq!(t.complete("A").unwrap().data, b"ABC".to_vec());
    assert_eq!(t.complete("B").unwrap().data, b"ABC".to_vec());
}

#[test]
fn multipart_last_part_upload_wins() {
    let mut t = MultipartTable::new();
    t.initiate("U".to_string(), "b".to_string(), "k".to_string(), "t".to_string());
    t.upload_part("U", 1, b"old".to_vec()).unwrap();
    t.upload_part("U", 1, b"new".to_vec()).unwrap();
    assert_eq!(t.complete("U").unwrap().data, b"new".to_vec());
}

#[test]
fn multipart_abort_twice() {
    let mut t = MultipartTable::new();
    t.initiate("U".to_string(), "x".to_string(), "big".to_string(), "t".to_string());
    assert!(t.abort("U"));
    assert!(!t.abort("U"));
    assert_eq!(t.upload_part("U", 1, vec![1]), Err(MultipartError::NoSuchUpload));
}

#[test]
fn quota_scenario() {
    let mut q = QuotaManager::new(true, 1024);
    assert_eq!(q.check("q", 600), None);
    let fresh = q.quota_from_scan((0, 0), 0);
    q.seed("q", fresh);
    assert_eq!(q.check("q", 600), Some(true));
    assert!(q.record_put("q", 600, 1));
    assert_eq!(q.check("q", 500), Some(false));
    assert!(q.record_delete("q", 600, 2));
    assert_eq!(q.check("q", 500), Some(true));
    let dirty = q.take_dirty();
    assert_eq!(dirty.len(), 1);
    assert_eq!(dirty[0].1.current_usage_bytes, 0);
    assert!(q.take_dirty().is_empty());
}

#[test]
fn quota_disabled_allows_everything() {
    let mut q = QuotaManager::new(false, 1);
    assert_eq!(q.check("any", u64::MAX), Some(true));
    assert!(q.record_put("any", 10, 0));
    assert!(q.entries.is_empty());
}

#[test]
fn quota_arithmetic_edges() {
    let q = BucketQuota { max_size_bytes: 1024, current_usage_bytes: 1000, object_count: 1, last_updated_ms: 0 };
    assert!(check_quota(&q, 24));
    assert!(!check_quota(&q, 25));
    assert!(!check_quota(&q, u64::MAX));
    let mut m = QuotaManager::new(true, 1024);
    m.seed("b", BucketQuota { max_size_bytes: 1024, current_usage_bytes: 10, object_count: 0, last_updated_ms: 0 });
    assert!(m.record_delete("b", 100, 5));
    let c = m.cached("b").unwrap();
    assert_eq!((c.current_usage_bytes, c.object_count, c.last_updated_ms), (0, 0, 5));
}

#[test]
fn scan_counts_only_objects() {
    assert!(is_object_file("a.txt"));
    assert!(!is_object_file(".quota"));
    assert!(!is_object_file("a.txt.metadata"));
    let files = vec![
        ("a".to_string(), 600u64),
        ("a.metadata".to_string(), 50),
        (".versioning".to_string(), 7),
        ("b".to_string(), 5),
    ];
    assert_eq!(usage_from_files(&files), (605, 2));
}

#[test]
fn stats_counting() {
    let mut s = BucketStats::zero();
    s.increment(Operation::Get);
    s.increment(Operation::Get);
    s.increment(Operation::Multipart);
    assert_eq!((s.get_count, s.multipart_count, s.put_count), (2, 1, 0));
}

#[test]
fn copy_directive_metadata() {
    let headers = vec![
        ("x-amz-meta-color".to_string(), "blue".to_string()),
        ("content-type".to_string(), "text/plain".to_string()),
    ];
    let req = user_metadata(&headers);
    assert_eq!(req, vec![("color".to_string(), "blue".to_string())]);
    let src = vec![("owner".to_string(), "me".to_string()), ("color".to_string(), "red".to_string())];
    assert_eq!(parse_directive(None), MetadataDirective::Copy);
    assert_eq!(parse_directive(Some("REPLACE")), MetadataDirective::Replace);
    assert_eq!(merge_metadata(MetadataDirective::Replace, &src, &req), req);
    let merged = merge_metadata(MetadataDirective::Copy, &src, &req);
    assert_eq!(merged.last().unwrap(), &("color".to_string(), "blue".to_string()));
    assert_eq!(merge_metadata(MetadataDirective::Copy, &src, &Vec::new()), src);
    assert_eq!(copied_content_type("a/b", None), "a/b");
    assert_eq!(copied_content_type("a/b", Some("c/d")), "c/d");
}

#[test]
fn versions_listed_newest_first() {
    let v = vec![
        VersionEntry { version_id: "v1".to_string(), last_modified_ms: 100, size: 1 },
        VersionEntry { version_id: "v2".to_string(), last_modified_ms: 300, size: 2 },
        VersionEntry { version_id: "v3".to_string(), last_modified_ms: 200, size: 3 },
    ];
    let s = sort_newest_first(&v);
    let ids: Vec<&str> = s.iter().map(|e| e.version_id.as_str()).collect();
    assert_eq!(ids, vec!["v2", "v3", "v1"]);
}

#[test]
fn delete_is_idempotent() {
    assert_eq!(delete_status(true), 204);
    assert_eq!(delete_status(false), 204);
}

#[test]
fn missing_sidecar_defaults() {
    let m = metadata_without_sidecar("k", b"world", 77);
    assert_eq!(m.etag, "7d793037a0760186574b0282f2f435e7");
    assert_eq!(m.content_type, "application/octet-stream");
    assert_eq!(m.size, 5);
}

#[test]
fn encryption_round_trip() {
    let sealed = seal_object(b"secret body").unwrap();
    assert_ne!(sealed.ciphertext, b"secret body".to_vec());
    assert_eq!(sealed.encryption.algorithm, "AES256");
    assert_eq!(open_object(&sealed.ciphertext, &sealed.encryption), Some(b"secret body".to_vec()));
    let fixed = seal_with(b"", &[7u8; 32], &[1u8; 12]).unwrap();
    assert_eq!(fixed.ciphertext.len(), 16);
    assert_eq!(open_object(&fixed.ciphertext, &fixed.encryption), Some(Vec::new()));
    let mut broken = sealed.encryption.clone();
    broken.nonce_base64 = "AAAA".to_string();
    assert_eq!(open_object(&sealed.ciphertext, &broken), None);
}
