use ironbucket::config::StorageConfig;
use ironbucket::listing::{list_objects, listed_key, listing_dir};
use ironbucket::routes::{parse_method, parse_path, parse_query, query_value, route, Action, Method, PathShape, SubResource};
use ironbucket::models::ListObjectsParams;
use ironbucket::settings::{default_acl, EncryptionManager, EncryptionType, PolicyManager, VersioningManager, VersioningStatus};
use ironbucket::storage::{is_valid_bucket_name, sub_resource_file, FileSystemBackend};
use ironbucket::models::BucketConfigs;

fn chars(s: &str) -> Vec<char> {
    s.chars().collect()
}

fn keys(list: &[&str]) -> Vec<Vec<char>> {
    list.iter().map(|k| chars(k)).collect()
}

fn text(v: &[Vec<char>]) -> Vec<String> {
    v.iter().map(|k| k.iter().collect()).collect()
}

#[test]
fn storage_paths() {
    let cfg = StorageConfig { path: "/s3".to_string(), max_file_size: 0, multipart_threshold: 0, multipart_chunk_size: 0 };
    let fs = FileSystemBackend::new(&cfg);
    assert_eq!(fs.bucket_path("b"), "/s3/b");
    assert_eq!(fs.object_path("b", "a/c.txt"), "/s3/b/a/c.txt");
    assert_eq!(fs.metadata_path("b", "k"), "/s3/b/k.metadata");
    assert_eq!(fs.version_path("b", "k", "v1"), "/s3/b/.versions/k/v1");
    assert_eq!(fs.upload_dir("b", "U"), "/s3/b/.multipart/U");
    assert_eq!(fs.stats_path("b", "2025-01"), "/s3/b/.stats/2025-01.json");
    assert_eq!(fs.bucket_file_path("b", ".policy"), "/s3/b/.policy");
    let cfg = StorageConfig { path: "/s3/".to_string(), max_file_size: 0, multipart_threshold: 0, multipart_chunk_size: 0 };
    assert_eq!(FileSystemBackend::new(&cfg).bucket_path("b"), "/s3/b");
}

#[test]
fn bucket_names() {
    assert!(is_valid_bucket_name("my-bucket.1"));
    assert!(!is_valid_bucket_name("ab"));
    assert!(!is_valid_bucket_name("Upper"));
    assert!(!is_valid_bucket_name(".start"));
    assert!(!is_valid_bucket_name("end."));
    assert!(!is_valid_bucket_name("a..b"));
    assert!(!is_valid_bucket_name(&"a".repeat(64)));
}

#[test]
fn path_shapes() {
    assert!(matches!(parse_path("/"), PathShape::Root));
    assert!(matches!(parse_path("/b"), PathShape::Bucket(ref b) if b == "b"));
    assert!(matches!(parse_path("/b/"), PathShape::Bucket(ref b) if b == "b"));
    assert!(matches!(parse_path("/b/k/x"), PathShape::Object(ref b, ref k) if b == "b" && k == "k/x"));
}

#[test]
fn dispatch_table() {
    let q = |s: &str| parse_query(s);
    let b = parse_path("/x");
    let o = parse_path("/x/o");
    assert_eq!(route(parse_method("GET"), &parse_path("/"), &q("")), Action::ListBuckets);
    assert_eq!(route(Method::Put, &b, &q("")), Action::CreateBucket);
    assert_eq!(route(Method::Put, &b, &q("versioning")), Action::PutVersioning);
    assert_eq!(route(Method::Get, &b, &q("versioning")), Action::GetVersioning);
    assert_eq!(route(Method::Get, &b, &q("policy")), Action::GetSubResource(SubResource::Policy));
    assert_eq!(route(Method::Get, &b, &q("list-type=2&prefix=a")), Action::ListObjects);
    assert_eq!(route(Method::Delete, &b, &q("cors")), Action::DeleteSubResource(SubResource::Cors));
    assert_eq!(route(Method::Delete, &b, &q("")), Action::DeleteBucket);
    assert_eq!(route(Method::Post, &b, &q("delete")), Action::BatchDelete);
    assert_eq!(route(Method::Head, &b, &q("")), Action::HeadBucket);
    assert_eq!(route(Method::Get, &o, &q("versionId=abc")), Action::GetObject);
    assert_eq!(route(Method::Put, &o, &q("uploadId=U&partNumber=2")), Action::UploadPart);
    assert_eq!(route(Method::Post, &o, &q("uploads")), Action::InitiateMultipart);
    assert_eq!(route(Method::Post, &o, &q("uploadId=U")), Action::CompleteMultipart);
    assert_eq!(route(Method::Delete, &o, &q("uploadId=U")), Action::AbortMultipart);
    assert_eq!(route(Method::Put, &o, &q("tagging")), Action::PutObjectTagging);
    assert_eq!(route(parse_method("OPTIONS"), &o, &q("")), Action::Preflight);
    assert_eq!(route(parse_method("PATCH"), &o, &q("")), Action::NotImplemented);
}

#[test]
fn query_pairs() {
    let p = parse_query("a=1&b&c=x=y");
    assert_eq!(p, vec![
        ("a".to_string(), "1".to_string()),
        ("b".to_string(), String::new()),
        ("c".to_string(), "x=y".to_string()),
    ]);
    assert!(parse_query("").is_empty());
}

#[test]
fn listing_pages_in_key_order() {
    let all = keys(&["b", "a", "d", "c", "e"]);
    let first_page = list_objects(&all, &[], None, &[], 2);
    assert_eq!(text(&first_page.keys), vec!["a", "b"]);
    assert!(first_page.is_truncated);
    let token = first_page.next_token.clone().unwrap();
    let second_page = list_objects(&all, &[], None, &token, 2);
    assert_eq!(text(&second_page.keys), vec!["c", "d"]);
    let last_page = list_objects(&all, &[], None, &chars("d"), 2);
    assert_eq!(text(&last_page.keys), vec!["e"]);
    assert!(!last_page.is_truncated);
    assert!(last_page.next_token.is_none());
}

#[test]
fn listing_prefix_and_delimiter() {
    let all = keys(&["photos/2024/a.jpg", "photos/2023/b.jpg", "photos/c.jpg", "docs/x"]);
    let p = list_objects(&all, &chars("photos/"), Some(&chars("/")), &[], 1000);
    assert_eq!(text(&p.keys), vec!["photos/c.jpg"]);
    assert_eq!(text(&p.common_prefixes), vec!["photos/2023/", "photos/2024/"]);
    assert!(!p.is_truncated);
}

#[test]
fn listing_directories() {
    assert_eq!(listing_dir("a/b/"), "a/b");
    assert_eq!(listing_dir("a/b/c"), "a/b");
    assert_eq!(listing_dir("abc"), "");
    assert_eq!(listed_key("x", "d/x", true), Some(chars("d/x/")));
    assert_eq!(listed_key("x.metadata", "d/x.metadata", false), None);
    assert_eq!(listed_key(".versions", ".versions", true), None);
}

#[test]
fn bucket_settings() {
    let mut v = VersioningManager::new();
    assert_eq!(v.get_versioning("x"), None);
    v.set_versioning("x", VersioningStatus::Enabled);
    assert!(v.is_enabled("x"));
    assert!(!v.is_enabled("y"));
    v.set_versioning("x", VersioningStatus::Suspended);
    assert!(!v.is_enabled("x"));
    let mut p = PolicyManager::new();
    p.set_bucket_policy("x", "{}".to_string());
    assert_eq!(p.get_bucket_policy("x").map(|s| s.as_str()), Some("{}"));
    p.delete_bucket_policy("x");
    assert!(p.get_bucket_policy("x").is_none());
    let mut e = EncryptionManager::new();
    assert_eq!(e.get_bucket_encryption("x"), EncryptionType::Unencrypted);
    e.set_bucket_encryption("x", EncryptionType::AES256, None);
    assert_eq!(e.get_bucket_encryption("x"), EncryptionType::AES256);
    assert_eq!(default_acl().owner.id, "ironbucket");
}

#[test]
fn config_store_replaces_in_place() {
    let mut c: BucketConfigs<u32> = BucketConfigs::new();
    c.set("a", 1);
    c.set("b", 2);
    c.set("a", 3);
    assert_eq!(c.entries.len(), 2);
    assert_eq!(c.get("a"), Some(&3));
    c.delete("a");
    assert_eq!(c.get("a"), None);
    assert_eq!(c.get("b"), Some(&2));
    assert_eq!(sub_resource_file(SubResource::Policy), ".policy");
}

#[test]
fn listing_parameters_from_query() {
    let q = parse_query("list-type=2&prefix=photos%2F2024&max-keys=5&delimiter=%2F");
    let p = ListObjectsParams::from_query(&q);
    assert_eq!(p.prefix.as_deref(), Some("photos/2024"));
    assert_eq!(p.delimiter.as_deref(), Some("/"));
    assert_eq!(p.max_keys, Some(5));
    assert_eq!(p.list_type, Some(2));
    assert_eq!(p.continuation_token, None);
    assert_eq!(query_value(&q, "prefix").as_deref(), Some("photos/2024"));
    assert_eq!(query_value(&q, "missing"), None);
}
