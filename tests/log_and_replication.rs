use ironbucket::wal::{format_record, recover_next_sequence, SequenceCounter, WALOp};
use ironbucket::replicator::{optimize_batch, parse_wal_line, read_new_entries, replica_action, should_process, unescape, ReplicaAction, SeenEvents};

#[test]
fn put_record_format() {
    let op = WALOp::Put { bucket: "b".to_string(), key: "k/x".to_string(), size: 5, etag: Some("abc".to_string()) };
    assert_eq!(format_record("node-1", 7, 1700, &op), "PUT\tnode-1\t7\t1700\tb\tk/x\t5\tabc\n");
    let op = WALOp::Put { bucket: "b".to_string(), key: "k".to_string(), size: 0, etag: None };
    assert_eq!(format_record("n", 0, 0, &op), "PUT\tn\t0\t0\tb\tk\t0\n");
}

#[test]
fn other_record_formats() {
    assert_eq!(format_record("n", 1, 2, &WALOp::Delete { bucket: "b".to_string(), key: "k".to_string() }), "DELETE\tn\t1\t2\tb\tk\n");
    assert_eq!(format_record("n", 1, 2, &WALOp::CreateBucket { bucket: "b".to_string() }), "CREATE_BUCKET\tn\t1\t2\tb\n");
    assert_eq!(format_record("n", 1, 2, &WALOp::DeleteBucket { bucket: "b".to_string() }), "DELETE_BUCKET\tn\t1\t2\tb\n");
    assert_eq!(
        format_record("n", 1, 2, &WALOp::UpdateMetadata { bucket: "b".to_string(), kind: "policy".to_string(), content: "a\tb\nc".to_string() }),
        "UPDATE_METADATA\tn\t1\t2\tb\tpolicy\ta\\tb\\nc\n"
    );
}

#[test]
fn sequences_increase_within_and_across_batches() {
    let mut c = SequenceCounter::new(10);
    let ops = vec![
        WALOp::CreateBucket { bucket: "b".to_string() },
        WALOp::Delete { bucket: "b".to_string(), key: "k".to_string() },
    ];
    let first = c.stamp_batch("n", 5, &ops);
    let second = c.stamp_batch("n", 6, &ops);
    assert_eq!(first[0], "CREATE_BUCKET\tn\t10\t5\tb\n");
    assert_eq!(first[1], "DELETE\tn\t11\t5\tb\tk\n");
    assert_eq!(second[0], "CREATE_BUCKET\tn\t12\t6\tb\n");
    assert_eq!(c.next, 14);
    assert_eq!(c.state_text(), "14");
}

#[test]
fn sequence_recovery() {
    assert_eq!(recover_next_sequence(Some(" 42\n"), "", "n"), Some(42));
    let tail = "T\tn\t99\t0\tb\npartial\nPUT\tn\t5\t0\tb\tk\t1\te\nPUT\tm\t50\t0\tb\tk\nDELETE\tn\t7\t0\tb\tk\n";
    assert_eq!(recover_next_sequence(None, tail, "n"), Some(8));
    assert_eq!(recover_next_sequence(Some("garbage"), tail, "m"), Some(51));
    assert_eq!(recover_next_sequence(None, "x\n", "n"), None);
}

#[test]
fn wal_line_parsing() {
    let e = parse_wal_line("PUT\tn\t3\t9\tb\tk\t12\tabc").unwrap();
    assert_eq!((e.node_id.as_str(), e.sequence_id, e.timestamp, e.bucket.as_str(), e.key.as_str()), ("n", 3, 9, "b", "k"));
    assert_eq!(e.size, Some(12));
    assert_eq!(e.etag.as_deref(), Some("abc"));
    let e = parse_wal_line("PUT\tn\t3\t9\tb\tk\t12\t").unwrap();
    assert_eq!(e.etag, None);
    assert!(parse_wal_line("PUT\tn\t3\t9\tb").is_none());
    assert!(parse_wal_line("PUT\tn\tx\t9\tb\tk").is_none());
    let e = parse_wal_line("CREATE_BUCKET\tn\t1\t2\tb").unwrap();
    assert_eq!(e.key, "");
    let e = parse_wal_line("UPDATE_METADATA\tn\t1\t2\tb\tpolicy\tdoc").unwrap();
    assert_eq!((e.key.as_str(), e.etag.as_deref()), ("policy", Some("doc")));
}

#[test]
fn reader_takes_only_new_local_entries() {
    let lines: Vec<String> = vec![
        "PUT\tn\t1\t0\tb\tk1\t1\te".to_string(),
        "PUT\tm\t9\t0\tb\tk2\t1\te".to_string(),
        "PUT\tn\t2\t0\tb\tk3\t1\te".to_string(),
        "junk".to_string(),
        "DELETE\tn\t3\t0\tb\tk1".to_string(),
    ];
    let r = read_new_entries(&lines, "n", 1, 1000);
    assert_eq!(r.entries.len(), 2);
    assert_eq!(r.entries[0].key, "k3");
    assert_eq!(r.entries[1].operation, "DELETE");
    assert_eq!(r.last_sequence, 3);
    assert_eq!(r.lines_consumed, 5);
    let r = read_new_entries(&lines, "n", 0, 1);
    assert_eq!(r.entries.len(), 1);
    assert_eq!(r.lines_consumed, 1);
    let r = read_new_entries(&lines, "n", 0, 0);
    assert!(r.entries.is_empty());
    assert_eq!(r.lines_consumed, 0);
    assert_eq!(r.last_sequence, 0);
    let r = read_new_entries(&lines, "n", 0, 2);
    assert_eq!(r.lines_consumed, 2);
    assert_eq!(r.entries.len(), 1);
}

#[test]
fn batch_optimisation() {
    let lines = [
        "PUT\tn\t1\t0\tb\ta\t1\te",
        "PUT\tn\t2\t0\tb\tx\t1\te",
        "DELETE\tn\t3\t0\tb\tx",
        "PUT\tn\t4\t0\tb\ta\t2\tf",
        "CREATE_BUCKET\tn\t5\t0\tc",
    ];
    let entries: Vec<_> = lines.iter().map(|l| parse_wal_line(l).unwrap()).collect();
    let out = optimize_batch(&entries);
    assert_eq!(out.len(), 2);
    assert_eq!((out[0].key.as_str(), out[0].sequence_id), ("a", 4));
    assert_eq!(out[1].operation, "CREATE_BUCKET");
}

#[test]
fn incoming_dedup_and_replay() {
    let entries: Vec<_> = ["PUT\ta\t1\t0\tb\tk\t1\te", "PUT\ta\t1\t0\tb\tk\t1\te", "DELETE\ta\t2\t0\tb\tk"]
        .iter()
        .map(|l| parse_wal_line(l).unwrap())
        .collect();
    let mut seen = SeenEvents::new();
    assert_eq!(seen.take_new(&entries), vec![0, 2]);
    assert!(seen.has_seen("a", 1));
    assert_eq!(seen.take_new(&entries), Vec::<usize>::new());
}

#[test]
fn batch_timing() {
    assert!(!should_process(0, 10_000, 5000, 1000));
    assert!(should_process(3, 5000, 5000, 1000));
    assert!(!should_process(3, 100, 5000, 1000));
    assert!(should_process(1000, 100, 5000, 1000));
}

#[test]
fn replica_actions_and_unescaping() {
    let c: Vec<char> = "a\\tb\\nc\\\\x".chars().collect();
    assert_eq!(unescape(&c).iter().collect::<String>(), "a\tb\nc\\\\x");
    let e = parse_wal_line("UPDATE_METADATA\tn\t1\t2\tb\tpolicy\t{\\n}").unwrap();
    match replica_action(&e) {
        ReplicaAction::WriteBucketFile { bucket, kind, content } => {
            assert_eq!((bucket.as_str(), kind.as_str()), ("b", "policy"));
            assert_eq!(content.iter().collect::<String>(), "{\n}");
        }
        other => panic!("unexpected {:?}", other),
    }
    let e = parse_wal_line("PUT\tn\t1\t2\tb\tk\t1\te").unwrap();
    assert!(matches!(replica_action(&e), ReplicaAction::CopyObject { .. }));
    let e = parse_wal_line("RENAME\tn\t1\t2\tb").unwrap();
    assert!(matches!(replica_action(&e), ReplicaAction::Skip));
}
