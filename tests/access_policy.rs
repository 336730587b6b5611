use ironbucket::cidr::is_ip_in_range;
use ironbucket::policy::check_policy_permission;

#[test]
fn cidr_slash_eight() {
    assert!(is_ip_in_range("10.1.2.3", "10.0.0.0/8"));
    assert!(!is_ip_in_range("11.0.0.1", "10.0.0.0/8"));
}

#[test]
fn cidr_slash_thirty_two_is_exact() {
    assert!(is_ip_in_range("192.168.1.7", "192.168.1.7/32"));
    assert!(!is_ip_in_range("192.168.1.8", "192.168.1.7/32"));
}

#[test]
fn cidr_slash_zero_admits_all() {
    assert!(is_ip_in_range("8.8.8.8", "0.0.0.0/0"));
    assert!(is_ip_in_range("255.255.255.255", "10.0.0.0/0"));
}

#[test]
fn cidr_single_address_and_bad_input() {
    assert!(is_ip_in_range("1.2.3.4", "1.2.3.4"));
    assert!(!is_ip_in_range("1.2.3.5", "1.2.3.4"));
    assert!(!is_ip_in_range("::1", "0.0.0.0/0"));
    assert!(!is_ip_in_range("1.2.3.4", "1.2.3.0/33"));
    assert!(!is_ip_in_range("01.2.3.4", "0.0.0.0/0"));
    assert!(!is_ip_in_range("1.2.3.256", "0.0.0.0/0"));
}

const IP_POLICY: &str = r#"{"Version":"2012-10-17","Statement":[{"Effect":"Allow","Principal":"*","Action":"s3:GetObject","Resource":"arn:aws:s3:::x/*","Condition":{"IpAddress":{"aws:SourceIp":"10.0.0.0/8"}}}]}"#;

#[test]
fn policy_ip_condition_admits_inside_range() {
    assert!(check_policy_permission(IP_POLICY, "s3:GetObject", "arn:aws:s3:::x/file.txt", "AK", Some("10.0.0.5")));
}

#[test]
fn policy_ip_condition_rejects_outside_range() {
    assert!(!check_policy_permission(IP_POLICY, "s3:GetObject", "arn:aws:s3:::x/file.txt", "AK", Some("192.168.1.1")));
    assert!(!check_policy_permission(IP_POLICY, "s3:GetObject", "arn:aws:s3:::x/file.txt", "AK", None));
}

#[test]
fn policy_deny_overrides_earlier_allow() {
    let p = r#"{"Statement":[{"Effect":"Allow","Principal":"*","Action":"s3:*","Resource":"*"},{"Effect":"Deny","Principal":{"AWS":["AK"]},"Action":["s3:PutObject"],"Resource":"arn:aws:s3:::b/*"}]}"#;
    assert!(!check_policy_permission(p, "s3:PutObject", "arn:aws:s3:::b/k", "AK", None));
    assert!(check_policy_permission(p, "s3:GetObject", "arn:aws:s3:::b/k", "AK", None));
    assert!(check_policy_permission(p, "s3:PutObject", "arn:aws:s3:::b/k", "OTHER", None));
}

#[test]
fn policy_without_match_denies() {
    let p = r#"{"Statement":[{"Effect":"Allow","Principal":"*","Action":"s3:GetObject","Resource":"arn:aws:s3:::other/*"}]}"#;
    assert!(!check_policy_permission(p, "s3:GetObject", "arn:aws:s3:::b/k", "AK", None));
    assert!(!check_policy_permission("not json", "s3:GetObject", "arn:aws:s3:::b/k", "AK", None));
}

#[test]
fn policy_not_ip_address_blocks_range() {
    let p = r#"{"Statement":[{"Effect":"Allow","Principal":"*","Action":"s3:*","Resource":"*","Condition":{"NotIpAddress":{"aws:SourceIp":["192.168.0.0/16"]}}}]}"#;
    assert!(!check_policy_permission(p, "s3:GetObject", "arn:aws:s3:::b/k", "AK", Some("192.168.3.4")));
    assert!(check_policy_permission(p, "s3:GetObject", "arn:aws:s3:::b/k", "AK", Some("10.0.0.1")));
}
