//! Per-bucket settings kept by the server and echoed back: ACLs, CORS,
//! lifecycle rules, policies, versioning status and default encryption.

use vstd::prelude::*;
use crate::models::{BucketConfigs, CorsConfiguration, LifecycleConfiguration};

verus! {

#[derive(Debug, Clone)]
pub struct AccessControlList {
    pub owner: Owner,
    pub grants: Vec<Grant>,
}

#[derive(Debug, Clone)]
pub struct Owner {
    pub id: String,
    pub display_name: String,
}

#[derive(Debug, Clone)]
pub struct Grant {
    pub grantee: Grantee,
    pub permission: Permission,
}

#[derive(Debug, Clone)]
pub enum Grantee {
    CanonicalUser { id: String, display_name: String },
    Group(String),
    Email(String),
}

#[derive(Debug, Clone, Copy, PartialEq, Eq, Structural)]
pub enum Permission {
    FullControl,
    Write,
    WriteAcp,
    Read,
    ReadAcp,
}

/// The ACL reported for a bucket or object that was never given one: the
/// server's own owner and no grants.
pub fn default_acl() -> (r: AccessControlList)
    ensures
        r.owner.id@ == "ironbucket"@,
        r.owner.display_name@ == "IronBucket User"@,
        r.grants@.len() == 0,
{
    AccessControlList {
        owner: Owner { id: "ironbucket".to_owned(), display_name: "IronBucket User".to_owned() },
        grants: Vec::new(),
    }
}

/// The ACLs set on buckets, accepted and echoed back.
pub struct AclManager {
    pub acls: BucketConfigs<AccessControlList>,
}

impl AclManager {
    pub fn new() -> (r: AclManager)
        ensures
            forall|b: Seq<char>| r.acls.lookup(b) is None,
    {
        AclManager { acls: BucketConfigs::new() }
    }

    pub fn set_acl(&mut self, bucket: &str, acl: AccessControlList)
        ensures
            final(self).acls.lookup(bucket@) == Some(acl),
            forall|b: Seq<char>| b != bucket@ ==> final(self).acls.lookup(b) == old(self).acls.lookup(b),
    {
        self.acls.set(bucket, acl);
    }

    /// The ACL set on `bucket`; `None` means the default one applies.
    pub fn get_acl(&self, bucket: &str) -> (r: Option<&AccessControlList>)
        ensures
            match r {
                Some(a) => self.acls.lookup(bucket@) == Some(*a),
                None => self.acls.lookup(bucket@) is None,
            },
    {
        self.acls.get(bucket)
    }
}

/// The CORS configurations set on buckets.
pub struct CorsManager {
    pub configs: BucketConfigs<CorsConfiguration>,
}

impl CorsManager {
    pub fn new() -> (r: CorsManager)
        ensures
            forall|b: Seq<char>| r.configs.lookup(b) is None,
    {
        CorsManager { configs: BucketConfigs::new() }
    }

    pub fn set_cors(&mut self, bucket: &str, config: CorsConfiguration)
        ensures
            final(self).configs.lookup(bucket@) == Some(config),
            forall|b: Seq<char>| b != bucket@ ==> final(self).configs.lookup(b) == old(self).configs.lookup(b),
    {
        self.configs.set(bucket, config);
    }

    pub fn get_cors(&self, bucket: &str) -> (r: Option<&CorsConfiguration>)
        ensures
            match r {
                Some(c) => self.configs.lookup(bucket@) == Some(*c),
                None => self.configs.lookup(bucket@) is None,
            },
    {
        self.configs.get(bucket)
    }

    pub fn delete_cors(&mut self, bucket: &str)
        ensures
            final(self).configs.lookup(bucket@) is None,
            forall|b: Seq<char>| b != bucket@ ==> final(self).configs.lookup(b) == old(self).configs.lookup(b),
    {
        self.configs.delete(bucket);
    }
}

#[derive(Debug, Clone, Copy, PartialEq, Eq, Structural)]
pub enum RuleStatus {
    Enabled,
    Disabled,
}

#[derive(Debug, Clone)]
pub struct Tag {
    pub key: String,
    pub value: String,
}

/// The lifecycle configurations set on buckets.
pub struct LifecycleManager {
    pub configs: BucketConfigs<LifecycleConfiguration>,
}

impl LifecycleManager {
    pub fn new() -> (r: LifecycleManager)
        ensures
            forall|b: Seq<char>| r.configs.lookup(b) is None,
    {
        LifecycleManager { configs: BucketConfigs::new() }
    }

    pub fn set_lifecycle(&mut self, bucket: &str, config: LifecycleConfiguration)
        ensures
            final(self).configs.lookup(bucket@) == Some(config),
            forall|b: Seq<char>| b != bucket@ ==> final(self).configs.lookup(b) == old(self).configs.lookup(b),
    {
        self.configs.set(bucket, config);
    }

    pub fn get_lifecycle(&self, bucket: &str) -> (r: Option<&LifecycleConfiguration>)
        ensures
            match r {
                Some(c) => self.configs.lookup(bucket@) == Some(*c),
                None => self.configs.lookup(bucket@) is None,
            },
    {
        self.configs.get(bucket)
    }

    pub fn delete_lifecycle(&mut self, bucket: &str)
        ensures
            final(self).configs.lookup(bucket@) is None,
            forall|b: Seq<char>| b != bucket@ ==> final(self).configs.lookup(b) == old(self).configs.lookup(b),
    {
        self.configs.delete(bucket);
    }
}

/// A bucket policy in typed form.
#[derive(Debug, Clone)]
pub struct BucketPolicy {
    pub version: String,
    pub statements: Vec<PolicyStatement>,
}

#[derive(Debug, Clone)]
pub struct PolicyStatement {
    pub sid: Option<String>,
    pub effect: PolicyEffect,
    pub principal: PolicyPrincipal,
    pub action: Vec<String>,
    pub resource: Vec<String>,
    /// Condition operator, then condition key and value.
    pub condition: Option<Vec<(String, Vec<(String, String)>)>>,
}

#[derive(Debug, Clone, Copy, PartialEq, Eq, Structural)]
pub enum PolicyEffect {
    Allow,
    Deny,
}

#[derive(Debug, Clone)]
pub enum PolicyPrincipal {
    All,
    AWS(Vec<String>),
}

/// The policy documents set on buckets, as JSON text.
pub struct PolicyManager {
    pub policies: BucketConfigs<String>,
}

impl PolicyManager {
    pub fn new() -> (r: PolicyManager)
        ensures
            forall|b: Seq<char>| r.policies.lookup(b) is None,
    {
        PolicyManager { policies: BucketConfigs::new() }
    }

    pub fn set_bucket_policy(&mut self, bucket: &str, policy: String)
        ensures
            final(self).policies.lookup(bucket@) == Some(policy),
            forall|b: Seq<char>| b != bucket@ ==> final(self).policies.lookup(b) == old(self).policies.lookup(b),
    {
        self.policies.set(bucket, policy);
    }

    pub fn get_bucket_policy(&self, bucket: &str) -> (r: Option<&String>)
        ensures
            match r {
                Some(p) => self.policies.lookup(bucket@) == Some(*p),
                None => self.policies.lookup(bucket@) is None,
            },
    {
        self.policies.get(bucket)
    }

    pub fn delete_bucket_policy(&mut self, bucket: &str)
        ensures
            final(self).policies.lookup(bucket@) is None,
            forall|b: Seq<char>| b != bucket@ ==> final(self).policies.lookup(b) == old(self).policies.lookup(b),
    {
        self.policies.delete(bucket);
    }
}

#[derive(Debug, Clone, Copy, PartialEq, Eq, Structural)]
pub enum VersioningStatus {
    Enabled,
    Suspended,
}

/// The versioning status of each bucket; a bucket never configured has none.
pub struct VersioningManager {
    pub statuses: BucketConfigs<VersioningStatus>,
}

impl VersioningManager {
    pub fn new() -> (r: VersioningManager)
        ensures
            forall|b: Seq<char>| r.statuses.lookup(b) is None,
    {
        VersioningManager { statuses: BucketConfigs::new() }
    }

    pub fn set_versioning(&mut self, bucket: &str, status: VersioningStatus)
        ensures
            final(self).statuses.lookup(bucket@) == Some(status),
            forall|b: Seq<char>| b != bucket@ ==> final(self).statuses.lookup(b) == old(self).statuses.lookup(b),
    {
        self.statuses.set(bucket, status);
    }

    pub fn get_versioning(&self, bucket: &str) -> (r: Option<VersioningStatus>)
        ensures
            r == self.statuses.lookup(bucket@),
    {
        match self.statuses.get(bucket) {
            Some(s) => Some(*s),
            None => None,
        }
    }

    /// Whether writes to `bucket` keep a copy of every version.
    pub fn is_enabled(&self, bucket: &str) -> (r: bool)
        ensures
            r == (self.statuses.lookup(bucket@) == Some(VersioningStatus::Enabled)),
    {
        match self.get_versioning(bucket) {
            Some(VersioningStatus::Enabled) => true,
            _ => false,
        }
    }
}

#[derive(Debug, Clone, Copy, PartialEq, Eq, Structural)]
pub enum EncryptionType {
    Unencrypted,
    AES256,
    AWSKMS,
}

#[derive(Debug, Clone)]
pub struct BucketEncryptionConfig {
    pub encryption_type: EncryptionType,
    pub kms_key_id: Option<String>,
}

/// The default encryption set on each bucket.
pub struct EncryptionManager {
    pub configs: BucketConfigs<BucketEncryptionConfig>,
}

impl EncryptionManager {
    pub fn new() -> (r: EncryptionManager)
        ensures
            forall|b: Seq<char>| r.configs.lookup(b) is None,
    {
        EncryptionManager { configs: BucketConfigs::new() }
    }

    pub fn set_bucket_encryption(&mut self, bucket: &str, encryption_type: EncryptionType, kms_key_id: Option<String>)
        ensures
            final(self).configs.lookup(bucket@) == Some(BucketEncryptionConfig { encryption_type, kms_key_id }),
            forall|b: Seq<char>| b != bucket@ ==> final(self).configs.lookup(b) == old(self).configs.lookup(b),
    {
        self.configs.set(bucket, BucketEncryptionConfig { encryption_type, kms_key_id });
    }

    /// The encryption applied to new objects of `bucket`: `Unencrypted` where none was set.
    pub fn get_bucket_encryption(&self, bucket: &str) -> (r: EncryptionType)
        ensures
            r == match self.configs.lookup(bucket@) {
                Some(c) => c.encryption_type,
                None => EncryptionType::Unencrypted,
            },
    {
        match self.configs.get(bucket) {
            Some(c) => c.encryption_type,
            None => EncryptionType::Unencrypted,
        }
    }
}

} // verus!
