//! The errors a request can end in, their HTTP status, S3 code, message and
//! XML body.

use vstd::prelude::*;
use crate::text::{chars_of, string_of};

verus! {

#[derive(Debug, Clone, PartialEq, Eq)]
pub enum Error {
    AccessDenied,
    BucketAlreadyExists,
    BucketNotEmpty,
    NoSuchBucket,
    NoSuchKey,
    InvalidRequest(String),
    InvalidArgument(String),
    InvalidAccessKeyId,
    SignatureDoesNotMatch,
    RequestTimeout,
    InternalError(String),
    EntityTooLarge,
    IncompleteBody,
    InvalidPart,
    InvalidPartOrder,
    NoSuchUpload,
    PreconditionFailed,
    NotImplemented,
    ServiceUnavailable,
    QuotaExceeded,
    MalformedXML,
    MalformedPolicy,
    Serialization(String),
}

pub open spec fn status_spec(e: Error) -> u16 {
    match e {
        Error::AccessDenied | Error::InvalidAccessKeyId | Error::SignatureDoesNotMatch => 403,
        Error::BucketAlreadyExists | Error::BucketNotEmpty => 409,
        Error::NoSuchBucket | Error::NoSuchKey | Error::NoSuchUpload => 404,
        Error::InvalidRequest(_) | Error::InvalidArgument(_) | Error::IncompleteBody | Error::InvalidPart
        | Error::InvalidPartOrder | Error::Serialization(_) | Error::MalformedXML | Error::MalformedPolicy => 400,
        Error::RequestTimeout => 408,
        Error::InternalError(_) => 500,
        Error::EntityTooLarge => 413,
        Error::PreconditionFailed => 412,
        Error::NotImplemented => 501,
        Error::ServiceUnavailable => 503,
        Error::QuotaExceeded => 507,
    }
}

pub open spec fn code_spec(e: Error) -> Seq<char> {
    match e {
        Error::AccessDenied => "AccessDenied"@,
        Error::BucketAlreadyExists => "BucketAlreadyExists"@,
        Error::BucketNotEmpty => "BucketNotEmpty"@,
        Error::NoSuchBucket => "NoSuchBucket"@,
        Error::NoSuchKey => "NoSuchKey"@,
        Error::InvalidRequest(_) => "InvalidRequest"@,
        Error::InvalidArgument(_) => "InvalidArgument"@,
        Error::InvalidAccessKeyId => "InvalidAccessKeyId"@,
        Error::SignatureDoesNotMatch => "SignatureDoesNotMatch"@,
        Error::RequestTimeout => "RequestTimeout"@,
        Error::InternalError(_) => "InternalServerError"@,
        Error::EntityTooLarge => "EntityTooLarge"@,
        Error::IncompleteBody => "IncompleteBody"@,
        Error::InvalidPart => "InvalidPart"@,
        Error::InvalidPartOrder => "InvalidPartOrder"@,
        Error::NoSuchUpload => "NoSuchUpload"@,
        Error::PreconditionFailed => "PreconditionFailed"@,
        Error::NotImplemented => "NotImplemented"@,
        Error::ServiceUnavailable => "ServiceUnavailable"@,
        Error::QuotaExceeded => "QuotaExceeded"@,
        Error::MalformedXML => "MalformedXML"@,
        Error::MalformedPolicy => "MalformedPolicy"@,
        Error::Serialization(_) => "InternalError"@,
    }
}

pub open spec fn message_spec(e: Error) -> Seq<char> {
    match e {
        Error::AccessDenied => "Access denied"@,
        Error::BucketAlreadyExists => "Bucket already exists"@,
        Error::BucketNotEmpty => "Bucket not empty"@,
        Error::NoSuchBucket => "Bucket not found"@,
        Error::NoSuchKey => "Object not found"@,
        Error::InvalidRequest(m) => m@,
        Error::InvalidArgument(m) => m@,
        Error::InvalidAccessKeyId => "Invalid access key ID"@,
        Error::SignatureDoesNotMatch => "Signature does not match"@,
        Error::RequestTimeout => "Request timeout"@,
        Error::InternalError(m) => m@,
        Error::EntityTooLarge => "Entity too large"@,
        Error::IncompleteBody => "Incomplete body"@,
        Error::InvalidPart => "Invalid part"@,
        Error::InvalidPartOrder => "Invalid part order"@,
        Error::NoSuchUpload => "No such upload"@,
        Error::PreconditionFailed => "Precondition failed"@,
        Error::NotImplemented => "Not implemented"@,
        Error::ServiceUnavailable => "Service unavailable"@,
        Error::QuotaExceeded => "Quota exceeded"@,
        Error::MalformedXML => "The XML is not well-formed"@,
        Error::MalformedPolicy => "The policy is not in the valid JSON format"@,
        Error::Serialization(m) => m@,
    }
}

/// `&`, `<`, `>`, `"` and `'` written as XML entities.
pub open spec fn xml_escaped(s: Seq<char>) -> Seq<char>
    decreases s.len(),
{
    if s.len() == 0 {
        s
    } else {
        let init = xml_escaped(s.drop_last());
        let c = s.last();
        if c == '&' {
            init + "&amp;"@
        } else if c == '<' {
            init + "&lt;"@
        } else if c == '>' {
            init + "&gt;"@
        } else if c == '"' {
            init + "&quot;"@
        } else if c == '\'' {
            init + "&apos;"@
        } else {
            init.push(c)
        }
    }
}

/// Appends `s` as it is.
pub fn push_text(out: &mut Vec<char>, s: &str)
    ensures
        final(out)@ == old(out)@ + s@,
{
    let c = chars_of(s);
    let mut i: usize = 0;
    while i < c.len()
        invariant
            i <= c@.len(),
            c@ == s@,
            out@ == old(out)@ + c@.subrange(0, i as int),
        decreases c.len() - i,
    {
        out.push(c[i]);
        assert(c@.subrange(0, i + 1) =~= c@.subrange(0, i as int).push(c@[i as int]));
        i = i + 1;
    }
    assert(c@.subrange(0, c@.len() as int) =~= c@);
}

/// Appends `s` with XML's special characters escaped.
pub fn push_escaped(out: &mut Vec<char>, s: &str)
    ensures
        final(out)@ == old(out)@ + xml_escaped(s@),
{
    let c = chars_of(s);
    let mut i: usize = 0;
    while i < c.len()
        invariant
            i <= c@.len(),
            c@ == s@,
            out@ == old(out)@ + xml_escaped(c@.subrange(0, i as int)),
        decreases c.len() - i,
    {
        let ch = c[i];
        assert(c@.subrange(0, i + 1).drop_last() =~= c@.subrange(0, i as int));
        if ch == '&' {
            push_text(out, "&amp;");
        } else if ch == '<' {
            push_text(out, "&lt;");
        } else if ch == '>' {
            push_text(out, "&gt;");
        } else if ch == '"' {
            push_text(out, "&quot;");
        } else if ch == '\'' {
            push_text(out, "&apos;");
        } else {
            out.push(ch);
        }
        assert(out@ =~= old(out)@ + xml_escaped(c@.subrange(0, i + 1)));
        i = i + 1;
    }
    assert(c@.subrange(0, c@.len() as int) =~= c@);
}

impl Error {
    /// The HTTP status the error is answered with.
    pub fn status_code(&self) -> (r: u16)
        ensures
            r == status_spec(*self),
    {
        match self {
            Error::AccessDenied | Error::InvalidAccessKeyId | Error::SignatureDoesNotMatch => 403,
            Error::BucketAlreadyExists | Error::BucketNotEmpty => 409,
            Error::NoSuchBucket | Error::NoSuchKey | Error::NoSuchUpload => 404,
            Error::InvalidRequest(_) | Error::InvalidArgument(_) | Error::IncompleteBody | Error::InvalidPart
            | Error::InvalidPartOrder | Error::Serialization(_) | Error::MalformedXML | Error::MalformedPolicy => 400,
            Error::RequestTimeout => 408,
            Error::InternalError(_) => 500,
            Error::EntityTooLarge => 413,
            Error::PreconditionFailed => 412,
            Error::NotImplemented => 501,
            Error::ServiceUnavailable => 503,
            Error::QuotaExceeded => 507,
        }
    }

    /// The S3 error code.
    pub fn error_code(&self) -> (r: &'static str)
        ensures
            r@ == code_spec(*self),
    {
        match self {
            Error::AccessDenied => "AccessDenied",
            Error::BucketAlreadyExists => "BucketAlreadyExists",
            Error::BucketNotEmpty => "BucketNotEmpty",
            Error::NoSuchBucket => "NoSuchBucket",
            Error::NoSuchKey => "NoSuchKey",
            Error::InvalidRequest(_) => "InvalidRequest",
            Error::InvalidArgument(_) => "InvalidArgument",
            Error::InvalidAccessKeyId => "InvalidAccessKeyId",
            Error::SignatureDoesNotMatch => "SignatureDoesNotMatch",
            Error::RequestTimeout => "RequestTimeout",
            Error::InternalError(_) => "InternalServerError",
            Error::EntityTooLarge => "EntityTooLarge",
            Error::IncompleteBody => "IncompleteBody",
            Error::InvalidPart => "InvalidPart",
            Error::InvalidPartOrder => "InvalidPartOrder",
            Error::NoSuchUpload => "NoSuchUpload",
            Error::PreconditionFailed => "PreconditionFailed",
            Error::NotImplemented => "NotImplemented",
            Error::ServiceUnavailable => "ServiceUnavailable",
            Error::QuotaExceeded => "QuotaExceeded",
            Error::MalformedXML => "MalformedXML",
            Error::MalformedPolicy => "MalformedPolicy",
            Error::Serialization(_) => "InternalError",
        }
    }

    /// A human-readable message.
    pub fn message(&self) -> (r: String)
        ensures
            r@ == message_spec(*self),
    {
        match self {
            Error::AccessDenied => "Access denied".to_owned(),
            Error::BucketAlreadyExists => "Bucket already exists".to_owned(),
            Error::BucketNotEmpty => "Bucket not empty".to_owned(),
            Error::NoSuchBucket => "Bucket not found".to_owned(),
            Error::NoSuchKey => "Object not found".to_owned(),
            Error::InvalidRequest(m) => m.clone(),
            Error::InvalidArgument(m) => m.clone(),
            Error::InvalidAccessKeyId => "Invalid access key ID".to_owned(),
            Error::SignatureDoesNotMatch => "Signature does not match".to_owned(),
            Error::RequestTimeout => "Request timeout".to_owned(),
            Error::InternalError(m) => m.clone(),
            Error::EntityTooLarge => "Entity too large".to_owned(),
            Error::IncompleteBody => "Incomplete body".to_owned(),
            Error::InvalidPart => "Invalid part".to_owned(),
            Error::InvalidPartOrder => "Invalid part order".to_owned(),
            Error::NoSuchUpload => "No such upload".to_owned(),
            Error::PreconditionFailed => "Precondition failed".to_owned(),
            Error::NotImplemented => "Not implemented".to_owned(),
            Error::ServiceUnavailable => "Service unavailable".to_owned(),
            Error::QuotaExceeded => "Quota exceeded".to_owned(),
            Error::MalformedXML => "The XML is not well-formed".to_owned(),
            Error::MalformedPolicy => "The policy is not in the valid JSON format".to_owned(),
            Error::Serialization(m) => m.clone(),
        }
    }

    /// The S3 error document:
    /// `<Error><Code/><Message/><Resource/><RequestId/></Error>`, text escaped.
    pub fn to_xml(&self, resource: &str, request_id: &str) -> (r: String)
        ensures
            r@ == "<?xml version=\"1.0\" encoding=\"UTF-8\"?>\n<Error>\n    <Code>"@ + code_spec(*self)
                + "</Code>\n    <Message>"@ + xml_escaped(message_spec(*self)) + "</Message>\n    <Resource>"@ + xml_escaped(resource@)
                + "</Resource>\n    <RequestId>"@ + xml_escaped(request_id@) + "</RequestId>\n</Error>"@,
    {
        let mut out: Vec<char> = Vec::new();
        push_text(&mut out, "<?xml version=\"1.0\" encoding=\"UTF-8\"?>\n<Error>\n    <Code>");
        push_text(&mut out, self.error_code());
        push_text(&mut out, "</Code>\n    <Message>");
        let msg = self.message();
        push_escaped(&mut out, msg.as_str());
        push_text(&mut out, "</Message>\n    <Resource>");
        push_escaped(&mut out, resource);
        push_text(&mut out, "</Resource>\n    <RequestId>");
        push_escaped(&mut out, request_id);
        push_text(&mut out, "</RequestId>\n</Error>");
        assert(out@ =~= "<?xml version=\"1.0\" encoding=\"UTF-8\"?>\n<Error>\n    <Code>"@ + code_spec(*self)
                + "</Code>\n    <Message>"@ + xml_escaped(msg@) + "</Message>\n    <Resource>"@ + xml_escaped(resource@)
                + "</Resource>\n    <RequestId>"@ + xml_escaped(request_id@) + "</RequestId>\n</Error>"@);
        string_of(out.as_slice())
    }
}

/// Relies on `uuid::Uuid::new_v4`: a random UUID in its hyphenated form of 36
/// characters, for version, upload and request ids.
#[verifier::external_body]
pub fn new_uuid() -> (r: String)
    ensures
        r@.len() == 36,
{
    uuid::Uuid::new_v4().to_string()
}

} // verus!
