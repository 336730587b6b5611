//! Bucket configuration documents: the CORS and lifecycle configurations a
//! client sends as XML, their XML answers, and the other bucket-level answers
//! (location, ACL, uploads in progress).

use vstd::prelude::*;
use crate::batch::{element, element_text, split_on_str, split_str};
use crate::errors::push_text;
use crate::listing::{find_chars, find_from, lemma_find_from};
use crate::models::{CorsConfiguration, CorsRule, LifecycleConfiguration, LifecycleExpiration, LifecycleFilter, LifecycleRule, LifecycleTag, LifecycleTransition};
use crate::text::{chars_of, parse_u64, parse_unsigned, string_of};
use crate::xml::{element as xml_element, number_element, prolog, push_element, push_number};

verus! {

pub open spec fn strs(v: Seq<String>) -> Seq<Seq<char>> {
    Seq::new(v.len(), |i: int| v[i]@)
}

pub open spec fn opt_str(o: Option<String>) -> Option<Seq<char>> {
    match o {
        Some(s) => Some(s@),
        None => None,
    }
}

pub open spec fn opt_strs(o: Option<Vec<String>>) -> Option<Seq<Seq<char>>> {
    match o {
        Some(v) => Some(strs(v@)),
        None => None,
    }
}

/// The text of `p` before its first `close`.
pub open spec fn text_before(p: Seq<char>, close: Seq<char>) -> Option<Seq<char>> {
    match find_from(p, close, 0) {
        Some(e) => Some(p.subrange(0, e)),
        None => None,
    }
}

pub open spec fn values_in(pieces: Seq<Seq<char>>, close: Seq<char>) -> Seq<Seq<char>>
    decreases pieces.len(),
{
    if pieces.len() == 0 {
        Seq::empty()
    } else {
        match text_before(pieces.last(), close) {
            Some(t) => values_in(pieces.drop_last(), close).push(t),
            None => values_in(pieces.drop_last(), close),
        }
    }
}

/// The text of every `open ... close` element of `s`, in order: each `open`
/// up to the next `close`.
pub open spec fn all_values(s: Seq<char>, open: Seq<char>, close: Seq<char>) -> Seq<Seq<char>> {
    values_in(split_str(s, open, 0).drop_first(), close)
}

pub open spec fn nonempty_list(v: Seq<Seq<char>>) -> Option<Seq<Seq<char>>> {
    if v.len() > 0 {
        Some(v)
    } else {
        None
    }
}

/// A number element read as a `u32`, where it is one.
pub open spec fn u32_of(t: Option<Seq<char>>) -> Option<u32> {
    match t {
        Some(x) => match parse_unsigned(x, u32::MAX as nat) {
            Some(n) => Some(n as u32),
            None => None,
        },
        None => None,
    }
}

/// Every `open ... close` text of `s`.
pub fn texts(s: &[char], open: &str, close: &str) -> (r: Vec<String>)
    requires
        open@.len() > 0,
        close@.len() > 0,
    ensures
        strs(r@) == all_values(s@, open@, close@),
{
    let o = chars_of(open);
    let c = chars_of(close);
    let pieces = split_on_str(s, o.as_slice());
    let ghost ps = split_str(s@, open@, 0).drop_first();
    let mut out: Vec<String> = Vec::new();
    if pieces.len() == 0 {
        return out;
    }
    let mut i: usize = 1;
    assert(ps.subrange(0, 0) =~= Seq::<Seq<char>>::empty());
    assert(strs(out@) =~= Seq::<Seq<char>>::empty());
    while i < pieces.len()
        invariant
            1 <= i <= pieces@.len(),
            c@ == close@,
            close@.len() > 0,
            pieces@.len() == split_str(s@, open@, 0).len(),
            forall|j: int| 0 <= j < pieces@.len() ==> (#[trigger] pieces@[j])@ == split_str(s@, open@, 0)[j],
            ps == split_str(s@, open@, 0).drop_first(),
            strs(out@) == values_in(ps.subrange(0, i - 1), close@),
        decreases pieces.len() - i,
    {
        assert(ps.subrange(0, i as int).drop_last() =~= ps.subrange(0, i - 1));
        assert(ps.subrange(0, i as int).last() == pieces@[i as int]@);
        let p = pieces[i].as_slice();
        match find_chars(p, c.as_slice(), 0) {
            Some(e) => {
                proof {
                    lemma_find_from(p@, c@, 0);
                }
                let t = string_of(vstd::slice::slice_subrange(p, 0, e));
                let ghost before = strs(out@);
                out.push(t);
                assert(strs(out@) =~= before.push(t@));
            },
            None => {},
        }
        i = i + 1;
    }
    assert(ps.subrange(0, pieces@.len() - 1) =~= ps);
    out
}

/// The text of the first `open ... close` element of `s`.
pub fn element_string(s: &[char], open: &str, close: &str) -> (r: Option<String>)
    requires
        open@.len() > 0,
        close@.len() > 0,
    ensures
        opt_str(r) == element_text(s@, open@, close@),
{
    let o = chars_of(open);
    let c = chars_of(close);
    match element(s, o.as_slice(), c.as_slice()) {
        Some(t) => Some(string_of(t.as_slice())),
        None => None,
    }
}

/// The first `open ... close` element of `s` read as a `u32`.
pub fn element_u32(s: &[char], open: &str, close: &str) -> (r: Option<u32>)
    requires
        open@.len() > 0,
        close@.len() > 0,
    ensures
        r == u32_of(element_text(s@, open@, close@)),
{
    let o = chars_of(open);
    let c = chars_of(close);
    match element(s, o.as_slice(), c.as_slice()) {
        Some(t) => match parse_u64(t.as_slice()) {
            Some(n) => if n <= u32::MAX as u64 {
                Some(n as u32)
            } else {
                None
            },
            None => None,
        },
        None => None,
    }
}

fn some_if_nonempty(v: Vec<String>) -> (r: Option<Vec<String>>)
    ensures
        opt_strs(r) == nonempty_list(strs(v@)),
{
    if v.len() > 0 {
        Some(v)
    } else {
        None
    }
}

/// A `<CORSRule>` piece names at least one origin and one method.
pub open spec fn cors_kept(p: Seq<char>) -> bool {
    all_values(p, "<AllowedOrigin>"@, "</AllowedOrigin>"@).len() > 0
        && all_values(p, "<AllowedMethod>"@, "</AllowedMethod>"@).len() > 0
}

/// `r` is the rule that the `<CORSRule>` piece `p` describes.
pub open spec fn cors_rule_from(r: CorsRule, p: Seq<char>) -> bool {
    &&& opt_str(r.id) == element_text(p, "<ID>"@, "</ID>"@)
    &&& strs(r.allowed_origins@) == all_values(p, "<AllowedOrigin>"@, "</AllowedOrigin>"@)
    &&& strs(r.allowed_methods@) == all_values(p, "<AllowedMethod>"@, "</AllowedMethod>"@)
    &&& opt_strs(r.allowed_headers) == nonempty_list(all_values(p, "<AllowedHeader>"@, "</AllowedHeader>"@))
    &&& opt_strs(r.expose_headers) == nonempty_list(all_values(p, "<ExposeHeader>"@, "</ExposeHeader>"@))
    &&& r.max_age_seconds == u32_of(element_text(p, "<MaxAgeSeconds>"@, "</MaxAgeSeconds>"@))
}

pub open spec fn kept_cors_pieces(ps: Seq<Seq<char>>) -> Seq<Seq<char>>
    decreases ps.len(),
{
    if ps.len() == 0 {
        Seq::empty()
    } else if cors_kept(ps.last()) {
        kept_cors_pieces(ps.drop_last()).push(ps.last())
    } else {
        kept_cors_pieces(ps.drop_last())
    }
}

/// The `<CORSRule>` pieces of a body that describe a rule.
pub open spec fn cors_pieces(body: Seq<char>) -> Seq<Seq<char>> {
    kept_cors_pieces(split_str(body, "<CORSRule>"@, 0).drop_first())
}

fn reveal_cors_tags()
    ensures
        "<AllowedOrigin>"@.len() > 0, "</AllowedOrigin>"@.len() > 0,
        "<AllowedMethod>"@.len() > 0, "</AllowedMethod>"@.len() > 0,
        "<AllowedHeader>"@.len() > 0, "</AllowedHeader>"@.len() > 0,
        "<ExposeHeader>"@.len() > 0, "</ExposeHeader>"@.len() > 0,
        "<MaxAgeSeconds>"@.len() > 0, "</MaxAgeSeconds>"@.len() > 0,
        "<ID>"@.len() > 0, "</ID>"@.len() > 0, "<CORSRule>"@.len() > 0,
{
    proof {
        reveal_strlit("<AllowedOrigin>");
        reveal_strlit("</AllowedOrigin>");
        reveal_strlit("<AllowedMethod>");
        reveal_strlit("</AllowedMethod>");
        reveal_strlit("<AllowedHeader>");
        reveal_strlit("</AllowedHeader>");
        reveal_strlit("<ExposeHeader>");
        reveal_strlit("</ExposeHeader>");
        reveal_strlit("<MaxAgeSeconds>");
        reveal_strlit("</MaxAgeSeconds>");
        reveal_strlit("<ID>");
        reveal_strlit("</ID>");
        reveal_strlit("<CORSRule>");
    }
}

/// Reads a PUT-cors body: one rule per `<CORSRule>` that names an origin and
/// a method; `None` where there is no such rule (the body is malformed).
pub fn parse_cors_config(body: &str) -> (r: Option<CorsConfiguration>)
    ensures
        match r {
            Some(c) => cors_pieces(body@).len() > 0 && c.cors_rules@.len() == cors_pieces(body@).len()
                && forall|i: int| 0 <= i < c.cors_rules@.len() ==> cors_rule_from(#[trigger] c.cors_rules@[i], cors_pieces(body@)[i]),
            None => cors_pieces(body@).len() == 0,
        },
{
    reveal_cors_tags();
    let s = chars_of(body);
    let sep = chars_of("<CORSRule>");
    let pieces = split_on_str(s.as_slice(), sep.as_slice());
    let ghost ps = split_str(body@, "<CORSRule>"@, 0).drop_first();
    let mut rules: Vec<CorsRule> = Vec::new();
    if pieces.len() == 0 {
        return None;
    }
    let mut i: usize = 1;
    assert(ps.subrange(0, 0) =~= Seq::<Seq<char>>::empty());
    while i < pieces.len()
        invariant
            1 <= i <= pieces@.len(),
            s@ == body@,
            pieces@.len() == split_str(body@, "<CORSRule>"@, 0).len(),
            forall|j: int| 0 <= j < pieces@.len() ==> (#[trigger] pieces@[j])@ == split_str(body@, "<CORSRule>"@, 0)[j],
            ps == split_str(body@, "<CORSRule>"@, 0).drop_first(),
            "<AllowedOrigin>"@.len() > 0, "</AllowedOrigin>"@.len() > 0,
            "<AllowedMethod>"@.len() > 0, "</AllowedMethod>"@.len() > 0,
            "<AllowedHeader>"@.len() > 0, "</AllowedHeader>"@.len() > 0,
            "<ExposeHeader>"@.len() > 0, "</ExposeHeader>"@.len() > 0,
            "<MaxAgeSeconds>"@.len() > 0, "</MaxAgeSeconds>"@.len() > 0,
            "<ID>"@.len() > 0, "</ID>"@.len() > 0,
            rules@.len() == kept_cors_pieces(ps.subrange(0, i - 1)).len(),
            forall|j: int| 0 <= j < rules@.len() ==> cors_rule_from(#[trigger] rules@[j], kept_cors_pieces(ps.subrange(0, i - 1))[j]),
        decreases pieces.len() - i,
    {
        let ghost pre = ps.subrange(0, i - 1);
        assert(ps.subrange(0, i as int).drop_last() =~= pre);
        assert(ps.subrange(0, i as int).last() == pieces@[i as int]@);
        let p = pieces[i].as_slice();
        let origins = texts(p, "<AllowedOrigin>", "</AllowedOrigin>");
        let methods = texts(p, "<AllowedMethod>", "</AllowedMethod>");
        if origins.len() > 0 && methods.len() > 0 {
            let rule = CorsRule {
                allowed_headers: some_if_nonempty(texts(p, "<AllowedHeader>", "</AllowedHeader>")),
                allowed_methods: methods,
                allowed_origins: origins,
                expose_headers: some_if_nonempty(texts(p, "<ExposeHeader>", "</ExposeHeader>")),
                max_age_seconds: element_u32(p, "<MaxAgeSeconds>", "</MaxAgeSeconds>"),
                id: element_string(p, "<ID>", "</ID>"),
            };
            let ghost before = rules@;
            rules.push(rule);
            assert forall|j: int| 0 <= j < rules@.len() implies cors_rule_from(#[trigger] rules@[j], kept_cors_pieces(ps.subrange(0, i as int))[j]) by {
                if j < before.len() {
                    assert(rules@[j] == before[j]);
                }
            }
        }
        i = i + 1;
    }
    assert(ps.subrange(0, pieces@.len() - 1) =~= ps);
    if rules.len() == 0 {
        return None;
    }
    Some(CorsConfiguration { cors_rules: rules })
}

/// `<tag>v</tag>` for each value.
pub open spec fn list_xml(tag: Seq<char>, vs: Seq<Seq<char>>) -> Seq<char>
    decreases vs.len(),
{
    if vs.len() == 0 {
        Seq::empty()
    } else {
        list_xml(tag, vs.drop_last()) + xml_element(tag, vs.last())
    }
}

pub open spec fn opt_list_xml(tag: Seq<char>, o: Option<Seq<Seq<char>>>) -> Seq<char> {
    match o {
        Some(v) => list_xml(tag, v),
        None => Seq::empty(),
    }
}

pub open spec fn opt_element(tag: Seq<char>, o: Option<Seq<char>>) -> Seq<char> {
    match o {
        Some(v) => xml_element(tag, v),
        None => Seq::empty(),
    }
}

pub open spec fn opt_number(tag: Seq<char>, o: Option<u32>) -> Seq<char> {
    match o {
        Some(n) => number_element(tag, n as nat),
        None => Seq::empty(),
    }
}

fn push_list(out: &mut Vec<char>, tag: &str, vs: &Vec<String>)
    ensures
        final(out)@ == old(out)@ + list_xml(tag@, strs(vs@)),
{
    let mut i: usize = 0;
    while i < vs.len()
        invariant
            i <= vs@.len(),
            out@ == old(out)@ + list_xml(tag@, strs(vs@).subrange(0, i as int)),
        decreases vs.len() - i,
    {
        assert(strs(vs@).subrange(0, i + 1).drop_last() =~= strs(vs@).subrange(0, i as int));
        push_element(out, tag, vs[i].as_str());
        assert(out@ =~= old(out)@ + list_xml(tag@, strs(vs@).subrange(0, i + 1)));
        i = i + 1;
    }
    assert(strs(vs@).subrange(0, vs@.len() as int) =~= strs(vs@));
}

fn push_opt_list(out: &mut Vec<char>, tag: &str, o: &Option<Vec<String>>)
    ensures
        final(out)@ == old(out)@ + opt_list_xml(tag@, opt_strs(*o)),
{
    match o {
        Some(v) => push_list(out, tag, v),
        None => {
            assert(out@ =~= old(out)@ + Seq::<char>::empty());
        },
    }
}

fn push_opt_element(out: &mut Vec<char>, tag: &str, o: &Option<String>)
    ensures
        final(out)@ == old(out)@ + opt_element(tag@, opt_str(*o)),
{
    match o {
        Some(v) => push_element(out, tag, v.as_str()),
        None => {
            assert(out@ =~= old(out)@ + Seq::<char>::empty());
        },
    }
}

fn push_opt_number(out: &mut Vec<char>, tag: &str, o: Option<u32>)
    ensures
        final(out)@ == old(out)@ + opt_number(tag@, o),
{
    match o {
        Some(n) => push_number(out, tag, n as u64),
        None => {
            assert(out@ =~= old(out)@ + Seq::<char>::empty());
        },
    }
}

pub open spec fn cors_rule_xml(r: CorsRule) -> Seq<char> {
    "<CORSRule>"@ + opt_element("ID"@, opt_str(r.id)) + list_xml("AllowedOrigin"@, strs(r.allowed_origins@))
        + list_xml("AllowedMethod"@, strs(r.allowed_methods@)) + opt_list_xml("AllowedHeader"@, opt_strs(r.allowed_headers))
        + opt_list_xml("ExposeHeader"@, opt_strs(r.expose_headers)) + opt_number("MaxAgeSeconds"@, r.max_age_seconds)
        + "</CORSRule>"@
}

pub open spec fn cors_rules_xml(rs: Seq<CorsRule>) -> Seq<char>
    decreases rs.len(),
{
    if rs.len() == 0 {
        Seq::empty()
    } else {
        cors_rules_xml(rs.drop_last()) + cors_rule_xml(rs.last())
    }
}

fn push_cors_rule(out: &mut Vec<char>, r: &CorsRule)
    ensures
        final(out)@ == old(out)@ + cors_rule_xml(*r),
{
    push_text(out, "<CORSRule>");
    push_opt_element(out, "ID", &r.id);
    push_list(out, "AllowedOrigin", &r.allowed_origins);
    push_list(out, "AllowedMethod", &r.allowed_methods);
    push_opt_list(out, "AllowedHeader", &r.allowed_headers);
    push_opt_list(out, "ExposeHeader", &r.expose_headers);
    push_opt_number(out, "MaxAgeSeconds", r.max_age_seconds);
    push_text(out, "</CORSRule>");
    assert(out@ =~= old(out)@ + cors_rule_xml(*r));
}

/// The GET-cors answer.
pub fn cors_xml(c: &CorsConfiguration) -> (r: String)
    ensures
        r@ == prolog() + "<CORSConfiguration>"@ + cors_rules_xml(c.cors_rules@) + "</CORSConfiguration>"@,
{
    let mut out: Vec<char> = Vec::new();
    push_text(&mut out, "<?xml version=\"1.0\" encoding=\"UTF-8\"?>\n");
    push_text(&mut out, "<CORSConfiguration>");
    let ghost head = out@;
    let mut i: usize = 0;
    while i < c.cors_rules.len()
        invariant
            i <= c.cors_rules@.len(),
            out@ == head + cors_rules_xml(c.cors_rules@.subrange(0, i as int)),
        decreases c.cors_rules.len() - i,
    {
        assert(c.cors_rules@.subrange(0, i + 1).drop_last() =~= c.cors_rules@.subrange(0, i as int));
        push_cors_rule(&mut out, &c.cors_rules[i]);
        assert(out@ =~= head + cors_rules_xml(c.cors_rules@.subrange(0, i + 1)));
        i = i + 1;
    }
    assert(c.cors_rules@.subrange(0, c.cors_rules@.len() as int) =~= c.cors_rules@);
    push_text(&mut out, "</CORSConfiguration>");
    assert(out@ =~= prolog() + "<CORSConfiguration>"@ + cors_rules_xml(c.cors_rules@) + "</CORSConfiguration>"@);
    string_of(out.as_slice())
}

/// A policy body is accepted when it is JSON.
pub fn policy_is_valid(body: &str) -> (r: bool)
    ensures
        r == (crate::json::json_of(body@) is Some),
{
    crate::json::parse_json(body).is_some()
}

/// The GET-location answer: every bucket lives in `us-east-1`.
pub fn location_xml() -> (r: String)
    ensures
        r@ == prolog() + "<LocationConstraint xmlns=\"http://s3.amazonaws.com/doc/2006-03-01/\">us-east-1</LocationConstraint>"@,
{
    let mut out: Vec<char> = Vec::new();
    push_text(&mut out, "<?xml version=\"1.0\" encoding=\"UTF-8\"?>\n");
    push_text(&mut out, "<LocationConstraint xmlns=\"http://s3.amazonaws.com/doc/2006-03-01/\">us-east-1</LocationConstraint>");
    string_of(out.as_slice())
}

pub open spec fn grantee_xml(g: crate::settings::Grantee) -> Seq<char> {
    match g {
        crate::settings::Grantee::CanonicalUser { id, display_name } =>
            "<Grantee xmlns:xsi=\"http://www.w3.org/2001/XMLSchema-instance\" xsi:type=\"CanonicalUser\">"@
                + xml_element("ID"@, id@) + xml_element("DisplayName"@, display_name@) + "</Grantee>"@,
        crate::settings::Grantee::Group(uri) =>
            "<Grantee xmlns:xsi=\"http://www.w3.org/2001/XMLSchema-instance\" xsi:type=\"Group\">"@
                + xml_element("URI"@, uri@) + "</Grantee>"@,
        crate::settings::Grantee::Email(a) =>
            "<Grantee xmlns:xsi=\"http://www.w3.org/2001/XMLSchema-instance\" xsi:type=\"AmazonCustomerByEmail\">"@
                + xml_element("EmailAddress"@, a@) + "</Grantee>"@,
    }
}

pub open spec fn permission_text(p: crate::settings::Permission) -> Seq<char> {
    match p {
        crate::settings::Permission::FullControl => "FULL_CONTROL"@,
        crate::settings::Permission::Write => "WRITE"@,
        crate::settings::Permission::WriteAcp => "WRITE_ACP"@,
        crate::settings::Permission::Read => "READ"@,
        crate::settings::Permission::ReadAcp => "READ_ACP"@,
    }
}

pub open spec fn grants_xml(gs: Seq<crate::settings::Grant>) -> Seq<char>
    decreases gs.len(),
{
    if gs.len() == 0 {
        Seq::empty()
    } else {
        grants_xml(gs.drop_last()) + "<Grant>"@ + grantee_xml(gs.last().grantee)
            + xml_element("Permission"@, permission_text(gs.last().permission)) + "</Grant>"@
    }
}

fn push_grant(out: &mut Vec<char>, g: &crate::settings::Grant)
    ensures
        final(out)@ == old(out)@ + "<Grant>"@ + grantee_xml(g.grantee) + xml_element("Permission"@, permission_text(g.permission)) + "</Grant>"@,
{
    push_text(out, "<Grant>");
    match &g.grantee {
        crate::settings::Grantee::CanonicalUser { id, display_name } => {
            push_text(out, "<Grantee xmlns:xsi=\"http://www.w3.org/2001/XMLSchema-instance\" xsi:type=\"CanonicalUser\">");
            push_element(out, "ID", id.as_str());
            push_element(out, "DisplayName", display_name.as_str());
        },
        crate::settings::Grantee::Group(uri) => {
            push_text(out, "<Grantee xmlns:xsi=\"http://www.w3.org/2001/XMLSchema-instance\" xsi:type=\"Group\">");
            push_element(out, "URI", uri.as_str());
        },
        crate::settings::Grantee::Email(a) => {
            push_text(out, "<Grantee xmlns:xsi=\"http://www.w3.org/2001/XMLSchema-instance\" xsi:type=\"AmazonCustomerByEmail\">");
            push_element(out, "EmailAddress", a.as_str());
        },
    }
    push_text(out, "</Grantee>");
    let perm = match g.permission {
        crate::settings::Permission::FullControl => "FULL_CONTROL",
        crate::settings::Permission::Write => "WRITE",
        crate::settings::Permission::WriteAcp => "WRITE_ACP",
        crate::settings::Permission::Read => "READ",
        crate::settings::Permission::ReadAcp => "READ_ACP",
    };
    push_element(out, "Permission", perm);
    push_text(out, "</Grant>");
    assert(out@ =~= old(out)@ + "<Grant>"@ + grantee_xml(g.grantee) + xml_element("Permission"@, permission_text(g.permission)) + "</Grant>"@);
}

/// The GET-acl answer for an access control list.
pub fn acl_xml(acl: &crate::settings::AccessControlList) -> (r: String)
    ensures
        r@ == prolog() + "<AccessControlPolicy><Owner>"@ + xml_element("ID"@, acl.owner.id@)
            + xml_element("DisplayName"@, acl.owner.display_name@) + "</Owner><AccessControlList>"@
            + grants_xml(acl.grants@) + "</AccessControlList></AccessControlPolicy>"@,
{
    let mut out: Vec<char> = Vec::new();
    push_text(&mut out, "<?xml version=\"1.0\" encoding=\"UTF-8\"?>\n");
    push_text(&mut out, "<AccessControlPolicy><Owner>");
    push_element(&mut out, "ID", acl.owner.id.as_str());
    push_element(&mut out, "DisplayName", acl.owner.display_name.as_str());
    push_text(&mut out, "</Owner><AccessControlList>");
    let ghost head = out@;
    let mut i: usize = 0;
    while i < acl.grants.len()
        invariant
            i <= acl.grants@.len(),
            out@ == head + grants_xml(acl.grants@.subrange(0, i as int)),
        decreases acl.grants.len() - i,
    {
        assert(acl.grants@.subrange(0, i + 1).drop_last() =~= acl.grants@.subrange(0, i as int));
        push_grant(&mut out, &acl.grants[i]);
        assert(out@ =~= head + grants_xml(acl.grants@.subrange(0, i + 1)));
        i = i + 1;
    }
    assert(acl.grants@.subrange(0, acl.grants@.len() as int) =~= acl.grants@);
    push_text(&mut out, "</AccessControlList></AccessControlPolicy>");
    assert(out@ =~= prolog() + "<AccessControlPolicy><Owner>"@ + xml_element("ID"@, acl.owner.id@)
            + xml_element("DisplayName"@, acl.owner.display_name@) + "</Owner><AccessControlList>"@
            + grants_xml(acl.grants@) + "</AccessControlList></AccessControlPolicy>"@);
    string_of(out.as_slice())
}

pub open spec fn uploads_part(us: Seq<crate::multipart::Upload>, bucket: Seq<char>) -> Seq<char>
    decreases us.len(),
{
    if us.len() == 0 {
        Seq::empty()
    } else if us.last().bucket@ == bucket {
        uploads_part(us.drop_last(), bucket) + "<Upload>"@ + xml_element("Key"@, us.last().key@)
            + xml_element("UploadId"@, us.last().upload_id@) + "</Upload>"@
    } else {
        uploads_part(us.drop_last(), bucket)
    }
}

/// The GET-uploads answer: the uploads in progress in `bucket`.
pub fn uploads_xml(t: &crate::multipart::MultipartTable, bucket: &str) -> (r: String)
    ensures
        r@ == prolog() + "<ListMultipartUploadsResult>"@ + xml_element("Bucket"@, bucket@)
            + "<MaxUploads>1000</MaxUploads><IsTruncated>false</IsTruncated>"@ + uploads_part(t.uploads@, bucket@)
            + "</ListMultipartUploadsResult>"@,
{
    let b = chars_of(bucket);
    let mut out: Vec<char> = Vec::new();
    push_text(&mut out, "<?xml version=\"1.0\" encoding=\"UTF-8\"?>\n");
    push_text(&mut out, "<ListMultipartUploadsResult>");
    push_element(&mut out, "Bucket", bucket);
    push_text(&mut out, "<MaxUploads>1000</MaxUploads><IsTruncated>false</IsTruncated>");
    let ghost head = out@;
    let mut i: usize = 0;
    while i < t.uploads.len()
        invariant
            i <= t.uploads@.len(),
            b@ == bucket@,
            out@ == head + uploads_part(t.uploads@.subrange(0, i as int), bucket@),
        decreases t.uploads.len() - i,
    {
        assert(t.uploads@.subrange(0, i + 1).drop_last() =~= t.uploads@.subrange(0, i as int));
        let u = &t.uploads[i];
        if crate::text::chars_equal(chars_of(u.bucket.as_str()).as_slice(), b.as_slice()) {
            push_text(&mut out, "<Upload>");
            push_element(&mut out, "Key", u.key.as_str());
            push_element(&mut out, "UploadId", u.upload_id.as_str());
            push_text(&mut out, "</Upload>");
        }
        assert(out@ =~= head + uploads_part(t.uploads@.subrange(0, i + 1), bucket@));
        i = i + 1;
    }
    assert(t.uploads@.subrange(0, t.uploads@.len() as int) =~= t.uploads@);
    push_text(&mut out, "</ListMultipartUploadsResult>");
    assert(out@ =~= prolog() + "<ListMultipartUploadsResult>"@ + xml_element("Bucket"@, bucket@)
            + "<MaxUploads>1000</MaxUploads><IsTruncated>false</IsTruncated>"@ + uploads_part(t.uploads@, bucket@)
            + "</ListMultipartUploadsResult>"@);
    string_of(out.as_slice())
}

pub open spec fn or_text(o: Option<Seq<char>>, d: Seq<char>) -> Seq<char> {
    match o {
        Some(t) => t,
        None => d,
    }
}

/// The tag of a filter's `<Tag>` text, where it has a non-empty key.
pub open spec fn tag_from(tx: Seq<char>) -> Option<(Seq<char>, Seq<char>)> {
    let key = or_text(element_text(tx, "<Key>"@, "</Key>"@), Seq::empty());
    if key.len() > 0 {
        Some((key, or_text(element_text(tx, "<Value>"@, "</Value>"@), Seq::empty())))
    } else {
        None
    }
}

pub open spec fn filter_matches(f: Option<LifecycleFilter>, p: Seq<char>) -> bool {
    match element_text(p, "<Filter>"@, "</Filter>"@) {
        Some(fx) => {
            let prefix = element_text(fx, "<Prefix>"@, "</Prefix>"@);
            let tag = match element_text(fx, "<Tag>"@, "</Tag>"@) {
                Some(tx) => tag_from(tx),
                None => None,
            };
            if prefix is Some || tag is Some {
                f matches Some(x) && opt_str(x.prefix) == prefix && x.and is None && match tag {
                    Some((k, v)) => x.tag matches Some(t) && t.key@ == k && t.value@ == v,
                    None => x.tag is None,
                }
            } else {
                f is None
            }
        },
        None => f is None,
    }
}

pub open spec fn expiration_matches(e: Option<LifecycleExpiration>, p: Seq<char>) -> bool {
    match element_text(p, "<Expiration>"@, "</Expiration>"@) {
        Some(ex) => e matches Some(x) && x.days == u32_of(element_text(ex, "<Days>"@, "</Days>"@))
            && opt_str(x.date) == element_text(ex, "<Date>"@, "</Date>"@) && x.expired_object_delete_marker is None,
        None => e is None,
    }
}

/// `t` is the transition that the `<Transition>` text `tx` describes; the
/// storage class is `STANDARD_IA` where none is named.
pub open spec fn transition_from(t: LifecycleTransition, tx: Seq<char>) -> bool {
    t.days == u32_of(element_text(tx, "<Days>"@, "</Days>"@)) && opt_str(t.date) == element_text(tx, "<Date>"@, "</Date>"@)
        && t.storage_class@ == or_text(element_text(tx, "<StorageClass>"@, "</StorageClass>"@), "STANDARD_IA"@)
}

pub open spec fn transitions_match(ts: Option<Vec<LifecycleTransition>>, p: Seq<char>) -> bool {
    let texts = all_values(p, "<Transition>"@, "</Transition>"@);
    if texts.len() > 0 {
        ts matches Some(v) && v@.len() == texts.len() && forall|i: int| 0 <= i < texts.len() ==> transition_from(#[trigger] v@[i], texts[i])
    } else {
        ts is None
    }
}

/// `r` is the rule that the `<Rule>` piece `p` describes; the status is
/// `Enabled` where none is given.
pub open spec fn lifecycle_rule_from(r: LifecycleRule, p: Seq<char>) -> bool {
    &&& opt_str(r.id) == element_text(p, "<ID>"@, "</ID>"@)
    &&& r.status@ == or_text(element_text(p, "<Status>"@, "</Status>"@), "Enabled"@)
    &&& filter_matches(r.filter, p)
    &&& expiration_matches(r.expiration, p)
    &&& transitions_match(r.transitions, p)
    &&& r.noncurrent_version_transitions is None
    &&& r.noncurrent_version_expiration is None
    &&& r.abort_incomplete_multipart_upload is None
}

pub open spec fn lifecycle_pieces(body: Seq<char>) -> Seq<Seq<char>> {
    split_str(body, "<Rule>"@, 0).drop_first()
}

fn reveal_lifecycle_tags()
    ensures
        "<ID>"@.len() > 0, "</ID>"@.len() > 0, "<Status>"@.len() > 0, "</Status>"@.len() > 0,
        "<Filter>"@.len() > 0, "</Filter>"@.len() > 0, "<Prefix>"@.len() > 0, "</Prefix>"@.len() > 0,
        "<Tag>"@.len() > 0, "</Tag>"@.len() > 0, "<Key>"@.len() > 0, "</Key>"@.len() > 0,
        "<Value>"@.len() > 0, "</Value>"@.len() > 0, "<Expiration>"@.len() > 0, "</Expiration>"@.len() > 0,
        "<Days>"@.len() > 0, "</Days>"@.len() > 0, "<Date>"@.len() > 0, "</Date>"@.len() > 0,
        "<Transition>"@.len() > 0, "</Transition>"@.len() > 0, "<StorageClass>"@.len() > 0,
        "</StorageClass>"@.len() > 0, "<Rule>"@.len() > 0,
{
    proof {
        reveal_strlit("<ID>");
        reveal_strlit("</ID>");
        reveal_strlit("<Status>");
        reveal_strlit("</Status>");
        reveal_strlit("<Filter>");
        reveal_strlit("</Filter>");
        reveal_strlit("<Prefix>");
        reveal_strlit("</Prefix>");
        reveal_strlit("<Tag>");
        reveal_strlit("</Tag>");
        reveal_strlit("<Key>");
        reveal_strlit("</Key>");
        reveal_strlit("<Value>");
        reveal_strlit("</Value>");
        reveal_strlit("<Expiration>");
        reveal_strlit("</Expiration>");
        reveal_strlit("<Days>");
        reveal_strlit("</Days>");
        reveal_strlit("<Date>");
        reveal_strlit("</Date>");
        reveal_strlit("<Transition>");
        reveal_strlit("</Transition>");
        reveal_strlit("<StorageClass>");
        reveal_strlit("</StorageClass>");
        reveal_strlit("<Rule>");
    }
}

fn string_or(o: Option<String>, d: &str) -> (r: String)
    ensures
        r@ == or_text(opt_str(o), d@),
{
    match o {
        Some(t) => t,
        None => d.to_owned(),
    }
}

fn string_or_empty(o: Option<String>) -> (r: String)
    ensures
        r@ == or_text(opt_str(o), Seq::empty()),
{
    match o {
        Some(t) => t,
        None => String::new(),
    }
}

fn parse_filter(p: &[char]) -> (r: Option<LifecycleFilter>)
    ensures
        filter_matches(r, p@),
{
    reveal_lifecycle_tags();
    let fx = match element_string(p, "<Filter>", "</Filter>") {
        Some(f) => chars_of(f.as_str()),
        None => {
            return None;
        },
    };
    let prefix = element_string(fx.as_slice(), "<Prefix>", "</Prefix>");
    let tag = match element_string(fx.as_slice(), "<Tag>", "</Tag>") {
        Some(t) => {
            let tx = chars_of(t.as_str());
            let key = string_or_empty(element_string(tx.as_slice(), "<Key>", "</Key>"));
            let value = string_or_empty(element_string(tx.as_slice(), "<Value>", "</Value>"));
            if chars_of(key.as_str()).len() > 0 {
                Some(LifecycleTag { key, value })
            } else {
                None
            }
        },
        None => None,
    };
    if prefix.is_some() || tag.is_some() {
        Some(LifecycleFilter { prefix, tag, and: None })
    } else {
        None
    }
}

fn parse_expiration(p: &[char]) -> (r: Option<LifecycleExpiration>)
    ensures
        expiration_matches(r, p@),
{
    reveal_lifecycle_tags();
    match element_string(p, "<Expiration>", "</Expiration>") {
        Some(e) => {
            let ex = chars_of(e.as_str());
            Some(LifecycleExpiration {
                days: element_u32(ex.as_slice(), "<Days>", "</Days>"),
                date: element_string(ex.as_slice(), "<Date>", "</Date>"),
                expired_object_delete_marker: None,
            })
        },
        None => None,
    }
}

fn parse_transitions(p: &[char]) -> (r: Option<Vec<LifecycleTransition>>)
    ensures
        transitions_match(r, p@),
{
    reveal_lifecycle_tags();
    let ts = texts(p, "<Transition>", "</Transition>");
    let ghost tv = all_values(p@, "<Transition>"@, "</Transition>"@);
    if ts.len() == 0 {
        return None;
    }
    let mut out: Vec<LifecycleTransition> = Vec::new();
    let mut i: usize = 0;
    while i < ts.len()
        invariant
            i <= ts@.len(),
            strs(ts@) == tv,
            out@.len() == i,
            "<Days>"@.len() > 0, "</Days>"@.len() > 0, "<Date>"@.len() > 0, "</Date>"@.len() > 0,
            "<StorageClass>"@.len() > 0, "</StorageClass>"@.len() > 0,
            forall|j: int| 0 <= j < i ==> transition_from(#[trigger] out@[j], tv[j]),
        decreases ts.len() - i,
    {
        assert(tv[i as int] == ts@[i as int]@);
        let tx = chars_of(ts[i].as_str());
        let t = LifecycleTransition {
            days: element_u32(tx.as_slice(), "<Days>", "</Days>"),
            date: element_string(tx.as_slice(), "<Date>", "</Date>"),
            storage_class: string_or(element_string(tx.as_slice(), "<StorageClass>", "</StorageClass>"), "STANDARD_IA"),
        };
        let ghost before = out@;
        out.push(t);
        assert forall|j: int| 0 <= j < i + 1 implies transition_from(#[trigger] out@[j], tv[j]) by {
            if j < i {
                assert(out@[j] == before[j]);
            }
        }
        i = i + 1;
    }
    Some(out)
}

/// Reads a PUT-lifecycle body: one rule per `<Rule>`; `None` where there is
/// none (the body is malformed).
pub fn parse_lifecycle_config(body: &str) -> (r: Option<LifecycleConfiguration>)
    ensures
        match r {
            Some(c) => lifecycle_pieces(body@).len() > 0 && c.rules@.len() == lifecycle_pieces(body@).len()
                && forall|i: int| 0 <= i < c.rules@.len() ==> lifecycle_rule_from(#[trigger] c.rules@[i], lifecycle_pieces(body@)[i]),
            None => lifecycle_pieces(body@).len() == 0,
        },
{
    reveal_lifecycle_tags();
    let s = chars_of(body);
    let sep = chars_of("<Rule>");
    let pieces = split_on_str(s.as_slice(), sep.as_slice());
    let ghost ps = lifecycle_pieces(body@);
    if pieces.len() <= 1 {
        return None;
    }
    let mut rules: Vec<LifecycleRule> = Vec::new();
    let mut i: usize = 1;
    while i < pieces.len()
        invariant
            1 <= i <= pieces@.len(),
            pieces@.len() == split_str(body@, "<Rule>"@, 0).len(),
            forall|j: int| 0 <= j < pieces@.len() ==> (#[trigger] pieces@[j])@ == split_str(body@, "<Rule>"@, 0)[j],
            ps == split_str(body@, "<Rule>"@, 0).drop_first(),
            "<ID>"@.len() > 0, "</ID>"@.len() > 0, "<Status>"@.len() > 0, "</Status>"@.len() > 0,
            rules@.len() == i - 1,
            forall|j: int| 0 <= j < rules@.len() ==> lifecycle_rule_from(#[trigger] rules@[j], ps[j]),
        decreases pieces.len() - i,
    {
        assert(ps[i - 1] == pieces@[i as int]@);
        let p = pieces[i].as_slice();
        let rule = LifecycleRule {
            id: element_string(p, "<ID>", "</ID>"),
            status: string_or(element_string(p, "<Status>", "</Status>"), "Enabled"),
            filter: parse_filter(p),
            transitions: parse_transitions(p),
            expiration: parse_expiration(p),
            noncurrent_version_transitions: None,
            noncurrent_version_expiration: None,
            abort_incomplete_multipart_upload: None,
        };
        let ghost before = rules@;
        rules.push(rule);
        assert forall|j: int| 0 <= j < rules@.len() implies lifecycle_rule_from(#[trigger] rules@[j], ps[j]) by {
            if j < before.len() {
                assert(rules@[j] == before[j]);
            }
        }
        i = i + 1;
    }
    Some(LifecycleConfiguration { rules })
}

pub open spec fn filter_xml(f: Option<LifecycleFilter>) -> Seq<char> {
    match f {
        Some(x) => "<Filter>"@ + opt_element("Prefix"@, opt_str(x.prefix)) + match x.tag {
            Some(t) => "<Tag>"@ + xml_element("Key"@, t.key@) + xml_element("Value"@, t.value@) + "</Tag>"@,
            None => Seq::empty(),
        } + "</Filter>"@,
        None => Seq::empty(),
    }
}

pub open spec fn expiration_xml(e: Option<LifecycleExpiration>) -> Seq<char> {
    match e {
        Some(x) => "<Expiration>"@ + opt_number("Days"@, x.days) + opt_element("Date"@, opt_str(x.date)) + "</Expiration>"@,
        None => Seq::empty(),
    }
}

pub open spec fn transition_xml(t: LifecycleTransition) -> Seq<char> {
    "<Transition>"@ + opt_number("Days"@, t.days) + opt_element("Date"@, opt_str(t.date))
        + xml_element("StorageClass"@, t.storage_class@) + "</Transition>"@
}

pub open spec fn transition_list_xml(ts: Seq<LifecycleTransition>) -> Seq<char>
    decreases ts.len(),
{
    if ts.len() == 0 {
        Seq::empty()
    } else {
        transition_list_xml(ts.drop_last()) + transition_xml(ts.last())
    }
}

pub open spec fn transitions_xml(o: Option<Vec<LifecycleTransition>>) -> Seq<char> {
    match o {
        Some(v) => transition_list_xml(v@),
        None => Seq::empty(),
    }
}

pub open spec fn lifecycle_rule_xml(r: LifecycleRule) -> Seq<char> {
    "<Rule>"@ + opt_element("ID"@, opt_str(r.id)) + xml_element("Status"@, r.status@) + filter_xml(r.filter)
        + expiration_xml(r.expiration) + transitions_xml(r.transitions) + "</Rule>"@
}

pub open spec fn lifecycle_rules_xml(rs: Seq<LifecycleRule>) -> Seq<char>
    decreases rs.len(),
{
    if rs.len() == 0 {
        Seq::empty()
    } else {
        lifecycle_rules_xml(rs.drop_last()) + lifecycle_rule_xml(rs.last())
    }
}

fn push_filter(out: &mut Vec<char>, f: &Option<LifecycleFilter>)
    ensures
        final(out)@ == old(out)@ + filter_xml(*f),
{
    match f {
        Some(x) => {
            push_text(out, "<Filter>");
            push_opt_element(out, "Prefix", &x.prefix);
            match &x.tag {
                Some(t) => {
                    push_text(out, "<Tag>");
                    push_element(out, "Key", t.key.as_str());
                    push_element(out, "Value", t.value.as_str());
                    push_text(out, "</Tag>");
                },
                None => {},
            }
            push_text(out, "</Filter>");
            assert(out@ =~= old(out)@ + filter_xml(*f));
        },
        None => {
            assert(out@ =~= old(out)@ + filter_xml(*f));
        },
    }
}

fn push_expiration(out: &mut Vec<char>, e: &Option<LifecycleExpiration>)
    ensures
        final(out)@ == old(out)@ + expiration_xml(*e),
{
    match e {
        Some(x) => {
            push_text(out, "<Expiration>");
            push_opt_number(out, "Days", x.days);
            push_opt_element(out, "Date", &x.date);
            push_text(out, "</Expiration>");
            assert(out@ =~= old(out)@ + expiration_xml(*e));
        },
        None => {
            assert(out@ =~= old(out)@ + expiration_xml(*e));
        },
    }
}

fn push_transitions(out: &mut Vec<char>, o: &Option<Vec<LifecycleTransition>>)
    ensures
        final(out)@ == old(out)@ + transitions_xml(*o),
{
    match o {
        Some(v) => {
            let ghost head = out@;
            let mut i: usize = 0;
            assert(out@ =~= head + transition_list_xml(v@.subrange(0, 0)));
            while i < v.len()
                invariant
                    i <= v@.len(),
                    out@ == head + transition_list_xml(v@.subrange(0, i as int)),
                decreases v.len() - i,
            {
                assert(v@.subrange(0, i + 1).drop_last() =~= v@.subrange(0, i as int));
                let t = &v[i];
                push_text(out, "<Transition>");
                push_opt_number(out, "Days", t.days);
                push_opt_element(out, "Date", &t.date);
                push_element(out, "StorageClass", t.storage_class.as_str());
                push_text(out, "</Transition>");
                assert(out@ =~= head + transition_list_xml(v@.subrange(0, i + 1)));
                i = i + 1;
            }
            assert(v@.subrange(0, v@.len() as int) =~= v@);
        },
        None => {
            assert(out@ =~= old(out)@ + transitions_xml(*o));
        },
    }
}

fn push_lifecycle_rule(out: &mut Vec<char>, r: &LifecycleRule)
    ensures
        final(out)@ == old(out)@ + lifecycle_rule_xml(*r),
{
    push_text(out, "<Rule>");
    push_opt_element(out, "ID", &r.id);
    push_element(out, "Status", r.status.as_str());
    push_filter(out, &r.filter);
    push_expiration(out, &r.expiration);
    push_transitions(out, &r.transitions);
    push_text(out, "</Rule>");
    assert(out@ =~= old(out)@ + lifecycle_rule_xml(*r));
}

/// The GET-lifecycle answer.
pub fn lifecycle_xml(c: &LifecycleConfiguration) -> (r: String)
    ensures
        r@ == prolog() + "<LifecycleConfiguration>"@ + lifecycle_rules_xml(c.rules@) + "</LifecycleConfiguration>"@,
{
    let mut out: Vec<char> = Vec::new();
    push_text(&mut out, "<?xml version=\"1.0\" encoding=\"UTF-8\"?>\n");
    push_text(&mut out, "<LifecycleConfiguration>");
    let ghost head = out@;
    let mut i: usize = 0;
    while i < c.rules.len()
        invariant
            i <= c.rules@.len(),
            out@ == head + lifecycle_rules_xml(c.rules@.subrange(0, i as int)),
        decreases c.rules.len() - i,
    {
        assert(c.rules@.subrange(0, i + 1).drop_last() =~= c.rules@.subrange(0, i as int));
        push_lifecycle_rule(&mut out, &c.rules[i]);
        assert(out@ =~= head + lifecycle_rules_xml(c.rules@.subrange(0, i + 1)));
        i = i + 1;
    }
    assert(c.rules@.subrange(0, c.rules@.len() as int) =~= c.rules@);
    push_text(&mut out, "</LifecycleConfiguration>");
    assert(out@ =~= prolog() + "<LifecycleConfiguration>"@ + lifecycle_rules_xml(c.rules@) + "</LifecycleConfiguration>"@);
    string_of(out.as_slice())
}

} // verus!
