//! Bucket policy evaluation: statements with Effect, Principal, Action,
//! Resource and IP conditions. A matching `Deny` always wins; otherwise a
//! matching `Allow` grants; otherwise access is refused.

use vstd::prelude::*;
use crate::cidr::{ip_in_range, ip_in_range_spec};
use crate::json::{Json, field, as_text, get_field, json_of, parse_json};
use crate::text::{has_prefix, starts_with, chars_equal, chars_of};

verus! {

/// `pat` admits `value`: the two are equal, `pat` is the catch-all `any`, or
/// `pat` ends in `*` and `value` starts with what comes before it.
pub open spec fn pattern_admits(pat: Seq<char>, value: Seq<char>, any: Seq<char>) -> bool {
    pat == value || pat == any || (pat.len() > 0 && pat.last() == '*' && has_prefix(
        value,
        pat.drop_last(),
    ))
}

/// A string, or an array holding a string, that admits `value`.
pub open spec fn patterns_admit(v: Option<Json>, value: Seq<char>, any: Seq<char>) -> bool {
    match v {
        Some(Json::Array(a)) => exists|i: int|
            0 <= i < a@.len() && (#[trigger] a@[i]) is Str && pattern_admits(
                a@[i]->Str_0@,
                value,
                any,
            ),
        Some(Json::Str(p)) => pattern_admits(p@, value, any),
        _ => false,
    }
}

/// `Principal` is `"*"`, or `{"AWS": ...}` naming `principal` alone or in a list.
pub open spec fn principal_admits(p: Option<Json>, principal: Seq<char>) -> bool {
    match p {
        None => false,
        Some(pv) => if as_text(Some(pv)) == Some("*"@) {
            true
        } else {
            match field(pv, "AWS"@) {
                Some(Json::Array(a)) => exists|i: int|
                    0 <= i < a@.len() && (#[trigger] a@[i]) is Str && a@[i]->Str_0@ == principal,
                Some(Json::Str(s)) => s@ == principal,
                _ => false,
            }
        },
    }
}

/// The address `ip` lies in the range, or in one of the list of ranges, `src`.
pub open spec fn in_some_range(src: Json, ip: Seq<char>) -> bool {
    match src {
        Json::Array(a) => exists|i: int|
            0 <= i < a@.len() && (#[trigger] a@[i]) is Str && ip_in_range_spec(ip, a@[i]->Str_0@),
        Json::Str(r) => ip_in_range_spec(ip, r@),
        _ => false,
    }
}

/// The `aws:SourceIp` entry of the condition `kind` in `c`.
pub open spec fn source_ip(c: Json, kind: Seq<char>) -> Option<Json> {
    match field(c, kind) {
        Some(k) => field(k, "aws:SourceIp"@),
        None => None,
    }
}

/// The `IpAddress` condition needs a client address inside its ranges; the
/// `NotIpAddress` condition needs one outside them, or none at all.
pub open spec fn conditions_hold(cond: Option<Json>, client_ip: Option<Seq<char>>) -> bool {
    match cond {
        None => true,
        Some(c) => (match source_ip(c, "IpAddress"@) {
            Some(src) => match client_ip {
                Some(ip) => in_some_range(src, ip),
                None => false,
            },
            None => true,
        }) && (match source_ip(c, "NotIpAddress"@) {
            Some(src) => match client_ip {
                Some(ip) => !in_some_range(src, ip),
                None => true,
            },
            None => true,
        }),
    }
}

/// Principal, action, resource and conditions of `st` all admit the request.
pub open spec fn statement_applies(
    st: Json,
    action: Seq<char>,
    resource: Seq<char>,
    principal: Seq<char>,
    client_ip: Option<Seq<char>>,
) -> bool {
    principal_admits(field(st, "Principal"@), principal) && patterns_admit(
        field(st, "Action"@),
        action,
        "s3:*"@,
    ) && patterns_admit(field(st, "Resource"@), resource, "*"@) && conditions_hold(
        field(st, "Condition"@),
        client_ip,
    )
}

/// The `Statement` list of a policy; empty where there is none.
pub open spec fn statements(policy: Json) -> Seq<Json> {
    match field(policy, "Statement"@) {
        Some(Json::Array(a)) => a@,
        _ => Seq::empty(),
    }
}

pub open spec fn has_effect(st: Json, effect: Seq<char>) -> bool {
    as_text(field(st, "Effect"@)) == Some(effect)
}

/// Some statement of `policy` with effect `effect` applies to the request.
pub open spec fn effect_applies(
    policy: Json,
    effect: Seq<char>,
    action: Seq<char>,
    resource: Seq<char>,
    principal: Seq<char>,
    client_ip: Option<Seq<char>>,
) -> bool {
    exists|i: int|
        0 <= i < statements(policy).len() && statement_applies(
            #[trigger] statements(policy)[i],
            action,
            resource,
            principal,
            client_ip,
        ) && has_effect(statements(policy)[i], effect)
}

/// The decision of `policy` on a request: no applicable `Deny` and at least
/// one applicable `Allow`.
pub open spec fn policy_allows(
    policy: Json,
    action: Seq<char>,
    resource: Seq<char>,
    principal: Seq<char>,
    client_ip: Option<Seq<char>>,
) -> bool {
    !effect_applies(policy, "Deny"@, action, resource, principal, client_ip) && effect_applies(
        policy,
        "Allow"@,
        action,
        resource,
        principal,
        client_ip,
    )
}

pub open spec fn opt_view(v: Option<&Json>) -> Option<Json> {
    match v {
        Some(x) => Some(*x),
        None => None,
    }
}

fn pattern_matches(pat: &[char], value: &[char], any: &[char]) -> (r: bool)
    ensures
        r == pattern_admits(pat@, value@, any@),
{
    if chars_equal(pat, value) || chars_equal(pat, any) {
        return true;
    }
    let n = pat.len();
    if n > 0 && pat[n - 1] == '*' {
        let stem = vstd::slice::slice_subrange(pat, 0, n - 1);
        assert(stem@ =~= pat@.drop_last());
        starts_with(value, stem)
    } else {
        false
    }
}

fn patterns_match(v: Option<&Json>, value: &[char], any: &[char]) -> (r: bool)
    ensures
        r == patterns_admit(opt_view(v), value@, any@),
{
    match v {
        Some(Json::Array(a)) => {
            let mut i: usize = 0;
            while i < a.len()
                invariant
                    i <= a@.len(),
                    patterns_admit(opt_view(v), value@, any@) == exists|j: int|
                        0 <= j < a@.len() && (#[trigger] a@[j]) is Str && pattern_admits(
                            a@[j]->Str_0@,
                            value@,
                            any@,
                        ),
                    forall|j: int|
                        0 <= j < i ==> !((#[trigger] a@[j]) is Str && pattern_admits(
                            a@[j]->Str_0@,
                            value@,
                            any@,
                        )),
                decreases a.len() - i,
            {
                if let Json::Str(p) = &a[i] {
                    if pattern_matches(p.as_slice(), value, any) {
                        assert(a@[i as int] is Str && pattern_admits(a@[i as int]->Str_0@, value@, any@));
                        return true;
                    }
                }
                i = i + 1;
            }
            false
        },
        Some(Json::Str(p)) => pattern_matches(p.as_slice(), value, any),
        _ => false,
    }
}

fn principal_matches(p: Option<&Json>, principal: &[char]) -> (r: bool)
    ensures
        r == principal_admits(opt_view(p), principal@),
{
    let pv = match p {
        Some(pv) => pv,
        None => {
            return false;
        },
    };
    let star = chars_of("*");
    if let Json::Str(s) = pv {
        if chars_equal(s.as_slice(), star.as_slice()) {
            return true;
        }
    }
    let aws = chars_of("AWS");
    assert(as_text(Some(*pv)) != Some("*"@));
    match get_field(pv, aws.as_slice()) {
        Some(Json::Array(a)) => {
            let mut i: usize = 0;
            while i < a.len()
                invariant
                    i <= a@.len(),
                    principal_admits(opt_view(p), principal@) == exists|j: int|
                        0 <= j < a@.len() && (#[trigger] a@[j]) is Str && a@[j]->Str_0@ == principal@,
                    forall|j: int|
                        0 <= j < i ==> !((#[trigger] a@[j]) is Str && a@[j]->Str_0@ == principal@),
                decreases a.len() - i,
            {
                if let Json::Str(s) = &a[i] {
                    if chars_equal(s.as_slice(), principal) {
                        return true;
                    }
                }
                i = i + 1;
            }
            false
        },
        Some(Json::Str(s)) => chars_equal(s.as_slice(), principal),
        _ => false,
    }
}

fn in_ranges(src: &Json, ip: &[char]) -> (r: bool)
    ensures
        r == in_some_range(*src, ip@),
{
    match src {
        Json::Array(a) => {
            let mut i: usize = 0;
            while i < a.len()
                invariant
                    i <= a@.len(),
                    in_some_range(*src, ip@) == exists|j: int|
                        0 <= j < a@.len() && (#[trigger] a@[j]) is Str && ip_in_range_spec(
                            ip@,
                            a@[j]->Str_0@,
                        ),
                    forall|j: int|
                        0 <= j < i ==> !((#[trigger] a@[j]) is Str && ip_in_range_spec(
                            ip@,
                            a@[j]->Str_0@,
                        )),
                decreases a.len() - i,
            {
                if let Json::Str(s) = &a[i] {
                    if ip_in_range(ip, s.as_slice()) {
                        return true;
                    }
                }
                i = i + 1;
            }
            false
        },
        Json::Str(s) => ip_in_range(ip, s.as_slice()),
        _ => false,
    }
}

fn source_ip_of<'a>(c: &'a Json, kind: &str) -> (r: Option<&'a Json>)
    ensures
        opt_view(r) == source_ip(*c, kind@),
{
    let kind_chars = chars_of(kind);
    match get_field(c, kind_chars.as_slice()) {
        Some(k) => {
            let key = chars_of("aws:SourceIp");
            get_field(k, key.as_slice())
        },
        None => None,
    }
}

fn conditions_met(cond: Option<&Json>, client_ip: Option<&[char]>) -> (r: bool)
    ensures
        r == conditions_hold(
            opt_view(cond),
            match client_ip {
                Some(ip) => Some(ip@),
                None => None,
            },
        ),
{
    let c = match cond {
        Some(c) => c,
        None => {
            return true;
        },
    };
    let mut ok = true;
    if let Some(src) = source_ip_of(c, "IpAddress") {
        match client_ip {
            Some(ip) => {
                if !in_ranges(src, ip) {
                    ok = false;
                }
            },
            None => {
                ok = false;
            },
        }
    }
    if let Some(src) = source_ip_of(c, "NotIpAddress") {
        if let Some(ip) = client_ip {
            if in_ranges(src, ip) {
                ok = false;
            }
        }
    }
    ok
}

fn statement_matches(
    st: &Json,
    action: &[char],
    resource: &[char],
    principal: &[char],
    client_ip: Option<&[char]>,
) -> (r: bool)
    ensures
        r == statement_applies(
            *st,
            action@,
            resource@,
            principal@,
            match client_ip {
                Some(ip) => Some(ip@),
                None => None,
            },
        ),
{
    let k_principal = chars_of("Principal");
    let k_action = chars_of("Action");
    let k_resource = chars_of("Resource");
    let k_condition = chars_of("Condition");
    let any_action = chars_of("s3:*");
    let any_resource = chars_of("*");
    principal_matches(get_field(st, k_principal.as_slice()), principal) && patterns_match(
        get_field(st, k_action.as_slice()),
        action,
        any_action.as_slice(),
    ) && patterns_match(get_field(st, k_resource.as_slice()), resource, any_resource.as_slice())
        && conditions_met(get_field(st, k_condition.as_slice()), client_ip)
}

/// The decision of an already parsed policy on a request.
pub fn evaluate_policy(
    policy: &Json,
    action: &[char],
    resource: &[char],
    principal: &[char],
    client_ip: Option<&[char]>,
) -> (r: bool)
    ensures
        r == policy_allows(
            *policy,
            action@,
            resource@,
            principal@,
            match client_ip {
                Some(ip) => Some(ip@),
                None => None,
            },
        ),
{
    let ghost ip = match client_ip {
        Some(ip) => Some(ip@),
        None => None,
    };
    let k_statement = chars_of("Statement");
    let k_effect = chars_of("Effect");
    let allow = chars_of("Allow");
    let deny = chars_of("Deny");
    let list = match get_field(policy, k_statement.as_slice()) {
        Some(Json::Array(a)) => a,
        _ => {
            return false;
        },
    };
    let mut allowed = false;
    let mut i: usize = 0;
    while i < list.len()
        invariant
            i <= list@.len(),
            list@ == statements(*policy),
            k_effect@ == "Effect"@,
            allow@ == "Allow"@,
            deny@ == "Deny"@,
            ip == match client_ip {
                Some(ip) => Some(ip@),
                None => None::<Seq<char>>,
            },
            forall|j: int|
                0 <= j < i ==> !(statement_applies(
                    #[trigger] list@[j],
                    action@,
                    resource@,
                    principal@,
                    ip,
                ) && has_effect(list@[j], "Deny"@)),
            allowed == exists|j: int|
                0 <= j < i && statement_applies(
                    #[trigger] list@[j],
                    action@,
                    resource@,
                    principal@,
                    ip,
                ) && has_effect(list@[j], "Allow"@),
        decreases list.len() - i,
    {
        let st = &list[i];
        if statement_matches(st, action, resource, principal, client_ip) {
            let effect = get_field(st, k_effect.as_slice());
            if let Some(Json::Str(e)) = effect {
                if chars_equal(e.as_slice(), deny.as_slice()) {
                    assert(statement_applies(statements(*policy)[i as int], action@, resource@, principal@, ip)
                        && has_effect(statements(*policy)[i as int], "Deny"@));
                    return false;
                }
                if chars_equal(e.as_slice(), allow.as_slice()) {
                    allowed = true;
                }
            }
        }
        i = i + 1;
    }
    allowed
}

/// The decision of the policy written in `policy_json` on a request for
/// `action` on `resource` by `principal` from `client_ip`. Text that is not
/// JSON refuses access.
pub fn check_policy_permission(
    policy_json: &str,
    action: &str,
    resource: &str,
    principal: &str,
    client_ip: Option<&str>,
) -> (r: bool)
    ensures
        r == match json_of(policy_json@) {
            Some(p) => policy_allows(
                p,
                action@,
                resource@,
                principal@,
                match client_ip {
                    Some(ip) => Some(ip@),
                    None => None,
                },
            ),
            None => false,
        },
{
    let policy = match parse_json(policy_json) {
        Some(p) => p,
        None => {
            return false;
        },
    };
    let a = chars_of(action);
    let res = chars_of(resource);
    let pr = chars_of(principal);
    match client_ip {
        Some(ip) => {
            let ip_chars = chars_of(ip);
            evaluate_policy(&policy, a.as_slice(), res.as_slice(), pr.as_slice(), Some(ip_chars.as_slice()))
        },
        None => evaluate_policy(&policy, a.as_slice(), res.as_slice(), pr.as_slice(), None),
    }
}

/// A `Deny` statement that applies to a request wins over every `Allow`
/// statement that applies to it too.
pub proof fn lemma_deny_overrides_allow(
    policy: Json,
    action: Seq<char>,
    resource: Seq<char>,
    principal: Seq<char>,
    client_ip: Option<Seq<char>>,
    i: int,
)
    requires
        0 <= i < statements(policy).len(),
        statement_applies(statements(policy)[i], action, resource, principal, client_ip),
        has_effect(statements(policy)[i], "Deny"@),
    ensures
        !policy_allows(policy, action, resource, principal, client_ip),
{
}

} // verus!
