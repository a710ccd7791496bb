use vstd::prelude::*;

use vstd::string::*;

use crate::model::{opt_str_eq, opt_view, SubdomainResult, WildcardProfile};
use crate::text::{decimal, decimal_of};

verus! {

/// Largest content-length difference, exclusive, under which two pages are
/// taken to be the same default page.
pub const LENGTH_TOLERANCE: u64 = 50;

/// Distance between two byte counts.
pub open spec fn abs_diff(a: u64, b: u64) -> int {
    if a > b {
        a - b
    } else {
        b - a
    }
}

/// The wildcard-match rule: the addresses agree, and then the titles agree and
/// are present, or the content lengths are both present and within the
/// tolerance, or both status codes are present and agree and neither side
/// has a title.
pub open spec fn wildcard_match(r: SubdomainResult, p: WildcardProfile) -> bool {
    &&& opt_view(r.ip) == opt_view(p.ip)
    &&& {
        ||| (r.title is Some && opt_view(r.title) == opt_view(p.title))
        ||| (r.content_length is Some && p.content_length is Some && abs_diff(
            r.content_length->Some_0,
            p.content_length->Some_0,
        ) < LENGTH_TOLERANCE)
        ||| (r.status_code is Some && r.status_code == p.status_code && r.title is None
            && p.title is None)
    }
}

/// Whether a fingerprint matches the wildcard baseline, i.e. is a false positive.
pub fn is_wildcard_match(result: &SubdomainResult, profile: &WildcardProfile) -> (r: bool)
    ensures
        r == wildcard_match(*result, *profile),
{
    if !opt_str_eq(&result.ip, &profile.ip) {
        return false;
    }
    if result.title.is_some() && opt_str_eq(&result.title, &profile.title) {
        return true;
    }
    if let (Some(a), Some(b)) = (result.content_length, profile.content_length) {
        let diff: u64 = if a > b {
            a - b
        } else {
            b - a
        };
        if diff < LENGTH_TOLERANCE {
            return true;
        }
    }
    if let (Some(a), Some(b)) = (result.status_code, profile.status_code) {
        if a == b && result.title.is_none() && profile.title.is_none() {
            return true;
        }
    }
    false
}

/// A different address never matches, whatever the other fields hold.
pub proof fn lemma_ip_mismatch_never_matches(result: SubdomainResult, profile: WildcardProfile)
    requires
        opt_view(result.ip) != opt_view(profile.ip),
    ensures
        !wildcard_match(result, profile),
{
}

} // verus!

verus! {

/// The fingerprints that do not match the baseline, in the order given.
pub open spec fn survivors(results: Seq<SubdomainResult>, profile: WildcardProfile) -> Seq<SubdomainResult>
    decreases results.len(),
{
    if results.len() == 0 {
        Seq::empty()
    } else {
        let prev = survivors(results.drop_last(), profile);
        if wildcard_match(results.last(), profile) {
            prev
        } else {
            prev.push(results.last())
        }
    }
}

/// Drops every fingerprint that matches the baseline; without a baseline no
/// wildcard was detected and all fingerprints are kept.
pub fn filter_false_positives(results: Vec<SubdomainResult>, profile: &Option<WildcardProfile>) -> (r: Vec<
    SubdomainResult,
>)
    ensures
        profile is None ==> r@ == results@,
        profile is Some ==> r@ == survivors(results@, profile->Some_0),
{
    match profile {
        None => results,
        Some(p) => {
            let mut out: Vec<SubdomainResult> = Vec::new();
            let mut rest = results;
            let ghost all = rest@;
            while rest.len() > 0
                invariant
                    rest@.len() <= all.len(),
                    rest@ == all.skip(all.len() - rest@.len()),
                    out@ == survivors(all.take(all.len() - rest@.len()), *p),
                decreases rest@.len(),
            {
                let ghost k = all.len() - rest@.len();
                let item = rest.remove(0);
                proof {
                    assert(item == all[k]);
                    assert(rest@ =~= all.skip(k + 1));
                    assert(all.take(k + 1).drop_last() =~= all.take(k));
                    assert(all.take(k + 1).last() == item);
                }
                if !is_wildcard_match(&item, p) {
                    out.push(item);
                }
            }
            assert(all.take(all.len() as int) =~= all);
            out
        },
    }
}

/// The baseline of a wildcard zone: the address, status, title and length of
/// the probed test host.
pub fn baseline_from(fp: SubdomainResult) -> (r: WildcardProfile)
    ensures
        r.ip == fp.ip,
        r.status_code == fp.status_code,
        r.title == fp.title,
        r.content_length == fp.content_length,
{
    WildcardProfile {
        ip: fp.ip,
        status_code: fp.status_code,
        title: fp.title,
        content_length: fp.content_length,
    }
}

/// The test host name: `wildcard-test-<n>.<domain>`.
pub open spec fn test_host_spec(n: u32, domain: Seq<char>) -> Seq<char> {
    seq!['w', 'i', 'l', 'd', 'c', 'a', 'r', 'd', '-', 't', 'e', 's', 't', '-'].add(decimal_of(n as nat)).add(
        seq!['.'],
    ).add(domain)
}

/// A host name under `domain` that should not exist, made unique by `n`
/// (for instance the sub-second part of the clock).
pub fn wildcard_test_host(n: u32, domain: &str) -> (r: String)
    ensures
        r@ == test_host_spec(n, domain@),
{
    proof {
        reveal_strlit("wildcard-test-");
        reveal_strlit(".");
    }
    let mut s = String::from_str("wildcard-test-");
    let digits = decimal(n);
    s.append(digits.as_str());
    s.append(".");
    s.append(domain);
    assert(s@ =~= test_host_spec(n, domain@));
    s
}

} // verus!
