use vstd::prelude::*;
use vstd::string::*;

use crate::text::{ends_with, has_char, has_suffix, lower_of, lowercase, trim, trimmed};

verus! {

/// The character contents of a list of strings.
pub open spec fn strs(v: Seq<String>) -> Seq<Seq<char>> {
    v.map_values(|s: String| s@)
}

/// A raw name from a naming source, trimmed and then lowercased.
pub open spec fn normalize(raw: Seq<char>) -> Seq<char> {
    lower_of(trimmed(raw))
}

/// Whether `c` may stand as a candidate of `domain`: it holds no wildcard
/// marker, and is the domain itself or a name under it.
pub open spec fn accepted(c: Seq<char>, domain: Seq<char>) -> bool {
    &&& !c.contains('*')
    &&& (c == domain || ends_with(c, seq!['.'].add(domain)))
}

/// A name that normalization leaves as it is and that is accepted.
pub open spec fn is_normalized(c: Seq<char>, domain: Seq<char>) -> bool {
    normalize(c) == c && accepted(c, domain)
}

/// Whether the first `n` raw names yield the candidate `c`.
pub open spec fn yielded_by(c: Seq<char>, raw: Seq<Seq<char>>, n: int, domain: Seq<char>) -> bool {
    accepted(c, domain) && exists|j: int| 0 <= j < n && c == normalize(#[trigger] raw[j])
}

/// The set of candidates that a list of raw names yields.
pub open spec fn normalized_set(raw: Seq<Seq<char>>, domain: Seq<char>) -> Set<Seq<char>> {
    Set::new(|c: Seq<char>| yielded_by(c, raw, raw.len() as int, domain))
}

/// Whether `v` holds a string with the characters of `s`.
pub fn contains_str(v: &Vec<String>, s: &String) -> (r: bool)
    ensures
        r == strs(v@).contains(s@),
{
    let mut i: usize = 0;
    while i < v.len()
        invariant
            i <= v@.len(),
            forall|k: int| 0 <= k < i ==> v@[k]@ != s@,
        decreases v@.len() - i,
    {
        if v[i] == *s {
            assert(strs(v@)[i as int] == s@);
            return true;
        }
        i = i + 1;
    }
    assert forall|k: int| 0 <= k < strs(v@).len() implies strs(v@)[k] != s@ by {
        assert(v@[k]@ != s@);
    }
    false
}

/// Normalizes one raw name: trims it, lowercases it, and keeps it only if it
/// is an acceptable candidate of `domain`.
pub fn normalize_host(raw: &str, domain: &str) -> (r: Option<String>)
    ensures
        r is Some <==> accepted(normalize(raw@), domain@),
        r is Some ==> r->Some_0@ == normalize(raw@),
{
    let t = trim(raw);
    let clean = lowercase(t.as_str());
    if is_candidate(clean.as_str(), domain) {
        Some(clean)
    } else {
        None
    }
}

/// Whether `c` may stand as a candidate of `domain`.
pub fn is_candidate(c: &str, domain: &str) -> (r: bool)
    ensures
        r == accepted(c@, domain@),
{
    if has_char(c, '*') {
        return false;
    }
    let mut suffix = String::from_str(".");
    proof {
        reveal_strlit(".");
    }
    suffix.append(domain);
    assert(suffix@ =~= seq!['.'].add(domain@));
    let cs = String::from_str(c);
    let dom = String::from_str(domain);
    cs == dom || has_suffix(c, suffix.as_str())
}

/// Normalizes a list of raw names into a duplicate-free list of candidates.
pub fn filter_subs(raw: Vec<String>, domain: &str) -> (r: Vec<String>)
    ensures
        strs(r@).no_duplicates(),
        strs(r@).to_set() == normalized_set(strs(raw@), domain@),
{
    let ghost rv = strs(raw@);
    let mut out: Vec<String> = Vec::new();
    let mut i: usize = 0;
    while i < raw.len()
        invariant
            i <= raw@.len(),
            rv == strs(raw@),
            strs(out@).no_duplicates(),
            forall|c: Seq<char>| strs(out@).contains(c) <==> yielded_by(c, rv, i as int, domain@),
        decreases raw@.len() - i,
    {
        let ghost prev = out@;
        let res = normalize_host(raw[i].as_str(), domain);
        let ghost ri = rv[i as int];
        assert(ri == raw@[i as int]@);
        match res {
            Some(c) => {
                if !contains_str(&out, &c) {
                    out.push(c);
                    proof {
                        lemma_push_contains(prev, c);
                    }
                }
                assert(forall|x: Seq<char>|
                    strs(out@).contains(x) <==> (strs(prev).contains(x) || x == c@));
            },
            None => {},
        }
        proof {
            assert forall|c: Seq<char>|
                strs(out@).contains(c) <==> yielded_by(c, rv, i + 1, domain@) by {
                if yielded_by(c, rv, i + 1, domain@) {
                    let j = choose|j: int| 0 <= j < i + 1 && c == normalize(#[trigger] rv[j]);
                    if j < i {
                        assert(yielded_by(c, rv, i as int, domain@));
                    }
                }
                if strs(prev).contains(c) {
                    assert(yielded_by(c, rv, i as int, domain@));
                    let j = choose|j: int| 0 <= j < i && c == normalize(#[trigger] rv[j]);
                    assert(0 <= j < i + 1 && c == normalize(rv[j]));
                }
                if strs(out@).contains(c) && !strs(prev).contains(c) {
                    assert(c == normalize(rv[i as int]));
                }
            }
        }
        i = i + 1;
    }
    assert forall|c: Seq<char>| strs(out@).to_set().contains(c) <==> normalized_set(rv, domain@).contains(c) by {
        if strs(out@).to_set().contains(c) {
            assert(strs(out@).contains(c));
        }
    }
    assert(strs(out@).to_set() =~= normalized_set(rv, domain@));
    out
}

proof fn lemma_push_contains(prev: Seq<String>, c: String)
    ensures
        forall|x: Seq<char>| strs(prev.push(c)).contains(x) <==> (strs(prev).contains(x) || x == c@),
        strs(prev).no_duplicates() && !strs(prev).contains(c@) ==> strs(prev.push(c)).no_duplicates(),
{
    assert(strs(prev.push(c)) =~= strs(prev).push(c@));
    assert forall|x: Seq<char>|
        strs(prev.push(c)).contains(x) <==> (strs(prev).contains(x) || x == c@) by {
        let out = strs(prev.push(c));
        if out.contains(x) && x != c@ {
            let k = choose|k: int| 0 <= k < out.len() && out[k] == x;
            assert(strs(prev)[k] == x);
        }
        if x == c@ {
            assert(out[prev.len() as int] == x);
        }
        if strs(prev).contains(x) {
            let k = choose|k: int| 0 <= k < strs(prev).len() && strs(prev)[k] == x;
            assert(out[k] == x);
        }
    }
}

/// Normalization is idempotent: a list of names that are already normalized
/// yields exactly the set of those names.
pub proof fn lemma_normalization_idempotent(names: Seq<Seq<char>>, domain: Seq<char>)
    requires
        forall|j: int| 0 <= j < names.len() ==> is_normalized(#[trigger] names[j], domain),
    ensures
        normalized_set(names, domain) == names.to_set(),
{
    assert forall|c: Seq<char>| normalized_set(names, domain).contains(c) <==> names.to_set().contains(c) by {
        if names.contains(c) {
            let j = choose|j: int| 0 <= j < names.len() && names[j] == c;
            assert(is_normalized(names[j], domain));
        }
        if normalized_set(names, domain).contains(c) {
            assert(yielded_by(c, names, names.len() as int, domain));
            let j = choose|j: int| 0 <= j < names.len() && c == normalize(#[trigger] names[j]);
            assert(is_normalized(names[j], domain));
            assert(names[j] == c);
        }
    }
    assert(normalized_set(names, domain) =~= names.to_set());
}

} // verus!

verus! {

/// The name of a common label under `domain`.
pub open spec fn label_name(label: Seq<char>, domain: Seq<char>) -> Seq<char> {
    label.add(seq!['.']).add(domain)
}

/// The raw names of each naming source, as character sequences.
pub open spec fn source_views(sources: Seq<Vec<String>>) -> Seq<Seq<Seq<char>>> {
    sources.map_values(|v: Vec<String>| strs(v@))
}

/// Every candidate that the naming sources and the common labels yield.
pub open spec fn candidate_pool(
    sources: Seq<Seq<Seq<char>>>,
    labels: Seq<Seq<char>>,
    domain: Seq<char>,
) -> Set<Seq<char>> {
    Set::new(
        |c: Seq<char>|
            (exists|k: int| 0 <= k < sources.len() && #[trigger] normalized_set(sources[k], domain).contains(c))
            || (accepted(c, domain) && exists|l: int| 0 <= l < labels.len() && c == label_name(#[trigger] labels[l], domain)),
    )
}

/// No two names that differ in case only.
pub open spec fn case_distinct(names: Seq<Seq<char>>) -> bool {
    forall|i: int, j: int| 0 <= i < j < names.len() ==> lower_of(#[trigger] names[i]) != lower_of(#[trigger] names[j])
}

/// Some name of `names` is `c` up to case.
pub open spec fn covered(names: Seq<Seq<char>>, c: Seq<char>) -> bool {
    exists|i: int| 0 <= i < names.len() && lower_of(#[trigger] names[i]) == lower_of(c)
}

/// `keys` holds the lowercase form of each name, with no repeats.
spec fn keyed(names: Seq<String>, keys: Seq<String>) -> bool {
    &&& names.len() == keys.len()
    &&& forall|i: int| 0 <= i < names.len() ==> (#[trigger] keys[i])@ == lower_of(names[i]@)
    &&& strs(keys).no_duplicates()
}

/// Adds `c` unless a name equal to it up to case is already there.
fn admit_name(names: &mut Vec<String>, keys: &mut Vec<String>, c: String)
    requires
        keyed(old(names)@, old(keys)@),
    ensures
        keyed(final(names)@, final(keys)@),
        strs(final(names)@) == strs(old(names)@) || strs(final(names)@) == strs(old(names)@).push(c@),
        covered(strs(final(names)@), c@),
        forall|x: Seq<char>| covered(strs(old(names)@), x) ==> covered(strs(final(names)@), x),
{
    let key = lowercase(c.as_str());
    let ghost on = names@;
    let ghost ok = keys@;
    if contains_str(keys, &key) {
        proof {
            let k = choose|k: int| 0 <= k < strs(ok).len() && strs(ok)[k] == key@;
            assert(strs(on)[k] == on[k]@);
            assert(lower_of(strs(on)[k]) == lower_of(c@));
        }
        return;
    }
    names.push(c);
    keys.push(key);
    proof {
        lemma_push_contains(ok, key);
        assert(strs(names@) =~= strs(on).push(c@));
        assert(strs(names@)[on.len() as int] == c@);
        assert forall|i: int| 0 <= i < names@.len() implies (#[trigger] keys@[i])@ == lower_of(names@[i]@) by {
            if i < on.len() {
                assert(keys@[i] == ok[i]);
                assert(names@[i] == on[i]);
            }
        }
        assert forall|x: Seq<char>| covered(strs(on), x) implies covered(strs(names@), x) by {
            let i = choose|i: int| 0 <= i < strs(on).len() && lower_of(#[trigger] strs(on)[i]) == lower_of(x);
            assert(strs(names@)[i] == strs(on)[i]);
        }
    }
}

/// Distinct keys mean distinct lowercase forms.
proof fn lemma_keyed_case_distinct(names: Seq<String>, keys: Seq<String>)
    requires
        keyed(names, keys),
    ensures
        case_distinct(strs(names)),
{
    assert forall|i: int, j: int| 0 <= i < j < strs(names).len() implies lower_of(#[trigger] strs(names)[i])
        != lower_of(#[trigger] strs(names)[j]) by {
        assert(strs(keys)[i] == keys[i]@);
        assert(strs(keys)[j] == keys[j]@);
    }
}

/// Merges the raw names that each naming source returned (an empty list for
/// a source that failed) with the common labels under `domain`: every
/// resulting name is a normalized source name or a labelled name, every such
/// candidate is present up to case, and no two names differ in case only.
pub fn aggregate(domain: &str, sources: &Vec<Vec<String>>, labels: &Vec<String>) -> (r: Vec<String>)
    ensures
        forall|i: int| 0 <= i < r@.len() ==> accepted(#[trigger] r@[i]@, domain@),
        forall|i: int| 0 <= i < r@.len() ==>
            candidate_pool(source_views(sources@), strs(labels@), domain@).contains(#[trigger] r@[i]@),
        forall|c: Seq<char>| candidate_pool(source_views(sources@), strs(labels@), domain@).contains(c)
            ==> covered(strs(r@), c),
        case_distinct(strs(r@)),
{
    let ghost sv = source_views(sources@);
    let ghost lv = strs(labels@);
    let ghost pool = candidate_pool(sv, lv, domain@);
    let mut names: Vec<String> = Vec::new();
    let mut keys: Vec<String> = Vec::new();
    let mut k: usize = 0;
    while k < sources.len()
        invariant
            k <= sources@.len(),
            sv == source_views(sources@),
            lv == strs(labels@),
            pool == candidate_pool(sv, lv, domain@),
            keyed(names@, keys@),
            forall|i: int| 0 <= i < names@.len() ==> pool.contains(#[trigger] names@[i]@),
            forall|c: Seq<char>, k2: int| 0 <= k2 < k && #[trigger] normalized_set(sv[k2], domain@).contains(c)
                ==> covered(strs(names@), c),
        decreases sources@.len() - k,
    {
        let list = sources[k].clone();
        proof {
            assert forall|i: int| 0 <= i < list@.len() implies list@[i] == sources@[k as int]@[i] by {
                assert(cloned::<String>(sources@[k as int][i], list[i]));
            }
            assert(list@ =~= sources@[k as int]@);
            assert(sv[k as int] == strs(list@));
        }
        let found = filter_subs(list, domain);
        let ghost fs = strs(found@);
        let mut m: usize = 0;
        while m < found.len()
            invariant
                k < sources@.len(),
                m <= found@.len(),
                fs == strs(found@),
                fs.to_set() == normalized_set(sv[k as int], domain@),
                sv == source_views(sources@),
                pool == candidate_pool(sv, lv, domain@),
                keyed(names@, keys@),
                forall|i: int| 0 <= i < names@.len() ==> pool.contains(#[trigger] names@[i]@),
                forall|c: Seq<char>, k2: int| 0 <= k2 < k && #[trigger] normalized_set(sv[k2], domain@).contains(c)
                    ==> covered(strs(names@), c),
                forall|m2: int| 0 <= m2 < m ==> covered(strs(names@), #[trigger] fs[m2]),
            decreases found@.len() - m,
        {
            let ghost on = names@;
            proof {
                assert(fs.to_set().contains(fs[m as int]));
                assert(normalized_set(sv[k as int], domain@).contains(found@[m as int]@));
            }
            admit_name(&mut names, &mut keys, found[m].clone());
            proof {
                assert forall|i: int| 0 <= i < names@.len() implies pool.contains(#[trigger] names@[i]@) by {
                    assert(strs(names@)[i] == names@[i]@);
                    if i < on.len() {
                        assert(strs(on)[i] == on[i]@);
                    }
                }
                assert forall|m2: int| 0 <= m2 < m + 1 implies covered(strs(names@), #[trigger] fs[m2]) by {
                    if m2 < m {
                        assert(covered(strs(on), fs[m2]));
                    }
                }
            }
            m = m + 1;
        }
        proof {
            assert forall|c: Seq<char>, k2: int| 0 <= k2 < k + 1 && #[trigger] normalized_set(sv[k2], domain@).contains(c)
                implies covered(strs(names@), c) by {
                if k2 == k {
                    assert(fs.to_set().contains(c));
                    let m2 = choose|m2: int| 0 <= m2 < fs.len() && fs[m2] == c;
                    assert(covered(strs(names@), fs[m2]));
                }
            }
        }
        k = k + 1;
    }
    let mut l: usize = 0;
    while l < labels.len()
        invariant
            l <= labels@.len(),
            sv == source_views(sources@),
            lv == strs(labels@),
            pool == candidate_pool(sv, lv, domain@),
            keyed(names@, keys@),
            forall|i: int| 0 <= i < names@.len() ==> pool.contains(#[trigger] names@[i]@),
            forall|c: Seq<char>, k2: int| 0 <= k2 < sv.len() && #[trigger] normalized_set(sv[k2], domain@).contains(c)
                ==> covered(strs(names@), c),
            forall|l2: int| 0 <= l2 < l && accepted(label_name(lv[l2], domain@), domain@)
                ==> covered(strs(names@), label_name(#[trigger] lv[l2], domain@)),
        decreases labels@.len() - l,
    {
        let mut name = labels[l].clone();
        proof {
            reveal_strlit(".");
        }
        name.append(".");
        name.append(domain);
        assert(lv[l as int] == labels@[l as int]@);
        assert(name@ =~= label_name(lv[l as int], domain@));
        if is_candidate(name.as_str(), domain) {
            let ghost on = names@;
            proof {
                assert(pool.contains(name@));
            }
            admit_name(&mut names, &mut keys, name);
            proof {
                assert forall|i: int| 0 <= i < names@.len() implies pool.contains(#[trigger] names@[i]@) by {
                    assert(strs(names@)[i] == names@[i]@);
                    if i < on.len() {
                        assert(strs(on)[i] == on[i]@);
                    }
                }
            }
        }
        l = l + 1;
    }
    proof {
        assert forall|c: Seq<char>| pool.contains(c) implies covered(strs(names@), c) by {
            if exists|k2: int| 0 <= k2 < sv.len() && #[trigger] normalized_set(sv[k2], domain@).contains(c) {
                let k2 = choose|k2: int| 0 <= k2 < sv.len() && #[trigger] normalized_set(sv[k2], domain@).contains(c);
                assert(covered(strs(names@), c));
            } else {
                let l2 = choose|l2: int| 0 <= l2 < lv.len() && c == label_name(#[trigger] lv[l2], domain@);
                assert(covered(strs(names@), label_name(lv[l2], domain@)));
            }
        }
        assert forall|i: int| 0 <= i < names@.len() implies accepted(#[trigger] names@[i]@, domain@) by {
            assert(pool.contains(names@[i]@));
            if exists|k2: int| 0 <= k2 < sv.len() && #[trigger] normalized_set(sv[k2], domain@).contains(names@[i]@) {
                let k2 = choose|k2: int| 0 <= k2 < sv.len() && #[trigger] normalized_set(sv[k2], domain@).contains(names@[i]@);
                assert(yielded_by(names@[i]@, sv[k2], sv[k2].len() as int, domain@));
            }
        }
    }
    proof {
        lemma_keyed_case_distinct(names@, keys@);
    }
    names
}

} // verus!

verus! {

/// The well-known labels tried under every domain besides what the naming
/// sources report.
pub open spec fn top_labels() -> Seq<Seq<char>> {
    seq!["www"@, "mail"@, "remote"@, "blog"@, "webmail"@, "server"@, "ns1"@, "ns2"@, "smtp"@, "secure"@, "vpn"@, "m"@, "shop"@, "ftp"@, "mail2"@, "test"@, "portal"@, "ns"@, "ww1"@, "host"@, "dev"@, "support"@, "admin"@, "web"@, "api"@, "cloud"@, "data"@, "app"@, "autodiscover"@, "autoconfig"@]
}

/// The well-known labels, in a fresh list.
pub fn top_subdomains() -> (r: Vec<String>)
    ensures
        strs(r@) == top_labels(),
{
    let r = vec![
        String::from_str("www"),
        String::from_str("mail"),
        String::from_str("remote"),
        String::from_str("blog"),
        String::from_str("webmail"),
        String::from_str("server"),
        String::from_str("ns1"),
        String::from_str("ns2"),
        String::from_str("smtp"),
        String::from_str("secure"),
        String::from_str("vpn"),
        String::from_str("m"),
        String::from_str("shop"),
        String::from_str("ftp"),
        String::from_str("mail2"),
        String::from_str("test"),
        String::from_str("portal"),
        String::from_str("ns"),
        String::from_str("ww1"),
        String::from_str("host"),
        String::from_str("dev"),
        String::from_str("support"),
        String::from_str("admin"),
        String::from_str("web"),
        String::from_str("api"),
        String::from_str("cloud"),
        String::from_str("data"),
        String::from_str("app"),
        String::from_str("autodiscover"),
        String::from_str("autoconfig"),
    ];
    assert(strs(r@) =~= top_labels());
    r
}

} // verus!
