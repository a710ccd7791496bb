use vstd::prelude::*;

use crate::discovery::strs;
use crate::model::opt_view;

verus! {

/// The answers of a DNS lookup for each name, as character sequences.
pub open spec fn answer_views(answers: Seq<Option<String>>) -> Seq<Option<Seq<char>>> {
    answers.map_values(|a: Option<String>| opt_view(a))
}

/// The resolved pairs of (name, address) as character sequences.
pub open spec fn pair_views(pairs: Seq<(String, String)>) -> Seq<(Seq<char>, Seq<char>)> {
    pairs.map_values(|p: (String, String)| (p.0@, p.1@))
}

/// The names that resolved, each with its first address, in the order given;
/// a name without an answer is left out.
pub open spec fn resolved_spec(names: Seq<Seq<char>>, answers: Seq<Option<Seq<char>>>) -> Seq<(Seq<char>, Seq<char>)>
    decreases names.len(),
{
    if names.len() == 0 || answers.len() == 0 {
        Seq::empty()
    } else {
        let prev = resolved_spec(names.drop_last(), answers.drop_last());
        match answers.last() {
            Some(ip) => prev.push((names.last(), ip)),
            None => prev,
        }
    }
}

/// Pairs each name with its first resolved address; names whose lookup
/// failed are dropped.
pub fn resolved_hosts(names: &Vec<String>, answers: &Vec<Option<String>>) -> (r: Vec<(String, String)>)
    requires
        names@.len() == answers@.len(),
    ensures
        pair_views(r@) == resolved_spec(strs(names@), answer_views(answers@)),
{
    let mut out: Vec<(String, String)> = Vec::new();
    let mut i: usize = 0;
    while i < names.len()
        invariant
            i <= names@.len(),
            names@.len() == answers@.len(),
            pair_views(out@) == resolved_spec(strs(names@).take(i as int), answer_views(answers@).take(i as int)),
        decreases names@.len() - i,
    {
        let ghost prev = out@;
        proof {
            let nv = strs(names@).take(i + 1);
            let av = answer_views(answers@).take(i + 1);
            assert(nv.drop_last() =~= strs(names@).take(i as int));
            assert(av.drop_last() =~= answer_views(answers@).take(i as int));
            assert(av.last() == opt_view(answers@[i as int]));
            assert(nv.last() == names@[i as int]@);
        }
        match &answers[i] {
            Some(ip) => {
                out.push((names[i].clone(), ip.clone()));
                assert(pair_views(out@) =~= pair_views(prev).push((names@[i as int]@, ip@)));
            },
            None => {},
        }
        i = i + 1;
    }
    assert(strs(names@).take(i as int) =~= strs(names@));
    assert(answer_views(answers@).take(i as int) =~= answer_views(answers@));
    out
}

} // verus!
