//! Joining the answers of all batches, assigning values to variables, and
//! merging the values of several rules by output.
use vstd::prelude::*;
use crate::error::LadeError;
use crate::maps::StrMap;
use crate::response::vals;

verus! {

/// The union of `ms`, where a later map wins on a shared key.
pub open spec fn union_of(ms: Seq<Map<Seq<char>, Seq<char>>>) -> Map<Seq<char>, Seq<char>>
    decreases ms.len(),
{
    if ms.len() == 0 {
        Map::empty()
    } else {
        union_of(ms.drop_last()).union_prefer_right(ms.last())
    }
}

/// A key of the union takes its value from the last map that holds it: of
/// two rules that set one variable, the later one wins.
pub proof fn lemma_later_wins(ms: Seq<Map<Seq<char>, Seq<char>>>, j: int, k: Seq<char>)
    requires
        0 <= j < ms.len(),
        ms[j].contains_key(k),
        forall|l: int| j < l < ms.len() ==> !(#[trigger] ms[l]).contains_key(k),
    ensures
        union_of(ms).contains_key(k),
        union_of(ms)[k] == ms[j][k],
    decreases ms.len(),
{
    if j < ms.len() - 1 {
        assert(ms.drop_last()[j] == ms[j]);
        assert forall|l: int| j < l < ms.drop_last().len() implies !(
        #[trigger] ms.drop_last()[l]).contains_key(k) by {
            assert(ms.drop_last()[l] == ms[l]);
        }
        lemma_later_wins(ms.drop_last(), j, k);
        assert(!ms[ms.len() - 1].contains_key(k));
    }
}

/// The values of the successful results, an empty map for a failed one.
pub open spec fn result_maps(rs: Seq<Result<StrMap<String>, LadeError>>) -> Seq<
    Map<Seq<char>, Seq<char>>,
> {
    rs.map_values(
        |r: Result<StrMap<String>, LadeError>|
            match r {
                Ok(m) => vals(m@),
                Err(_) => Map::empty(),
            },
    )
}

/// Joins the results of all batches, given in the order in which they
/// completed, with the values known without a call: the first failure if any
/// failed, else the union of all.
pub fn combine(completed: Vec<Result<StrMap<String>, LadeError>>, immediate: &StrMap<String>) -> (r:
    Result<StrMap<String>, LadeError>)
    requires
        immediate.wf(),
        forall|i: int| 0 <= i < completed@.len() ==> (#[trigger] completed@[i] matches Ok(m) ==> m.wf()),
    ensures
        (r is Err) <==> exists|i: int| 0 <= i < completed@.len() && #[trigger] completed@[i] is Err,
        r matches Err(e) ==> exists|i: int|
            0 <= i < completed@.len() && completed@[i] == Err::<StrMap<String>, LadeError>(e) && forall|
                j: int,
            | 0 <= j < i ==> #[trigger] completed@[j] is Ok,
        r matches Ok(h) ==> h.wf() && vals(h@) == union_of(
            seq![vals(immediate@)] + result_maps(completed@),
        ),
{
    let ghost rs = completed@;
    let mut results = completed;
    let ghost ms = seq![vals(immediate@)] + result_maps(rs);
    let mut h = immediate.duplicate();
    let mut i: usize = 0;
    proof {
        assert(ms.take(1).drop_last() =~= Seq::<Map<Seq<char>, Seq<char>>>::empty());
        assert(ms.take(1).last() == vals(immediate@));
        assert(vals(h@) =~= vals(immediate@));
        assert(union_of(ms.take(1).drop_last()) == Map::<Seq<char>, Seq<char>>::empty());
        assert(vals(h@) =~= union_of(ms.take(1)));
    }
    while i < results.len()
        invariant
            rs == completed@,
            results@ == rs,
            ms == seq![vals(immediate@)] + result_maps(rs),
            i <= rs.len(),
            h.wf(),
            forall|j: int| 0 <= j < rs.len() ==> (#[trigger] rs[j] matches Ok(m) ==> m.wf()),
            forall|j: int| 0 <= j < i ==> #[trigger] rs[j] is Ok,
            vals(h@) == union_of(ms.take(i + 1)),
        decreases rs.len() - i,
    {
        match &results[i] {
            Ok(m) => {
                h.extend(m);
                proof {
                    assert(ms.take(i + 2).drop_last() =~= ms.take(i + 1));
                    assert(ms[i + 1] == vals(m@));
                    assert(vals(h@) =~= union_of(ms.take(i + 1)).union_prefer_right(vals(m@)));
                }
            },
            Err(_) => {
                let first = results.remove(i);
                match first {
                    Err(e) => {
                        proof {
                            assert(rs[i as int] is Err);
                            assert(rs[i as int] == Err::<StrMap<String>, LadeError>(e));
                            assert(forall|j: int| 0 <= j < i ==> #[trigger] rs[j] is Ok);
                        }
                        return Err(e);
                    },
                    Ok(_) => {
                        proof {
                            assert(false);
                        }
                        return Ok(h);
                    },
                }
            },
        }
        i = i + 1;
    }
    proof {
        assert(ms.take(i + 1) =~= ms);
    }
    Ok(h)
}

/// Gives each variable of `env` the value its reference resolved to.
pub fn assign(env: &StrMap<String>, hydration: &StrMap<String>) -> (r: Result<StrMap<String>, LadeError>)
    requires
        env.wf(),
        hydration.wf(),
    ensures
        r is Ok <==> forall|k: Seq<char>| #[trigger]
            env@.contains_key(k) ==> hydration@.contains_key(env@[k]@),
        r matches Ok(h) ==> h.wf() && h@.dom() == env@.dom() && forall|k: Seq<char>| #[trigger]
            h@.contains_key(k) ==> h@[k]@ == hydration@[env@[k]@]@,
        r matches Err(e) ==> e matches LadeError::Unresolved(s) && exists|k: Seq<char>| #[trigger]
            env@.contains_key(k) && env@[k]@ == s@ && !hydration@.contains_key(s@),
{
    broadcast use StrMap::lemma_view_is_pairs, StrMap::lemma_pairs_distinct;

    let mut h: StrMap<String> = StrMap::new();
    let mut i: usize = 0;
    while i < env.len()
        invariant
            env.wf(),
            hydration.wf(),
            h.wf(),
            i <= env.pairs().len(),
            forall|k: Seq<char>| #[trigger]
                h@.contains_key(k) == crate::maps::map_of(env.pairs().take(i as int)).contains_key(k),
            forall|k: Seq<char>| #[trigger]
                h@.contains_key(k) ==> env@.contains_key(k) && h@[k]@ == hydration@[env@[k]@]@,
            forall|j: int| 0 <= j < i ==> hydration@.contains_key((#[trigger] env.pairs()[j]).1@),
        decreases env.pairs().len() - i,
    {
        let (k, reference) = env.entry(i);
        proof {
            assert(env.pairs().take((i + 1) as int).drop_last() =~= env.pairs().take(i as int));
            StrMap::lemma_pairs_distinct(env);
            StrMap::lemma_view_is_pairs(env);
            crate::maps::lemma_map_of_entry(env.pairs(), i as int);
            assert(env@.contains_key(k@) && env@[k@]@ == reference@);
        }
        match hydration.get(reference.as_str()) {
            Some(v) => {
                h.insert(String::from_str(k.as_str()), String::from_str(v.as_str()));
            },
            None => {
                proof {
                    assert(!hydration@.contains_key(reference@));
                }
                return Err(LadeError::Unresolved(String::from_str(reference.as_str())));
            },
        }
        i = i + 1;
    }
    proof {
        assert(env.pairs().take(i as int) =~= env.pairs());
        assert(h@.dom() =~= env@.dom());
        assert forall|k: Seq<char>| #[trigger]
            env@.contains_key(k) implies hydration@.contains_key(env@[k]@) by {
            crate::maps::lemma_map_of_domain(env.pairs(), k);
            let j = choose|j: int| 0 <= j < env.pairs().len() && env.pairs()[j].0@ == k;
            StrMap::lemma_pairs_distinct(env);
            crate::maps::lemma_map_of_entry(env.pairs(), j);
        }
    }
    Ok(h)
}

/// The values of the rules that matched a command, by output: those for the
/// environment, and those for each file.
#[derive(Debug)]
pub struct Outputs {
    pub env: Option<StrMap<String>>,
    pub files: StrMap<StrMap<String>>,
}

impl Outputs {
    pub open spec fn wf(&self) -> bool {
        &&& self.env matches Some(m) ==> m.wf()
        &&& self.files.wf()
        &&& forall|k: Seq<char>| #[trigger] self.files@.contains_key(k) ==> self.files@[k].wf()
    }

    pub fn new() -> (r: Self)
        ensures
            r.wf(),
            r.env is None,
            r.files@ == Map::<Seq<char>, StrMap<String>>::empty(),
    {
        Outputs { env: None, files: StrMap::new() }
    }

    /// Adds the values of one rule to those of its output; a variable set
    /// before takes the new value.
    pub fn merge(&mut self, output: Option<String>, values: &StrMap<String>)
        requires
            old(self).wf(),
            values.wf(),
        ensures
            final(self).wf(),
            match output {
                None => {
                    &&& final(self).files@ == old(self).files@
                    &&& final(self).env matches Some(m) && vals(m@) == (match old(self).env {
                        Some(o) => vals(o@),
                        None => Map::empty(),
                    }).union_prefer_right(vals(values@))
                },
                Some(p) => {
                    &&& final(self).env == old(self).env
                    &&& final(self).files@.dom() == old(self).files@.dom().insert(p@)
                    &&& forall|k: Seq<char>|
                        k != p@ && #[trigger] final(self).files@.contains_key(k)
                            ==> final(self).files@[k] == old(self).files@[k]
                    &&& vals(final(self).files@[p@]@) == (if old(self).files@.contains_key(p@) {
                        vals(old(self).files@[p@]@)
                    } else {
                        Map::empty()
                    }).union_prefer_right(vals(values@))
                },
            },
    {
        match output {
            None => {
                let mut cur = match &self.env {
                    Some(m) => m.duplicate(),
                    None => StrMap::new(),
                };
                let ghost start = vals(cur@);
                cur.extend(values);
                proof {
                    assert(vals(cur@) =~= start.union_prefer_right(vals(values@)));
                }
                self.env = Some(cur);
            },
            Some(p) => {
                let mut cur = match self.files.get(p.as_str()) {
                    Some(m) => m.duplicate(),
                    None => StrMap::new(),
                };
                let ghost start = vals(cur@);
                cur.extend(values);
                proof {
                    assert(vals(cur@) =~= start.union_prefer_right(vals(values@)));
                }
                let ghost old_files = self.files@;
                self.files.insert(p, cur);
                proof {
                    assert(self.files@.dom() =~= old_files.dom().insert(p@));
                }
            },
        }
    }
}

/// Splits merged values into those for the environment and those for files.
pub fn split_env_files(hydration: Outputs) -> (r: (StrMap<String>, StrMap<StrMap<String>>))
    requires
        hydration.wf(),
    ensures
        r.0.wf(),
        r.1.wf(),
        vals(r.0@) == (match hydration.env {
            Some(m) => vals(m@),
            None => Map::empty(),
        }),
        r.1@ == hydration.files@,
{
    let env = match hydration.env {
        Some(m) => m,
        None => StrMap::new(),
    };
    proof {
        if hydration.env is None {
            assert(vals(env@) =~= Map::empty());
        }
    }
    (env, hydration.files)
}

} // verus!
