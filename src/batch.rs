//! Grouping of claimed references into batches, one external call each.
use vstd::prelude::*;
use crate::reference::{ProviderKind, pair_views};
use crate::text::views;

verus! {

/// Where one reference is fetched: its provider, the key of the call that
/// fetches it, and the field that call's answer holds it under.
#[derive(Debug)]
pub struct Target {
    pub provider: ProviderKind,
    pub key: Vec<String>,
    pub field: String,
    pub reference: String,
}

/// One external call: the references it fetches, each with its field.
#[derive(Debug)]
pub struct Batch {
    pub provider: ProviderKind,
    pub key: Vec<String>,
    /// Pairs of field and reference.
    pub members: Vec<(String, String)>,
}

pub open spec fn target_key(t: Target) -> (ProviderKind, Seq<Seq<char>>) {
    (t.provider, views(t.key@))
}

pub open spec fn member_of(t: Target) -> (Seq<char>, Seq<char>) {
    (t.field@, t.reference@)
}

pub open spec fn batch_key(b: Batch) -> (ProviderKind, Seq<Seq<char>>) {
    (b.provider, views(b.key@))
}

pub open spec fn batch_members(b: Batch) -> Seq<(Seq<char>, Seq<char>)> {
    pair_views(b.members@)
}

/// The grouping of `ts` into `bs`: one batch per distinct key, none empty,
/// each target in the batch of its key, and nothing else in any batch.
/// Some batch of `bs` has the key of `t` and holds it.
pub open spec fn placed(t: Target, bs: Seq<Batch>) -> bool {
    exists|b: int|
        0 <= b < bs.len() && batch_key(bs[b]) == target_key(t) && batch_members(bs[b]).contains(
            member_of(t),
        )
}

pub open spec fn grouped(ts: Seq<Target>, bs: Seq<Batch>) -> bool {
    &&& forall|b1: int, b2: int|
        0 <= b1 < b2 < bs.len() ==> batch_key(#[trigger] bs[b1]) != batch_key(#[trigger] bs[b2])
    &&& forall|b: int| 0 <= b < bs.len() ==> (#[trigger] bs[b]).members@.len() > 0
    &&& forall|j: int| 0 <= j < ts.len() ==> #[trigger] placed(ts[j], bs)
    &&& forall|b: int, m: int|
        #![trigger batch_members(bs[b])[m]]
        0 <= b < bs.len() && 0 <= m < bs[b].members@.len() ==> exists|j: int|
            #![trigger ts[j]]
            0 <= j < ts.len() && target_key(ts[j]) == batch_key(bs[b]) && member_of(ts[j])
                == batch_members(bs[b])[m]
}

pub fn copy_strings(v: &Vec<String>) -> (r: Vec<String>)
    ensures
        views(r@) == views(v@),
{
    let mut r: Vec<String> = Vec::new();
    let mut i: usize = 0;
    while i < v.len()
        invariant
            i <= v@.len(),
            r@.len() == i,
            forall|j: int| 0 <= j < i ==> r@[j]@ == v@[j]@,
        decreases v@.len() - i,
    {
        r.push(String::from_str(v[i].as_str()));
        i = i + 1;
    }
    proof {
        assert(views(r@) =~= views(v@));
    }
    r
}

pub fn strings_eq(a: &Vec<String>, b: &Vec<String>) -> (r: bool)
    ensures
        r == (views(a@) == views(b@)),
{
    if a.len() != b.len() {
        proof {
            assert(views(a@).len() != views(b@).len());
        }
        return false;
    }
    let mut i: usize = 0;
    while i < a.len()
        invariant
            a@.len() == b@.len(),
            i <= a@.len(),
            forall|j: int| 0 <= j < i ==> a@[j]@ == b@[j]@,
        decreases a@.len() - i,
    {
        if !crate::text::str_eq(a[i].as_str(), b[i].as_str()) {
            proof {
                assert(views(a@)[i as int] != views(b@)[i as int]);
            }
            return false;
        }
        i = i + 1;
    }
    proof {
        assert(views(a@) =~= views(b@));
    }
    true
}

fn same_key(x: &Target, y: &Target) -> (r: bool)
    ensures
        r == (target_key(*x) == target_key(*y)),
{
    x.provider == y.provider && strings_eq(&x.key, &y.key)
}

/// `b` holds exactly the targets of `ts` whose key is its own, and at least one.
#[verifier::opaque]
pub open spec fn batch_for(ts: Seq<Target>, b: Batch) -> bool {
    &&& b.members@.len() > 0
    &&& forall|m: int|
        0 <= m < b.members@.len() ==> exists|j: int|
            0 <= j < ts.len() && target_key(ts[j]) == batch_key(b) && member_of(ts[j])
                == #[trigger] batch_members(b)[m]
    &&& forall|j: int|
        0 <= j < ts.len() && target_key(#[trigger] ts[j]) == batch_key(b) ==> batch_members(
            b,
        ).contains(member_of(ts[j]))
}

/// The batch of the targets whose key is that of `ts[f]`, in order.
fn batch_like(ts: &Vec<Target>, f: usize) -> (r: Batch)
    requires
        f < ts@.len(),
    ensures
        batch_key(r) == target_key(ts@[f as int]),
        batch_for(ts@, r),
{
    let mut members: Vec<(String, String)> = Vec::new();
    // The target that each member comes from, and where each target went.
    let ghost mut src: Seq<int> = Seq::empty();
    let ghost mut at: Seq<int> = Seq::empty();
    let mut j: usize = 0;
    while j < ts.len()
        invariant
            f < ts@.len(),
            j <= ts@.len(),
            src.len() == members@.len(),
            at.len() == j,
            forall|m: int|
                0 <= m < members@.len() ==> 0 <= #[trigger] src[m] < j && target_key(ts@[src[m]])
                    == target_key(ts@[f as int]) && member_of(ts@[src[m]]) == pair_views(
                    members@,
                )[m],
            forall|i: int|
                0 <= i < j && target_key(ts@[i]) == target_key(ts@[f as int]) ==> 0 <= #[trigger] at[i]
                    < members@.len() && pair_views(members@)[at[i]] == member_of(ts@[i]),
        decreases ts@.len() - j,
    {
        if same_key(&ts[j], &ts[f]) {
            let ghost before = members@;
            members.push(
                (String::from_str(ts[j].field.as_str()), String::from_str(ts[j].reference.as_str())),
            );
            proof {
                assert(pair_views(members@) =~= pair_views(before).push(member_of(ts@[j as int])));
                src = src.push(j as int);
                at = at.push(before.len() as int);
            }
        } else {
            proof {
                at = at.push(-1);
            }
        }
        j = j + 1;
    }
    let r = Batch { provider: ts[f].provider, key: copy_strings(&ts[f].key), members };
    proof {
        reveal(batch_for);
        assert(0 <= at[f as int] < r.members@.len());
        assert forall|m: int| 0 <= m < r.members@.len() implies exists|i: int|
            0 <= i < ts@.len() && target_key(ts@[i]) == batch_key(r) && member_of(ts@[i])
                == #[trigger] batch_members(r)[m] by {
            assert(0 <= src[m] < ts@.len());
        }
        assert forall|i: int|
            0 <= i < ts@.len() && target_key(#[trigger] ts@[i]) == batch_key(r) implies batch_members(
                r,
            ).contains(member_of(ts@[i])) by {
            assert(batch_members(r)[at[i]] == member_of(ts@[i]));
        }
    }
    r
}

/// Each member of a grouped batch comes from a target with the batch's key.
pub proof fn lemma_member_source(ts: Seq<Target>, bs: Seq<Batch>, b: int, m: int) -> (j: int)
    requires
        grouped(ts, bs),
        0 <= b < bs.len(),
        0 <= m < bs[b].members@.len(),
    ensures
        0 <= j < ts.len(),
        target_key(ts[j]) == batch_key(bs[b]),
        member_of(ts[j]) == batch_members(bs[b])[m],
{
    assert(batch_members(bs[b])[m] == batch_members(bs[b])[m]);
    choose|j: int|
        0 <= j < ts.len() && target_key(ts[j]) == batch_key(bs[b]) && member_of(ts[j])
            == batch_members(bs[b])[m]
}

/// Groups `ts` into one batch per distinct provider and key, in the order in
/// which the keys first occur.
pub fn group(ts: &Vec<Target>) -> (r: Vec<Batch>)
    ensures
        grouped(ts@, r@),
{
    // The position of the first target of each distinct key, and for each
    // target the entry of `firsts` that has its key.
    let mut firsts: Vec<usize> = Vec::new();
    let ghost mut which: Seq<int> = Seq::empty();
    let mut i: usize = 0;
    while i < ts.len()
        invariant
            i <= ts@.len(),
            which.len() == i,
            forall|a: int| 0 <= a < firsts@.len() ==> #[trigger] firsts@[a] < i,
            forall|a: int, b: int|
                0 <= a < b < firsts@.len() ==> target_key(ts@[#[trigger] firsts@[a] as int])
                    != target_key(ts@[#[trigger] firsts@[b] as int]),
            forall|j: int|
                0 <= j < i ==> 0 <= #[trigger] which[j] < firsts@.len() && target_key(
                    ts@[firsts@[which[j]] as int],
                ) == target_key(ts@[j]),
        decreases ts@.len() - i,
    {
        let mut a: usize = 0;
        let mut found = false;
        let ghost mut hit: int = 0;
        while a < firsts.len()
            invariant
                i < ts@.len(),
                a <= firsts@.len(),
                forall|x: int| 0 <= x < firsts@.len() ==> #[trigger] firsts@[x] < i,
                found ==> 0 <= hit < firsts@.len() && target_key(ts@[firsts@[hit] as int])
                    == target_key(ts@[i as int]),
                !found ==> forall|x: int|
                    0 <= x < a ==> target_key(ts@[#[trigger] firsts@[x] as int]) != target_key(
                        ts@[i as int],
                    ),
            decreases firsts@.len() - a,
        {
            if !found && same_key(&ts[firsts[a]], &ts[i]) {
                found = true;
                proof {
                    hit = a as int;
                }
            }
            a = a + 1;
        }
        if !found {
            let ghost before = firsts@;
            firsts.push(i);
            proof {
                assert(firsts@[before.len() as int] == i);
                assert forall|x: int| 0 <= x < firsts@.len() implies #[trigger] firsts@[x] < i + 1 by {
                    if x < before.len() {
                        assert(firsts@[x] == before[x]);
                    }
                }
                assert forall|x: int, y: int|
                    0 <= x < y < firsts@.len() implies target_key(ts@[#[trigger] firsts@[x] as int])
                        != target_key(ts@[#[trigger] firsts@[y] as int]) by {
                    assert(firsts@[x] == before[x]);
                    if y < before.len() {
                        assert(firsts@[y] == before[y]);
                    }
                }
                assert forall|j: int| 0 <= j < i implies #[trigger] firsts@[which[j]] == before[which[j]] by {
                }
                which = which.push(before.len() as int);
            }
        } else {
            proof {
                which = which.push(hit);
            }
        }
        i = i + 1;
    }
    let mut r: Vec<Batch> = Vec::new();
    let mut b: usize = 0;
    while b < firsts.len()
        invariant
            i == ts@.len(),
            b <= firsts@.len(),
            r@.len() == b,
            which.len() == i,
            forall|a: int| 0 <= a < firsts@.len() ==> #[trigger] firsts@[a] < i,
            forall|a: int, c: int|
                0 <= a < c < firsts@.len() ==> target_key(ts@[#[trigger] firsts@[a] as int])
                    != target_key(ts@[#[trigger] firsts@[c] as int]),
            forall|j: int|
                0 <= j < i ==> 0 <= #[trigger] which[j] < firsts@.len() && target_key(
                    ts@[firsts@[which[j]] as int],
                ) == target_key(ts@[j]),
            forall|x: int|
                0 <= x < b ==> batch_key(#[trigger] r@[x]) == target_key(ts@[firsts@[x] as int])
                    && batch_for(ts@, r@[x]),
        decreases firsts@.len() - b,
    {
        let batch = batch_like(ts, firsts[b]);
        r.push(batch);
        b = b + 1;
    }
    proof {
        reveal(batch_for);
        assert forall|b1: int, b2: int|
            0 <= b1 < b2 < r@.len() implies batch_key(#[trigger] r@[b1]) != batch_key(
                #[trigger] r@[b2],
            ) by {
            assert(target_key(ts@[firsts@[b1] as int]) != target_key(ts@[firsts@[b2] as int]));
        }
        assert forall|x: int| 0 <= x < r@.len() implies (#[trigger] r@[x]).members@.len() > 0 by {
            assert(batch_for(ts@, r@[x]));
        }
        assert forall|j: int| 0 <= j < ts@.len() implies #[trigger] placed(ts@[j], r@) by {
            let x = which[j];
            assert(0 <= x < r@.len());
            assert(batch_for(ts@, r@[x]));
            assert(batch_key(r@[x]) == target_key(ts@[j]));
            assert(batch_members(r@[x]).contains(member_of(ts@[j])));
        }
        assert forall|x: int, m: int|
            0 <= x < r@.len() && 0 <= m < r@[x].members@.len() implies exists|j: int|
                0 <= j < ts@.len() && target_key(ts@[j]) == batch_key(r@[x]) && member_of(ts@[j])
                    == #[trigger] batch_members(r@[x])[m] by {
            assert(batch_for(ts@, r@[x]));
        }
    }
    r
}

} // verus!
