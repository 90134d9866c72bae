//! The router that takes references, and the plan of external calls that
//! resolves them.
use vstd::prelude::*;
use crate::text::{opt_view, copied};
use crate::batch::{Batch, Target, batch_key, batch_members, group, placed};
use crate::error::LadeError;
use crate::response::key_shaped;
use crate::maps::StrMap;
use crate::reference::{
    Locator, LocatorView, ProviderKind, Raw, find_query, first_query, parsed_url, raw_value, route,
    route_of,
};
use crate::secret::{join_path, joined_path};
use crate::text::{
    decimal, decimal_string, has_prefix, join, joined, percent_decode, url_decoded, replace,
    replaced, split, split_by, starts_with, views,
};

verus! {

pub open spec fn slash() -> Seq<char> {
    seq!['/']
}

pub open spec fn path_pieces(l: LocatorView) -> Seq<Seq<char>> {
    split_by(l.path, slash())
}

/// The host, followed by `:` and the port when the URL names one.
pub open spec fn host_port(l: LocatorView) -> Option<Seq<char>> {
    match l.host {
        Some(h) => Some(
            match l.port {
                Some(p) => h + seq![':'] + decimal(p as nat),
                None => h,
            },
        ),
        None => None,
    }
}

/// The folder of an Infisical secret: the path pieces between the
/// environment and the name.
pub open spec fn secret_path(p: Seq<Seq<char>>) -> Seq<char> {
    slash() + joined(p.subrange(3, p.len() - 1), slash())
}

/// The template a 1Password reference becomes: without `host/`, and with
/// `%20` read as a space.
pub open spec fn op_template(s: Seq<char>, host: Seq<char>) -> Seq<char> {
    replaced(replaced(s, host + slash(), Seq::empty()), seq!['%', '2', '0'], seq![' '])
}

pub open spec fn file_scheme_prefix() -> Seq<char> {
    seq!['f', 'i', 'l', 'e', ':', '/', '/']
}

/// The file a `file://` reference reads: the text between the scheme and
/// the query, with a leading `~/` or `$HOME/` read from `home` and any other
/// relative path read from `cwd`.
pub open spec fn file_location(s: Seq<char>, l: LocatorView, cwd: Seq<char>, home: Seq<char>) -> Seq<
    char,
> {
    let a = replaced(s, file_scheme_prefix(), Seq::empty());
    let b = match l.query {
        Some(q) => replaced(a, seq!['?'] + q, Seq::empty()),
        None => a,
    };
    if has_prefix(b, seq!['~', '/']) {
        joined_path(home, b.skip(2))
    } else if has_prefix(b, seq!['$', 'H', 'O', 'M', 'E', '/']) {
        joined_path(home, b.skip(6))
    } else {
        joined_path(cwd, b)
    }
}

/// The key of the call that fetches reference `s` from provider `k`, and the
/// field its answer holds it under; `None` where `s` lacks a part the
/// provider's layout needs.
pub open spec fn target_of(
    k: ProviderKind,
    l: LocatorView,
    s: Seq<char>,
    cwd: Seq<char>,
    home: Seq<char>,
) -> Option<(Seq<Seq<char>>, Seq<char>)> {
    let p = path_pieces(l);
    match k {
        ProviderKind::Doppler => match host_port(l) {
            Some(h) => if p.len() >= 4 {
                Some((seq![h, p[1], p[2]], p[3]))
            } else {
                None
            },
            None => None,
        },
        ProviderKind::Vault => match host_port(l) {
            Some(h) => if p.len() >= 4 {
                Some((seq![h, p[1], url_decoded(p[2])], url_decoded(p[3])))
            } else {
                None
            },
            None => None,
        },
        ProviderKind::Infisical => match host_port(l) {
            Some(h) => if p.len() >= 4 {
                Some((seq![h, p[1], p[2], secret_path(p)], p.last()))
            } else {
                None
            },
            None => None,
        },
        ProviderKind::Passbolt => match l.host {
            Some(h) => if p.len() >= 3 {
                Some((seq![h, p[1]], p[2]))
            } else {
                None
            },
            None => None,
        },
        ProviderKind::OnePassword => match l.host {
            Some(h) => Some((seq![h], op_template(s, h))),
            None => None,
        },
        ProviderKind::File => match first_query(l.query_pairs) {
            Some(q) => Some((seq![file_location(s, l, cwd, home)], q)),
            None => None,
        },
        ProviderKind::Raw => None,
    }
}

/// The number of parts of a provider's keys.
pub open spec fn key_parts(k: ProviderKind) -> nat {
    match k {
        ProviderKind::Doppler | ProviderKind::Vault => 3,
        ProviderKind::Infisical => 4,
        ProviderKind::Passbolt => 2,
        _ => 1,
    }
}

pub proof fn lemma_target_shape(
    k: ProviderKind,
    l: LocatorView,
    s: Seq<char>,
    cwd: Seq<char>,
    home: Seq<char>,
)
    ensures
        target_of(k, l, s, cwd, home) matches Some(t) ==> t.0.len() == key_parts(k),
{
}

/// The target of reference `s` with the provider that claims it.
pub open spec fn target_spec(s: Seq<char>, cwd: Seq<char>, home: Seq<char>) -> Option<
    (Seq<Seq<char>>, Seq<char>),
> {
    target_of(route_of(s), parsed_url(s)->0, s, cwd, home)
}

fn host_port_string(l: &Locator) -> (r: Option<String>)
    ensures
        opt_view(r) == host_port(l@),
{
    match &l.host {
        Some(h) => {
            let mut r = String::from_str(h.as_str());
            match l.port {
                Some(p) => {
                    r.append(":");
                    r.append(decimal_string(p).as_str());
                    proof {
                        reveal_strlit(":");
                        assert(r@ =~= h@ + seq![':'] + decimal(p as nat));
                    }
                },
                None => {},
            }
            Some(r)
        },
        None => None,
    }
}

fn file_location_string(s: &str, l: &Locator, cwd: &str, home: &str) -> (r: String)
    ensures
        r@ == file_location(s@, l@, cwd@, home@),
{
    proof {
        reveal_strlit("file://");
        assert("file://"@ =~= file_scheme_prefix());
        reveal_strlit("");
        reveal_strlit("?");
        reveal_strlit("~/");
        reveal_strlit("$HOME/");
        assert("~/"@ =~= seq!['~', '/']);
        assert("$HOME/"@ =~= seq!['$', 'H', 'O', 'M', 'E', '/']);
        assert(""@ =~= Seq::<char>::empty());
    }
    let a = replace(s, "file://", "");
    let b = match &l.query {
        Some(q) => {
            let mut pat = String::from_str("?");
            pat.append(q.as_str());
            proof {
                assert(pat@ =~= seq!['?'] + q@);
            }
            replace(a.as_str(), pat.as_str(), "")
        },
        None => a,
    };
    let n = b.as_str().unicode_len();
    if starts_with(b.as_str(), "~/") {
        let rest = b.as_str().substring_char(2, n);
        proof {
            assert(rest@ =~= b@.skip(2));
        }
        join_path(home, rest)
    } else if starts_with(b.as_str(), "$HOME/") {
        let rest = b.as_str().substring_char(6, n);
        proof {
            assert(rest@ =~= b@.skip(6));
        }
        join_path(home, rest)
    } else {
        join_path(cwd, b.as_str())
    }
}

/// The target of reference `s`, claimed by `k` and parsed as `l`.
fn target_for(k: ProviderKind, l: &Locator, s: &str, cwd: &str, home: &str) -> (r: Option<
    (Vec<String>, String),
>)
    ensures
        match r {
            Some(t) => target_of(k, l@, s@, cwd@, home@) == Some((views(t.0@), t.1@)),
            None => target_of(k, l@, s@, cwd@, home@) is None,
        },
{
    proof {
        reveal_strlit("/");
        assert("/"@ =~= slash());
    }
    let p = split(l.path.as_str(), "/");
    let ghost pv = views(p@);
    assert(pv == path_pieces(l@));
    match k {
        ProviderKind::Doppler => match host_port_string(l) {
            Some(h) => {
                if p.len() >= 4 {
                    let key = vec![h, copied(p[1].as_str()), copied(p[2].as_str())];
                    proof {
                        assert(views(key@) =~= seq![host_port(l@)->0, pv[1], pv[2]]);
                    }
                    Some((key, copied(p[3].as_str())))
                } else {
                    None
                }
            },
            None => None,
        },
        ProviderKind::Vault => match host_port_string(l) {
            Some(h) => {
                if p.len() >= 4 {
                    let key = vec![h, copied(p[1].as_str()), percent_decode(p[2].as_str())];
                    proof {
                        assert(views(key@) =~= seq![
                            host_port(l@)->0,
                            pv[1],
                            url_decoded(pv[2]),
                        ]);
                    }
                    Some((key, percent_decode(p[3].as_str())))
                } else {
                    None
                }
            },
            None => None,
        },
        ProviderKind::Infisical => match host_port_string(l) {
            Some(h) => {
                if p.len() >= 4 {
                    let mut folder: Vec<String> = Vec::new();
                    let mut i: usize = 3;
                    while i < p.len() - 1
                        invariant
                            3 <= i <= p@.len() - 1,
                            p@.len() >= 4,
                            pv == views(p@),
                            folder@.len() == i - 3,
                            forall|j: int| 0 <= j < folder@.len() ==> folder@[j]@ == pv[3 + j],
                        decreases p@.len() - 1 - i,
                    {
                        folder.push(copied(p[i].as_str()));
                        i = i + 1;
                    }
                    proof {
                        assert(views(folder@) =~= pv.subrange(3, i as int));
                    }
                    let mut path = String::from_str("/");
                    path.append(join(&folder, "/").as_str());
                    let key = vec![h, copied(p[1].as_str()), copied(p[2].as_str()), path];
                    proof {
                        assert(path@ =~= secret_path(pv));
                        assert(views(key@) =~= seq![host_port(l@)->0, pv[1], pv[2], secret_path(pv)]);
                    }
                    Some((key, copied(p[p.len() - 1].as_str())))
                } else {
                    None
                }
            },
            None => None,
        },
        ProviderKind::Passbolt => match &l.host {
            Some(h) => {
                if p.len() >= 3 {
                    let key = vec![copied(h.as_str()), copied(p[1].as_str())];
                    proof {
                        assert(views(key@) =~= seq![h@, pv[1]]);
                    }
                    Some((key, copied(p[2].as_str())))
                } else {
                    None
                }
            },
            None => None,
        },
        ProviderKind::OnePassword => match &l.host {
            Some(h) => {
                let mut hs = copied(h.as_str());
                hs.append("/");
                let a = replace(s, hs.as_str(), "");
                proof {
                    reveal_strlit("");
                    reveal_strlit("%20");
                    reveal_strlit(" ");
                    assert(""@ =~= Seq::<char>::empty());
                    assert("%20"@ =~= seq!['%', '2', '0']);
                    assert(" "@ =~= seq![' ']);
                }
                let field = replace(a.as_str(), "%20", " ");
                let key = vec![copied(h.as_str())];
                proof {
                    assert(views(key@) =~= seq![h@]);
                }
                Some((key, field))
            },
            None => None,
        },
        ProviderKind::File => match find_query(&l.query_pairs) {
            Some(q) => {
                let key = vec![file_location_string(s, l, cwd, home)];
                proof {
                    assert(views(key@) =~= seq![file_location(s@, l@, cwd@, home@)]);
                }
                Some((key, q))
            },
            None => None,
        },
        ProviderKind::Raw => None,
    }
}

/// A reference taken by a provider.
#[derive(Debug)]
pub struct Claim {
    pub provider: ProviderKind,
    pub reference: String,
    pub locator: Option<Locator>,
}

/// The external calls that resolve a set of references, and the values of
/// those that need none.
#[derive(Debug)]
pub struct Plan {
    pub batches: Vec<Batch>,
    pub immediate: StrMap<String>,
}

/// The batches fetch the references of `refs` that go to a backend: one
/// batch per distinct provider and key, none empty, each reference in the
/// batch of its provider and key under its field, and nothing else.
pub open spec fn planned(
    refs: Seq<Seq<char>>,
    bs: Seq<Batch>,
    cwd: Seq<char>,
    home: Seq<char>,
) -> bool {
    &&& forall|b1: int, b2: int|
        0 <= b1 < b2 < bs.len() ==> batch_key(#[trigger] bs[b1]) != batch_key(#[trigger] bs[b2])
    &&& forall|b: int| 0 <= b < bs.len() ==> (#[trigger] bs[b]).members@.len() > 0
    &&& forall|i: int|
        0 <= i < refs.len() && route_of(refs[i]) != ProviderKind::Raw ==> #[trigger] fetched(
            refs[i],
            bs,
            cwd,
            home,
        )
    &&& forall|b: int, m: int|
        0 <= b < bs.len() && 0 <= m < bs[b].members@.len() ==> #[trigger] requested(
            refs,
            bs[b],
            batch_members(bs[b])[m],
            cwd,
            home,
        )
}

/// Some batch has the provider and key of `s` and fetches it under its field.
pub open spec fn fetched(s: Seq<char>, bs: Seq<Batch>, cwd: Seq<char>, home: Seq<char>) -> bool {
    exists|b: int|
        0 <= b < bs.len() && batch_key(bs[b]) == (route_of(s), target_spec(s, cwd, home).unwrap().0)
            && batch_members(bs[b]).contains((target_spec(s, cwd, home).unwrap().1, s))
}

/// Member `m` of batch `b` is a reference of `refs` with the batch's provider
/// and key, under its own field.
pub open spec fn requested(
    refs: Seq<Seq<char>>,
    b: Batch,
    m: (Seq<char>, Seq<char>),
    cwd: Seq<char>,
    home: Seq<char>,
) -> bool {
    &&& refs.contains(m.1)
    &&& route_of(m.1) != ProviderKind::Raw
    &&& target_spec(m.1, cwd, home) matches Some(t) && batch_key(b) == (route_of(m.1), t.0) && m.0
        == t.1
}

/// References that go to one provider under one key are fetched by one and
/// the same batch: a single external call serves all of them.
pub proof fn lemma_one_call_per_key(
    refs: Seq<Seq<char>>,
    bs: Seq<Batch>,
    cwd: Seq<char>,
    home: Seq<char>,
    i: int,
    j: int,
) -> (b: int)
    requires
        planned(refs, bs, cwd, home),
        0 <= i < refs.len(),
        0 <= j < refs.len(),
        route_of(refs[i]) != ProviderKind::Raw,
        route_of(refs[i]) == route_of(refs[j]),
        target_spec(refs[i], cwd, home) is Some,
        target_spec(refs[j], cwd, home) is Some,
        target_spec(refs[i], cwd, home).unwrap().0 == target_spec(refs[j], cwd, home).unwrap().0,
    ensures
        0 <= b < bs.len(),
        batch_members(bs[b]).contains((target_spec(refs[i], cwd, home).unwrap().1, refs[i])),
        batch_members(bs[b]).contains((target_spec(refs[j], cwd, home).unwrap().1, refs[j])),
        forall|c: int| 0 <= c < bs.len() && batch_key(#[trigger] bs[c]) == batch_key(bs[b]) ==> c == b,
{
    assert(fetched(refs[i], bs, cwd, home));
    assert(fetched(refs[j], bs, cwd, home));
    let b = choose|b: int|
        0 <= b < bs.len() && batch_key(bs[b]) == (
            route_of(refs[i]),
            target_spec(refs[i], cwd, home).unwrap().0,
        ) && batch_members(bs[b]).contains((target_spec(refs[i], cwd, home).unwrap().1, refs[i]));
    let b2 = choose|b2: int|
        0 <= b2 < bs.len() && batch_key(bs[b2]) == (
            route_of(refs[j]),
            target_spec(refs[j], cwd, home).unwrap().0,
        ) && batch_members(bs[b2]).contains((target_spec(refs[j], cwd, home).unwrap().1, refs[j]));
    if b < b2 {
        assert(batch_key(bs[b]) != batch_key(bs[b2]));
    } else if b2 < b {
        assert(batch_key(bs[b2]) != batch_key(bs[b]));
    }
    assert forall|c: int| 0 <= c < bs.len() && batch_key(#[trigger] bs[c]) == batch_key(bs[b]) implies c
        == b by {
        if c < b {
            assert(batch_key(bs[c]) != batch_key(bs[b]));
        } else if b < c {
            assert(batch_key(bs[b]) != batch_key(bs[c]));
        }
    }
    b
}

#[derive(Debug)]
pub struct Hydrater {
    claims: Vec<Claim>,
}

impl Hydrater {
    /// The references taken so far, in order.
    pub closed spec fn references(&self) -> Seq<Seq<char>> {
        self.claims@.map_values(|c: Claim| c.reference@)
    }

    pub closed spec fn wf(&self) -> bool {
        &&& forall|i: int|
            0 <= i < self.claims@.len() ==> (#[trigger] self.claims@[i]).provider == route_of(
                self.claims@[i].reference@,
            )
        &&& forall|i: int|
            0 <= i < self.claims@.len() && (#[trigger] self.claims@[i]).provider
                != ProviderKind::Raw ==> (self.claims@[i].locator matches Some(l) && parsed_url(
                self.claims@[i].reference@,
            ) == Some(l@))
        &&& forall|i: int, j: int|
            0 <= i < j < self.claims@.len() ==> (#[trigger] self.claims@[i]).reference@
                != (#[trigger] self.claims@[j]).reference@
    }

    pub fn new() -> (r: Self)
        ensures
            r.wf(),
            r.references() == Seq::<Seq<char>>::empty(),
    {
        let r = Hydrater { claims: Vec::new() };
        proof {
            assert(r.references() =~= Seq::<Seq<char>>::empty());
        }
        r
    }

    /// Hands `value` to the first provider that accepts it; the raw provider
    /// accepts everything. A reference taken before is not taken twice.
    pub fn add(&mut self, value: String) -> (r: Result<(), LadeError>)
        requires
            old(self).wf(),
        ensures
            r is Ok,
            final(self).wf(),
            final(self).references() == if old(self).references().contains(value@) {
                old(self).references()
            } else {
                old(self).references().push(value@)
            },
    {
        let mut i: usize = 0;
        while i < self.claims.len()
            invariant
                *self == *old(self),
                self.wf(),
                i <= self.claims@.len(),
                forall|j: int| 0 <= j < i ==> self.claims@[j].reference@ != value@,
            decreases self.claims@.len() - i,
        {
            if crate::text::str_eq(self.claims[i].reference.as_str(), value.as_str()) {
                proof {
                    assert(self.references()[i as int] == value@);
                }
                return Ok(());
            }
            i = i + 1;
        }
        proof {
            assert(!self.references().contains(value@)) by {
                if self.references().contains(value@) {
                    let j = choose|j: int|
                        0 <= j < self.references().len() && self.references()[j] == value@;
                    assert(self.claims@[j].reference@ == value@);
                }
            }
        }
        let (provider, locator) = route(value.as_str());
        let ghost old_claims = self.claims@;
        self.claims.push(Claim { provider, reference: value, locator });
        proof {
            assert(self.references() =~= old(self).references().push(value@));
            assert forall|a: int, b: int|
                0 <= a < b < self.claims@.len() implies (#[trigger] self.claims@[a]).reference@
                    != (#[trigger] self.claims@[b]).reference@ by {
                assert(self.claims@[a] == old_claims[a]);
                if b < old_claims.len() {
                    assert(self.claims@[b] == old_claims[b]);
                }
            }
            assert forall|a: int| 0 <= a < self.claims@.len() implies (#[trigger] self.claims@[
                a
            ]).provider == route_of(self.claims@[a].reference@) by {
                if a < old_claims.len() {
                    assert(self.claims@[a] == old_claims[a]);
                }
            }
            assert forall|a: int|
                0 <= a < self.claims@.len() && (#[trigger] self.claims@[a]).provider
                    != ProviderKind::Raw implies (self.claims@[a].locator matches Some(l)
                && parsed_url(self.claims@[a].reference@) == Some(l@)) by {
                if a < old_claims.len() {
                    assert(self.claims@[a] == old_claims[a]);
                }
            }
        }
        Ok(())
    }

    /// The calls that resolve the references taken: each reference that goes
    /// to a backend is put in the batch of its provider and key, and each
    /// other reference is resolved at once to its literal.
    pub fn plan(&self, cwd: &str, home: &str) -> (r: Result<Plan, LadeError>)
        requires
            self.wf(),
        ensures
            match r {
                Ok(p) => {
                    &&& forall|i: int|
                        0 <= i < self.references().len() && route_of(self.references()[i])
                            != ProviderKind::Raw ==> (#[trigger] target_spec(
                            self.references()[i],
                            cwd@,
                            home@,
                        )) is Some
                    &&& planned(self.references(), p.batches@, cwd@, home@)
                    &&& forall|b: int| 0 <= b < p.batches@.len() ==> key_shaped(#[trigger] p.batches@[b])
                    &&& p.immediate.wf()
                    &&& forall|k: Seq<char>| #[trigger]
                        p.immediate@.contains_key(k) == (self.references().contains(k) && route_of(
                            k,
                        ) == ProviderKind::Raw)
                    &&& forall|k: Seq<char>| #[trigger]
                        p.immediate@.contains_key(k) ==> p.immediate@[k]@ == raw_value(k)
                },
                Err(e) => e is MalformedReference && exists|i: int|
                    0 <= i < self.references().len() && route_of(self.references()[i])
                        != ProviderKind::Raw && (#[trigger] target_spec(
                        self.references()[i],
                        cwd@,
                        home@,
                    )) is None,
            },
    {
        let ghost refs = self.references();
        let mut targets: Vec<Target> = Vec::new();
        let mut raw = Raw::new();
        // For each target the claim it comes from, and for each claim that
        // goes to a backend its target.
        let ghost mut src: Seq<int> = Seq::empty();
        let ghost mut at: Seq<int> = Seq::empty();
        let mut i: usize = 0;
        while i < self.claims.len()
            invariant
                self.wf(),
                refs == self.references(),
                i <= self.claims@.len(),
                src.len() == targets@.len(),
                at.len() == i,
                forall|j: int|
                    0 <= j < targets@.len() ==> 0 <= #[trigger] src[j] < i && route_of(refs[src[j]])
                        != ProviderKind::Raw && target_spec(refs[src[j]], cwd@, home@) == Some(
                        (views(targets@[j].key@), targets@[j].field@),
                    ) && targets@[j].provider == route_of(refs[src[j]])
                        && targets@[j].reference@ == refs[src[j]],
                forall|c: int|
                    0 <= c < i && route_of(refs[c]) != ProviderKind::Raw ==> 0 <= #[trigger] at[c]
                        < targets@.len() && src[at[c]] == c,
                forall|c: int|
                    0 <= c < i && route_of(refs[c]) != ProviderKind::Raw ==> #[trigger] target_spec(
                        refs[c],
                        cwd@,
                        home@,
                    ) is Some,
                forall|k: Seq<char>| #[trigger]
                    raw.taken().contains(k) == (exists|c: int|
                        0 <= c < i && refs[c] == k && route_of(k) == ProviderKind::Raw),
            decreases self.claims@.len() - i,
        {
            let c = &self.claims[i];
            proof {
                assert(refs[i as int] == c.reference@);
                assert(c.provider == route_of(refs[i as int]));
                if c.provider != ProviderKind::Raw {
                    assert(c.locator matches Some(l) && parsed_url(refs[i as int]) == Some(l@));
                }
            }
            if c.provider == ProviderKind::Raw {
                let ghost before = raw.taken();
                raw.add(copied(c.reference.as_str()));
                proof {
                    assert forall|k: Seq<char>| #[trigger]
                        raw.taken().contains(k) == (exists|x: int|
                            0 <= x < i + 1 && refs[x] == k && route_of(k) == ProviderKind::Raw) by {
                        if k == c.reference@ {
                            assert(refs[i as int] == k);
                            assert(raw.taken()[before.len() as int] == k);
                        }
                        if raw.taken().contains(k) && k != c.reference@ {
                            let j = choose|j: int| 0 <= j < raw.taken().len() && raw.taken()[j] == k;
                            assert(before[j] == k);
                        }
                        if before.contains(k) {
                            let j = choose|j: int| 0 <= j < before.len() && before[j] == k;
                            assert(raw.taken()[j] == k);
                        }
                    }
                    at = at.push(-1);
                }
            } else {
                let l = match &c.locator {
                    Some(l) => l,
                    None => {
                        proof {
                            assert(false);
                        }
                        return Err(LadeError::MalformedReference(copied(c.reference.as_str())));
                    },
                };
                match target_for(c.provider, l, c.reference.as_str(), cwd, home) {
                    Some((key, field)) => {
                        let ghost before = targets@;
                        targets.push(
                            Target { provider: c.provider, key, field, reference: copied(c.reference.as_str()) },
                        );
                        proof {
                            src = src.push(i as int);
                            at = at.push(before.len() as int);
                            assert forall|j: int|
                                0 <= j < targets@.len() implies 0 <= #[trigger] src[j] < i + 1
                                && route_of(refs[src[j]]) != ProviderKind::Raw && target_spec(
                                refs[src[j]],
                                cwd@,
                                home@,
                            ) == Some((views(targets@[j].key@), targets@[j].field@))
                                && targets@[j].provider == route_of(refs[src[j]])
                                && targets@[j].reference@ == refs[src[j]] by {
                                if j < before.len() {
                                    assert(targets@[j] == before[j]);
                                }
                            }
                        }
                    },
                    None => {
                        proof {
                            assert(target_spec(refs[i as int], cwd@, home@) is None);
                        }
                        return Err(LadeError::MalformedReference(copied(c.reference.as_str())));
                    },
                }
                proof {
                    assert forall|k: Seq<char>| #[trigger]
                        raw.taken().contains(k) == (exists|x: int|
                            0 <= x < i + 1 && refs[x] == k && route_of(k) == ProviderKind::Raw) by {
                        if raw.taken().contains(k) {
                            let x = choose|x: int|
                                0 <= x < i && refs[x] == k && route_of(k) == ProviderKind::Raw;
                        }
                    }
                }
            }
            i = i + 1;
        }
        let batches = group(&targets);
        let immediate = raw.resolve();
        proof {
            let ts = targets@;
            assert forall|x: int|
                0 <= x < refs.len() && route_of(refs[x]) != ProviderKind::Raw implies #[trigger] fetched(
                refs[x],
                batches@,
                cwd@,
                home@,
            ) by {
                let j = at[x];
                assert(placed(ts[j], batches@));
            }
            assert forall|b: int, m: int|
                0 <= b < batches@.len() && 0 <= m < batches@[b].members@.len() implies #[trigger] requested(
                refs,
                batches@[b],
                batch_members(batches@[b])[m],
                cwd@,
                home@,
            ) by {
                let j = crate::batch::lemma_member_source(ts, batches@, b, m);
                assert(refs[src[j]] == ts[j].reference@);
                assert(refs.contains(ts[j].reference@));
            }
            assert forall|b: int| 0 <= b < batches@.len() implies key_shaped(#[trigger] batches@[b]) by {
                let j = crate::batch::lemma_member_source(ts, batches@, b, 0);
                let r = refs[src[j]];
                lemma_target_shape(route_of(r), parsed_url(r)->0, r, cwd@, home@);
                assert(views(batches@[b].key@).len() == batches@[b].key@.len());
            }
            assert forall|k: Seq<char>| #[trigger]
                immediate@.contains_key(k) == (refs.contains(k) && route_of(k) == ProviderKind::Raw) by {
                if refs.contains(k) && route_of(k) == ProviderKind::Raw {
                    let x = choose|x: int| 0 <= x < refs.len() && refs[x] == k;
                    assert(0 <= x < i && refs[x] == k);
                }
            }
        }
        Ok(Plan { batches, immediate })
    }
}

} // verus!
