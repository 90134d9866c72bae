//! Secret references: their parsing as URLs and the provider each one goes to.
use vstd::prelude::*;
use crate::text::{opt_view};
use crate::text::str_eq;

verus! {

/// The parts of a parsed URL that the providers read.
#[derive(Debug)]
pub struct Locator {
    pub scheme: String,
    pub host: Option<String>,
    pub port: Option<u16>,
    pub path: String,
    /// The query as written, without its `?`.
    pub query: Option<String>,
    /// The query's key/value pairs, percent-decoded.
    pub query_pairs: Vec<(String, String)>,
}

pub struct LocatorView {
    pub scheme: Seq<char>,
    pub host: Option<Seq<char>>,
    pub port: Option<u16>,
    pub path: Seq<char>,
    pub query: Option<Seq<char>>,
    pub query_pairs: Seq<(Seq<char>, Seq<char>)>,
}

pub open spec fn pair_views(v: Seq<(String, String)>) -> Seq<(Seq<char>, Seq<char>)> {
    v.map_values(|p: (String, String)| (p.0@, p.1@))
}

impl View for Locator {
    type V = LocatorView;

    open spec fn view(&self) -> LocatorView {
        LocatorView {
            scheme: self.scheme@,
            host: opt_view(self.host),
            port: self.port,
            path: self.path@,
            query: opt_view(self.query),
            query_pairs: pair_views(self.query_pairs@),
        }
    }
}

/// What the WHATWG URL parser makes of a string, where it accepts it.
pub uninterp spec fn parsed_url(s: Seq<char>) -> Option<LocatorView>;

/// Relies on `url::Url::parse` and on the accessors of the parsed URL for its
/// scheme, host, port, path, query and decoded query pairs. A text that
/// starts with `!` has no scheme, and with no base URL it is refused.
#[verifier::external_body]
fn parse_url(s: &str) -> (r: Option<Locator>)
    ensures
        match r {
            Some(l) => parsed_url(s@) == Some(l@),
            None => parsed_url(s@) is None,
        },
        s@.len() > 0 && s@[0] == '!' ==> r is None,
{
    let u = url::Url::parse(s).ok()?;
    Some(Locator {
        scheme: u.scheme().to_string(),
        host: u.host_str().map(|h| h.to_string()),
        port: u.port(),
        path: u.path().to_string(),
        query: u.query().map(|q| q.to_string()),
        query_pairs: u.query_pairs().map(|(k, v)| (k.into_owned(), v.into_owned())).collect(),
    })
}

/// The backends a reference can be resolved by, in the order in which they
/// are offered a reference.
#[derive(PartialEq, Eq, Structural, Clone, Copy, Debug)]
pub enum ProviderKind {
    Doppler,
    Infisical,
    OnePassword,
    Vault,
    Passbolt,
    File,
    Raw,
}

pub open spec fn provider_order() -> Seq<ProviderKind> {
    seq![
        ProviderKind::Doppler,
        ProviderKind::Infisical,
        ProviderKind::OnePassword,
        ProviderKind::Vault,
        ProviderKind::Passbolt,
        ProviderKind::File,
        ProviderKind::Raw,
    ]
}

/// The URL scheme a provider claims.
pub open spec fn scheme_name(k: ProviderKind) -> Seq<char> {
    match k {
        ProviderKind::Doppler => seq!['d', 'o', 'p', 'p', 'l', 'e', 'r'],
        ProviderKind::Infisical => seq!['i', 'n', 'f', 'i', 's', 'i', 'c', 'a', 'l'],
        ProviderKind::OnePassword => seq!['o', 'p'],
        ProviderKind::Vault => seq!['v', 'a', 'u', 'l', 't'],
        ProviderKind::Passbolt => seq!['p', 'a', 's', 's', 'b', 'o', 'l', 't'],
        ProviderKind::File => seq!['f', 'i', 'l', 'e'],
        ProviderKind::Raw => Seq::empty(),
    }
}

pub open spec fn query_key() -> Seq<char> {
    seq!['q', 'u', 'e', 'r', 'y']
}

/// The value of the first query pair named `query`.
pub open spec fn first_query(pairs: Seq<(Seq<char>, Seq<char>)>) -> Option<Seq<char>>
    decreases pairs.len(),
{
    if pairs.len() == 0 {
        None
    } else if pairs[0].0 == query_key() {
        Some(pairs[0].1)
    } else {
        first_query(pairs.skip(1))
    }
}

/// Whether provider `k` accepts reference `s`: the raw provider accepts
/// everything; the others a URL of their scheme, and the file provider only
/// one that carries a `query`.
pub open spec fn claims(k: ProviderKind, s: Seq<char>) -> bool {
    match k {
        ProviderKind::Raw => true,
        _ => match parsed_url(s) {
            Some(l) => l.scheme == scheme_name(k) && (k == ProviderKind::File ==> first_query(
                l.query_pairs,
            ) is Some),
            None => false,
        },
    }
}

/// The provider that claims `s`: the first in `provider_order` that accepts it.
pub open spec fn route_of(s: Seq<char>) -> ProviderKind {
    if claims(ProviderKind::Doppler, s) {
        ProviderKind::Doppler
    } else if claims(ProviderKind::Infisical, s) {
        ProviderKind::Infisical
    } else if claims(ProviderKind::OnePassword, s) {
        ProviderKind::OnePassword
    } else if claims(ProviderKind::Vault, s) {
        ProviderKind::Vault
    } else if claims(ProviderKind::Passbolt, s) {
        ProviderKind::Passbolt
    } else if claims(ProviderKind::File, s) {
        ProviderKind::File
    } else {
        ProviderKind::Raw
    }
}

/// Every reference is claimed by exactly one provider besides the raw one,
/// or by none and then by the raw one, which accepts everything; routing
/// picks that provider.
pub proof fn lemma_route_unique(s: Seq<char>)
    ensures
        claims(ProviderKind::Raw, s),
        claims(route_of(s), s),
        forall|k1: ProviderKind, k2: ProviderKind|
            k1 != ProviderKind::Raw && k2 != ProviderKind::Raw && #[trigger] claims(k1, s)
                && #[trigger] claims(k2, s) ==> k1 == k2,
        forall|k: ProviderKind| k != ProviderKind::Raw && #[trigger] claims(k, s) ==> route_of(s) == k,
        route_of(s) == ProviderKind::Raw <==> forall|k: ProviderKind|
            k != ProviderKind::Raw ==> !#[trigger] claims(k, s),
        provider_order().contains(route_of(s)),
{
    assert forall|k1: ProviderKind, k2: ProviderKind|
        k1 != ProviderKind::Raw && k2 != ProviderKind::Raw && #[trigger] claims(k1, s)
            && #[trigger] claims(k2, s) implies k1 == k2 by {
        assert(scheme_name(k1).len() == scheme_name(k2).len());
    }
    assert(provider_order()[6] == ProviderKind::Raw);
    let r = route_of(s);
    let i: int = match r {
        ProviderKind::Doppler => 0,
        ProviderKind::Infisical => 1,
        ProviderKind::OnePassword => 2,
        ProviderKind::Vault => 3,
        ProviderKind::Passbolt => 4,
        ProviderKind::File => 5,
        ProviderKind::Raw => 6,
    };
    assert(provider_order()[i] == r);
}

/// The literal that the raw provider gives for `s`: `s` without one leading `!`.
pub open spec fn raw_value(s: Seq<char>) -> Seq<char> {
    if s.len() > 0 && s[0] == '!' {
        s.skip(1)
    } else {
        s
    }
}

/// A reference written `!X` stands for the literal `X`: exactly one leading
/// `!` is taken off.
pub proof fn lemma_bang_escapes(x: Seq<char>)
    ensures
        raw_value(seq!['!'] + x) == x,
{
    assert((seq!['!'] + x).skip(1) =~= x);
}

/// The providers in the order in which they are offered a reference.
pub fn providers() -> (r: Vec<ProviderKind>)
    ensures
        r@ == provider_order(),
{
    let r = vec![
        ProviderKind::Doppler,
        ProviderKind::Infisical,
        ProviderKind::OnePassword,
        ProviderKind::Vault,
        ProviderKind::Passbolt,
        ProviderKind::File,
        ProviderKind::Raw,
    ];
    proof {
        assert(r@ =~= provider_order());
    }
    r
}

/// The provider of literal values: it takes every reference and resolves it
/// to itself without one leading `!`.
#[derive(Debug)]
pub struct Raw {
    values: Vec<String>,
}

impl Raw {
    pub closed spec fn taken(&self) -> Seq<Seq<char>> {
        crate::text::views(self.values@)
    }

    pub fn new() -> (r: Self)
        ensures
            r.taken() == Seq::<Seq<char>>::empty(),
    {
        let r = Raw { values: Vec::new() };
        proof {
            assert(r.taken() =~= Seq::<Seq<char>>::empty());
        }
        r
    }

    pub fn add(&mut self, value: String)
        ensures
            final(self).taken() == old(self).taken().push(value@),
    {
        self.values.push(value);
        proof {
            assert(final(self).taken() =~= old(self).taken().push(value@));
        }
    }

    /// Each reference taken, mapped to its literal.
    pub fn resolve(&self) -> (r: crate::maps::StrMap<String>)
        ensures
            r.wf(),
            forall|k: Seq<char>| #[trigger] r@.contains_key(k) == self.taken().contains(k),
            forall|k: Seq<char>| #[trigger] r@.contains_key(k) ==> r@[k]@ == raw_value(k),
    {
        let mut r: crate::maps::StrMap<String> = crate::maps::StrMap::new();
        let mut i: usize = 0;
        while i < self.values.len()
            invariant
                i <= self.values@.len(),
                r.wf(),
                forall|k: Seq<char>| #[trigger]
                    r@.contains_key(k) == crate::text::views(self.values@).take(i as int).contains(k),
                forall|k: Seq<char>| #[trigger] r@.contains_key(k) ==> r@[k]@ == raw_value(k),
            decreases self.values@.len() - i,
        {
            let v = self.values[i].as_str();
            let n = v.unicode_len();
            let lit = if n > 0 && v.get_char(0) == '!' {
                v.substring_char(1, n)
            } else {
                v
            };
            proof {
                if n > 0 && v@[0] == '!' {
                    assert(lit@ =~= v@.skip(1));
                }
                let t = crate::text::views(self.values@);
                let prev = t.take(i as int);
                let next = t.take(i + 1);
                assert(next =~= prev.push(v@));
                assert forall|k: Seq<char>| #[trigger] next.contains(k) == (prev.contains(k) || k
                    == v@) by {
                    if next.contains(k) && k != v@ {
                        let j = choose|j: int| 0 <= j < next.len() && #[trigger] next[j] == k;
                        assert(prev[j] == k);
                    }
                    if k == v@ {
                        assert(next[i as int] == k);
                    }
                    if prev.contains(k) {
                        let j = choose|j: int| 0 <= j < prev.len() && #[trigger] prev[j] == k;
                        assert(next[j] == k);
                    }
                }
            }
            r.insert(String::from_str(v), String::from_str(lit));
            i = i + 1;
        }
        proof {
            assert(crate::text::views(self.values@).take(i as int) =~= crate::text::views(self.values@));
        }
        r
    }
}

pub fn scheme_str(k: ProviderKind) -> (r: &'static str)
    ensures
        r@ == scheme_name(k),
{
    match k {
        ProviderKind::Doppler => {
            proof {
                reveal_strlit("doppler");
                assert("doppler"@ =~= scheme_name(k));
            }
            "doppler"
        },
        ProviderKind::Infisical => {
            proof {
                reveal_strlit("infisical");
                assert("infisical"@ =~= scheme_name(k));
            }
            "infisical"
        },
        ProviderKind::OnePassword => {
            proof {
                reveal_strlit("op");
                assert("op"@ =~= scheme_name(k));
            }
            "op"
        },
        ProviderKind::Vault => {
            proof {
                reveal_strlit("vault");
                assert("vault"@ =~= scheme_name(k));
            }
            "vault"
        },
        ProviderKind::Passbolt => {
            proof {
                reveal_strlit("passbolt");
                assert("passbolt"@ =~= scheme_name(k));
            }
            "passbolt"
        },
        ProviderKind::File => {
            proof {
                reveal_strlit("file");
                assert("file"@ =~= scheme_name(k));
            }
            "file"
        },
        ProviderKind::Raw => {
            proof {
                reveal_strlit("");
                assert(""@ =~= scheme_name(k));
            }
            ""
        },
    }
}

/// The value of the first query pair named `query`.
pub fn find_query(pairs: &Vec<(String, String)>) -> (r: Option<String>)
    ensures
        opt_view(r) == first_query(pair_views(pairs@)),
{
    proof {
        reveal_strlit("query");
        assert("query"@ =~= query_key());
    }
    let mut i: usize = 0;
    proof {
        assert(pair_views(pairs@).skip(0) =~= pair_views(pairs@));
    }
    while i < pairs.len()
        invariant
            i <= pairs@.len(),
            first_query(pair_views(pairs@)) == first_query(pair_views(pairs@).skip(i as int)),
        decreases pairs@.len() - i,
    {
        let ghost rest = pair_views(pairs@).skip(i as int);
        proof {
            reveal_strlit("query");
            assert("query"@ =~= query_key());
            assert(rest.skip(1) =~= pair_views(pairs@).skip(i + 1));
            assert(rest.len() > 0);
            assert(rest[0] == (pairs@[i as int].0@, pairs@[i as int].1@));
        }
        if str_eq(pairs[i].0.as_str(), "query") {
            proof {
                assert(first_query(rest) == Some(rest[0].1));
            }
            return Some(String::from_str(pairs[i].1.as_str()));
        }
        proof {
            assert(first_query(rest) == first_query(rest.skip(1)));
        }
        i = i + 1;
    }
    None
}

/// The provider that claims `reference`, with the reference parsed as a URL
/// for every provider but the raw one.
pub fn route(reference: &str) -> (r: (ProviderKind, Option<Locator>))
    ensures
        r.0 == route_of(reference@),
        reference@.len() > 0 && reference@[0] == '!' ==> r.0 == ProviderKind::Raw,
        r.0 != ProviderKind::Raw ==> (r.1 matches Some(l) && parsed_url(reference@) == Some(l@)),
{
    match parse_url(reference) {
        Some(l) => {
            let order = [
                ProviderKind::Doppler,
                ProviderKind::Infisical,
                ProviderKind::OnePassword,
                ProviderKind::Vault,
                ProviderKind::Passbolt,
            ];
            let mut i: usize = 0;
            while i < 5
                invariant
                    parsed_url(reference@) == Some(l@),
                    !(reference@.len() > 0 && reference@[0] == '!'),
                    i <= 5,
                    order@ == seq![
                        ProviderKind::Doppler,
                        ProviderKind::Infisical,
                        ProviderKind::OnePassword,
                        ProviderKind::Vault,
                        ProviderKind::Passbolt,
                    ],
                    forall|j: int| 0 <= j < i ==> !claims(#[trigger] order@[j], reference@),
                decreases 5 - i,
            {
                if str_eq(l.scheme.as_str(), scheme_str(order[i])) {
                    return (order[i], Some(l));
                }
                i = i + 1;
            }
            proof {
                assert(!claims(order@[0], reference@));
                assert(!claims(order@[1], reference@));
                assert(!claims(order@[2], reference@));
                assert(!claims(order@[3], reference@));
                assert(!claims(order@[4], reference@));
            }
            if str_eq(l.scheme.as_str(), "file") && find_query(&l.query_pairs).is_some() {
                proof {
                    reveal_strlit("file");
                    assert("file"@ =~= scheme_name(ProviderKind::File));
                }
                return (ProviderKind::File, Some(l));
            }
            proof {
                reveal_strlit("file");
                assert("file"@ =~= scheme_name(ProviderKind::File));
            }
            (ProviderKind::Raw, None)
        },
        None => (ProviderKind::Raw, None),
    }
}

} // verus!
