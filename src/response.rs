//! The external call of each batch, and how its answer maps back to the
//! references of the batch.
use vstd::prelude::*;
use crate::text::{text_of, copied};
use crate::batch::{Batch, batch_members};
use crate::error::LadeError;
use crate::maps::StrMap;
use crate::reference::{ProviderKind, pair_views};
use crate::text::{join, joined, replace, replaced, split, split_by, views};

verus! {

/// The separator put between the templates of a 1Password batch; a secret
/// value that holds it breaks the batch apart wrongly.
pub open spec fn separator() -> Seq<char> {
    text_of("'Km5Ge8AbNc+QSBauOIN0jg'")
}

/// The argument list of the call that fetches batch `b`, program first; empty
/// for a provider that calls nothing.
pub open spec fn command_of(b: Batch) -> Seq<Seq<char>> {
    let k = views(b.key@);
    match b.provider {
        ProviderKind::Doppler => seq![
            text_of("doppler"),
            text_of("--api-host"),
            text_of("https://") + k[0],
            text_of("secrets"),
            text_of("--project"),
            k[1],
            text_of("--config"),
            k[2],
            text_of("--json"),
        ],
        ProviderKind::Infisical => seq![
            text_of("infisical"),
            text_of("--domain"),
            text_of("https://") + k[0] + text_of("/api"),
            text_of("export"),
            text_of("--env"),
            k[2],
            text_of("--path"),
            k[3],
            text_of("--format"),
            text_of("json"),
        ],
        ProviderKind::Vault => seq![
            text_of("vault"),
            text_of("kv"),
            text_of("get"),
            text_of("-address=https://") + k[0],
            text_of("-mount=") + k[1],
            text_of("-format=json"),
            k[2],
        ],
        ProviderKind::Passbolt => seq![
            text_of("passbolt"),
            text_of("get"),
            text_of("resource"),
            text_of("--serverAddress=https://") + k[0],
            text_of("--id=") + k[1],
            text_of("--json"),
        ],
        ProviderKind::OnePassword => seq![text_of("op"), text_of("inject"), text_of("--account"), k[0]],
        _ => Seq::empty(),
    }
}

/// A batch whose key has the parts its provider's layout gives.
pub open spec fn key_shaped(b: Batch) -> bool {
    match b.provider {
        ProviderKind::Doppler | ProviderKind::Vault => b.key@.len() == 3,
        ProviderKind::Infisical => b.key@.len() == 4,
        ProviderKind::Passbolt => b.key@.len() == 2,
        ProviderKind::OnePassword | ProviderKind::File => b.key@.len() == 1,
        ProviderKind::Raw => true,
    }
}

fn cat(a: &str, b: &str) -> (r: String)
    ensures
        r@ == a@ + b@,
{
    let mut r = String::from_str(a);
    r.append(b);
    r
}

/// The plain values of a map of strings.
pub open spec fn vals(m: Map<Seq<char>, String>) -> Map<Seq<char>, Seq<char>> {
    m.map_values(|v: String| v@)
}

/// The map that gives `keys[i]` the value `values[i]`; a later key wins.
pub open spec fn assigned(keys: Seq<Seq<char>>, values: Seq<Seq<char>>) -> Map<Seq<char>, Seq<char>>
    decreases keys.len(),
{
    if keys.len() == 0 {
        Map::empty()
    } else {
        assigned(keys.drop_last(), values.take(keys.len() - 1)).insert(
            keys.last(),
            values[keys.len() - 1],
        )
    }
}

pub proof fn lemma_assigned_step(keys: Seq<Seq<char>>, values: Seq<Seq<char>>, i: int)
    requires
        0 <= i < keys.len(),
        keys.len() <= values.len(),
    ensures
        assigned(keys.take(i + 1), values.take(i + 1)) == assigned(keys.take(i), values.take(i)).insert(
            keys[i],
            values[i],
        ),
{
    assert(keys.take(i + 1).drop_last() =~= keys.take(i));
    assert(values.take(i + 1).take(i) =~= values.take(i));
}

/// The references of a batch, in order.
pub open spec fn member_refs(b: Batch) -> Seq<Seq<char>> {
    batch_members(b).map_values(|p: (Seq<char>, Seq<char>)| p.1)
}

/// The answer's value for each member's field.
pub open spec fn looked_up(ms: Seq<(Seq<char>, Seq<char>)>, answer: Map<Seq<char>, String>) -> Seq<
    Seq<char>,
> {
    ms.map_values(|p: (Seq<char>, Seq<char>)| answer[p.0]@)
}

impl Batch {
    /// The argument list of the external call, program first.
    pub fn command(&self) -> (r: Vec<String>)
        requires
            key_shaped(*self),
        ensures
            views(r@) == command_of(*self),
    {
        let k = &self.key;
        let r = match self.provider {
            ProviderKind::Doppler => vec![
                copied("doppler"),
                copied("--api-host"),
                cat("https://", k[0].as_str()),
                copied("secrets"),
                copied("--project"),
                copied(k[1].as_str()),
                copied("--config"),
                copied(k[2].as_str()),
                copied("--json"),
            ],
            ProviderKind::Infisical => {
                let domain = cat(cat("https://", k[0].as_str()).as_str(), "/api");
                vec![
                    copied("infisical"),
                    copied("--domain"),
                    domain,
                    copied("export"),
                    copied("--env"),
                    copied(k[2].as_str()),
                    copied("--path"),
                    copied(k[3].as_str()),
                    copied("--format"),
                    copied("json"),
                ]
            },
            ProviderKind::Vault => vec![
                copied("vault"),
                copied("kv"),
                copied("get"),
                cat("-address=https://", k[0].as_str()),
                cat("-mount=", k[1].as_str()),
                copied("-format=json"),
                copied(k[2].as_str()),
            ],
            ProviderKind::Passbolt => vec![
                copied("passbolt"),
                copied("get"),
                copied("resource"),
                cat("--serverAddress=https://", k[0].as_str()),
                cat("--id=", k[1].as_str()),
                copied("--json"),
            ],
            ProviderKind::OnePassword => vec![
                copied("op"),
                copied("inject"),
                copied("--account"),
                copied(k[0].as_str()),
            ],
            _ => Vec::new(),
        };
        proof {
            assert(views(r@) =~= command_of(*self));
        }
        r
    }

    /// Where the batch's secrets live, as the key's parts joined by `/`.
    pub fn location(&self) -> (r: String)
        ensures
            r@ == joined(views(self.key@), text_of("/")),
    {
        join(&self.key, "/")
    }

    /// Maps each reference of the batch to the answer's value for its field;
    /// fails on the first member whose field the answer lacks.
    pub fn extract(&self, answer: &StrMap<String>) -> (r: Result<StrMap<String>, LadeError>)
        requires
            answer.wf(),
        ensures
            r is Ok <==> forall|m: int|
                0 <= m < self.members@.len() ==> answer@.contains_key(
                    #[trigger] batch_members(*self)[m].0,
                ),
            r matches Ok(h) ==> h.wf() && vals(h@) == assigned(
                member_refs(*self),
                looked_up(batch_members(*self), answer@),
            ),
            r matches Err(e) ==> (e matches LadeError::SecretNotFound { field, location } && (exists|
                m: int,
            |
                0 <= m < self.members@.len() && !answer@.contains_key(
                    #[trigger] batch_members(*self)[m].0,
                ) && field@ == batch_members(*self)[m].0) && location@ == joined(
                views(self.key@),
                text_of("/"),
            )),
    {
        let ghost ms = batch_members(*self);
        let ghost ks = member_refs(*self);
        let ghost vs = looked_up(ms, answer@);
        let mut h: StrMap<String> = StrMap::new();
        let mut i: usize = 0;
        proof {
            assert(vals(h@) =~= assigned(ks.take(0), vs.take(0)));
        }
        while i < self.members.len()
            invariant
                ms == batch_members(*self),
                ks == member_refs(*self),
                vs == looked_up(ms, answer@),
                answer.wf(),
                h.wf(),
                i <= self.members@.len(),
                forall|m: int| 0 <= m < i ==> answer@.contains_key(#[trigger] ms[m].0),
                vals(h@) == assigned(ks.take(i as int), vs.take(i as int)),
            decreases self.members@.len() - i,
        {
            let (field, reference) = (&self.members[i].0, &self.members[i].1);
            proof {
                assert(ms[i as int] == (field@, reference@));
            }
            match answer.get(field.as_str()) {
                Some(v) => {
                    h.insert(copied(reference.as_str()), copied(v.as_str()));
                    proof {
                        lemma_assigned_step(ks, vs, i as int);
                        assert(vals(h@) =~= assigned(ks.take(i as int), vs.take(i as int)).insert(
                            ks[i as int],
                            vs[i as int],
                        ));
                    }
                },
                None => {
                    proof {
                        assert(!answer@.contains_key(batch_members(*self)[i as int].0));
                    }
                    return Err(
                        LadeError::SecretNotFound { field: copied(field.as_str()), location: self.location() },
                    );
                },
            }
            i = i + 1;
        }
        proof {
            assert(ks.take(i as int) =~= ks);
            assert(vs.take(i as int) =~= vs);
        }
        Ok(h)
    }

    /// The input of a 1Password call: the fields joined by the separator.
    pub fn inject_input(&self) -> (r: String)
        ensures
            r@ == joined(pair_views(self.members@).map_values(|p: (Seq<char>, Seq<char>)| p.0), separator()),
    {
        let mut fields: Vec<String> = Vec::new();
        let mut i: usize = 0;
        while i < self.members.len()
            invariant
                i <= self.members@.len(),
                fields@.len() == i,
                forall|j: int| 0 <= j < i ==> fields@[j]@ == self.members@[j].0@,
            decreases self.members@.len() - i,
        {
            fields.push(copied(self.members[i].0.as_str()));
            i = i + 1;
        }
        proof {
            assert(views(fields@) =~= pair_views(self.members@).map_values(|p: (Seq<char>, Seq<char>)| p.0));
        }
        join(&fields, "'Km5Ge8AbNc+QSBauOIN0jg'")
    }
}

/// Characters with the Unicode `White_Space` property.
pub open spec fn is_space(c: char) -> bool {
    ('\t' <= c && c <= '\r') || c == ' ' || c == '\u{85}' || c == '\u{A0}' || c == '\u{1680}' || (
    '\u{2000}' <= c && c <= '\u{200A}') || c == '\u{2028}' || c == '\u{2029}' || c == '\u{202F}'
        || c == '\u{205F}' || c == '\u{3000}'
}

fn is_space_char(c: char) -> (r: bool)
    ensures
        r == is_space(c),
{
    ('\t' <= c && c <= '\r') || c == ' ' || c == '\u{85}' || c == '\u{A0}' || c == '\u{1680}' || (
    '\u{2000}' <= c && c <= '\u{200A}') || c == '\u{2028}' || c == '\u{2029}' || c == '\u{202F}'
        || c == '\u{205F}' || c == '\u{3000}'
}

/// `s` without white space at either end.
pub open spec fn trimmed(x: Seq<char>) -> Seq<char>
    decreases x.len(),
{
    if x.len() == 0 {
        x
    } else if is_space(x[0]) {
        trimmed(x.skip(1))
    } else if is_space(x.last()) {
        trimmed(x.drop_last())
    } else {
        x
    }
}

pub fn trim(x: &str) -> (r: String)
    ensures
        r@ == trimmed(x@),
{
    let n = x.unicode_len();
    let mut a: usize = 0;
    let mut b: usize = n;
    proof {
        assert(x@.skip(0) =~= x@);
    }
    while a < b && is_space_char(x.get_char(a))
        invariant
            n == x@.len(),
            a <= b == n,
            trimmed(x@) == trimmed(x@.skip(a as int)),
        decreases b - a,
    {
        proof {
            assert(x@.skip(a as int).skip(1) =~= x@.skip(a + 1));
        }
        a = a + 1;
    }
    proof {
        assert(x@.skip(a as int) =~= x@.subrange(a as int, b as int));
    }
    while a < b && is_space_char(x.get_char(b - 1))
        invariant
            n == x@.len(),
            a <= b <= n,
            trimmed(x@) == trimmed(x@.subrange(a as int, b as int)),
            a < b ==> !is_space(x@[a as int]),
        decreases b - a,
    {
        proof {
            let y = x@.subrange(a as int, b as int);
            assert(y.drop_last() =~= x@.subrange(a as int, b - 1));
            assert(y[0] == x@[a as int]);
        }
        b = b - 1;
    }
    let r = x.substring_char(a, b);
    proof {
        let y = x@.subrange(a as int, b as int);
        if a < b {
            assert(y[0] == x@[a as int]);
            assert(y.last() == x@[b - 1]);
        }
        assert(r@ =~= y);
    }
    String::from_str(r)
}

/// The values of a 1Password answer, in the order of the batch: the output
/// trimmed, its line breaks written as `\n`, and cut at the separator.
pub open spec fn injected_values(output: Seq<char>) -> Seq<Seq<char>> {
    split_by(replaced(trimmed(output), text_of("\n"), text_of("\\n")), separator())
}

impl Batch {
    /// Maps each reference of a 1Password batch to its value in the answer.
    pub fn extract_injected(&self, output: &str) -> (r: Result<StrMap<String>, LadeError>)
        ensures
            r is Ok <==> injected_values(output@).len() == self.members@.len(),
            r matches Ok(h) ==> h.wf() && vals(h@) == assigned(
                member_refs(*self),
                injected_values(output@),
            ),
            r matches Err(e) ==> e matches LadeError::BatchMismatch { expected, found } && expected
                == self.members@.len() && found == injected_values(output@).len(),
    {
        let t = trim(output);
        proof {
            reveal_strlit("\n");
            reveal_strlit("\\n");
        }
        let u = replace(t.as_str(), "\n", "\\n");
        proof {
            reveal_strlit("'Km5Ge8AbNc+QSBauOIN0jg'");
        }
        let values = split(u.as_str(), "'Km5Ge8AbNc+QSBauOIN0jg'");
        let ghost vs = injected_values(output@);
        assert(views(values@) == vs);
        if values.len() != self.members.len() {
            return Err(LadeError::BatchMismatch { expected: self.members.len(), found: values.len() });
        }
        let ghost ks = member_refs(*self);
        let mut h: StrMap<String> = StrMap::new();
        let mut i: usize = 0;
        proof {
            assert(vals(h@) =~= assigned(ks.take(0), vs.take(0)));
        }
        while i < self.members.len()
            invariant
                ks == member_refs(*self),
                views(values@) == vs,
                values@.len() == self.members@.len(),
                h.wf(),
                i <= self.members@.len(),
                vals(h@) == assigned(ks.take(i as int), vs.take(i as int)),
            decreases self.members@.len() - i,
        {
            let reference = &self.members[i].1;
            proof {
                assert(ks[i as int] == reference@);
                assert(vs[i as int] == values@[i as int]@);
            }
            h.insert(copied(reference.as_str()), copied(values[i].as_str()));
            proof {
                lemma_assigned_step(ks, vs, i as int);
                assert(vals(h@) =~= assigned(ks.take(i as int), vs.take(i as int)).insert(
                    ks[i as int],
                    vs[i as int],
                ));
            }
            i = i + 1;
        }
        proof {
            assert(ks.take(i as int) =~= ks);
            assert(vs.take(i as int) =~= vs);
        }
        Ok(h)
    }
}

} // verus!
