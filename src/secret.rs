//! Rules and their secret specifications, and the choice of one reference per
//! variable for the acting user.
use vstd::prelude::*;
use crate::text::{opt_view};
use crate::maps::{StrMap, map_of};
use crate::text::{starts_with, has_prefix};

verus! {

/// A secret specification: one reference for everybody, or one per user,
/// where the user `.` stands for everybody else and `None` for no secret.
#[derive(Debug)]
pub enum LadeSecret {
    Secret(String),
    User(StrMap<Option<String>>),
}

/// The output settings of a rule.
#[derive(Debug)]
pub struct RuleConfig {
    /// A file, relative to the rule's directory, that receives the values.
    pub file: Option<String>,
    /// A secret whose value authenticates the 1Password CLI.
    pub onepassword_service_account: Option<LadeSecret>,
}

/// The secrets that one command pattern asks for.
#[derive(Debug)]
pub struct LadeRule {
    pub config: Option<RuleConfig>,
    pub secrets: StrMap<LadeSecret>,
}

pub open spec fn dot() -> Seq<char> {
    seq!['.']
}

/// The reference that a specification gives for `user`: the user's own
/// entry if there is one, else the `.` entry; an entry set to `None` gives
/// nothing.
pub open spec fn selected(secret: LadeSecret, user: Option<Seq<char>>) -> Option<Seq<char>> {
    match secret {
        LadeSecret::Secret(v) => Some(v@),
        LadeSecret::User(m) => {
            let entry = if user is Some && m@.contains_key(user->0) {
                Some(m@[user->0])
            } else if m@.contains_key(dot()) {
                Some(m@[dot()])
            } else {
                None
            };
            match entry {
                Some(Some(v)) => Some(v@),
                _ => None,
            }
        },
    }
}

impl LadeSecret {
    pub open spec fn wf(&self) -> bool {
        match self {
            LadeSecret::Secret(_) => true,
            LadeSecret::User(m) => m.wf(),
        }
    }
}

impl RuleConfig {
    pub open spec fn wf(&self) -> bool {
        self.onepassword_service_account matches Some(s) ==> s.wf()
    }
}

impl LadeRule {
    pub open spec fn wf(&self) -> bool {
        &&& self.secrets.wf()
        &&& forall|k: Seq<char>| #[trigger]
            self.secrets@.contains_key(k) ==> self.secrets@[k].wf()
        &&& self.config matches Some(c) ==> c.wf()
    }

    /// The variables this rule's secrets resolve to for `user`, each with its
    /// reference; a variable whose specification gives nothing is left out.
    pub open spec fn selection(&self, user: Option<Seq<char>>) -> Map<Seq<char>, Seq<char>> {
        Map::new(
            |k: Seq<char>| self.secrets@.contains_key(k) && selected(self.secrets@[k], user) is Some,
            |k: Seq<char>| selected(self.secrets@[k], user)->0,
        )
    }
}

fn copy_opt(o: &Option<String>) -> (r: Option<String>)
    ensures
        opt_view(r) == opt_view(*o),
{
    match o {
        Some(s) => Some(String::from_str(s.as_str())),
        None => None,
    }
}

/// Picks the reference of `secret` for `user`.
pub fn resolve_lade_secret(secret: &LadeSecret, user: &Option<String>) -> (r: Option<String>)
    requires
        secret.wf(),
    ensures
        opt_view(r) == selected(*secret, opt_view(*user)),
{
    match secret {
        LadeSecret::Secret(v) => Some(String::from_str(v.as_str())),
        LadeSecret::User(m) => {
            let own = match user {
                Some(u) => m.get(u.as_str()),
                None => None,
            };
            let entry = match own {
                Some(e) => Some(e),
                None => m.get("."),
            };
            proof {
                reveal_strlit(".");
                assert("."@ =~= dot());
            }
            match entry {
                Some(e) => copy_opt(e),
                None => None,
            }
        },
    }
}

/// The map from variable name to reference that `rule` gives for `user`.
pub fn select_secrets(rule: &LadeRule, user: &Option<String>) -> (r: StrMap<String>)
    requires
        rule.wf(),
    ensures
        r.wf(),
        forall|k: Seq<char>| #[trigger]
            r@.contains_key(k) == rule.selection(opt_view(*user)).contains_key(k),
        forall|k: Seq<char>| #[trigger]
            r@.contains_key(k) ==> r@[k]@ == rule.selection(opt_view(*user))[k],
{
    broadcast use StrMap::lemma_view_is_pairs, StrMap::lemma_pairs_distinct;

    let ghost u = opt_view(*user);
    let ghost sel = rule.selection(u);
    let mut r: StrMap<String> = StrMap::new();
    let mut i: usize = 0;
    while i < rule.secrets.len()
        invariant
            r.wf(),
            rule.wf(),
            u == opt_view(*user),
            sel == rule.selection(u),
            i <= rule.secrets.pairs().len(),
            forall|k: Seq<char>| #[trigger]
                r@.contains_key(k) == (map_of(rule.secrets.pairs().take(i as int)).contains_key(k)
                    && sel.contains_key(k)),
            forall|k: Seq<char>| #[trigger] r@.contains_key(k) ==> r@[k]@ == sel[k],
        decreases rule.secrets.pairs().len() - i,
    {
        let (k, s) = rule.secrets.entry(i);
        proof {
            StrMap::lemma_view_is_pairs(&rule.secrets);
            assert(rule.secrets.pairs().take((i + 1) as int).drop_last() =~= rule.secrets.pairs().take(
                i as int,
            ));
            StrMap::lemma_pairs_distinct(&rule.secrets);
            crate::maps::lemma_map_of_entry(rule.secrets.pairs(), i as int);
            assert(rule.secrets@.contains_key(k@));
            assert(rule.secrets@[k@] == *s);
            assert(rule.secrets.pairs().take((i + 1) as int).last() == rule.secrets.pairs()[i as int]);
        }
        match resolve_lade_secret(s, user) {
            Some(v) => {
                r.insert(String::from_str(k.as_str()), v);
            },
            None => {},
        }
        i = i + 1;
    }
    proof {
        assert(rule.secrets.pairs().take(i as int) =~= rule.secrets.pairs());
    }
    r
}

/// The reference of the secret that authenticates a backend before the main
/// pass, when the rule names one and it resolves for `user`.
pub fn bootstrap_reference(rule: &LadeRule, user: &Option<String>) -> (r: Option<String>)
    requires
        rule.wf(),
    ensures
        opt_view(r) == (match rule.config {
            Some(c) => match c.onepassword_service_account {
                Some(s) => selected(s, opt_view(*user)),
                None => None,
            },
            None => None,
        }),
{
    match &rule.config {
        Some(c) => match &c.onepassword_service_account {
            Some(s) => resolve_lade_secret(s, user),
            None => None,
        },
        None => None,
    }
}

/// `sub` read from directory `dir`: itself when absolute, else appended with
/// one `/` between.
pub open spec fn joined_path(dir: Seq<char>, sub: Seq<char>) -> Seq<char> {
    if has_prefix(sub, seq!['/']) {
        sub
    } else if dir.len() > 0 && dir.last() == '/' {
        dir + sub
    } else {
        dir + seq!['/'] + sub
    }
}

pub fn join_path(dir: &str, sub: &str) -> (r: String)
    ensures
        r@ == joined_path(dir@, sub@),
{
    proof {
        reveal_strlit("/");
        assert("/"@ =~= seq!['/']);
    }
    if starts_with(sub, "/") {
        return String::from_str(sub);
    }
    let n = dir.unicode_len();
    let mut r = String::from_str(dir);
    let ends_with_slash = n > 0 && dir.get_char(n - 1) == '/';
    if !ends_with_slash {
        r.append("/");
    }
    r.append(sub);
    proof {
        if !has_prefix(sub@, seq!['/']) {
            if ends_with_slash {
                assert(r@ =~= dir@ + sub@);
            } else {
                assert(r@ =~= dir@ + seq!['/'] + sub@);
            }
        }
    }
    r
}

/// The file that receives a rule's values, read from the rule's directory;
/// `None` for the environment.
pub fn rule_output(rule: &LadeRule, origin: &str) -> (r: Option<String>)
    ensures
        opt_view(r) == (match rule.config {
            Some(c) => match c.file {
                Some(f) => Some(joined_path(origin@, f@)),
                None => None,
            },
            None => None,
        }),
{
    match &rule.config {
        Some(c) => match &c.file {
            Some(f) => Some(join_path(origin, f.as_str())),
            None => None,
        },
        None => None,
    }
}

} // verus!
