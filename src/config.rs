//! The cascade of rule files from the working directory up to the root, and
//! the rules that match a command.
use vstd::prelude::*;
use crate::error::LadeError;
use crate::maps::StrMap;
use crate::secret::{LadeRule, joined_path, rule_output};
use crate::text::views;

verus! {

#[verifier::external_type_specification]
#[verifier::external_body]
pub struct ExRegex(regex::Regex);

/// Whether the regex crate accepts `pattern`.
pub uninterp spec fn regex_valid(pattern: Seq<char>) -> bool;

/// Whether `pattern` matches somewhere in `text`.
pub uninterp spec fn regex_finds(pattern: Seq<char>, text: Seq<char>) -> bool;

/// What `pattern` captures in `text`: for each match, leftmost first and
/// without overlap, the matched text and the text of its first group where
/// that group took part.
pub uninterp spec fn regex_captures(pattern: Seq<char>, text: Seq<char>) -> Seq<
    (Seq<char>, Option<Seq<char>>),
>;

pub open spec fn capture_views(v: Seq<(String, Option<String>)>) -> Seq<
    (Seq<char>, Option<Seq<char>>),
> {
    v.map_values(|c: (String, Option<String>)| (c.0@, crate::text::opt_view(c.1)))
}

/// Relies on `regex::Regex::new`: it compiles exactly the valid patterns.
#[verifier::external_body]
fn compile(pattern: &str) -> (r: Option<regex::Regex>)
    ensures
        r is Some == regex_valid(pattern@),
{
    regex::Regex::new(pattern).ok()
}

/// A command pattern with its compiled regular expression.
#[derive(Debug)]
pub struct Pattern {
    source: String,
    compiled: regex::Regex,
}

impl Pattern {
    pub closed spec fn source_view(&self) -> Seq<char> {
        self.source@
    }

    /// Compiles `source`; `None` when it is no valid pattern.
    pub fn new(source: &str) -> (r: Option<Pattern>)
        ensures
            r is Some == regex_valid(source@),
            r matches Some(p) ==> p.source_view() == source@,
    {
        match compile(source) {
            Some(compiled) => Some(Pattern { source: String::from_str(source), compiled }),
            None => None,
        }
    }

    pub fn source(&self) -> (r: &String)
        ensures
            r@ == self.source_view(),
    {
        &self.source
    }

    /// Whether the pattern matches somewhere in `text`.
    pub fn is_match(&self, text: &str) -> (r: bool)
        ensures
            r == regex_finds(self.source_view(), text@),
    {
        search(self, text)
    }

    /// The successive matches in `text`, each with the text of group 1.
    pub fn captures(&self, text: &str) -> (r: Vec<(String, Option<String>)>)
        ensures
            capture_views(r@) == regex_captures(self.source_view(), text@),
    {
        captures_of(self, text)
    }
}

/// Relies on `regex::Regex::captures_iter`: the successive matches of the
/// regex, compiled from the pattern's source by `Pattern::new`, each with the
/// text of group 1.
#[verifier::external_body]
fn captures_of(p: &Pattern, text: &str) -> (r: Vec<(String, Option<String>)>)
    ensures
        capture_views(r@) == regex_captures(p.source_view(), text@),
{
    p.compiled.captures_iter(text).map(|c| (c[0].to_string(), c.get(1).map(|m| m.as_str().to_string()))).collect()
}

/// Relies on `regex::Regex::is_match`: whether the regex, compiled from the
/// pattern's source by `Pattern::new`, matches somewhere in `text`.
#[verifier::external_body]
fn search(p: &Pattern, text: &str) -> (r: bool)
    ensures
        r == regex_finds(p.source_view(), text@),
{
    p.compiled.is_match(text)
}

/// The rules of one rule file by command pattern, each pattern once, in the
/// order of the file.
#[derive(Debug)]
pub struct LadeFile {
    pub commands: StrMap<LadeRule>,
}

/// One rule with its pattern and the directory of its file.
#[derive(Debug)]
pub struct RuleEntry {
    pub pattern: Pattern,
    pub origin: String,
    pub rule: LadeRule,
}

/// The rules of all rule files, root directory first.
#[derive(Debug)]
pub struct Config {
    matches: Vec<RuleEntry>,
}

/// The rules of the files found, given from the working directory up: the
/// pattern, directory and rule of each, root directory first and in file order.
pub open spec fn cascade(found: Seq<(String, LadeFile)>) -> Seq<(Seq<char>, Seq<char>, LadeRule)>
    decreases found.len(),
{
    if found.len() == 0 {
        Seq::empty()
    } else {
        file_rules(found.last()) + cascade(found.drop_last())
    }
}

pub open spec fn file_rules(d: (String, LadeFile)) -> Seq<(Seq<char>, Seq<char>, LadeRule)> {
    dir_rules(d.1.commands.pairs(), d.0@)
}

pub open spec fn dir_rules(cs: Seq<(String, LadeRule)>, dir: Seq<char>) -> Seq<
    (Seq<char>, Seq<char>, LadeRule),
> {
    cs.map_values(|c: (String, LadeRule)| (c.0@, dir, c.1))
}

impl Config {
    /// Pattern, directory and rule of each entry, root directory first.
    pub closed spec fn entries(&self) -> Seq<(Seq<char>, Seq<char>, LadeRule)> {
        self.matches@.map_values(|e: RuleEntry| (e.pattern.source_view(), e.origin@, e.rule))
    }

    pub fn len(&self) -> (r: usize)
        ensures
            r == self.entries().len(),
    {
        self.matches.len()
    }

    pub fn entry(&self, i: usize) -> (r: &RuleEntry)
        requires
            i < self.entries().len(),
        ensures
            (r.pattern.source_view(), r.origin@, r.rule) == self.entries()[i as int],
    {
        &self.matches[i]
    }

    /// The positions of the entries whose pattern matches somewhere in
    /// `command`, in increasing order.
    pub open spec fn matching(&self, command: Seq<char>) -> Seq<usize> {
        matches_upto(self.entries(), command, self.entries().len() as int)
    }

    /// The positions of the entries whose pattern matches somewhere in
    /// `command`, in order, so root directory first.
    pub fn collect(&self, command: &str) -> (r: Vec<usize>)
        ensures
            r@ == self.matching(command@),
            forall|a: int| 0 <= a < r@.len() ==> #[trigger] r@[a] < self.entries().len(),
    {
        let mut r: Vec<usize> = Vec::new();
        let mut i: usize = 0;
        while i < self.matches.len()
            invariant
                i <= self.matches@.len(),
                r@ == matches_upto(self.entries(), command@, i as int),
                forall|a: int| 0 <= a < r@.len() ==> #[trigger] r@[a] < i,
            decreases self.matches@.len() - i,
        {
            proof {
                assert(self.entries()[i as int].0 == self.matches@[i as int].pattern.source_view());
            }
            if self.matches[i].pattern.is_match(command) {
                r.push(i);
            }
            i = i + 1;
        }
        r
    }
}

/// The positions below `n` of the entries whose pattern matches `command`.
pub open spec fn matches_upto(
    es: Seq<(Seq<char>, Seq<char>, LadeRule)>,
    command: Seq<char>,
    n: int,
) -> Seq<usize>
    decreases n,
{
    if n <= 0 {
        Seq::empty()
    } else {
        let prev = matches_upto(es, command, n - 1);
        if regex_finds(es[n - 1].0, command) {
            prev.push((n - 1) as usize)
        } else {
            prev
        }
    }
}

/// The file a rule of directory `dir` writes its values to; `None` for the
/// environment.
pub open spec fn output_of(dir: Seq<char>, rule: LadeRule) -> Option<Seq<char>> {
    match rule.config {
        Some(c) => match c.file {
            Some(f) => Some(joined_path(dir, f@)),
            None => None,
        },
        None => None,
    }
}

/// The variable names of a rule, in order.
pub open spec fn rule_keys(rule: LadeRule) -> Seq<Seq<char>> {
    rule.secrets.pairs().map_values(|p: (String, crate::secret::LadeSecret)| p.0@)
}

/// Of the entries at positions `idx`, the last one whose output is `o`.
pub open spec fn last_for(es: Seq<(Seq<char>, Seq<char>, LadeRule)>, idx: Seq<usize>, o: Option<
    Seq<char>,
>) -> Option<int>
    decreases idx.len(),
{
    if idx.len() == 0 {
        None
    } else if output_of(es[idx.last() as int].1, es[idx.last() as int].2) == o {
        Some(idx.last() as int)
    } else {
        last_for(es, idx.drop_last(), o)
    }
}

/// The variable names of the rules that match a command, by output; of two
/// rules with one output, the later one gives the names.
#[derive(Debug)]
pub struct KeyOutputs {
    pub env: Option<Vec<String>>,
    pub files: StrMap<Vec<String>>,
}

impl Config {
    /// The variable names of the rules that match `command`, by output.
    pub fn collect_keys(&self, command: &str) -> (r: KeyOutputs)
        ensures
            r.files.wf(),
            match last_for(self.entries(), self.matching(command@), None) {
                Some(i) => r.env matches Some(v) && views(v@) == rule_keys(self.entries()[i].2),
                None => r.env is None,
            },
            forall|p: Seq<char>| #[trigger]
                r.files@.contains_key(p) == last_for(self.entries(), self.matching(command@), Some(p)) is Some,
            forall|p: Seq<char>| #[trigger]
                r.files@.contains_key(p) ==> views(r.files@[p]@) == rule_keys(
                    self.entries()[last_for(self.entries(), self.matching(command@), Some(p))->0].2,
                ),
    {
        let idx = self.collect(command);
        let ghost es = self.entries();
        let mut env: Option<Vec<String>> = None;
        let mut files: StrMap<Vec<String>> = StrMap::new();
        let mut i: usize = 0;
        proof {
            assert(idx@.take(0) =~= Seq::<usize>::empty());
        }
        while i < idx.len()
            invariant
                es == self.entries(),
                forall|a: int| 0 <= a < idx@.len() ==> #[trigger] idx@[a] < es.len(),
                i <= idx@.len(),
                files.wf(),
                match last_for(es, idx@.take(i as int), None) {
                    Some(j) => env matches Some(v) && views(v@) == rule_keys(es[j].2),
                    None => env is None,
                },
                forall|p: Seq<char>| #[trigger]
                    files@.contains_key(p) == last_for(es, idx@.take(i as int), Some(p)) is Some,
                forall|p: Seq<char>| #[trigger]
                    files@.contains_key(p) ==> views(files@[p]@) == rule_keys(
                        es[last_for(es, idx@.take(i as int), Some(p))->0].2,
                    ),
            decreases idx@.len() - i,
        {
            let e = &self.matches[idx[i]];
            let ghost j = idx@[i as int] as int;
            proof {
                assert(idx@.take(i + 1).drop_last() =~= idx@.take(i as int));
                assert(idx@.take(i + 1).last() == idx@[i as int]);
                assert(es[j] == (e.pattern.source_view(), e.origin@, e.rule));
            }
            let keys = e.rule.secrets.keys();
            proof {
                assert(views(keys@) =~= rule_keys(e.rule));
            }
            match rule_output(&e.rule, e.origin.as_str()) {
                None => {
                    env = Some(keys);
                },
                Some(p) => {
                    files.insert(p, keys);
                },
            }
            i = i + 1;
        }
        proof {
            assert(idx@.take(i as int) =~= idx@);
        }
        KeyOutputs { env, files }
    }
}

impl LadeFile {
    /// The rules of the files found, given from the working directory up to
    /// the root, each with the directory it was found in; fails on the first
    /// pattern, root first, that is no valid regular expression.
    pub fn build(found: Vec<(String, LadeFile)>) -> (r: Result<Config, LadeError>)
        ensures
            r is Ok <==> forall|i: int|
                0 <= i < cascade(found@).len() ==> regex_valid(#[trigger] cascade(found@)[i].0),
            r matches Ok(c) ==> c.entries() == cascade(found@),
            r matches Err(e) ==> e matches LadeError::InvalidPattern(p) && exists|i: int|
                0 <= i < cascade(found@).len() && #[trigger] cascade(found@)[i].0 == p@
                    && !regex_valid(p@),
    {
        let ghost all = cascade(found@);
        let mut pending = found;
        let mut matches: Vec<RuleEntry> = Vec::new();
        let ghost mut done: Seq<(Seq<char>, Seq<char>, LadeRule)> = Seq::empty();
        while pending.len() > 0
            invariant
                all == cascade(found@),
                all == done + cascade(pending@),
                done == matches@.map_values(
                    |e: RuleEntry| (e.pattern.source_view(), e.origin@, e.rule),
                ),
                forall|i: int| 0 <= i < done.len() ==> regex_valid(#[trigger] done[i].0),
            decreases pending@.len(),
        {
            let ghost before = pending@;
            let (dir, file) = pending.pop().unwrap();
            proof {
                assert(before.drop_last() == pending@);
                assert(cascade(before) == file_rules((dir, file)) + cascade(pending@));
            }
            let ghost rules = file_rules((dir, file));
            let mut commands = file.commands.into_pairs();
            let ghost mut taken: int = 0;
            while commands.len() > 0
                invariant
                    all == cascade(found@),
                    rules == file_rules((dir, file)),
                    0 <= taken <= rules.len(),
                    dir_rules(commands@, dir@) == rules.skip(
                        taken,
                    ),
                    all == done + rules.skip(taken) + cascade(pending@),
                    done == matches@.map_values(
                        |e: RuleEntry| (e.pattern.source_view(), e.origin@, e.rule),
                    ),
                    forall|i: int| 0 <= i < done.len() ==> regex_valid(#[trigger] done[i].0),
                decreases commands@.len(),
            {
                let ghost cs = commands@;
                let (source, rule) = commands.remove(0);
                proof {
                    assert(rules.skip(taken)[0] == (source@, dir@, rule));
                    assert(commands@ =~= cs.subrange(1, cs.len() as int));
                    assert forall|j: int| 0 <= j < commands@.len() implies #[trigger] dir_rules(commands@, dir@)[j] == rules.skip(taken + 1)[j] by {
                        assert(dir_rules(cs, dir@)[j + 1]
                            == rules.skip(taken)[j + 1]);
                    }
                    assert(dir_rules(commands@, dir@)
                        =~= rules.skip(taken + 1));
                }
                match Pattern::new(source.as_str()) {
                    Some(pattern) => {
                        let ghost e = (pattern.source_view(), dir@, rule);
                        matches.push(
                            RuleEntry { pattern, origin: String::from_str(dir.as_str()), rule },
                        );
                        proof {
                            assert(matches@.map_values(
                                |e: RuleEntry| (e.pattern.source_view(), e.origin@, e.rule),
                            ) =~= done.push(e));
                            assert(done.push(e) + rules.skip(taken + 1) =~= done + rules.skip(
                                taken,
                            ));
                            done = done.push(e);
                            taken = taken + 1;
                        }
                    },
                    None => {
                        proof {
                            assert(all[done.len() as int] == (source@, dir@, rule));
                            assert(cascade(found@)[done.len() as int].0 == source@);
                            assert(!regex_valid(cascade(found@)[done.len() as int].0));
                        }
                        return Err(LadeError::InvalidPattern(source));
                    },
                }
            }
            proof {
                assert(rules.skip(taken) =~= Seq::<(Seq<char>, Seq<char>, LadeRule)>::empty());
                assert(done + rules.skip(taken) + cascade(pending@) =~= done + cascade(pending@));
            }
        }
        proof {
            assert(cascade(pending@) =~= Seq::<(Seq<char>, Seq<char>, LadeRule)>::empty());
            assert(all =~= done);
        }
        let c = Config { matches };
        Ok(c)
    }
}

} // verus!
