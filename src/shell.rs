//! The shells the variables are handed to: the commands that set and unset
//! them, and the line that starts the hooks from a shell profile.
use vstd::prelude::*;
use crate::text::{text_of, copied};
use crate::error::LadeError;
use crate::maps::StrMap;
use crate::text::{join, joined, split, split_by, str_eq, views};

verus! {

#[derive(Debug)]
pub enum Shell {
    Bash,
    Zsh,
    Fish,
    Sh,
}

pub open spec fn bin_name(sh: Shell) -> Seq<char> {
    match sh {
        Shell::Bash => text_of("bash"),
        Shell::Zsh => text_of("zsh"),
        Shell::Fish => text_of("fish"),
        Shell::Sh => text_of("sh"),
    }
}

/// The command that sets variable `k` to `v`.
pub open spec fn set_line(sh: Shell, k: Seq<char>, v: Seq<char>) -> Seq<char> {
    match sh {
        Shell::Fish => text_of("set --global --export ") + k + text_of(" '") + v + text_of("'"),
        _ => text_of("export ") + k + text_of("='") + v + text_of("'"),
    }
}

/// The command that unsets variable `k`.
pub open spec fn unset_line(sh: Shell, k: Seq<char>) -> Seq<char> {
    match sh {
        Shell::Fish => text_of("set --global --erase ") + k,
        _ => text_of("unset -v ") + k,
    }
}

/// The text that marks the profile line this tool owns.
pub open spec fn marker() -> Seq<char> {
    text_of("lade-do-not-edit")
}

pub open spec fn contains_text(x: Seq<char>, pat: Seq<char>) -> bool {
    exists|i: int| 0 <= i && i + pat.len() <= x.len() && #[trigger] x.subrange(i, i + pat.len()) == pat
}

/// The lines of a text as `str::lines` gives them: cut at `\n`, without a
/// last empty piece, and each without a final `\r`.
pub open spec fn text_lines(x: Seq<char>) -> Seq<Seq<char>> {
    let pieces = split_by(x, text_of("\n"));
    let kept = if pieces.last().len() == 0 {
        pieces.drop_last()
    } else {
        pieces
    };
    kept.map_values(
        |l: Seq<char>|
            if l.len() > 0 && l.last() == '\r' {
                l.drop_last()
            } else {
                l
            },
    )
}

/// The lines of `ls` that do not hold the marker, in order.
pub open spec fn unmarked(ls: Seq<Seq<char>>) -> Seq<Seq<char>>
    decreases ls.len(),
{
    if ls.len() == 0 {
        Seq::empty()
    } else if contains_text(ls.last(), marker()) {
        unmarked(ls.drop_last())
    } else {
        unmarked(ls.drop_last()).push(ls.last())
    }
}

/// The hook line as written to a profile, with the marker.
pub open spec fn tagged(line: Seq<char>) -> Seq<char> {
    line + text_of("  # ") + marker()
}

/// A profile after installing or removing the hook line: every marked line
/// taken out, and on install `line` added with the marker.
pub open spec fn edited_profile(old: Seq<char>, line: Seq<char>, install: bool) -> Seq<char> {
    let kept = unmarked(text_lines(old));
    joined(
        if install {
            kept.push(tagged(line))
        } else {
            kept
        },
        text_of("\n"),
    )
}

pub fn contains(x: &str, pat: &str) -> (r: bool)
    ensures
        r == contains_text(x@, pat@),
{
    let n = x.unicode_len();
    let m = pat.unicode_len();
    if m > n {
        proof {
            assert forall|i: int|
                0 <= i && i + pat@.len() <= x@.len() implies #[trigger] x@.subrange(
                i,
                i + pat@.len(),
            ) != pat@ by {}
        }
        return false;
    }
    if m == 0 {
        proof {
            assert(x@.subrange(0, 0) =~= pat@);
            assert(x@.subrange(0int, 0int + pat@.len()) == pat@);
        }
        return true;
    }
    let mut i: usize = 0;
    while i <= n - m
        invariant
            n == x@.len(),
            m == pat@.len(),
            0 < m <= n,
            i <= n - m + 1,
            forall|j: int| 0 <= j < i ==> #[trigger] x@.subrange(j, j + m) != pat@,
        decreases n - m + 1 - i,
    {
        if str_eq(x.substring_char(i, i + m), pat) {
            return true;
        }
        i = i + 1;
    }
    proof {
        assert forall|j: int|
            0 <= j && j + pat@.len() <= x@.len() implies #[trigger] x@.subrange(j, j + pat@.len())
            != pat@ by {
            assert(j < i);
        }
    }
    false
}

impl Shell {
    pub fn bin(&self) -> (r: &'static str)
        ensures
            r@ == bin_name(*self),
    {
        match self {
            Shell::Bash => "bash",
            Shell::Zsh => "zsh",
            Shell::Fish => "fish",
            Shell::Sh => "sh",
        }
    }

    /// The shell of a program name.
    pub fn from_name(name: &str) -> (r: Result<Shell, LadeError>)
        ensures
            r matches Ok(sh) ==> bin_name(sh) == name@,
            r is Err ==> name@ != text_of("bash") && name@ != text_of("zsh") && name@ != text_of("fish") && name@ != text_of(
                "sh",
            ),
    {
        if str_eq(name, "bash") {
            Ok(Shell::Bash)
        } else if str_eq(name, "zsh") {
            Ok(Shell::Zsh)
        } else if str_eq(name, "fish") {
            Ok(Shell::Fish)
        } else if str_eq(name, "sh") {
            Ok(Shell::Sh)
        } else {
            Err(LadeError::UnsupportedShell(copied(name)))
        }
    }

    fn set_one(&self, k: &str, v: &str) -> (r: String)
        ensures
            r@ == set_line(*self, k@, v@),
    {
        let mut r = match self {
            Shell::Fish => copied("set --global --export "),
            _ => copied("export "),
        };
        r.append(k);
        match self {
            Shell::Fish => r.append(" '"),
            _ => r.append("='"),
        }
        r.append(v);
        r.append("'");
        r
    }

    /// The commands that set each variable of `env`, in order, joined by `;`.
    pub fn set(&self, env: &StrMap<String>) -> (r: String)
        ensures
            r@ == joined(
                env.pairs().map_values(|p: (String, String)| set_line(*self, p.0@, p.1@)),
                text_of(";"),
            ),
    {
        let mut lines: Vec<String> = Vec::new();
        let mut i: usize = 0;
        while i < env.len()
            invariant
                i <= env.pairs().len(),
                lines@.len() == i,
                forall|j: int|
                    0 <= j < i ==> #[trigger] lines@[j]@ == set_line(
                        *self,
                        env.pairs()[j].0@,
                        env.pairs()[j].1@,
                    ),
            decreases env.pairs().len() - i,
        {
            let (k, v) = env.entry(i);
            lines.push(self.set_one(k.as_str(), v.as_str()));
            i = i + 1;
        }
        proof {
            assert(views(lines@) =~= env.pairs().map_values(
                |p: (String, String)| set_line(*self, p.0@, p.1@),
            ));
        }
        join(&lines, ";")
    }

    /// The commands that unset each of `keys`, in order, joined by `;`.
    pub fn unset(&self, keys: &Vec<String>) -> (r: String)
        ensures
            r@ == joined(views(keys@).map_values(|k: Seq<char>| unset_line(*self, k)), text_of(";")),
    {
        let mut lines: Vec<String> = Vec::new();
        let mut i: usize = 0;
        while i < keys.len()
            invariant
                i <= keys@.len(),
                lines@.len() == i,
                forall|j: int| 0 <= j < i ==> #[trigger] lines@[j]@ == unset_line(*self, keys@[j]@),
            decreases keys@.len() - i,
        {
            let mut l = match self {
                Shell::Fish => copied("set --global --erase "),
                _ => copied("unset -v "),
            };
            l.append(keys[i].as_str());
            lines.push(l);
            i = i + 1;
        }
        proof {
            assert(views(lines@) =~= views(keys@).map_values(|k: Seq<char>| unset_line(*self, k)));
        }
        join(&lines, ";")
    }

    /// The hook scripts that turn the hooks on, in the order they are read;
    /// `sh` has none.
    pub fn on(&self) -> (r: Result<Vec<String>, LadeError>)
        ensures
            r is Err <==> *self is Sh,
            r matches Ok(v) ==> views(v@) == (match *self {
                Shell::Bash => seq![text_of("bash-preexec.sh"), text_of("on.bash")],
                Shell::Zsh => seq![text_of("on.zsh")],
                _ => seq![text_of("on.fish")],
            }),
    {
        let r = match self {
            Shell::Bash => vec![copied("bash-preexec.sh"), copied("on.bash")],
            Shell::Zsh => vec![copied("on.zsh")],
            Shell::Fish => vec![copied("on.fish")],
            Shell::Sh => {
                return Err(LadeError::UnsupportedShell(copied("sh")));
            },
        };
        proof {
            assert(views(r@) =~= (match *self {
                Shell::Bash => seq![text_of("bash-preexec.sh"), text_of("on.bash")],
                Shell::Zsh => seq![text_of("on.zsh")],
                _ => seq![text_of("on.fish")],
            }));
        }
        Ok(r)
    }

    /// The hook script that turns the hooks off; `sh` has none.
    pub fn off(&self) -> (r: Result<String, LadeError>)
        ensures
            r is Err <==> *self is Sh,
            r matches Ok(v) ==> v@ == (match *self {
                Shell::Bash => text_of("off.bash"),
                Shell::Zsh => text_of("off.zsh"),
                _ => text_of("off.fish"),
            }),
    {
        match self {
            Shell::Bash => Ok(copied("off.bash")),
            Shell::Zsh => Ok(copied("off.zsh")),
            Shell::Fish => Ok(copied("off.fish")),
            Shell::Sh => Err(LadeError::UnsupportedShell(copied("sh"))),
        }
    }

    /// The profile file under `home` that starts the hooks, and the line that
    /// does it with the program at `exe`; `sh` has none.
    pub fn install(&self, home: &str, exe: &str) -> (r: Result<(String, String), LadeError>)
        ensures
            r is Err <==> *self is Sh,
            r matches Ok(p) ==> p.0@ == crate::secret::joined_path(
                home@,
                match *self {
                    Shell::Bash => text_of(".bashrc"),
                    Shell::Zsh => text_of(".zshrc"),
                    _ => text_of(".config/fish/config.fish"),
                },
            ) && p.1@ == (match *self {
                Shell::Bash => text_of("source <(echo \"$(") + exe@ + text_of(" on)\")"),
                Shell::Zsh => text_of("eval \"$(") + exe@ + text_of(" on)\""),
                _ => text_of("source (") + exe@ + text_of(" on | psub)"),
            }),
    {
        let (file, mut line) = match self {
            Shell::Bash => (".bashrc", copied("source <(echo \"$(")),
            Shell::Zsh => (".zshrc", copied("eval \"$(")),
            Shell::Fish => (".config/fish/config.fish", copied("source (")),
            Shell::Sh => {
                return Err(LadeError::UnsupportedShell(copied("sh")));
            },
        };
        line.append(exe);
        match self {
            Shell::Bash => line.append(" on)\")"),
            Shell::Zsh => line.append(" on)\""),
            _ => line.append(" on | psub)"),
        }
        Ok((crate::secret::join_path(home, file), line))
    }

    /// The profile file under `home` whose hook line is to be removed; `sh`
    /// has none.
    pub fn uninstall(&self, home: &str) -> (r: Result<String, LadeError>)
        ensures
            r is Err <==> *self is Sh,
            r matches Ok(p) ==> p@ == crate::secret::joined_path(
                home@,
                match *self {
                    Shell::Bash => text_of(".bashrc"),
                    Shell::Zsh => text_of(".zshrc"),
                    _ => text_of(".config/fish/config.fish"),
                },
            ),
    {
        let file = match self {
            Shell::Bash => ".bashrc",
            Shell::Zsh => ".zshrc",
            Shell::Fish => ".config/fish/config.fish",
            Shell::Sh => {
                return Err(LadeError::UnsupportedShell(copied("sh")));
            },
        };
        Ok(crate::secret::join_path(home, file))
    }
}

/// The profile text `old` with every marked line taken out, and on install
/// `line` added at the end with the marker.
pub fn edit_profile(old: &str, line: &str, install: bool) -> (r: String)
    ensures
        r@ == edited_profile(old@, line@, install),
{
    proof {
        reveal_strlit("\n");
    }
    let pieces = split(old, "\n");
    let ghost pv = views(pieces@);
    let mut count = pieces.len();
    proof {
        crate::text::lemma_split_by_nonempty(old@, text_of("\n"));
    }
    if pieces[count - 1].as_str().unicode_len() == 0 {
        count = count - 1;
    }
    let ghost kept_pieces = if pv.last().len() == 0 {
        pv.drop_last()
    } else {
        pv
    };
    let ghost ls = text_lines(old@);
    assert(kept_pieces.len() == count);
    let mut kept: Vec<String> = Vec::new();
    let mut i: usize = 0;
    proof {
        assert(ls.take(0) =~= Seq::<Seq<char>>::empty());
    }
    while i < count
        invariant
            pv == views(pieces@),
            count <= pieces@.len(),
            ls == text_lines(old@),
            ls.len() == count,
            forall|j: int| 0 <= j < count ==> #[trigger] ls[j] == (if pv[j].len() > 0 && pv[j].last() == '\r' {
                pv[j].drop_last()
            } else {
                pv[j]
            }),
            i <= count,
            views(kept@) == unmarked(ls.take(i as int)),
        decreases count - i,
    {
        let p = pieces[i].as_str();
        let n = p.unicode_len();
        let l = if n > 0 && p.get_char(n - 1) == '\r' {
            p.substring_char(0, n - 1)
        } else {
            p
        };
        proof {
            if n > 0 && p@.last() == '\r' {
                assert(l@ =~= p@.drop_last());
            }
            assert(ls.take(i + 1).drop_last() =~= ls.take(i as int));
            assert(ls.take(i + 1).last() == l@);
        }
        if !contains(l, "lade-do-not-edit") {
            kept.push(copied(l));
            proof {
                assert(views(kept@) =~= unmarked(ls.take(i as int)).push(l@));
            }
        }
        i = i + 1;
    }
    proof {
        assert(ls.take(i as int) =~= ls);
    }
    if install {
        let mut tagged = copied(line);
        tagged.append("  # lade-do-not-edit");
        proof {
            reveal_strlit("  # lade-do-not-edit");
            reveal_strlit("  # ");
            reveal_strlit("lade-do-not-edit");
            assert(tagged@ =~= line@ + text_of("  # ") + marker());
        }
        let ghost before = views(kept@);
        kept.push(tagged);
        proof {
            assert(views(kept@) =~= before.push(tagged@));
        }
    }
    join(&kept, "\n")
}


/// No character of `x` is `c`.
pub open spec fn lacks(x: Seq<char>, c: char) -> bool {
    forall|i: int| 0 <= i < x.len() ==> x[i] != c
}

proof fn lemma_split_single(a: Seq<char>, c: char)
    requires
        lacks(a, c),
    ensures
        split_by(a, seq![c]) == seq![a],
    decreases a.len(),
{
    if a.len() >= 1 {
        assert(a.take(1)[0] == a[0]);
        assert(a.take(1) != seq![c]);
        lemma_split_single(a.skip(1), c);
        assert(seq![a[0]] + a.skip(1) =~= a);
        assert(seq![a.skip(1)].update(0, seq![a[0]] + a.skip(1)) =~= seq![a]);
    }
}

proof fn lemma_split_concat(a: Seq<char>, b: Seq<char>, c: char)
    ensures
        split_by(a + seq![c] + b, seq![c]) == split_by(a, seq![c]) + split_by(b, seq![c]),
    decreases a.len(),
{
    let s = a + seq![c] + b;
    let sep = seq![c];
    if a.len() == 0 {
        assert(s.take(1) =~= sep);
        assert(s.skip(1) =~= b);
        assert(split_by(a, sep) == seq![a]);
        assert(a =~= Seq::<char>::empty());
    } else {
        assert(s.skip(1) =~= a.skip(1) + sep + b);
        assert(s.take(1) =~= a.take(1));
        lemma_split_concat(a.skip(1), b, c);
        crate::text::lemma_split_by_nonempty(a.skip(1), sep);
        if a.take(1) == sep {
            assert(split_by(s, sep) =~= split_by(a, sep) + split_by(b, sep));
        } else {
            let ra = split_by(a.skip(1), sep);
            let rb = split_by(b, sep);
            assert((ra + rb).update(0, seq![s[0]] + (ra + rb)[0]) =~= ra.update(
                0,
                seq![a[0]] + ra[0],
            ) + rb);
        }
    }
}

proof fn lemma_split_joined(t: Seq<Seq<char>>, c: char)
    requires
        t.len() > 0,
        forall|i: int| 0 <= i < t.len() ==> lacks(#[trigger] t[i], c),
    ensures
        split_by(joined(t, seq![c]), seq![c]) == t,
    decreases t.len(),
{
    if t.len() == 1 {
        lemma_split_single(t[0], c);
        assert(seq![t[0]] =~= t);
    } else {
        let init = t.drop_last();
        assert forall|i: int| 0 <= i < init.len() implies lacks(#[trigger] init[i], c) by {
            assert(init[i] == t[i]);
        }
        lemma_split_joined(init, c);
        lemma_split_concat(joined(init, seq![c]), t.last(), c);
        assert(lacks(t[t.len() - 1], c));
        lemma_split_single(t.last(), c);
        assert(init + seq![t.last()] =~= t);
    }
}

proof fn lemma_pieces_lack(x: Seq<char>, c: char, d: char)
    requires
        lacks(x, d),
    ensures
        forall|i: int|
            0 <= i < split_by(x, seq![c]).len() ==> lacks(#[trigger] split_by(x, seq![c])[i], c)
                && lacks(split_by(x, seq![c])[i], d),
    decreases x.len(),
{
    let sep = seq![c];
    if x.len() >= 1 {
        assert(lacks(x.skip(1), d));
        lemma_pieces_lack(x.skip(1), c, d);
        crate::text::lemma_split_by_nonempty(x.skip(1), sep);
        if x.take(1) != sep {
            assert(x.take(1)[0] == x[0]);
            let r = split_by(x.skip(1), sep);
            assert forall|i: int| 0 <= i < split_by(x, sep).len() implies lacks(
                #[trigger] split_by(x, sep)[i],
                c,
            ) && lacks(split_by(x, sep)[i], d) by {
                if i == 0 {
                    if x[0] == c {
                        assert(x.take(1) =~= sep);
                    }
                    assert(split_by(x, sep) == r.update(0, seq![x[0]] + r[0]));
                    assert(lacks(split_by(x.skip(1), sep)[0], c));
                    let p = seq![x[0]] + r[0];
                    assert forall|j: int| 0 <= j < p.len() implies p[j] != c && p[j] != d by {
                        if j > 0 {
                            assert(p[j] == r[0][j - 1]);
                        }
                    }
                }
            }
        } else {
            assert forall|i: int| 0 <= i < split_by(x, sep).len() implies lacks(
                #[trigger] split_by(x, sep)[i],
                c,
            ) && lacks(split_by(x, sep)[i], d) by {
                if i > 0 {
                    assert(split_by(x, sep)[i] == split_by(x.skip(1), sep)[i - 1]);
                }
            }
        }
    }
}

proof fn lemma_unmarked(ls: Seq<Seq<char>>)
    ensures
        forall|i: int|
            0 <= i < unmarked(ls).len() ==> !contains_text(#[trigger] unmarked(ls)[i], marker())
                && exists|j: int| 0 <= j < ls.len() && ls[j] == unmarked(ls)[i],
        (forall|i: int| 0 <= i < ls.len() ==> !contains_text(#[trigger] ls[i], marker()))
            ==> unmarked(ls) == ls,
    decreases ls.len(),
{
    if ls.len() > 0 {
        let init = ls.drop_last();
        lemma_unmarked(init);
        let u = unmarked(ls);
        assert forall|i: int|
            0 <= i < u.len() implies !contains_text(#[trigger] u[i], marker()) && exists|j: int|
            0 <= j < ls.len() && ls[j] == u[i] by {
            if i < unmarked(init).len() {
                assert(u[i] == unmarked(init)[i]);
                let j = choose|j: int| 0 <= j < init.len() && init[j] == unmarked(init)[i];
                assert(ls[j] == u[i]);
            } else {
                assert(u[i] == ls.last());
                assert(ls[ls.len() - 1] == u[i]);
            }
        }
        if forall|i: int| 0 <= i < ls.len() ==> !contains_text(#[trigger] ls[i], marker()) {
            assert forall|i: int| 0 <= i < init.len() implies !contains_text(
                #[trigger] init[i],
                marker(),
            ) by {
                assert(init[i] == ls[i]);
            }
            assert(!contains_text(ls[ls.len() - 1], marker()));
            assert(init.push(ls.last()) =~= ls);
        }
    }
}

proof fn lemma_lines_clean(old: Seq<char>)
    requires
        lacks(old, '\r'),
    ensures
        forall|i: int|
            0 <= i < text_lines(old).len() ==> lacks(#[trigger] text_lines(old)[i], '\n') && lacks(
                text_lines(old)[i],
                '\r',
            ),
{
    reveal_strlit("\n");
    let nl = seq!['\n'];
    assert(text_of("\n") =~= nl);
    let pieces = split_by(old, nl);
    lemma_pieces_lack(old, '\n', '\r');
    crate::text::lemma_split_by_nonempty(old, nl);
    let ls = text_lines(old);
    assert forall|i: int| 0 <= i < ls.len() implies lacks(#[trigger] ls[i], '\n') && lacks(
        ls[i],
        '\r',
    ) by {
        let kept = if pieces.last().len() == 0 {
            pieces.drop_last()
        } else {
            pieces
        };
        assert(kept[i] == pieces[i]);
        let p = pieces[i];
        assert(lacks(p, '\n') && lacks(p, '\r'));
        if p.len() > 0 && p.last() == '\r' {
            assert(ls[i] == p.drop_last());
            assert forall|j: int| 0 <= j < ls[i].len() implies ls[i][j] != '\n' && ls[i][j]
                != '\r' by {
                assert(ls[i][j] == p[j]);
            }
        } else {
            assert(ls[i] == p);
        }
    }
}

proof fn lemma_tag(line: Seq<char>)
    requires
        lacks(line, '\n'),
    ensures
        contains_text(tagged(line), marker()),
        lacks(tagged(line), '\n'),
        tagged(line).len() > 0,
        tagged(line).last() == 't',
{
    reveal_strlit("  # ");
    reveal_strlit("lade-do-not-edit");
    let tag = tagged(line);
    let at = (line.len() + 4) as int;
    assert(tag.subrange(at, at + marker().len()) =~= marker());
    assert forall|j: int| 0 <= j < tag.len() implies tag[j] != '\n' by {
        if j >= line.len() {
            assert(tag[j] == (text_of("  # ") + marker())[j - line.len()]);
        }
    }
}

proof fn lemma_lines_of_joined(t: Seq<Seq<char>>)
    requires
        t.len() > 0,
        t.last().len() > 0,
        forall|i: int|
            0 <= i < t.len() ==> lacks(#[trigger] t[i], '\n') && !(t[i].len() > 0 && t[i].last()
                == '\r'),
    ensures
        text_lines(joined(t, text_of("\n"))) == t,
{
    reveal_strlit("\n");
    assert(text_of("\n") =~= seq!['\n']);
    lemma_split_joined(t, '\n');
    assert(text_lines(joined(t, text_of("\n"))) =~= t);
}

/// Installing the hook line twice leaves the profile as installing it once,
/// for a line without a line break in a profile without carriage returns.
pub proof fn lemma_install_idempotent(old: Seq<char>, line: Seq<char>)
    requires
        lacks(line, '\n'),
        lacks(old, '\r'),
    ensures
        edited_profile(edited_profile(old, line, true), line, true) == edited_profile(
            old,
            line,
            true,
        ),
{
    let ls = text_lines(old);
    lemma_lines_clean(old);
    lemma_unmarked(ls);
    let k = unmarked(ls);
    lemma_tag(line);
    let tag = tagged(line);
    let t = k.push(tag);
    assert forall|i: int|
        0 <= i < t.len() implies lacks(#[trigger] t[i], '\n') && !(t[i].len() > 0 && t[i].last()
        == '\r') by {
        if i < k.len() {
            let j = choose|j: int| 0 <= j < ls.len() && ls[j] == k[i];
            assert(t[i] == ls[j]);
            if t[i].len() > 0 {
                assert(t[i][t[i].len() - 1] != '\r');
            }
        } else {
            assert(t[i] == tag);
        }
    }
    let x = joined(t, text_of("\n"));
    assert(edited_profile(old, line, true) == x);
    lemma_lines_of_joined(t);
    assert(t.drop_last() =~= k);
    assert(unmarked(t) == unmarked(k));
    lemma_unmarked(k);
    assert(unmarked(text_lines(x)) == k);
}

} // verus!
