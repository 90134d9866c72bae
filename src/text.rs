//! Character-level string helpers with exact specifications: splitting,
//! joining, replacing and prefix tests.
use vstd::prelude::*;

verus! {

/// The characters of a string literal.
pub open spec fn text_of(x: &str) -> Seq<char> {
    x@
}

/// The view of an optional string.
pub open spec fn opt_view(o: Option<String>) -> Option<Seq<char>> {
    match o {
        Some(s) => Some(s@),
        None => None,
    }
}

/// A string of the characters of `a`.
pub fn copied(a: &str) -> (r: String)
    ensures
        r@ == a@,
{
    String::from_str(a)
}

/// The view of each string of a sequence.
pub open spec fn views(v: Seq<String>) -> Seq<Seq<char>> {
    v.map_values(|p: String| p@)
}

/// The pieces of `s` between the occurrences of `sep`, scanned from the left
/// without overlap (as `str::split` cuts them).
pub open spec fn split_by(s: Seq<char>, sep: Seq<char>) -> Seq<Seq<char>>
    decreases s.len(),
{
    if sep.len() == 0 || s.len() < sep.len() {
        seq![s]
    } else if s.take(sep.len() as int) == sep {
        seq![Seq::<char>::empty()] + split_by(s.skip(sep.len() as int), sep)
    } else {
        let rest = split_by(s.skip(1), sep);
        rest.update(0, seq![s[0]] + rest[0])
    }
}

/// `parts` written one after the other with `sep` between two neighbours.
pub open spec fn joined(parts: Seq<Seq<char>>, sep: Seq<char>) -> Seq<char>
    decreases parts.len(),
{
    if parts.len() == 0 {
        Seq::empty()
    } else if parts.len() == 1 {
        parts[0]
    } else {
        joined(parts.drop_last(), sep) + sep + parts.last()
    }
}

/// `s` with every occurrence of `pat`, scanned from the left without overlap,
/// replaced by `rep`.
pub open spec fn replaced(s: Seq<char>, pat: Seq<char>, rep: Seq<char>) -> Seq<char>
    decreases s.len(),
{
    if pat.len() == 0 || s.len() < pat.len() {
        s
    } else if s.take(pat.len() as int) == pat {
        rep + replaced(s.skip(pat.len() as int), pat, rep)
    } else {
        seq![s[0]] + replaced(s.skip(1), pat, rep)
    }
}

pub open spec fn has_prefix(s: Seq<char>, prefix: Seq<char>) -> bool {
    prefix.len() <= s.len() && s.take(prefix.len() as int) == prefix
}

/// The decimal digit for `d < 10`.
pub open spec fn digit(d: nat) -> char {
    seq!['0', '1', '2', '3', '4', '5', '6', '7', '8', '9'][d as int]
}

/// The decimal writing of `n`, without leading zeros.
pub open spec fn decimal(n: nat) -> Seq<char>
    decreases n,
{
    if n < 10 {
        seq![digit(n)]
    } else {
        decimal(n / 10) + seq![digit(n % 10)]
    }
}

/// `s` with its `%XX` escapes decoded as URL percent-decoding does it,
/// the decoded bytes read as UTF-8.
pub uninterp spec fn url_decoded(s: Seq<char>) -> Seq<char>;

/// `r` with its first piece extended at the front by `c`.
pub open spec fn extend_first(c: Seq<char>, r: Seq<Seq<char>>) -> Seq<Seq<char>> {
    r.update(0, c + r[0])
}

pub proof fn lemma_split_by_nonempty(s: Seq<char>, sep: Seq<char>)
    ensures
        split_by(s, sep).len() > 0,
    decreases s.len(),
{
    if sep.len() == 0 || s.len() < sep.len() {
    } else if s.take(sep.len() as int) == sep {
    } else {
        lemma_split_by_nonempty(s.skip(1), sep);
    }
}

pub fn str_eq(a: &str, b: &str) -> (r: bool)
    ensures
        r == (a@ == b@),
{
    let x = String::from_str(a);
    let y = String::from_str(b);
    x == y
}

pub fn starts_with(s: &str, prefix: &str) -> (r: bool)
    ensures
        r == has_prefix(s@, prefix@),
{
    let n = s.unicode_len();
    let m = prefix.unicode_len();
    if m > n {
        return false;
    }
    let head = s.substring_char(0, m);
    let r = str_eq(head, prefix);
    proof {
        assert(head@ =~= s@.take(m as int));
    }
    r
}

/// Splits `s` at each occurrence of `sep`.
pub fn split(s: &str, sep: &str) -> (r: Vec<String>)
    requires
        sep@.len() > 0,
    ensures
        views(r@) == split_by(s@, sep@),
{
    let n = s.unicode_len();
    let m = sep.unicode_len();
    let mut done: Vec<String> = Vec::new();
    let mut cur = String::new();
    let mut i: usize = 0;
    proof {
        lemma_split_by_nonempty(s@, sep@);
        assert(s@.skip(0) =~= s@);
        let r = split_by(s@, sep@);
        assert(extend_first(cur@, r) =~= r);
        assert(views(done@) + extend_first(cur@, r) =~= r);
    }
    while m <= n - i
        invariant
            n == s@.len(),
            m == sep@.len(),
            m > 0,
            i <= n,
            split_by(s@, sep@) == views(done@) + extend_first(cur@, split_by(s@.skip(i as int), sep@)),
        decreases n - i,
    {
        let t = Ghost(s@.skip(i as int));
        let window = s.substring_char(i, i + m);
        if str_eq(window, sep) {
            proof {
                assert(t@.take(m as int) =~= window@);
                let rest = split_by(t@.skip(m as int), sep@);
                assert(t@.skip(m as int) =~= s@.skip((i + m) as int));
                lemma_split_by_nonempty(t@.skip(m as int), sep@);
                assert(extend_first(Seq::<char>::empty(), rest) =~= rest);
                assert(views(done@.push(cur)) =~= views(done@).push(cur@));
                assert(extend_first(cur@, split_by(t@, sep@)) =~= seq![cur@] + rest);
            }
            done.push(cur);
            cur = String::new();
            i = i + m;
        } else {
            let c = s.substring_char(i, i + 1);
            proof {
                assert(t@.take(m as int) =~= window@);
                assert(t@.skip(1) =~= s@.skip((i + 1) as int));
                lemma_split_by_nonempty(t@.skip(1), sep@);
                assert(c@ =~= seq![t@[0]]);
                let rest = split_by(t@.skip(1), sep@);
                assert(split_by(t@, sep@) == rest.update(0, seq![t@[0]] + rest[0]));
                assert((cur@ + c@) + rest[0] =~= cur@ + (seq![t@[0]] + rest[0]));
                assert(extend_first(cur@, split_by(t@, sep@)) =~= extend_first(cur@ + c@, rest));
            }
            cur.append(c);
            i = i + 1;
        }
    }
    let tail = s.substring_char(i, n);
    proof {
        assert(tail@ =~= s@.skip(i as int));
        assert(extend_first(cur@, split_by(s@.skip(i as int), sep@)) =~= seq![cur@ + tail@]);
    }
    cur.append(tail);
    proof {
        assert(views(done@.push(cur)) =~= views(done@).push(cur@));
    }
    done.push(cur);
    done
}

/// Writes `parts` with `sep` between two neighbours.
pub fn join(parts: &Vec<String>, sep: &str) -> (r: String)
    ensures
        r@ == joined(views(parts@), sep@),
{
    let mut r = String::new();
    let mut i: usize = 0;
    while i < parts.len()
        invariant
            i <= parts.len(),
            r@ == joined(views(parts@).take(i as int), sep@),
        decreases parts.len() - i,
    {
        proof {
            assert(views(parts@).take((i + 1) as int).drop_last() =~= views(parts@).take(i as int));
        }
        if i > 0 {
            r.append(sep);
        }
        r.append(parts[i].as_str());
        i = i + 1;
    }
    proof {
        assert(views(parts@).take(i as int) =~= views(parts@));
    }
    r
}

/// Replaces every occurrence of `pat` in `s` by `rep`.
pub fn replace(s: &str, pat: &str, rep: &str) -> (r: String)
    ensures
        r@ == replaced(s@, pat@, rep@),
{
    let n = s.unicode_len();
    let m = pat.unicode_len();
    if m == 0 {
        return String::from_str(s);
    }
    let mut out = String::new();
    let mut i: usize = 0;
    proof {
        assert(s@.skip(0) =~= s@);
    }
    while m <= n - i
        invariant
            n == s@.len(),
            m == pat@.len(),
            m > 0,
            i <= n,
            replaced(s@, pat@, rep@) == out@ + replaced(s@.skip(i as int), pat@, rep@),
        decreases n - i,
    {
        let t = Ghost(s@.skip(i as int));
        let window = s.substring_char(i, i + m);
        if str_eq(window, pat) {
            proof {
                assert(t@.take(m as int) =~= window@);
                assert(t@.skip(m as int) =~= s@.skip((i + m) as int));
                assert(out@ + (rep@ + replaced(t@.skip(m as int), pat@, rep@)) =~= (out@ + rep@)
                    + replaced(t@.skip(m as int), pat@, rep@));
            }
            out.append(rep);
            i = i + m;
        } else {
            let c = s.substring_char(i, i + 1);
            proof {
                assert(t@.take(m as int) =~= window@);
                assert(t@.skip(1) =~= s@.skip((i + 1) as int));
                assert(c@ =~= seq![t@[0]]);
                assert(out@ + (c@ + replaced(t@.skip(1), pat@, rep@)) =~= (out@ + c@) + replaced(
                    t@.skip(1),
                    pat@,
                    rep@,
                ));
            }
            out.append(c);
            i = i + 1;
        }
    }
    let tail = s.substring_char(i, n);
    proof {
        assert(tail@ =~= s@.skip(i as int));
    }
    out.append(tail);
    out
}

/// Relies on `percent_encoding::percent_decode_str` and `decode_utf8_lossy`:
/// each `%` followed by two hexadecimal digits is decoded, and text without a
/// `%` comes back unchanged.
#[verifier::external_body]
pub(crate) fn percent_decode(s: &str) -> (r: String)
    ensures
        r@ == url_decoded(s@),
        !s@.contains('%') ==> r@ == s@,
{
    percent_encoding::percent_decode_str(s).decode_utf8_lossy().into_owned()
}

/// The decimal writing of a port number.
pub fn decimal_string(n: u16) -> (r: String)
    ensures
        r@ == decimal(n as nat),
    decreases n,
{
    let digits = "0123456789";
    proof {
        reveal_strlit("0123456789");
    }
    let d = (n % 10) as usize;
    let last = digits.substring_char(d, d + 1);
    proof {
        assert(last@ =~= seq![digit(d as nat)]);
    }
    if n < 10 {
        String::from_str(last)
    } else {
        let mut head = decimal_string(n / 10);
        head.append(last);
        head
    }
}

} // verus!
