//! Character-sequence utilities shared by the slide lexer and the deck
//! builder: whitespace trimming, splitting into lines on `'\n'`, and joining
//! lines back with `'\n'`, each with a specification-level definition, an
//! executable counterpart, and the lemmas relating the two.

use vstd::prelude::*;
use vstd::string::*;

verus! {

/// The whitespace characters recognized by `trim`: the characters with the
/// Unicode `White_Space` property.
pub open spec fn is_space(c: char) -> bool {
    c == ' ' || c == '\t' || c == '\n' || c == '\r' || c == '\u{b}' || c == '\u{c}'
        || c == '\u{85}' || c == '\u{a0}' || c == '\u{1680}' || c == '\u{2000}'
        || c == '\u{2001}' || c == '\u{2002}' || c == '\u{2003}' || c == '\u{2004}'
        || c == '\u{2005}' || c == '\u{2006}' || c == '\u{2007}' || c == '\u{2008}'
        || c == '\u{2009}' || c == '\u{200a}' || c == '\u{2028}' || c == '\u{2029}'
        || c == '\u{202f}' || c == '\u{205f}' || c == '\u{3000}'
}

/// Whether `c` is a whitespace character, decided executably.
pub fn is_space_char(c: char) -> (r: bool)
    ensures
        r == is_space(c),
{
    c == ' ' || c == '\t' || c == '\n' || c == '\r' || c == '\u{b}' || c == '\u{c}'
        || c == '\u{85}' || c == '\u{a0}' || c == '\u{1680}' || c == '\u{2000}'
        || c == '\u{2001}' || c == '\u{2002}' || c == '\u{2003}' || c == '\u{2004}'
        || c == '\u{2005}' || c == '\u{2006}' || c == '\u{2007}' || c == '\u{2008}'
        || c == '\u{2009}' || c == '\u{200a}' || c == '\u{2028}' || c == '\u{2029}'
        || c == '\u{202f}' || c == '\u{205f}' || c == '\u{3000}'
}

/// `s` with its leading whitespace removed.
pub open spec fn trim_front(s: Seq<char>) -> Seq<char>
    decreases s.len(),
{
    if s.len() > 0 && is_space(s[0]) {
        trim_front(s.drop_first())
    } else {
        s
    }
}

/// `s` with its trailing whitespace removed.
pub open spec fn trim_back(s: Seq<char>) -> Seq<char>
    decreases s.len(),
{
    if s.len() > 0 && is_space(s[s.len() - 1]) {
        trim_back(s.drop_last())
    } else {
        s
    }
}

/// `s` with leading and trailing whitespace removed.
pub open spec fn spec_trim(s: Seq<char>) -> Seq<char> {
    trim_back(trim_front(s))
}

/// If every character before `k` is whitespace and `k` is either the end or a
/// non-whitespace position, then trimming the front drops exactly `k` characters.
proof fn lemma_trim_front_at(s: Seq<char>, k: int)
    requires
        0 <= k <= s.len(),
        forall|i: int| 0 <= i < k ==> is_space(s[i]),
        k < s.len() ==> !is_space(s[k]),
    ensures
        trim_front(s) == s.skip(k),
    decreases k,
{
    if k == 0 {
        assert(s.skip(0) =~= s);
    } else {
        lemma_trim_front_at(s.drop_first(), k - 1);
        assert(s.drop_first().skip(k - 1) =~= s.skip(k));
    }
}

/// If every character from `k` on is whitespace and `k` is either 0 or follows
/// a non-whitespace position, then trimming the back keeps exactly `k` characters.
proof fn lemma_trim_back_at(s: Seq<char>, k: int)
    requires
        0 <= k <= s.len(),
        forall|i: int| k <= i < s.len() ==> is_space(s[i]),
        k > 0 ==> !is_space(s[k - 1]),
    ensures
        trim_back(s) == s.take(k),
    decreases s.len(),
{
    if k == s.len() {
        if s.len() == 0 || !is_space(s[s.len() - 1]) {
            assert(s.take(k) =~= s);
        } else {
            assert(false);
        }
    } else {
        lemma_trim_back_at(s.drop_last(), k);
        assert(s.drop_last().take(k) =~= s.take(k));
    }
}

/// The trimmed text, as a fresh `String`.
pub fn trim_str(s: &str) -> (r: String)
    ensures
        r@ == spec_trim(s@),
{
    let n: usize = s.unicode_len();
    let mut a: usize = 0;
    while a < n && is_space_char(s.get_char(a))
        invariant
            0 <= a <= n,
            n == s@.len(),
            forall|i: int| 0 <= i < a ==> is_space(s@[i]),
        decreases n - a,
    {
        a = a + 1;
    }
    proof {
        lemma_trim_front_at(s@, a as int);
    }
    if a == n {
        let r = String::new();
        proof {
            assert(trim_back(s@.skip(a as int)) =~= Seq::<char>::empty());
        }
        return r;
    }
    let mut b: usize = n;
    while b > a && is_space_char(s.get_char(b - 1))
        invariant
            a <= b <= n,
            n == s@.len(),
            forall|i: int| b <= i < n ==> is_space(s@[i]),
        decreases b,
    {
        b = b - 1;
    }
    let r = s.substring_char(a, b).to_owned();
    proof {
        let front = s@.skip(a as int);
        lemma_trim_back_at(front, b - a);
        assert(front.take(b - a) =~= s@.subrange(a as int, b as int));
    }
    r
}

/// The lines of `s`: the chunks between `'\n'` characters, in order. The empty
/// text has one empty line; a trailing `'\n'` yields a trailing empty line.
pub open spec fn spec_lines(s: Seq<char>) -> Seq<Seq<char>>
    decreases s.len(),
{
    if s.len() == 0 {
        seq![Seq::<char>::empty()]
    } else if s[0] == '\n' {
        seq![Seq::<char>::empty()] + spec_lines(s.drop_first())
    } else {
        let rest = spec_lines(s.drop_first());
        seq![seq![s[0]] + rest[0]] + rest.drop_first()
    }
}

/// The lines joined back into one text with `'\n'` between them.
pub open spec fn join_lines(ls: Seq<Seq<char>>) -> Seq<char>
    decreases ls.len(),
{
    if ls.len() == 0 {
        Seq::<char>::empty()
    } else if ls.len() == 1 {
        ls[0]
    } else {
        ls[0] + seq!['\n'] + join_lines(ls.drop_first())
    }
}

/// Splitting always yields at least one line.
pub proof fn lemma_lines_len(s: Seq<char>)
    ensures
        spec_lines(s).len() >= 1,
    decreases s.len(),
{
    if s.len() > 0 {
        lemma_lines_len(s.drop_first());
    }
}

/// A text without `'\n'` is a single line.
pub proof fn lemma_lines_no_nl(s: Seq<char>)
    requires
        forall|i: int| 0 <= i < s.len() ==> s[i] != '\n',
    ensures
        spec_lines(s) == seq![s],
    decreases s.len(),
{
    if s.len() == 0 {
        assert(spec_lines(s) =~~= seq![s]);
    } else {
        lemma_lines_no_nl(s.drop_first());
        let rest = spec_lines(s.drop_first());
        assert(rest == seq![s.drop_first()]);
        assert(rest.drop_first() =~= Seq::<Seq<char>>::empty());
        assert(seq![s[0]] + rest[0] =~= s);
        assert(spec_lines(s) =~~= seq![s]);
    }
}

/// Splitting at the first `'\n'`, at position `k`, yields the prefix as the
/// first line followed by the lines of the rest.
pub proof fn lemma_lines_split_at(s: Seq<char>, k: int)
    requires
        0 <= k < s.len(),
        s[k] == '\n',
        forall|i: int| 0 <= i < k ==> s[i] != '\n',
    ensures
        spec_lines(s) == seq![s.take(k)] + spec_lines(s.skip(k + 1)),
    decreases k,
{
    if k == 0 {
        assert(s.take(0) =~= Seq::<char>::empty());
        assert(s.skip(1) =~= s.drop_first());
        assert(spec_lines(s) =~= seq![s.take(0)] + spec_lines(s.skip(1)));
    } else {
        let t = s.drop_first();
        lemma_lines_split_at(t, k - 1);
        lemma_lines_len(t.skip(k));
        assert(seq![s[0]] + t.take(k - 1) =~= s.take(k));
        assert(t.skip(k) =~= s.skip(k + 1));
        assert(spec_lines(s) =~= seq![s.take(k)] + spec_lines(s.skip(k + 1)));
    }
}

/// No line produced by splitting contains `'\n'`.
pub proof fn lemma_lines_have_no_nl(s: Seq<char>)
    ensures
        forall|i: int, j: int|
            0 <= i < spec_lines(s).len() && 0 <= j < spec_lines(s)[i].len()
                ==> #[trigger] spec_lines(s)[i][j] != '\n',
    decreases s.len(),
{
    if s.len() > 0 {
        lemma_lines_have_no_nl(s.drop_first());
        lemma_lines_len(s.drop_first());
    }
}

/// Joining lines that contain no `'\n'` and splitting again gives the lines back.
pub proof fn lemma_lines_of_join(ls: Seq<Seq<char>>)
    requires
        ls.len() >= 1,
        forall|i: int, j: int|
            0 <= i < ls.len() && 0 <= j < ls[i].len() ==> #[trigger] ls[i][j] != '\n',
    ensures
        spec_lines(join_lines(ls)) == ls,
    decreases ls.len(),
{
    if ls.len() == 1 {
        lemma_lines_no_nl(ls[0]);
        assert(spec_lines(join_lines(ls)) =~= ls);
    } else {
        let s = join_lines(ls);
        let k = ls[0].len() as int;
        lemma_lines_of_join(ls.drop_first());
        assert(s =~= ls[0] + seq!['\n'] + join_lines(ls.drop_first()));
        assert(s[k] == '\n');
        assert(forall|i: int| 0 <= i < k ==> s[i] == ls[0][i] && s[i] != '\n');
        lemma_lines_split_at(s, k);
        assert(s.take(k) =~= ls[0]);
        assert(s.skip(k + 1) =~= join_lines(ls.drop_first()));
        assert(spec_lines(s) =~= ls);
    }
}

/// Splitting a text into lines and joining them again gives the text back.
pub proof fn lemma_join_of_lines(s: Seq<char>)
    ensures
        join_lines(spec_lines(s)) == s,
    decreases s.len(),
{
    let ls = spec_lines(s);
    if s.len() == 0 {
        assert(join_lines(ls) =~= s);
    } else if s[0] == '\n' {
        let t = s.drop_first();
        lemma_join_of_lines(t);
        lemma_lines_len(t);
        assert(ls.drop_first() =~= spec_lines(t));
        assert(ls.len() >= 2);
        assert(join_lines(ls) == ls[0] + seq!['\n'] + join_lines(ls.drop_first()));
        assert(join_lines(ls) =~= s);
    } else {
        let t = s.drop_first();
        lemma_join_of_lines(t);
        lemma_lines_len(t);
        let rest = spec_lines(t);
        if rest.len() == 1 {
            assert(ls.len() == 1);
            assert(join_lines(rest) == rest[0]);
            assert(join_lines(ls) == seq![s[0]] + rest[0]);
            assert(join_lines(ls) =~= s);
        } else {
            assert(ls.len() >= 2);
            assert(ls.drop_first() =~= rest.drop_first());
            assert(join_lines(ls) == ls[0] + seq!['\n'] + join_lines(rest.drop_first()));
            assert(join_lines(rest) == rest[0] + seq!['\n'] + join_lines(rest.drop_first()));
            assert(t == rest[0] + seq!['\n'] + join_lines(rest.drop_first()));
            assert(join_lines(ls) =~= seq![s[0]] + t);
            assert(seq![s[0]] + t =~= s);
        }
    }
}

/// Appending one more line extends the join by a `'\n'` and that line.
pub proof fn lemma_join_push(ls: Seq<Seq<char>>, l: Seq<char>)
    requires
        ls.len() >= 1,
    ensures
        join_lines(ls.push(l)) == join_lines(ls) + seq!['\n'] + l,
    decreases ls.len(),
{
    let p = ls.push(l);
    if ls.len() == 1 {
        assert(p.drop_first() =~= seq![l]);
        assert(join_lines(p.drop_first()) == l);
        assert(join_lines(p) == p[0] + seq!['\n'] + join_lines(p.drop_first()));
        assert(join_lines(p) =~= join_lines(ls) + seq!['\n'] + l);
    } else {
        lemma_join_push(ls.drop_first(), l);
        assert(p.drop_first() =~= ls.drop_first().push(l));
        assert(join_lines(p) == p[0] + seq!['\n'] + join_lines(ls.drop_first().push(l)));
        assert(join_lines(p) =~= join_lines(ls) + seq!['\n'] + l);
    }
}

/// The views of a sequence of strings.
pub open spec fn str_views(v: Seq<String>) -> Seq<Seq<char>> {
    Seq::new(v.len(), |i: int| v[i]@)
}

/// The lines of `s`, as fresh strings.
pub fn split_lines(s: &str) -> (r: Vec<String>)
    ensures
        str_views(r@) == spec_lines(s@),
{
    let n: usize = s.unicode_len();
    let mut r: Vec<String> = Vec::new();
    let mut line_start: usize = 0;
    let mut i: usize = 0;
    proof {
        assert(s@.skip(0) =~= s@);
        assert(str_views(Seq::<String>::empty()) =~= Seq::<Seq<char>>::empty());
    }
    while i < n
        invariant
            0 <= line_start <= i <= n,
            n == s@.len(),
            forall|j: int| line_start <= j < i ==> s@[j] != '\n',
            spec_lines(s@) =~= str_views(r@) + spec_lines(s@.skip(line_start as int)),
        decreases n - i,
    {
        if s.get_char(i) == '\n' {
            let line = s.substring_char(line_start, i).to_owned();
            proof {
                let suffix = s@.skip(line_start as int);
                let k = i - line_start;
                lemma_lines_split_at(suffix, k);
                assert(suffix.take(k) =~= s@.subrange(line_start as int, i as int));
                assert(suffix.skip(k + 1) =~= s@.skip(i + 1));
                assert(str_views(r@.push(line)) =~= str_views(r@).push(line@));
            }
            r.push(line);
            line_start = i + 1;
        }
        i = i + 1;
    }
    let last = s.substring_char(line_start, n).to_owned();
    proof {
        let suffix = s@.skip(line_start as int);
        lemma_lines_no_nl(suffix);
        assert(suffix =~= s@.subrange(line_start as int, n as int));
        assert(str_views(r@.push(last)) =~= str_views(r@).push(last@));
        assert(str_views(r@.push(last)) =~= spec_lines(s@));
    }
    r.push(last);
    r
}

/// Whether two texts hold the same characters.
pub fn str_eq(a: &str, b: &str) -> (r: bool)
    ensures
        r == (a@ == b@),
{
    let na: usize = a.unicode_len();
    let nb: usize = b.unicode_len();
    if na != nb {
        return false;
    }
    let mut i: usize = 0;
    while i < na
        invariant
            0 <= i <= na,
            na == a@.len(),
            na == b@.len(),
            forall|j: int| 0 <= j < i ==> a@[j] == b@[j],
        decreases na - i,
    {
        if a.get_char(i) != b.get_char(i) {
            return false;
        }
        i = i + 1;
    }
    proof {
        assert(a@ =~= b@);
    }
    true
}

} // verus!
