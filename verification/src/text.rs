//! Text utilities shared by the domain and node modules: character access,
//! Unicode whitespace, non-overlapping replacement and string building.

use vstd::prelude::*;

verus! {

/// The characters of `s`, in order.
pub fn chars_of(s: &str) -> (v: Vec<char>)
    ensures
        v@ == s@,
{
    let mut v: Vec<char> = Vec::new();
    for c in it: s.chars()
        invariant
            v@ == it.seq().take(it.index() as int),
    {
        v.push(c);
    }
    v
}

/// Appends one character to a `String` (`String::push`).
#[verifier::external_body]
fn push_char(s: &mut String, c: char)
    ensures
        final(s)@ == old(s)@.push(c),
{
    s.push(c);
}

/// A `String` holding exactly the characters of `chars`.
pub fn string_from_chars(chars: &Vec<char>) -> (s: String)
    ensures
        s@ == chars@,
{
    let mut s = String::new();
    let mut i: usize = 0;
    while i < chars.len()
        invariant
            i <= chars.len(),
            s@ == chars@.take(i as int),
        decreases chars.len() - i,
    {
        push_char(&mut s, chars[i]);
        i = i + 1;
        assert(s@ =~= chars@.take(i as int));
    }
    assert(chars@.take(chars.len() as int) =~= chars@);
    s
}

/// The Unicode `White_Space` property, as `char::is_whitespace` defines it.
pub open spec fn is_whitespace(c: char) -> bool {
    let u = c as u32;
    ||| 0x09 <= u <= 0x0d
    ||| u == 0x20
    ||| u == 0x85
    ||| u == 0xa0
    ||| u == 0x1680
    ||| 0x2000 <= u <= 0x200a
    ||| u == 0x2028
    ||| u == 0x2029
    ||| u == 0x202f
    ||| u == 0x205f
    ||| u == 0x3000
}

/// A text is blank when it is empty or holds only whitespace; it is exactly
/// then that trimming it leaves nothing.
pub open spec fn is_blank(s: Seq<char>) -> bool {
    forall|i: int| 0 <= i < s.len() ==> is_whitespace(#[trigger] s[i])
}

/// Whether `c` has the Unicode `White_Space` property.
pub fn char_is_whitespace(c: char) -> (b: bool)
    ensures
        b == is_whitespace(c),
{
    let u = c as u32;
    (0x09 <= u && u <= 0x0d) || u == 0x20 || u == 0x85 || u == 0xa0 || u == 0x1680 || (0x2000
        <= u && u <= 0x200a) || u == 0x2028 || u == 0x2029 || u == 0x202f || u == 0x205f || u
        == 0x3000
}

/// Whether `s` is empty after trimming whitespace from both ends.
pub fn str_is_blank(s: &str) -> (b: bool)
    ensures
        b == is_blank(s@),
{
    let chars = chars_of(s);
    let mut i: usize = 0;
    while i < chars.len()
        invariant
            i <= chars.len(),
            chars@ == s@,
            forall|j: int| 0 <= j < i ==> is_whitespace(#[trigger] s@[j]),
        decreases chars.len() - i,
    {
        if !char_is_whitespace(chars[i]) {
            return false;
        }
        i = i + 1;
    }
    true
}

/// Replaces every non-overlapping occurrence of `pat` in `s`, scanning from
/// the left, by `rep` (the behaviour of `str::replace` for a non-empty pattern).
pub open spec fn replace_all(s: Seq<char>, pat: Seq<char>, rep: Seq<char>) -> Seq<char>
    decreases s.len(),
{
    if pat.len() == 0 || s.len() < pat.len() {
        s
    } else if s.take(pat.len() as int) == pat {
        rep + replace_all(s.skip(pat.len() as int), pat, rep)
    } else {
        seq![s[0]] + replace_all(s.skip(1), pat, rep)
    }
}

/// Whether `pat` occurs in `s` at position `at`.
fn matches_at(s: &Vec<char>, pat: &Vec<char>, at: usize) -> (b: bool)
    requires
        at + pat.len() <= s.len(),
    ensures
        b == (s@.subrange(at as int, at + pat.len()) == pat@),
{
    let mut j: usize = 0;
    while j < pat.len()
        invariant
            j <= pat.len(),
            at + pat.len() <= s.len(),
            forall|k: int| 0 <= k < j ==> s@[at + k] == pat@[k],
        decreases pat.len() - j,
    {
        if s[at + j] != pat[j] {
            assert(s@.subrange(at as int, at + pat.len())[j as int] != pat@[j as int]);
            return false;
        }
        j = j + 1;
    }
    assert(s@.subrange(at as int, at + pat.len()) =~= pat@);
    true
}

/// Non-overlapping left-to-right replacement of the non-empty `pat` by `rep`.
pub fn replace_chars(s: &Vec<char>, pat: &Vec<char>, rep: &Vec<char>) -> (r: Vec<char>)
    requires
        pat.len() > 0,
    ensures
        r@ == replace_all(s@, pat@, rep@),
{
    let mut out: Vec<char> = Vec::new();
    let mut i: usize = 0;
    assert(s@.skip(0) =~= s@);
    while i < s.len()
        invariant
            i <= s.len(),
            pat.len() > 0,
            out@ + replace_all(s@.skip(i as int), pat@, rep@) == replace_all(s@, pat@, rep@),
        decreases s.len() - i,
    {
        let rest = Ghost(s@.skip(i as int));
        if s.len() - i < pat.len() {
            assert(replace_all(rest@, pat@, rep@) == rest@);
            while i < s.len()
                invariant
                    i <= s.len(),
                    out@ + s@.skip(i as int) == replace_all(s@, pat@, rep@),
                decreases s.len() - i,
            {
                let ghost before = out@;
                out.push(s[i]);
                assert(s@.skip(i as int) =~= seq![s@[i as int]] + s@.skip(i + 1));
                assert(before + s@.skip(i as int) =~= out@ + s@.skip(i + 1));
                i = i + 1;
            }
            assert(s@.skip(i as int) =~= Seq::<char>::empty());
            assert(out@ + s@.skip(i as int) =~= out@);
            return out;
        }
        assert(rest@.take(pat.len() as int) =~= s@.subrange(i as int, i + pat.len()));
        if matches_at(s, pat, i) {
            let ghost before = out@;
            let mut j: usize = 0;
            while j < rep.len()
                invariant
                    j <= rep.len(),
                    out@ == before + rep@.take(j as int),
                decreases rep.len() - j,
            {
                out.push(rep[j]);
                j = j + 1;
                assert(out@ =~= before + rep@.take(j as int));
            }
            assert(rep@.take(rep.len() as int) =~= rep@);
            assert(rest@.skip(pat.len() as int) =~= s@.skip(i + pat.len()));
            assert(before + (rep@ + replace_all(s@.skip(i + pat.len()), pat@, rep@)) =~= out@
                + replace_all(s@.skip(i + pat.len()), pat@, rep@));
            i = i + pat.len();
        } else {
            let ghost before = out@;
            out.push(s[i]);
            assert(rest@.skip(1) =~= s@.skip(i + 1));
            assert(before + (seq![s@[i as int]] + replace_all(s@.skip(i + 1), pat@, rep@)) =~= out@
                + replace_all(s@.skip(i + 1), pat@, rep@));
            i = i + 1;
        }
    }
    assert(s@.skip(i as int) =~= Seq::<char>::empty());
    assert(out@ + s@.skip(i as int) =~= out@);
    out
}

/// `p` occurs in `t` at position `i`.
pub open spec fn occurs_at(t: Seq<char>, p: Seq<char>, i: int) -> bool {
    0 <= i && i + p.len() <= t.len() && t.subrange(i, i + p.len()) == p
}

/// `p` occurs somewhere in `t`.
pub open spec fn occurs_in(t: Seq<char>, p: Seq<char>) -> bool {
    exists|i: int| occurs_at(t, p, i)
}

/// No character of `p` is a character of `m`.
pub open spec fn shares_no_char(p: Seq<char>, m: Seq<char>) -> bool {
    forall|i: int, j: int| 0 <= i < p.len() && 0 <= j < m.len() ==> p[i] != m[j]
}

/// A prefix of a replacement result that holds no character of the
/// replacement is copied unchanged from the start of the original text.
proof fn lemma_prefix_without_replacement(u: Seq<char>, pat: Seq<char>, rep: Seq<char>, n: int)
    requires
        pat.len() > 0,
        rep.len() > 0,
        0 <= n <= replace_all(u, pat, rep).len(),
        forall|i: int, j: int|
            0 <= i < n && 0 <= j < rep.len() ==> replace_all(u, pat, rep)[i] != rep[j],
    ensures
        n <= u.len(),
        u.take(n) == replace_all(u, pat, rep).take(n),
    decreases u.len(),
{
    let r = replace_all(u, pat, rep);
    if u.len() < pat.len() {
        assert(u.take(n) =~= r.take(n));
    } else if u.take(pat.len() as int) == pat {
        if n > 0 {
            assert(r[0] == rep[0]);
        }
        assert(u.take(n) =~= r.take(n));
    } else {
        if n > 0 {
            let u1 = u.skip(1);
            let r1 = replace_all(u1, pat, rep);
            assert(r =~= seq![u[0]] + r1);
            assert forall|i: int, j: int| 0 <= i < n - 1 && 0 <= j < rep.len() implies r1[i]
                != rep[j] by {
                assert(r1[i] == r[i + 1]);
            }
            lemma_prefix_without_replacement(u1, pat, rep, n - 1);
            assert(u.take(n) =~= seq![u[0]] + u1.take(n - 1));
            assert(r.take(n) =~= seq![u[0]] + r1.take(n - 1));
        } else {
            assert(u.take(n) =~= r.take(n));
        }
    }
}

/// Replacing by a text that shares no character with `p` creates no new
/// occurrence of `p`.
pub proof fn lemma_replacement_adds_no_occurrence(
    t: Seq<char>,
    pat: Seq<char>,
    rep: Seq<char>,
    p: Seq<char>,
    i: int,
)
    requires
        pat.len() > 0,
        rep.len() > 0,
        p.len() > 0,
        shares_no_char(p, rep),
        occurs_at(replace_all(t, pat, rep), p, i),
    ensures
        occurs_in(t, p),
    decreases t.len(),
{
    let r = replace_all(t, pat, rep);
    if t.len() < pat.len() {
        assert(occurs_at(t, p, i));
    } else if t.take(pat.len() as int) == pat {
        let t1 = t.skip(pat.len() as int);
        let r1 = replace_all(t1, pat, rep);
        assert(r =~= rep + r1);
        if i < rep.len() {
            assert(r.subrange(i, i + p.len())[0] == p[0]);
            assert(r[i] == rep[i]);
        } else {
            assert(r1.subrange(i - rep.len(), i - rep.len() + p.len()) =~= r.subrange(
                i,
                i + p.len(),
            ));
            assert(occurs_at(r1, p, i - rep.len()));
            lemma_replacement_adds_no_occurrence(t1, pat, rep, p, i - rep.len());
            let j = choose|j: int| occurs_at(t1, p, j);
            assert(t.subrange(j + pat.len(), j + pat.len() + p.len()) =~= t1.subrange(
                j,
                j + p.len(),
            ));
            assert(occurs_at(t, p, j + pat.len()));
        }
    } else {
        let t1 = t.skip(1);
        let r1 = replace_all(t1, pat, rep);
        assert(r =~= seq![t[0]] + r1);
        if i >= 1 {
            assert(r1.subrange(i - 1, i - 1 + p.len()) =~= r.subrange(i, i + p.len()));
            assert(occurs_at(r1, p, i - 1));
            lemma_replacement_adds_no_occurrence(t1, pat, rep, p, i - 1);
            let j = choose|j: int| occurs_at(t1, p, j);
            assert(t.subrange(j + 1, j + 1 + p.len()) =~= t1.subrange(j, j + p.len()));
            assert(occurs_at(t, p, j + 1));
        } else {
            let n = p.len() - 1;
            assert forall|a: int, b: int| 0 <= a < n && 0 <= b < rep.len() implies r1[a]
                != rep[b] by {
                assert(r1[a] == r[a + 1]);
                assert(r.subrange(0, p.len() as int)[a + 1] == p[a + 1]);
            }
            lemma_prefix_without_replacement(t1, pat, rep, n);
            assert(t.subrange(0, p.len() as int) =~= seq![t[0]] + t1.take(n));
            assert(r.subrange(0, p.len() as int) =~= seq![t[0]] + r1.take(n));
            assert(occurs_at(t, p, 0));
        }
    }
}

/// Once replaced by a text it shares no character with, a pattern no longer
/// occurs.
pub proof fn lemma_replaced_pattern_is_gone(t: Seq<char>, pat: Seq<char>, rep: Seq<char>)
    requires
        pat.len() > 0,
        rep.len() > 0,
        shares_no_char(pat, rep),
    ensures
        !occurs_in(replace_all(t, pat, rep), pat),
    decreases t.len(),
{
    let r = replace_all(t, pat, rep);
    if occurs_in(r, pat) {
        let i = choose|i: int| occurs_at(r, pat, i);
        if t.len() < pat.len() {
        } else if t.take(pat.len() as int) == pat {
            let t1 = t.skip(pat.len() as int);
            let r1 = replace_all(t1, pat, rep);
            assert(r =~= rep + r1);
            if i < rep.len() {
                assert(r.subrange(i, i + pat.len())[0] == pat[0]);
                assert(r[i] == rep[i]);
            } else {
                assert(r1.subrange(i - rep.len(), i - rep.len() + pat.len()) =~= r.subrange(
                    i,
                    i + pat.len(),
                ));
                assert(occurs_at(r1, pat, i - rep.len()));
                lemma_replaced_pattern_is_gone(t1, pat, rep);
            }
        } else {
            let t1 = t.skip(1);
            let r1 = replace_all(t1, pat, rep);
            assert(r =~= seq![t[0]] + r1);
            if i >= 1 {
                assert(r1.subrange(i - 1, i - 1 + pat.len()) =~= r.subrange(i, i + pat.len()));
                assert(occurs_at(r1, pat, i - 1));
                lemma_replaced_pattern_is_gone(t1, pat, rep);
            } else {
                let n = pat.len() - 1;
                assert forall|a: int, b: int| 0 <= a < n && 0 <= b < rep.len() implies r1[a]
                    != rep[b] by {
                    assert(r1[a] == r[a + 1]);
                    assert(r.subrange(0, pat.len() as int)[a + 1] == pat[a + 1]);
                }
                lemma_prefix_without_replacement(t1, pat, rep, n);
                assert(t.take(pat.len() as int) =~= seq![t[0]] + t1.take(n));
                assert(r.subrange(0, pat.len() as int) =~= seq![t[0]] + r1.take(n));
            }
        }
    }
}

/// Which texts are blank. The empty text is blank; a text of one character is
/// blank exactly when that character is whitespace; and a text made of two
/// parts is blank exactly when both parts are. So a text is blank exactly when
/// every one of its characters, the last included, is whitespace.
pub proof fn law_blank_texts(a: Seq<char>, b: Seq<char>, c: char)
    ensures
        is_blank(Seq::<char>::empty()),
        is_blank(seq![c]) <==> is_whitespace(c),
        is_blank(a + b) <==> (is_blank(a) && is_blank(b)),
{
    assert(seq![c][0] == c);
    if is_blank(a) && is_blank(b) {
        assert forall|i: int| 0 <= i < (a + b).len() implies is_whitespace(#[trigger] (a + b)[i]) by {
            if i < a.len() {
                assert((a + b)[i] == a[i]);
            } else {
                assert((a + b)[i] == b[i - a.len()]);
            }
        }
    }
    if is_blank(a + b) {
        assert forall|i: int| 0 <= i < a.len() implies is_whitespace(#[trigger] a[i]) by {
            assert((a + b)[i] == a[i]);
        }
        assert forall|i: int| 0 <= i < b.len() implies is_whitespace(#[trigger] b[i]) by {
            assert((a + b)[i + a.len()] == b[i]);
        }
    }
}

/// Which characters are whitespace among the ASCII ones: the space, tab, line
/// feed, vertical tab, form feed and carriage return, and no visible
/// character (letters, digits and punctuation, `'!'..='~'`).
pub proof fn law_ascii_whitespace(c: char)
    ensures
        is_whitespace(' '),
        is_whitespace('\t'),
        is_whitespace('\n'),
        is_whitespace('\r'),
        ('!' as u32) <= (c as u32) <= ('~' as u32) ==> !is_whitespace(c),
{
}

/// A text in which the pattern does not occur is left as it is.
pub proof fn law_replace_without_occurrence(s: Seq<char>, pat: Seq<char>, rep: Seq<char>)
    requires
        !occurs_in(s, pat),
    ensures
        replace_all(s, pat, rep) == s,
    decreases s.len(),
{
    if pat.len() == 0 || s.len() < pat.len() {
    } else if s.take(pat.len() as int) == pat {
        assert(occurs_at(s, pat, 0));
    } else {
        let t = s.skip(1);
        if occurs_in(t, pat) {
            let j = choose|j: int| occurs_at(t, pat, j);
            assert(s.subrange(j + 1, j + 1 + pat.len()) =~= t.subrange(j, j + pat.len()));
            assert(occurs_at(s, pat, j + 1));
        }
        law_replace_without_occurrence(t, pat, rep);
        assert(s =~= seq![s[0]] + t);
    }
}

/// Replacement goes from the left and does not overlap: when the first
/// occurrence of the non-empty pattern in `u + pat + v` is the one right after
/// `u`, the result is `u` unchanged, then the replacement, then `v` with its
/// own occurrences replaced.
pub proof fn law_replace_first_occurrence(
    u: Seq<char>,
    v: Seq<char>,
    pat: Seq<char>,
    rep: Seq<char>,
)
    requires
        pat.len() > 0,
        forall|i: int| 0 <= i < u.len() ==> !occurs_at(#[trigger] (u + pat + v), pat, i),
    ensures
        replace_all(u + pat + v, pat, rep) == u + rep + replace_all(v, pat, rep),
    decreases u.len(),
{
    let s = u + pat + v;
    if u.len() == 0 {
        assert(s =~= pat + v);
        assert(s.take(pat.len() as int) =~= pat);
        assert(s.skip(pat.len() as int) =~= v);
        assert(u + rep =~= rep);
    } else {
        assert(!occurs_at(s, pat, 0));
        assert(s.subrange(0, pat.len() as int) =~= s.take(pat.len() as int));
        let u1 = u.skip(1);
        let s1 = u1 + pat + v;
        assert(s.skip(1) =~= s1);
        assert forall|i: int| 0 <= i < u1.len() implies !occurs_at(#[trigger] (u1 + pat + v), pat, i) by {
            assert(!occurs_at(s, pat, i + 1));
            assert(s.subrange(i + 1, i + 1 + pat.len()) =~= s1.subrange(i, i + pat.len()));
        }
        law_replace_first_occurrence(u1, v, pat, rep);
        assert(u =~= seq![u[0]] + u1);
        assert(s[0] == u[0]);
        assert(seq![u[0]] + (u1 + rep + replace_all(v, pat, rep)) =~= u + rep + replace_all(
            v,
            pat,
            rep,
        ));
    }
}

} // verus!
