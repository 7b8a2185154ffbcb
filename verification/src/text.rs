//! Character-level string helpers with specifications: Unicode whitespace,
//! word splitting, prefixes, searching and replacement.
use vstd::prelude::*;

verus! {

/// `String::push`: appends one character, as std documents it.
#[verifier::external_body]
pub(crate) fn push_char(s: &mut String, c: char)
    ensures
        final(s)@ == old(s)@.push(c),
{
    s.push(c);
}

/// The characters of `s`, in order.
pub fn chars_of(s: &str) -> (v: Vec<char>)
    ensures
        v@ == s@,
{
    let mut v: Vec<char> = Vec::new();
    for c in it: s.chars()
        invariant
            v@ == it.seq().take(it.index() as int),
    {
        v.push(c);
    }
    proof {
        assert(v@ =~= s@);
    }
    v
}

/// The string made of `cs[from..to]`.
pub fn string_from_chars(cs: &Vec<char>, from: usize, to: usize) -> (s: String)
    requires
        from <= to <= cs.len(),
    ensures
        s@ == cs@.subrange(from as int, to as int),
{
    let mut s = String::new();
    let mut i = from;
    while i < to
        invariant
            from <= i <= to <= cs.len(),
            s@ == cs@.subrange(from as int, i as int),
        decreases to - i,
    {
        push_char(&mut s, cs[i]);
        proof {
            assert(cs@.subrange(from as int, i + 1) =~= cs@.subrange(from as int, i as int).push(cs@[i as int]));
        }
        i = i + 1;
    }
    s
}

/// Unicode `White_Space`, the property that `char::is_whitespace` tests.
pub open spec fn spec_is_whitespace(c: char) -> bool {
    ||| ('\u{9}' <= c && c <= '\u{d}')
    ||| c == ' '
    ||| c == '\u{85}'
    ||| c == '\u{a0}'
    ||| c == '\u{1680}'
    ||| ('\u{2000}' <= c && c <= '\u{200a}')
    ||| c == '\u{2028}'
    ||| c == '\u{2029}'
    ||| c == '\u{202f}'
    ||| c == '\u{205f}'
    ||| c == '\u{3000}'
}

/// Whether `c` is Unicode whitespace.
pub fn is_whitespace(c: char) -> (b: bool)
    ensures
        b == spec_is_whitespace(c),
{
    ('\u{9}' <= c && c <= '\u{d}') || c == ' ' || c == '\u{85}' || c == '\u{a0}'
        || c == '\u{1680}' || ('\u{2000}' <= c && c <= '\u{200a}') || c == '\u{2028}'
        || c == '\u{2029}' || c == '\u{202f}' || c == '\u{205f}' || c == '\u{3000}'
}

/// Length of the run of non-whitespace characters that `s` starts with.
pub open spec fn leading_word_len(s: Seq<char>) -> nat
    decreases s.len(),
{
    if s.len() == 0 || spec_is_whitespace(s[0]) {
        0
    } else {
        1 + leading_word_len(s.drop_first())
    }
}

/// The maximal runs of non-whitespace characters of `s`, in order: what
/// `str::split_whitespace` yields.
pub open spec fn split_ws(s: Seq<char>) -> Seq<Seq<char>>
    decreases s.len(),
{
    if s.len() == 0 {
        seq![]
    } else if spec_is_whitespace(s[0]) {
        split_ws(s.drop_first())
    } else {
        let n = leading_word_len(s);
        if 0 < n <= s.len() {
            seq![s.take(n as int)] + split_ws(s.skip(n as int))
        } else {
            seq![]
        }
    }
}

/// The pieces of `parts` joined with `sep` between neighbours.
pub open spec fn join(parts: Seq<Seq<char>>, sep: Seq<char>) -> Seq<char>
    decreases parts.len(),
{
    if parts.len() == 0 {
        seq![]
    } else if parts.len() == 1 {
        parts[0]
    } else {
        join(parts.drop_last(), sep) + sep + parts.last()
    }
}

proof fn lemma_leading_word_len(s: Seq<char>, j: int)
    requires
        0 <= j <= s.len(),
        forall|k: int| 0 <= k < j ==> !spec_is_whitespace(#[trigger] s[k]),
        j == s.len() || spec_is_whitespace(s[j]),
    ensures
        leading_word_len(s) == j,
    decreases j,
{
    if j > 0 {
        let d = s.drop_first();
        assert forall|k: int| 0 <= k < j - 1 implies !spec_is_whitespace(#[trigger] d[k]) by {
            assert(d[k] == s[k + 1]);
        }
        if j < s.len() {
            assert(d[j - 1] == s[j]);
        }
        lemma_leading_word_len(d, j - 1);
    }
}

/// Whether the only whitespace in `t` is single spaces between other characters.
pub open spec fn whitespace_collapsed(t: Seq<char>) -> bool {
    forall|i: int| 0 <= i < t.len() && #[trigger] spec_is_whitespace(t[i])
        ==> t[i] == ' ' && 0 < i < t.len() - 1 && !spec_is_whitespace(t[i + 1])
}

/// Whether `w` is a word: non-empty, without whitespace.
pub open spec fn is_word(w: Seq<char>) -> bool {
    w.len() > 0 && forall|k: int| 0 <= k < w.len() ==> !spec_is_whitespace(#[trigger] w[k])
}

proof fn lemma_leading_word(s: Seq<char>)
    ensures
        leading_word_len(s) <= s.len(),
        forall|k: int| 0 <= k < leading_word_len(s) ==> !spec_is_whitespace(#[trigger] s[k]),
        leading_word_len(s) < s.len() ==> spec_is_whitespace(s[leading_word_len(s) as int]),
    decreases s.len(),
{
    if s.len() > 0 && !spec_is_whitespace(s[0]) {
        let d = s.drop_first();
        lemma_leading_word(d);
        assert forall|k: int| 0 <= k < leading_word_len(s) implies !spec_is_whitespace(#[trigger] s[k]) by {
            if k > 0 {
                assert(s[k] == d[k - 1]);
            }
        }
        if leading_word_len(s) < s.len() {
            assert(s[leading_word_len(s) as int] == d[leading_word_len(d) as int]);
        }
    }
}

/// The words of two texts joined by a space are the words of the first,
/// then those of the second.
pub proof fn lemma_split_ws_concat(a: Seq<char>, b: Seq<char>)
    ensures
        split_ws(a + seq![' '] + b) == split_ws(a) + split_ws(b),
    decreases a.len(),
{
    let s = a + seq![' '] + b;
    assert(spec_is_whitespace(' '));
    if a.len() == 0 {
        assert(s.drop_first() =~= b);
        assert(split_ws(s) == split_ws(s.drop_first()));
        assert(split_ws(a) + split_ws(b) =~= split_ws(b));
    } else if spec_is_whitespace(a[0]) {
        assert(s[0] == a[0]);
        assert(s.drop_first() =~= a.drop_first() + seq![' '] + b);
        lemma_split_ws_concat(a.drop_first(), b);
        assert(split_ws(s) == split_ws(s.drop_first()));
        assert(split_ws(a) == split_ws(a.drop_first()));
    } else {
        assert(s[0] == a[0]);
        lemma_leading_word(a);
        let m = leading_word_len(a);
        assert forall|k: int| 0 <= k < m implies !spec_is_whitespace(#[trigger] s[k]) by {
            assert(s[k] == a[k]);
        }
        if m < a.len() {
            assert(s[m as int] == a[m as int]);
        } else {
            assert(s[m as int] == ' ');
        }
        lemma_leading_word_len(s, m as int);
        assert(m >= 1);
        assert(s.take(m as int) =~= a.take(m as int));
        assert(s.skip(m as int) =~= a.skip(m as int) + seq![' '] + b);
        lemma_split_ws_concat(a.skip(m as int), b);
        assert(split_ws(s) == seq![s.take(m as int)] + split_ws(s.skip(m as int)));
        assert(split_ws(a) == seq![a.take(m as int)] + split_ws(a.skip(m as int)));
        assert(split_ws(s) =~= split_ws(a) + split_ws(b));
    }
}

/// Every piece that `split_ws` yields is a word.
pub proof fn lemma_split_ws_words(s: Seq<char>)
    ensures
        forall|i: int| 0 <= i < split_ws(s).len() ==> is_word(#[trigger] split_ws(s)[i]),
    decreases s.len(),
{
    if s.len() > 0 {
        if spec_is_whitespace(s[0]) {
            lemma_split_ws_words(s.drop_first());
            assert(split_ws(s) == split_ws(s.drop_first()));
        } else {
            let n = leading_word_len(s);
            lemma_leading_word(s);
            lemma_split_ws_words(s.skip(n as int));
            let rest = split_ws(s.skip(n as int));
            assert(n >= 1);
            assert(split_ws(s) == seq![s.take(n as int)] + rest);
            assert forall|i: int| 0 <= i < split_ws(s).len() implies is_word(#[trigger] split_ws(s)[i]) by {
                if i == 0 {
                    assert(split_ws(s)[0] == s.take(n as int));
                    assert forall|k: int| 0 <= k < s.take(n as int).len()
                        implies !spec_is_whitespace(#[trigger] s.take(n as int)[k]) by {
                        assert(s.take(n as int)[k] == s[k]);
                    }
                } else {
                    assert(split_ws(s)[i] == rest[i - 1]);
                }
            }
        }
    }
}

/// Words joined with single spaces leave no other whitespace.
pub proof fn lemma_join_words_collapsed(parts: Seq<Seq<char>>)
    requires
        forall|i: int| 0 <= i < parts.len() ==> is_word(#[trigger] parts[i]),
    ensures
        whitespace_collapsed(join(parts, " "@)),
        parts.len() > 0 ==> join(parts, " "@).len() > 0 && !spec_is_whitespace(join(parts, " "@).last()),
    decreases parts.len(),
{
    reveal_strlit(" ");
    if parts.len() == 1 {
        let w = parts[0];
        assert(is_word(w));
    } else if parts.len() > 1 {
        let init = parts.drop_last();
        assert forall|i: int| 0 <= i < init.len() implies is_word(#[trigger] init[i]) by {
            assert(init[i] == parts[i]);
        }
        lemma_join_words_collapsed(init);
        let a = join(init, " "@);
        let w = parts.last();
        assert(is_word(w));
        let t = a + " "@ + w;
        assert(join(parts, " "@) == t);
        assert forall|i: int| 0 <= i < t.len() && #[trigger] spec_is_whitespace(t[i])
            implies t[i] == ' ' && 0 < i < t.len() - 1 && !spec_is_whitespace(t[i + 1]) by {
            if i < a.len() {
                assert(t[i] == a[i]);
                if i + 1 < a.len() {
                    assert(t[i + 1] == a[i + 1]);
                } else {
                    assert(a[i] == a.last());
                }
            } else if i == a.len() {
                assert(t[i] == ' ');
                assert(t[i + 1] == w[0]);
            } else {
                assert(t[i] == w[i - a.len() - 1]);
            }
        }
        assert(t.last() == w.last());
        assert(w.last() == w[w.len() - 1]);
    }
}

/// The words of `cs`, each as a `String`.
pub fn split_whitespace(cs: &Vec<char>) -> (words: Vec<String>)
    ensures
        words@.map_values(|w: String| w@) =~= split_ws(cs@),
{
    let mut words: Vec<String> = Vec::new();
    let ghost mut done: Seq<Seq<char>> = Seq::empty();
    let mut i: usize = 0;
    proof {
        assert(cs@.skip(0) =~= cs@);
    }
    while i < cs.len()
        invariant
            i <= cs.len(),
            words.len() == done.len(),
            forall|k: int| 0 <= k < done.len() ==> #[trigger] words@[k]@ == done[k],
            done + split_ws(cs@.skip(i as int)) == split_ws(cs@),
        decreases cs.len() - i,
    {
        let ghost rest = cs@.skip(i as int);
        if is_whitespace(cs[i]) {
            proof {
                assert(rest.drop_first() =~= cs@.skip(i + 1));
            }
            i = i + 1;
        } else {
            let mut j = i + 1;
            while j < cs.len() && !is_whitespace(cs[j])
                invariant
                    i < j <= cs.len(),
                    forall|k: int| i <= k < j ==> !spec_is_whitespace(#[trigger] cs@[k]),
                decreases cs.len() - j,
            {
                j = j + 1;
            }
            let w = string_from_chars(cs, i, j);
            proof {
                assert forall|k: int| 0 <= k < j - i implies !spec_is_whitespace(#[trigger] rest[k]) by {
                    assert(rest[k] == cs@[i + k]);
                }
                if j < cs.len() {
                    assert(rest[j - i] == cs@[j as int]);
                }
                lemma_leading_word_len(rest, j - i);
                assert(rest.take(j - i) =~= cs@.subrange(i as int, j as int));
                assert(rest.skip(j - i) =~= cs@.skip(j as int));
                assert(done.push(w@) + split_ws(cs@.skip(j as int)) =~= done + split_ws(rest));
                done = done.push(w@);
            }
            words.push(w);
            i = j;
        }
    }
    proof {
        assert(cs@.skip(i as int) =~= Seq::<char>::empty());
        assert(done + Seq::<Seq<char>>::empty() =~= done);
    }
    words
}

/// `parts` joined with `sep`.
pub fn join_strings(parts: &Vec<String>, sep: &str) -> (s: String)
    ensures
        s@ == join(parts@.map_values(|p: String| p@), sep@),
{
    let ghost views = parts@.map_values(|p: String| p@);
    let mut s = String::new();
    let mut i: usize = 0;
    while i < parts.len()
        invariant
            i <= parts.len(),
            views == parts@.map_values(|p: String| p@),
            s@ == join(views.take(i as int), sep@),
        decreases parts.len() - i,
    {
        if i > 0 {
            s.append(sep);
        }
        s.append(parts[i].as_str());
        proof {
            assert(views.take(i + 1).drop_last() =~= views.take(i as int));
            if i == 0 {
                assert(s@ =~= views.take(1)[0]);
            }
        }
        i = i + 1;
    }
    proof {
        assert(views.take(parts.len() as int) =~= views);
    }
    s
}

/// Whether `s` begins with `p`.
pub open spec fn has_prefix(s: Seq<char>, p: Seq<char>) -> bool {
    p.len() <= s.len() && s.take(p.len() as int) == p
}

/// Whether `pat` occurs in `s` starting at index `i`.
pub open spec fn occurs_at<A>(s: Seq<A>, pat: Seq<A>, i: int) -> bool {
    0 <= i && i + pat.len() <= s.len() && s.subrange(i, i + pat.len()) == pat
}

/// Whether `pat` occurs anywhere in `s`.
pub open spec fn contains(s: Seq<char>, pat: Seq<char>) -> bool {
    exists|i: int| occurs_at(s, pat, i)
}

/// Whether `cs[at..]` begins with `pat`.
pub fn matches_at(cs: &Vec<char>, pat: &Vec<char>, at: usize) -> (b: bool)
    requires
        at <= cs.len(),
    ensures
        b == occurs_at(cs@, pat@, at as int),
{
    if pat.len() > cs.len() - at {
        return false;
    }
    let mut k: usize = 0;
    while k < pat.len()
        invariant
            k <= pat.len(),
            at + pat.len() <= cs.len(),
            forall|m: int| 0 <= m < k ==> cs@[at + m] == pat@[m],
        decreases pat.len() - k,
    {
        if cs[at + k] != pat[k] {
            proof {
                assert(cs@.subrange(at as int, at + pat.len())[k as int] != pat@[k as int]);
            }
            return false;
        }
        k = k + 1;
    }
    proof {
        assert(cs@.subrange(at as int, at + pat.len()) =~= pat@);
    }
    true
}

/// Whether `cs` begins with `pat`.
pub fn starts_with(cs: &Vec<char>, pat: &str) -> (b: bool)
    ensures
        b == has_prefix(cs@, pat@),
{
    let p = chars_of(pat);
    let b = matches_at(cs, &p, 0);
    proof {
        if b {
            assert(cs@.subrange(0, p@.len() as int) =~= cs@.take(p@.len() as int));
        } else if p@.len() <= cs@.len() {
            assert(cs@.subrange(0, p@.len() as int) =~= cs@.take(p@.len() as int));
        }
    }
    b
}

/// Index of the first occurrence of `pat` in `s` at or after `from`.
pub open spec fn first_occurrence_from<A>(s: Seq<A>, pat: Seq<A>, from: int) -> Option<int>
    decreases s.len() + 1 - from,
{
    if from < 0 || from + pat.len() > s.len() {
        None
    } else if occurs_at(s, pat, from) {
        Some(from)
    } else {
        first_occurrence_from(s, pat, from + 1)
    }
}

pub proof fn lemma_first_occurrence<A>(s: Seq<A>, pat: Seq<A>, from: int)
    requires
        0 <= from,
    ensures
        first_occurrence_from(s, pat, from) matches Some(i) ==> from <= i && occurs_at(s, pat, i)
            && forall|k: int| from <= k < i ==> !occurs_at(s, pat, k),
        first_occurrence_from(s, pat, from) is None ==> forall|k: int| from <= k ==> !occurs_at(s, pat, k),
    decreases s.len() + 1 - from,
{
    if from + pat.len() <= s.len() && !occurs_at(s, pat, from) {
        lemma_first_occurrence(s, pat, from + 1);
    }
}

/// An optional index, widened to `int`.
pub open spec fn opt_index(r: Option<usize>) -> Option<int> {
    match r {
        Some(i) => Some(i as int),
        None => None,
    }
}

/// Index of the first occurrence of `pat` in `cs` at or after `from`.
pub fn find_from(cs: &Vec<char>, pat: &Vec<char>, from: usize) -> (r: Option<usize>)
    requires
        from <= cs.len(),
    ensures
        opt_index(r) == first_occurrence_from(cs@, pat@, from as int),
{
    let mut i = from;
    while pat.len() <= cs.len() - i
        invariant
            from <= i <= cs.len(),
            first_occurrence_from(cs@, pat@, i as int) == first_occurrence_from(cs@, pat@, from as int),
        decreases cs.len() + 1 - i,
    {
        if matches_at(cs, pat, i) {
            return Some(i);
        }
        proof {
            if pat@.len() == 0 {
                assert(cs@.subrange(i as int, i as int) =~= pat@);
            }
        }
        i = i + 1;
    }
    None
}

/// Whether `s` contains `pat`.
pub fn contains_str(cs: &Vec<char>, pat: &str) -> (b: bool)
    ensures
        b == contains(cs@, pat@),
{
    let p = chars_of(pat);
    let r = find_from(cs, &p, 0);
    proof {
        lemma_first_occurrence(cs@, p@, 0);
    }
    r.is_some()
}

/// `s` with every non-overlapping occurrence of `pat`, scanned left to
/// right, replaced by `rep`: what `str::replace` computes.
pub open spec fn replace_all(s: Seq<char>, pat: Seq<char>, rep: Seq<char>) -> Seq<char>
    decreases s.len(),
{
    if s.len() == 0 || pat.len() == 0 {
        s
    } else if has_prefix(s, pat) {
        rep + replace_all(s.skip(pat.len() as int), pat, rep)
    } else {
        seq![s[0]] + replace_all(s.drop_first(), pat, rep)
    }
}

proof fn lemma_replace_match(s: Seq<char>, i: int, p: Seq<char>, q: Seq<char>)
    requires
        0 <= i < s.len(),
        p.len() > 0,
        occurs_at(s, p, i),
    ensures
        replace_all(s.skip(i), p, q) == q + replace_all(s.skip(i + p.len()), p, q),
{
    assert(s.skip(i).take(p.len() as int) =~= s.subrange(i, i + p.len()));
    assert(s.skip(i).skip(p.len() as int) =~= s.skip(i + p.len()));
}

proof fn lemma_replace_no_match(s: Seq<char>, i: int, p: Seq<char>, q: Seq<char>)
    requires
        0 <= i < s.len(),
        p.len() > 0,
        !occurs_at(s, p, i),
    ensures
        replace_all(s.skip(i), p, q) == seq![s[i]] + replace_all(s.skip(i + 1), p, q),
{
    if p.len() <= s.len() - i {
        assert(s.skip(i).take(p.len() as int) =~= s.subrange(i, i + p.len()));
    }
    assert(s.skip(i).drop_first() =~= s.skip(i + 1));
}

/// Replaces every occurrence of `pat` in `cs` by `rep`.
pub fn replace_chars(cs: &Vec<char>, pat: &str, rep: &str) -> (r: Vec<char>)
    requires
        pat@.len() > 0,
    ensures
        r@ == replace_all(cs@, pat@, rep@),
{
    let p = chars_of(pat);
    let q = chars_of(rep);
    let mut out: Vec<char> = Vec::new();
    let mut i: usize = 0;
    proof {
        assert(cs@.skip(0) =~= cs@);
    }
    while i < cs.len()
        invariant
            i <= cs.len(),
            p@ == pat@,
            q@ == rep@,
            p@.len() > 0,
            out@ + replace_all(cs@.skip(i as int), p@, q@) == replace_all(cs@, p@, q@),
        decreases cs.len() - i,
    {
        let ghost before = out@;
        if matches_at(cs, &p, i) {
            proof {
                lemma_replace_match(cs@, i as int, p@, q@);
            }
            let mut k: usize = 0;
            while k < q.len()
                invariant
                    k <= q.len(),
                    out@ == before + q@.take(k as int),
                decreases q.len() - k,
            {
                out.push(q[k]);
                proof {
                    assert(q@.take(k + 1) =~= q@.take(k as int).push(q@[k as int]));
                }
                k = k + 1;
            }
            proof {
                assert(q@.take(q@.len() as int) =~= q@);
                assert(out@ + replace_all(cs@.skip(i + p@.len()), p@, q@)
                    =~= before + (q@ + replace_all(cs@.skip(i + p@.len()), p@, q@)));
            }
            i = i + p.len();
        } else {
            proof {
                lemma_replace_no_match(cs@, i as int, p@, q@);
            }
            out.push(cs[i]);
            proof {
                assert(out@ + replace_all(cs@.skip(i + 1), p@, q@)
                    =~= before + (seq![cs@[i as int]] + replace_all(cs@.skip(i + 1), p@, q@)));
            }
            i = i + 1;
        }
    }
    proof {
        assert(cs@.skip(i as int) =~= Seq::<char>::empty());
        assert(out@ + Seq::<char>::empty() =~= out@);
    }
    out
}

/// Whether two strings hold the same characters.
pub fn str_eq(a: &str, b: &str) -> (r: bool)
    ensures
        r == (a@ == b@),
{
    let x = chars_of(a);
    let y = chars_of(b);
    if x.len() != y.len() {
        proof {
            assert(a@.len() != b@.len());
        }
        return false;
    }
    let mut i: usize = 0;
    while i < x.len()
        invariant
            i <= x.len(),
            x.len() == y.len(),
            x@ == a@,
            y@ == b@,
            forall|k: int| 0 <= k < i ==> x@[k] == y@[k],
        decreases x.len() - i,
    {
        if x[i] != y[i] {
            proof {
                assert(a@[i as int] != b@[i as int]);
            }
            return false;
        }
        i = i + 1;
    }
    proof {
        assert(x@ =~= y@);
    }
    true
}

/// Whether `b[at..]` begins with `pat`.
pub fn bytes_match_at(b: &[u8], pat: &[u8], at: usize) -> (r: bool)
    requires
        at <= b@.len(),
    ensures
        r == occurs_at(b@, pat@, at as int),
{
    if pat.len() > b.len() - at {
        return false;
    }
    let mut k: usize = 0;
    while k < pat.len()
        invariant
            k <= pat@.len(),
            at + pat@.len() <= b@.len(),
            at + pat.len() <= b.len(),
            forall|m: int| 0 <= m < k ==> b@[at + m] == pat@[m],
        decreases pat@.len() - k,
    {
        if b[at + k] != pat[k] {
            proof {
                assert(b@.subrange(at as int, at + pat@.len())[k as int] != pat@[k as int]);
            }
            return false;
        }
        k = k + 1;
    }
    proof {
        assert(b@.subrange(at as int, at + pat@.len()) =~= pat@);
    }
    true
}

/// Byte index of the first occurrence of `pat` in `b` at or after `from`.
pub fn find_bytes_from(b: &[u8], pat: &[u8], from: usize) -> (r: Option<usize>)
    requires
        from <= b@.len(),
    ensures
        opt_index(r) == first_occurrence_from(b@, pat@, from as int),
{
    let mut i = from;
    while pat.len() <= b.len() - i
        invariant
            from <= i <= b@.len(),
            first_occurrence_from(b@, pat@, i as int) == first_occurrence_from(b@, pat@, from as int),
        decreases b@.len() + 1 - i,
    {
        if bytes_match_at(b, pat, i) {
            return Some(i);
        }
        proof {
            if pat@.len() == 0 {
                assert(b@.subrange(i as int, i as int) =~= pat@);
            }
        }
        i = i + 1;
    }
    None
}

/// `s` without leading whitespace.
pub open spec fn trim_start_ws(s: Seq<char>) -> Seq<char>
    decreases s.len(),
{
    if s.len() > 0 && spec_is_whitespace(s[0]) {
        trim_start_ws(s.drop_first())
    } else {
        s
    }
}

/// `s` without trailing whitespace.
pub open spec fn trim_end_ws(s: Seq<char>) -> Seq<char>
    decreases s.len(),
{
    if s.len() > 0 && spec_is_whitespace(s.last()) {
        trim_end_ws(s.drop_last())
    } else {
        s
    }
}

/// `s` without leading and trailing whitespace: what `str::trim` returns.
pub open spec fn trim_ws(s: Seq<char>) -> Seq<char> {
    trim_end_ws(trim_start_ws(s))
}

proof fn lemma_trim_start_step(s: Seq<char>, i: int)
    requires
        0 <= i < s.len(),
        spec_is_whitespace(s[i]),
    ensures
        trim_start_ws(s.skip(i)) == trim_start_ws(s.skip(i + 1)),
{
    assert(s.skip(i).drop_first() =~= s.skip(i + 1));
}

proof fn lemma_trim_end_step(s: Seq<char>, i: int, j: int)
    requires
        0 <= i < j <= s.len(),
        spec_is_whitespace(s[j - 1]),
    ensures
        trim_end_ws(s.subrange(i, j)) == trim_end_ws(s.subrange(i, j - 1)),
{
    assert(s.subrange(i, j).drop_last() =~= s.subrange(i, j - 1));
}

/// `cs` without leading and trailing whitespace.
pub fn trim(cs: &Vec<char>) -> (r: Vec<char>)
    ensures
        r@ == trim_ws(cs@),
{
    let mut i: usize = 0;
    proof {
        assert(cs@.skip(0) =~= cs@);
    }
    while i < cs.len() && is_whitespace(cs[i])
        invariant
            i <= cs.len(),
            trim_start_ws(cs@.skip(i as int)) == trim_start_ws(cs@),
        decreases cs.len() - i,
    {
        proof {
            lemma_trim_start_step(cs@, i as int);
        }
        i = i + 1;
    }
    proof {
        assert(cs@.skip(0) =~= cs@);
    }
    let ghost start = cs@.skip(i as int);
    assert(trim_start_ws(start) == start);
    let mut j: usize = cs.len();
    proof {
        assert(start =~= cs@.subrange(i as int, j as int));
    }
    while j > i && is_whitespace(cs[j - 1])
        invariant
            i <= j <= cs.len(),
            trim_end_ws(cs@.subrange(i as int, j as int)) == trim_end_ws(start),
        decreases j,
    {
        proof {
            lemma_trim_end_step(cs@, i as int, j as int);
        }
        j = j - 1;
    }
    let mut r: Vec<char> = Vec::new();
    let mut k = i;
    while k < j
        invariant
            i <= k <= j <= cs.len(),
            r@ == cs@.subrange(i as int, k as int),
        decreases j - k,
    {
        r.push(cs[k]);
        proof {
            assert(cs@.subrange(i as int, k + 1) =~= cs@.subrange(i as int, k as int).push(cs@[k as int]));
        }
        k = k + 1;
    }
    proof {
        let t = cs@.subrange(i as int, j as int);
        assert(trim_end_ws(t) == t);
    }
    r
}

/// `cs[from..]`.
pub fn suffix(cs: &Vec<char>, from: usize) -> (r: Vec<char>)
    requires
        from <= cs.len(),
    ensures
        r@ == cs@.skip(from as int),
{
    let mut r: Vec<char> = Vec::new();
    let mut k = from;
    while k < cs.len()
        invariant
            from <= k <= cs.len(),
            r@ == cs@.subrange(from as int, k as int),
        decreases cs.len() - k,
    {
        r.push(cs[k]);
        proof {
            assert(cs@.subrange(from as int, k + 1) =~= cs@.subrange(from as int, k as int).push(cs@[k as int]));
        }
        k = k + 1;
    }
    r
}

/// The string holding the characters of `cs`.
pub fn string_of(cs: &Vec<char>) -> (s: String)
    ensures
        s@ == cs@,
{
    let s = string_from_chars(cs, 0, cs.len());
    proof {
        assert(cs@.subrange(0, cs@.len() as int) =~= cs@);
    }
    s
}

} // verus!
