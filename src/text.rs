//! Character-level text helpers and their mathematical models.
use vstd::prelude::*;
use vstd::string::*;

verus! {

/// Number of occurrences of `c` in `s`.
pub open spec fn count_char(s: Seq<char>, c: char) -> nat
    decreases s.len(),
{
    if s.len() == 0 {
        0
    } else {
        count_char(s.drop_last(), c) + (if s.last() == c { 1nat } else { 0nat })
    }
}

/// The pieces of `s` between occurrences of `c` (as `str::split` yields them).
pub open spec fn split(s: Seq<char>, c: char) -> Seq<Seq<char>>
    decreases s.len(),
{
    if s.len() == 0 {
        seq![Seq::<char>::empty()]
    } else {
        let p = split(s.drop_last(), c);
        if s.last() == c {
            p.push(Seq::<char>::empty())
        } else {
            p.update(p.len() - 1, p.last().push(s.last()))
        }
    }
}

/// `s` with `prefix` in front.
pub open spec fn starts_with(s: Seq<char>, prefix: Seq<char>) -> bool {
    prefix.len() <= s.len() && s.subrange(0, prefix.len() as int) == prefix
}

/// `s` with `suffix` at its end.
pub open spec fn ends_with(s: Seq<char>, suffix: Seq<char>) -> bool {
    suffix.len() <= s.len() && s.subrange(s.len() - suffix.len(), s.len() as int) == suffix
}

/// Index of the first occurrence of `c` in `s`, or the length when absent.
pub open spec fn first_index_of(s: Seq<char>, c: char) -> int
    decreases s.len(),
{
    if s.len() == 0 {
        0
    } else if s[0] == c {
        0
    } else {
        1 + first_index_of(s.drop_first(), c)
    }
}

/// The view of each string of a sequence.
pub open spec fn views(v: Seq<String>) -> Seq<Seq<char>> {
    v.map_values(|x: String| x@)
}

/// The characters of `s`, one by one.
pub fn chars_of(s: &str) -> (r: Vec<char>)
    ensures
        r@ == s@,
{
    let n = s.unicode_len();
    let mut r: Vec<char> = Vec::new();
    let mut i: usize = 0;
    while i < n
        invariant
            n == s@.len(),
            i <= n,
            r@ == s@.subrange(0, i as int),
        decreases n - i,
    {
        let c = s.get_char(i);
        r.push(c);
        i = i + 1;
        assert(r@ =~= s@.subrange(0, i as int));
    }
    assert(r@ =~= s@);
    r
}

/// The text `a` followed by `b`.
pub fn concat(a: &str, b: &str) -> (r: String)
    ensures
        r@ == a@ + b@,
{
    let s = a.to_owned();
    s.concat(b)
}

/// Whether two texts are equal.
pub fn same_text(a: &str, b: &str) -> (r: bool)
    ensures
        r == (a@ == b@),
{
    let x = a.to_owned();
    let y = b.to_owned();
    x == y
}

/// How often `c` occurs in `s`.
pub fn count_of(s: &str, c: char) -> (r: usize)
    ensures
        r == count_char(s@, c),
{
    let cs = chars_of(s);
    let mut k: usize = 0;
    let mut i: usize = 0;
    while i < cs.len()
        invariant
            cs@ == s@,
            i <= cs.len(),
            k == count_char(s@.subrange(0, i as int), c),
            k <= i,
        decreases cs.len() - i,
    {
        assert(s@.subrange(0, i + 1).drop_last() =~= s@.subrange(0, i as int));
        if cs[i] == c {
            k = k + 1;
        }
        i = i + 1;
    }
    assert(s@.subrange(0, i as int) =~= s@);
    k
}

/// Whether `s` begins with `prefix`.
pub fn has_prefix(s: &str, prefix: &str) -> (r: bool)
    ensures
        r == starts_with(s@, prefix@),
{
    let n = s.unicode_len();
    let m = prefix.unicode_len();
    if m > n {
        return false;
    }
    let head = s.substring_char(0, m);
    same_text(head, prefix)
}

/// Whether `s` ends with `suffix`.
pub fn has_suffix(s: &str, suffix: &str) -> (r: bool)
    ensures
        r == ends_with(s@, suffix@),
{
    let n = s.unicode_len();
    let m = suffix.unicode_len();
    if m > n {
        return false;
    }
    let tail = s.substring_char(n - m, n);
    same_text(tail, suffix)
}

/// The pieces of `s` between occurrences of `c`.
pub fn split_text(s: &str, c: char) -> (r: Vec<String>)
    ensures
        views(r@) == split(s@, c),
{
    let cs = chars_of(s);
    let mut r: Vec<String> = Vec::new();
    let mut start: usize = 0;
    let mut i: usize = 0;
    assert(s@.subrange(0, 0) =~= Seq::<char>::empty());
    assert(views(r@).push(Seq::<char>::empty()) =~= seq![Seq::<char>::empty()]);
    while i < cs.len()
        invariant
            cs@ == s@,
            start <= i <= cs.len(),
            split(s@.subrange(0, i as int), c) == views(r@).push(s@.subrange(start as int, i as int)),
        decreases cs.len() - i,
    {
        let ghost p = s@.subrange(0, i + 1);
        assert(p.drop_last() =~= s@.subrange(0, i as int));
        if cs[i] == c {
            let ghost before = r@;
            let piece = s.substring_char(start, i).to_owned();
            r.push(piece);
            assert(views(r@) =~= views(before).push(piece@));
            start = i + 1;
            assert(s@.subrange(start as int, i + 1) =~= Seq::<char>::empty());
        } else {
            assert(s@.subrange(start as int, i + 1) =~= s@.subrange(start as int, i as int).push(cs@[i as int]));
        }
        i = i + 1;
    }
    let last = s.substring_char(start, cs.len()).to_owned();
    let ghost before = r@;
    r.push(last);
    assert(views(r@) =~= views(before).push(last@));
    assert(s@.subrange(0, cs.len() as int) =~= s@);
    assert(views(r@) =~= split(s@, c));
    r
}

/// Index of the last occurrence of `c` in `s`, or `-1` when absent.
pub open spec fn last_index_of(s: Seq<char>, c: char) -> int
    decreases s.len(),
{
    if s.len() == 0 {
        -1
    } else if s.last() == c {
        s.len() - 1
    } else {
        last_index_of(s.drop_last(), c)
    }
}

pub proof fn lemma_first_index_of(s: Seq<char>, c: char)
    ensures
        0 <= first_index_of(s, c) <= s.len(),
        first_index_of(s, c) < s.len() ==> s[first_index_of(s, c)] == c,
        forall|j: int| 0 <= j < first_index_of(s, c) ==> s[j] != c,
    decreases s.len(),
{
    if s.len() > 0 && s[0] != c {
        lemma_first_index_of(s.drop_first(), c);
        assert forall|j: int| 0 <= j < first_index_of(s, c) implies s[j] != c by {
            if j > 0 {
                assert(s[j] == s.drop_first()[j - 1]);
            }
        }
    }
}

pub proof fn lemma_last_index_of(s: Seq<char>, c: char)
    ensures
        -1 <= last_index_of(s, c) < s.len(),
        last_index_of(s, c) >= 0 ==> s[last_index_of(s, c)] == c,
        forall|j: int| last_index_of(s, c) < j < s.len() ==> s[j] != c,
    decreases s.len(),
{
    if s.len() > 0 && s.last() != c {
        lemma_last_index_of(s.drop_last(), c);
        assert forall|j: int| last_index_of(s, c) < j < s.len() implies s[j] != c by {
            if j < s.len() - 1 {
                assert(s[j] == s.drop_last()[j]);
            }
        }
    }
}

/// The place of the first `c` in `s`, or the length of `s`.
pub fn find_char(s: &str, c: char) -> (r: usize)
    ensures
        r == first_index_of(s@, c),
        r <= s@.len(),
{
    proof {
        lemma_first_index_of(s@, c);
    }
    let cs = chars_of(s);
    let mut i: usize = 0;
    while i < cs.len()
        invariant
            cs@ == s@,
            i <= cs.len(),
            forall|j: int| 0 <= j < i ==> s@[j] != c,
            0 <= first_index_of(s@, c) <= s@.len(),
            first_index_of(s@, c) < s@.len() ==> s@[first_index_of(s@, c)] == c,
            forall|j: int| 0 <= j < first_index_of(s@, c) ==> s@[j] != c,
        decreases cs.len() - i,
    {
        if cs[i] == c {
            return i;
        }
        i = i + 1;
    }
    i
}

/// The place of the last `c` in `s`, if any.
pub fn rfind_char(s: &str, c: char) -> (r: Option<usize>)
    ensures
        r.is_none() == (last_index_of(s@, c) < 0),
        r.is_some() ==> r.unwrap() == last_index_of(s@, c) && r.unwrap() < s@.len(),
{
    proof {
        lemma_last_index_of(s@, c);
    }
    let cs = chars_of(s);
    let mut i: usize = cs.len();
    while i > 0
        invariant
            cs@ == s@,
            i <= cs.len(),
            forall|j: int| i <= j < s@.len() ==> s@[j] != c,
            -1 <= last_index_of(s@, c) < s@.len(),
            last_index_of(s@, c) >= 0 ==> s@[last_index_of(s@, c)] == c,
            forall|j: int| last_index_of(s@, c) < j < s@.len() ==> s@[j] != c,
        decreases i,
    {
        if cs[i - 1] == c {
            return Some(i - 1);
        }
        i = i - 1;
    }
    None
}

/// `s` without the copies of `c` at its start.
pub open spec fn trim_start(s: Seq<char>, c: char) -> Seq<char>
    decreases s.len(),
{
    if s.len() > 0 && s[0] == c {
        trim_start(s.drop_first(), c)
    } else {
        s
    }
}

/// `s` without the copies of `c` at its end.
pub open spec fn trim_end(s: Seq<char>, c: char) -> Seq<char>
    decreases s.len(),
{
    if s.len() > 0 && s.last() == c {
        trim_end(s.drop_last(), c)
    } else {
        s
    }
}

/// `s` without the copies of `c` at either end.
pub open spec fn trim_char(s: Seq<char>, c: char) -> Seq<char> {
    trim_end(trim_start(s, c), c)
}

/// `s` with every `a` replaced by `b`.
pub open spec fn replace_char(s: Seq<char>, a: char, b: char) -> Seq<char> {
    s.map_values(|x: char| if x == a { b } else { x })
}

/// `s` without the copies of `c` at either end.
pub fn trim_matches(s: &str, c: char) -> (r: &str)
    ensures
        r@ == trim_char(s@, c),
{
    let cs = chars_of(s);
    let n = cs.len();
    let mut i: usize = 0;
    assert(s@.subrange(0, n as int) =~= s@);
    while i < n && cs[i] == c
        invariant
            cs@ == s@,
            n == s@.len(),
            i <= n,
            trim_start(s@, c) == trim_start(s@.subrange(i as int, n as int), c),
        decreases n - i,
    {
        assert(s@.subrange(i as int, n as int).drop_first() =~= s@.subrange(i + 1, n as int));
        i = i + 1;
    }
    let mut j: usize = n;
    while j > i && cs[j - 1] == c
        invariant
            cs@ == s@,
            n == s@.len(),
            i <= j <= n,
            trim_start(s@, c) == s@.subrange(i as int, n as int),
            trim_end(s@.subrange(i as int, n as int), c) == trim_end(s@.subrange(i as int, j as int), c),
        decreases j - i,
    {
        assert(s@.subrange(i as int, j as int).drop_last() =~= s@.subrange(i as int, j - 1));
        j = j - 1;
    }
    s.substring_char(i, j)
}

/// `s` with every `a` replaced by the text `b` (one character).
pub fn replace_all(s: &str, a: char, b: &str) -> (r: String)
    requires
        b@.len() == 1,
    ensures
        r@ == replace_char(s@, a, b@[0]),
{
    let cs = chars_of(s);
    let mut r = String::new();
    let mut i: usize = 0;
    while i < cs.len()
        invariant
            cs@ == s@,
            b@.len() == 1,
            i <= cs.len(),
            r@ == replace_char(s@.subrange(0, i as int), a, b@[0]),
        decreases cs.len() - i,
    {
        let piece = if cs[i] == a {
            b
        } else {
            s.substring_char(i, i + 1)
        };
        assert(piece@ =~= seq![if s@[i as int] == a { b@[0] } else { s@[i as int] }]);
        r = r.concat(piece);
        assert(r@ =~= replace_char(s@.subrange(0, i + 1), a, b@[0]));
        i = i + 1;
    }
    assert(s@.subrange(0, i as int) =~= s@);
    r
}

/// `c` occurs in `s` exactly when its first place is inside `s`.
pub proof fn lemma_count_pos(s: Seq<char>, c: char)
    ensures
        count_char(s, c) > 0 <==> first_index_of(s, c) < s.len(),
    decreases s.len(),
{
    lemma_first_index_of(s, c);
    if s.len() > 0 {
        lemma_count_pos(s.drop_last(), c);
        lemma_first_index_of(s.drop_last(), c);
        let d = s.drop_last();
        if first_index_of(d, c) < d.len() {
            assert(s[first_index_of(d, c)] == c);
        }
        if first_index_of(s, c) < s.len() && s.last() != c {
            assert(d[first_index_of(s, c)] == c);
        }
    }
}

/// `a` comes no later than `b` in the order of `str`'s `Ord` (character by
/// character, by code point; a prefix first).
pub open spec fn lex_le(a: Seq<char>, b: Seq<char>) -> bool
    decreases a.len(),
{
    if a.len() == 0 {
        true
    } else if b.len() == 0 {
        false
    } else if a[0] != b[0] {
        (a[0] as int) < (b[0] as int)
    } else {
        lex_le(a.drop_first(), b.drop_first())
    }
}

pub proof fn lemma_lex_total(a: Seq<char>, b: Seq<char>)
    ensures
        lex_le(a, b) || lex_le(b, a),
        lex_le(a, b) && lex_le(b, a) ==> a == b,
    decreases a.len(),
{
    if a.len() > 0 && b.len() > 0 {
        if a[0] == b[0] {
            lemma_lex_total(a.drop_first(), b.drop_first());
            if lex_le(a, b) && lex_le(b, a) {
                assert(a =~= seq![a[0]] + a.drop_first());
                assert(b =~= seq![b[0]] + b.drop_first());
            }
        } else {
            assert((a[0] as int) != (b[0] as int));
        }
    } else if a.len() == 0 && b.len() == 0 {
        assert(a =~= b);
    }
}

pub proof fn lemma_lex_trans(a: Seq<char>, b: Seq<char>, c: Seq<char>)
    requires
        lex_le(a, b),
        lex_le(b, c),
    ensures
        lex_le(a, c),
    decreases a.len(),
{
    if a.len() > 0 && b.len() > 0 && c.len() > 0 {
        if a[0] == b[0] && b[0] == c[0] {
            lemma_lex_trans(a.drop_first(), b.drop_first(), c.drop_first());
        }
    }
}

/// Whether `a` comes no later than `b`.
pub fn lex_leq(a: &str, b: &str) -> (r: bool)
    ensures
        r == lex_le(a@, b@),
{
    let x = chars_of(a);
    let y = chars_of(b);
    let mut i: usize = 0;
    assert(a@.subrange(0, a@.len() as int) =~= a@);
    assert(b@.subrange(0, b@.len() as int) =~= b@);
    while i < x.len() && i < y.len() && x[i] == y[i]
        invariant
            x@ == a@,
            y@ == b@,
            i <= x@.len(),
            i <= y@.len(),
            lex_le(a@, b@) == lex_le(a@.subrange(i as int, a@.len() as int), b@.subrange(i as int, b@.len() as int)),
        decreases x.len() - i,
    {
        assert(a@.subrange(i as int, a@.len() as int).drop_first() =~= a@.subrange(i + 1, a@.len() as int));
        assert(b@.subrange(i as int, b@.len() as int).drop_first() =~= b@.subrange(i + 1, b@.len() as int));
        i = i + 1;
    }
    let ghost sa = a@.subrange(i as int, a@.len() as int);
    let ghost sb = b@.subrange(i as int, b@.len() as int);
    if i == x.len() {
        assert(sa.len() == 0);
        true
    } else if i == y.len() {
        assert(sa.len() > 0 && sb.len() == 0);
        false
    } else {
        assert(sa[0] == x@[i as int] && sb[0] == y@[i as int]);
        x[i] < y[i]
    }
}

/// `v` in increasing order, each text once.
pub open spec fn strictly_sorted(v: Seq<Seq<char>>) -> bool {
    forall|i: int, j: int| 0 <= i < j < v.len() ==> lex_le(#[trigger] v[i], #[trigger] v[j]) && v[i] != v[j]
}

/// The texts of `v` in increasing order; `v` holds each text once.
pub fn sort_texts(v: Vec<String>) -> (r: Vec<String>)
    requires
        forall|i: int, j: int| 0 <= i < j < v@.len() ==> #[trigger] v@[i]@ != #[trigger] v@[j]@,
    ensures
        strictly_sorted(views(r@)),
        forall|n: Seq<char>| views(r@).contains(n) <==> views(v@).contains(n),
{
    let mut rest = v;
    let mut r: Vec<String> = Vec::new();
    while rest.len() > 0
        invariant
            forall|i: int, j: int| 0 <= i < j < rest@.len() ==> #[trigger] rest@[i]@ != #[trigger] rest@[j]@,
            strictly_sorted(views(r@)),
            forall|i: int, k: int| 0 <= i < r@.len() && 0 <= k < rest@.len() ==> lex_le(#[trigger] r@[i]@, #[trigger] rest@[k]@) && r@[i]@ != rest@[k]@,
            forall|n: Seq<char>| (views(r@).contains(n) || views(rest@).contains(n)) <==> views(v@).contains(n),
        decreases rest.len(),
    {
        let mut best: usize = 0;
        let mut k: usize = 1;
        proof {
            lemma_lex_total(rest@[0]@, rest@[0]@);
        }
        while k < rest.len()
            invariant
                rest@.len() > 0,
                best < rest@.len(),
                1 <= k <= rest@.len(),
                forall|j: int| 0 <= j < k ==> lex_le(rest@[best as int]@, #[trigger] rest@[j]@),
            decreases rest.len() - k,
        {
            if !lex_leq(rest[best].as_str(), rest[k].as_str()) {
                proof {
                    lemma_lex_total(rest@[best as int]@, rest@[k as int]@);
                    assert forall|j: int| 0 <= j < k + 1 implies lex_le(rest@[k as int]@, #[trigger] rest@[j]@) by {
                        if j < k {
                            lemma_lex_trans(rest@[k as int]@, rest@[best as int]@, rest@[j]@);
                        } else {
                            lemma_lex_total(rest@[k as int]@, rest@[k as int]@);
                        }
                    }
                }
                best = k;
            }
            k = k + 1;
        }
        let ghost old_rest = rest@;
        let ghost old_r = r@;
        let x = rest.remove(best);
        assert(rest@ =~= old_rest.remove(best as int));
        r.push(x);
        assert(views(r@) =~= views(old_r).push(x@));
        assert forall|n: Seq<char>| (views(r@).contains(n) || views(rest@).contains(n)) <==> views(v@).contains(n) by {
            if views(old_r).contains(n) {
                let j = choose|j: int| 0 <= j < views(old_r).len() && views(old_r)[j] == n;
                assert(views(r@)[j] == n);
            }
            if views(old_rest).contains(n) {
                let j = choose|j: int| 0 <= j < views(old_rest).len() && views(old_rest)[j] == n;
                if j < best {
                    assert(views(rest@)[j] == n);
                } else if j > best {
                    assert(views(rest@)[j - 1] == n);
                } else {
                    assert(views(r@)[old_r.len() as int] == n);
                }
            }
            if views(rest@).contains(n) {
                let j = choose|j: int| 0 <= j < views(rest@).len() && views(rest@)[j] == n;
                if j < best {
                    assert(views(old_rest)[j] == n);
                } else {
                    assert(views(old_rest)[j + 1] == n);
                }
            }
            if views(r@).contains(n) {
                let j = choose|j: int| 0 <= j < views(r@).len() && views(r@)[j] == n;
                if j < old_r.len() {
                    assert(views(old_r)[j] == n);
                } else {
                    assert(views(old_rest)[best as int] == n);
                }
            }
        }
        assert forall|i: int, kk: int| 0 <= i < r@.len() && 0 <= kk < rest@.len() implies lex_le(#[trigger] r@[i]@, #[trigger] rest@[kk]@) && r@[i]@ != rest@[kk]@ by {
            let src = if kk < best { kk } else { kk + 1 };
            assert(rest@[kk] == old_rest[src]);
            if i < old_r.len() {
                assert(r@[i] == old_r[i]);
            } else {
                assert(src != best);
            }
        }
    }
    r
}

} // verus!
