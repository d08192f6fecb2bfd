//! Character and string utilities the parser is built on: whitespace
//! classification, trimming, splitting into lines, whitespace tokenization
//! and substring search, each proved against a spec function over `Seq<char>`.

use vstd::prelude::*;

verus! {

/// The whitespace characters that trimming and tokenization recognize.
pub open spec fn is_space_char(c: char) -> bool {
    c == ' ' || c == '\t' || c == '\n' || c == '\r' || c == '\u{0B}' || c == '\u{0C}'
}

/// Executable mirror of `is_space_char`.
pub fn is_space(c: char) -> (r: bool)
    ensures
        r == is_space_char(c),
{
    c == ' ' || c == '\t' || c == '\n' || c == '\r' || c == '\u{0B}' || c == '\u{0C}'
}

/// `s` with its leading whitespace removed.
pub open spec fn spec_trim_front(s: Seq<char>) -> Seq<char>
    decreases s.len(),
{
    if s.len() == 0 {
        s
    } else if is_space_char(s[0]) {
        spec_trim_front(s.subrange(1, s.len() as int))
    } else {
        s
    }
}

/// `s` with its trailing whitespace removed.
pub open spec fn spec_trim_back(s: Seq<char>) -> Seq<char>
    decreases s.len(),
{
    if s.len() == 0 {
        s
    } else if is_space_char(s[s.len() - 1]) {
        spec_trim_back(s.subrange(0, s.len() - 1))
    } else {
        s
    }
}

/// `s` with leading and trailing whitespace removed.
pub open spec fn spec_trim(s: Seq<char>) -> Seq<char> {
    spec_trim_back(spec_trim_front(s))
}

proof fn lemma_trim_front_at(s: Seq<char>, a: int)
    requires
        0 <= a <= s.len(),
        forall|i: int| 0 <= i < a ==> is_space_char(s[i]),
        a < s.len() ==> !is_space_char(s[a]),
    ensures
        spec_trim_front(s) == s.subrange(a, s.len() as int),
    decreases a,
{
    if a == 0 {
        assert(s.subrange(0, s.len() as int) =~= s);
        if s.len() > 0 {
            assert(!is_space_char(s[0]));
        }
    } else {
        let t = s.subrange(1, s.len() as int);
        assert(is_space_char(s[0]));
        assert(forall|i: int| 0 <= i < a - 1 ==> is_space_char(#[trigger] t[i]));
        lemma_trim_front_at(t, a - 1);
        assert(t.subrange(a - 1, t.len() as int) =~= s.subrange(a, s.len() as int));
    }
}

proof fn lemma_trim_back_at(s: Seq<char>, b: int)
    requires
        0 <= b <= s.len(),
        forall|i: int| b <= i < s.len() ==> is_space_char(s[i]),
        b > 0 ==> !is_space_char(s[b - 1]),
    ensures
        spec_trim_back(s) == s.subrange(0, b),
    decreases s.len() - b,
{
    if b == s.len() {
        assert(s.subrange(0, s.len() as int) =~= s);
    } else {
        let t = s.subrange(0, s.len() - 1);
        assert(is_space_char(s[s.len() - 1]));
        lemma_trim_back_at(t, b);
        assert(t.subrange(0, b) =~= s.subrange(0, b));
    }
}

/// Characterizes `spec_trim` by the first and last non-whitespace positions.
proof fn lemma_trim_bounds(s: Seq<char>, a: int, b: int)
    requires
        0 <= a <= b <= s.len(),
        forall|i: int| 0 <= i < a ==> is_space_char(s[i]),
        forall|i: int| b <= i < s.len() ==> is_space_char(s[i]),
        a < b ==> !is_space_char(s[a]),
        a < b ==> !is_space_char(s[b - 1]),
    ensures
        spec_trim(s) == s.subrange(a, b),
    decreases s.len(),
{
    if a == b {
        // everything is whitespace
        lemma_trim_front_at(s, s.len() as int);
        let t = s.subrange(s.len() as int, s.len() as int);
        assert(t.len() == 0);
        assert(spec_trim_back(t) == t);
        assert(t =~= s.subrange(a, b));
    } else {
        lemma_trim_front_at(s, a);
        let t = s.subrange(a, s.len() as int);
        lemma_trim_back_at(t, b - a);
        assert(t.subrange(0, b - a) =~= s.subrange(a, b));
    }
}

/// Returns `s` with leading and trailing whitespace removed.
pub fn trim_str<'a>(s: &'a str) -> (r: &'a str)
    ensures
        r@ == spec_trim(s@),
{
    let n = s.unicode_len();
    let mut a: usize = 0;
    while a < n && is_space(s.get_char(a))
        invariant
            0 <= a <= n,
            n == s@.len(),
            forall|i: int| 0 <= i < a ==> is_space_char(s@[i]),
        decreases n - a,
    {
        a = a + 1;
    }
    let mut b: usize = n;
    while b > a && is_space(s.get_char(b - 1))
        invariant
            a <= b <= n,
            n == s@.len(),
            forall|i: int| b <= i < n ==> is_space_char(s@[i]),
            a < n ==> !is_space_char(s@[a as int]),
        decreases b,
    {
        b = b - 1;
    }
    proof {
        lemma_trim_bounds(s@, a as int, b as int);
    }
    s.substring_char(a, b)
}

/// Returns whether two string slices hold the same characters.
pub fn str_eq(a: &str, b: &str) -> (r: bool)
    ensures
        r == (a@ == b@),
{
    let na = a.unicode_len();
    let nb = b.unicode_len();
    if na != nb {
        return false;
    }
    let mut i: usize = 0;
    while i < na
        invariant
            0 <= i <= na,
            na == a@.len(),
            na == b@.len(),
            forall|j: int| 0 <= j < i ==> a@[j] == b@[j],
        decreases na - i,
    {
        if a.get_char(i) != b.get_char(i) {
            return false;
        }
        i = i + 1;
    }
    proof {
        assert(a@ =~= b@);
    }
    true
}

/// The lines of `s`, split on newline characters.  An empty input is one
/// empty line, and a trailing newline contributes a final empty line, as
/// splitting on a separator character does.
pub open spec fn spec_split_lines(s: Seq<char>) -> Seq<Seq<char>>
    decreases s.len(),
{
    if s.len() == 0 {
        seq![Seq::<char>::empty()]
    } else if s[0] == '\n' {
        seq![Seq::<char>::empty()] + spec_split_lines(s.subrange(1, s.len() as int))
    } else {
        let rest = spec_split_lines(s.subrange(1, s.len() as int));
        seq![seq![s[0]] + rest[0]] + rest.subrange(1, rest.len() as int)
    }
}

proof fn lemma_split_lines_nonempty(s: Seq<char>)
    ensures
        spec_split_lines(s).len() >= 1,
    decreases s.len(),
{
    if s.len() > 0 {
        lemma_split_lines_nonempty(s.subrange(1, s.len() as int));
    }
}

/// If the first newline of `s` is at position `j`, the first line is
/// `s[..j]` and the rest of the lines are the lines of `s[j+1..]`.
proof fn lemma_split_lines_step(s: Seq<char>, j: int)
    requires
        0 <= j < s.len(),
        s[j] == '\n',
        forall|i: int| 0 <= i < j ==> s[i] != '\n',
    ensures
        spec_split_lines(s) == seq![s.subrange(0, j)] + spec_split_lines(
            s.subrange(j + 1, s.len() as int),
        ),
    decreases j,
{
    let tail = s.subrange(1, s.len() as int);
    if j == 0 {
        assert(s.subrange(0, 0) =~= Seq::<char>::empty());
        assert(s.subrange(1, s.len() as int) =~= tail);
    } else {
        assert(forall|i: int| 0 <= i < j - 1 ==> #[trigger] tail[i] != '\n');
        lemma_split_lines_step(tail, j - 1);
        let rest = spec_split_lines(tail);
        lemma_split_lines_nonempty(tail.subrange(j, tail.len() as int));
        assert(rest == seq![tail.subrange(0, j - 1)] + spec_split_lines(
            tail.subrange(j, tail.len() as int),
        ));
        assert(rest[0] == tail.subrange(0, j - 1));
        assert(seq![s[0]] + tail.subrange(0, j - 1) =~= s.subrange(0, j));
        assert(rest.subrange(1, rest.len() as int) =~= spec_split_lines(
            tail.subrange(j, tail.len() as int),
        ));
        assert(tail.subrange(j, tail.len() as int) =~= s.subrange(j + 1, s.len() as int));
        assert(spec_split_lines(s) =~= seq![s.subrange(0, j)] + spec_split_lines(
            s.subrange(j + 1, s.len() as int),
        ));
    }
}

/// A sequence without newlines splits into the single line it is.
proof fn lemma_split_lines_whole(s: Seq<char>)
    requires
        forall|i: int| 0 <= i < s.len() ==> s[i] != '\n',
    ensures
        spec_split_lines(s) == seq![s],
    decreases s.len(),
{
    if s.len() == 0 {
        assert(s =~= Seq::<char>::empty());
    } else {
        let tail = s.subrange(1, s.len() as int);
        lemma_split_lines_whole(tail);
        assert(seq![s[0]] + tail =~= s);
        assert(spec_split_lines(s) =~= seq![s]);
    }
}

/// Splits `s` into its lines on newline characters.
pub fn split_lines<'a>(s: &'a str) -> (r: Vec<&'a str>)
    ensures
        r@.map_values(|l: &str| l@) == spec_split_lines(s@),
{
    let n = s.unicode_len();
    let mut r: Vec<&'a str> = Vec::new();
    let mut start: usize = 0;
    let mut i: usize = 0;
    proof {
        assert(s@.subrange(0, n as int) =~= s@);
        assert(r@.map_values(|l: &str| l@) =~= Seq::<Seq<char>>::empty());
    }
    while i < n
        invariant
            0 <= start <= i <= n,
            n == s@.len(),
            forall|j: int| start <= j < i ==> s@[j] != '\n',
            spec_split_lines(s@) == r@.map_values(|l: &str| l@) + spec_split_lines(
                s@.subrange(start as int, n as int),
            ),
        decreases n - i,
    {
        if s.get_char(i) == '\n' {
            let line = s.substring_char(start, i);
            proof {
                let seg = s@.subrange(start as int, n as int);
                lemma_split_lines_step(seg, i - start);
                assert(seg.subrange(0, i - start) =~= s@.subrange(start as int, i as int));
                assert(seg.subrange(i - start + 1, seg.len() as int) =~= s@.subrange(
                    i + 1,
                    n as int,
                ));
                assert((r@.push(line)).map_values(|l: &str| l@) =~= r@.map_values(|l: &str| l@)
                    + seq![line@]);
                assert(r@.map_values(|l: &str| l@) + (seq![line@] + spec_split_lines(
                    s@.subrange(i + 1, n as int),
                )) =~= (r@.push(line)).map_values(|l: &str| l@) + spec_split_lines(
                    s@.subrange(i + 1, n as int),
                ));
            }
            r.push(line);
            start = i + 1;
        }
        i = i + 1;
    }
    let last = s.substring_char(start, n);
    proof {
        let seg = s@.subrange(start as int, n as int);
        lemma_split_lines_whole(seg);
        assert((r@.push(last)).map_values(|l: &str| l@) =~= r@.map_values(|l: &str| l@) + seq![
            last@,
        ]);
        assert(r@.map_values(|l: &str| l@) + seq![seg] =~= (r@.push(last)).map_values(
            |l: &str| l@,
        ));
    }
    r.push(last);
    r
}

/// The whitespace-separated tokens of `s`, in order.
pub open spec fn spec_tokens(s: Seq<char>) -> Seq<Seq<char>>
    decreases s.len(),
{
    if s.len() == 0 {
        Seq::<Seq<char>>::empty()
    } else {
        let rest = spec_tokens(s.subrange(1, s.len() as int));
        if is_space_char(s[0]) {
            rest
        } else if s.len() >= 2 && !is_space_char(s[1]) {
            // s[0] extends the token that starts at s[1]
            seq![seq![s[0]] + rest[0]] + rest.subrange(1, rest.len() as int)
        } else {
            seq![seq![s[0]]] + rest
        }
    }
}

/// Splits `s` into its whitespace-separated tokens.
pub fn split_tokens<'a>(s: &'a str) -> (r: Vec<&'a str>)
    ensures
        r@.map_values(|t: &str| t@) == spec_tokens(s@),
{
    let n = s.unicode_len();
    // Token extents, built by a right-to-left scan that mirrors the
    // recursion of `spec_tokens`.
    let mut ext: Vec<(usize, usize)> = Vec::new();
    let mut i: usize = n;
    proof {
        assert(s@.subrange(n as int, n as int) =~= Seq::<char>::empty());
        assert(ext@.map_values(|p: (usize, usize)| s@.subrange(p.0 as int, p.1 as int))
            =~= Seq::<Seq<char>>::empty());
    }
    while i > 0
        invariant
            0 <= i <= n,
            n == s@.len(),
            forall|k: int|
                0 <= k < ext@.len() ==> 0 <= #[trigger] ext@[k].0 < ext@[k].1 <= n,
            ext@.map_values(|p: (usize, usize)| s@.subrange(p.0 as int, p.1 as int))
                == spec_tokens(s@.subrange(i as int, n as int)),
            i < n && !is_space_char(s@[i as int]) ==> ext@.len() > 0 && ext@[0].0 == i,
        decreases i,
    {
        i = i - 1;
        let c = s.get_char(i);
        let ghost seg = s@.subrange(i as int, n as int);
        proof {
            assert(seg[0] == s@[i as int]);
            assert(seg.subrange(1, seg.len() as int) =~= s@.subrange(i + 1, n as int));
        }
        if is_space(c) {
            // tokens are unchanged
        } else if i + 1 < n && !is_space(s.get_char(i + 1)) {
            // extend the first token leftward to include position i
            proof {
                let rest = spec_tokens(s@.subrange(i + 1, n as int));
                assert(rest.len() >= 1) by {
                    let seg2 = s@.subrange(i + 1, n as int);
                    assert(seg2.len() > 0 && !is_space_char(seg2[0]));
                }
            }
            let first = ext[0];
            let ghost old_ext = ext@;
            ext.remove(0);
            ext.insert(0, (i, first.1));
            proof {
                let f = |p: (usize, usize)| s@.subrange(p.0 as int, p.1 as int);
                let rest = spec_tokens(s@.subrange(i + 1, n as int));
                assert(old_ext.map_values(f) == rest);
                assert(old_ext.map_values(f)[0] == rest[0]);
                assert(f(old_ext[0]) == rest[0]);
                assert(first.0 == i + 1);
                assert(seq![s@[i as int]] + s@.subrange(first.0 as int, first.1 as int)
                    =~= s@.subrange(i as int, first.1 as int));
                assert(ext@ =~= old_ext.update(0, (i as usize, first.1)));
                assert(ext@.map_values(f) =~= seq![seq![seg[0]] + rest[0]] + rest.subrange(
                    1,
                    rest.len() as int,
                ));
            }
        } else {
            // a one-character token begins (and for now ends) here
            let ghost old_ext = ext@;
            ext.insert(0, (i, i + 1));
            proof {
                let f = |p: (usize, usize)| s@.subrange(p.0 as int, p.1 as int);
                let rest = spec_tokens(s@.subrange(i + 1, n as int));
                assert(s@.subrange(i as int, i + 1) =~= seq![s@[i as int]]);
                assert(ext@ =~= seq![(i as usize, (i + 1) as usize)] + old_ext);
                assert(ext@.map_values(f) =~= seq![seq![seg[0]]] + rest);
            }
        }
    }
    let mut r: Vec<&'a str> = Vec::new();
    let mut k: usize = 0;
    while k < ext.len()
        invariant
            0 <= k <= ext@.len(),
            n == s@.len(),
            forall|j: int|
                0 <= j < ext@.len() ==> 0 <= #[trigger] ext@[j].0 < ext@[j].1 <= n,
            r@.len() == k,
            forall|j: int|
                0 <= j < k ==> #[trigger] r@[j]@ == s@.subrange(
                    ext@[j].0 as int,
                    ext@[j].1 as int,
                ),
        decreases ext@.len() - k,
    {
        let (lo, hi) = ext[k];
        r.push(s.substring_char(lo, hi));
        k = k + 1;
    }
    proof {
        let f = |p: (usize, usize)| s@.subrange(p.0 as int, p.1 as int);
        assert(s@.subrange(0, n as int) =~= s@);
        assert(r@.map_values(|t: &str| t@) =~= ext@.map_values(f));
    }
    r
}

/// The first whitespace-separated token of a sequence that starts with a
/// non-whitespace character is a non-empty prefix of it.
proof fn lemma_first_token_prefix(s: Seq<char>)
    requires
        s.len() > 0,
        !is_space_char(s[0]),
    ensures
        spec_tokens(s).len() > 0,
        0 < spec_tokens(s)[0].len() <= s.len(),
        s.subrange(0, spec_tokens(s)[0].len() as int) == spec_tokens(s)[0],
    decreases s.len(),
{
    let rest = s.subrange(1, s.len() as int);
    if s.len() >= 2 && !is_space_char(s[1]) {
        assert(rest[0] == s[1]);
        lemma_first_token_prefix(rest);
        let t0 = spec_tokens(s)[0];
        assert(t0 == seq![s[0]] + spec_tokens(rest)[0]);
        assert(s.subrange(0, t0.len() as int) =~= seq![s[0]] + rest.subrange(
            0,
            spec_tokens(rest)[0].len() as int,
        ));
    } else {
        assert(spec_tokens(s)[0] == seq![s[0]]);
        assert(s.subrange(0, 1) =~= seq![s[0]]);
    }
}

/// Every whitespace-separated token of `s` occurs somewhere in `s`.
pub proof fn lemma_tokens_occur(s: Seq<char>, j: int)
    requires
        0 <= j < spec_tokens(s).len(),
    ensures
        exists|i: int| occurs_at(s, spec_tokens(s)[j], i),
    decreases s.len(),
{
    let rest = s.subrange(1, s.len() as int);
    if s.len() == 0 {
        // no tokens: the bound on j cannot hold
    } else if is_space_char(s[0]) {
        lemma_tokens_occur(rest, j);
        let t = spec_tokens(rest)[j];
        let i = choose|i: int| occurs_at(rest, t, i);
        assert(s.subrange(i + 1, i + 1 + t.len()) =~= rest.subrange(i, i + t.len()));
        assert(occurs_at(s, spec_tokens(s)[j], i + 1));
    } else if s.len() >= 2 && !is_space_char(s[1]) {
        if j == 0 {
            lemma_first_token_prefix(s);
            assert(occurs_at(s, spec_tokens(s)[0], 0));
        } else {
            assert(rest[0] == s[1]);
            lemma_first_token_prefix(rest);
            assert(spec_tokens(s)[j] == spec_tokens(rest)[j]);
            lemma_tokens_occur(rest, j);
            let t = spec_tokens(rest)[j];
            let i = choose|i: int| occurs_at(rest, t, i);
            assert(s.subrange(i + 1, i + 1 + t.len()) =~= rest.subrange(i, i + t.len()));
            assert(occurs_at(s, spec_tokens(s)[j], i + 1));
        }
    } else {
        if j == 0 {
            assert(spec_tokens(s)[0] == seq![s[0]]);
            assert(s.subrange(0, 1) =~= seq![s[0]]);
            assert(occurs_at(s, spec_tokens(s)[0], 0));
        } else {
            assert(spec_tokens(s)[j] == spec_tokens(rest)[j - 1]);
            lemma_tokens_occur(rest, j - 1);
            let t = spec_tokens(rest)[j - 1];
            let i = choose|i: int| occurs_at(rest, t, i);
            assert(s.subrange(i + 1, i + 1 + t.len()) =~= rest.subrange(i, i + t.len()));
            assert(occurs_at(s, spec_tokens(s)[j], i + 1));
        }
    }
}

/// Whether `pat` occurs in `s` starting at position `i`.
pub open spec fn occurs_at(s: Seq<char>, pat: Seq<char>, i: int) -> bool {
    0 <= i && i + pat.len() <= s.len() && s.subrange(i, i + pat.len()) == pat
}

/// The position of the first occurrence of `pat` in `s`, if any.
pub open spec fn spec_find(s: Seq<char>, pat: Seq<char>) -> Option<int>
    decreases s.len(),
{
    if pat.len() > s.len() {
        None
    } else if s.subrange(0, pat.len() as int) == pat {
        Some(0)
    } else if s.len() == 0 {
        None
    } else {
        match spec_find(s.subrange(1, s.len() as int), pat) {
            Some(i) => Some(i + 1),
            None => None,
        }
    }
}

/// `spec_find` returns the first occurrence: a found index is an occurrence
/// preceded by none, and `None` means there is no occurrence at all.
pub proof fn lemma_find_first(s: Seq<char>, pat: Seq<char>)
    ensures
        match spec_find(s, pat) {
            Some(i) => occurs_at(s, pat, i) && forall|j: int| 0 <= j < i ==> !occurs_at(s, pat, j),
            None => forall|j: int| !occurs_at(s, pat, j),
        },
    decreases s.len(),
{
    if pat.len() > s.len() {
        assert(forall|j: int| !occurs_at(s, pat, j));
    } else if s.subrange(0, pat.len() as int) == pat {
        assert(occurs_at(s, pat, 0));
    } else if s.len() == 0 {
        assert(!occurs_at(s, pat, 0));
        assert(forall|j: int| !occurs_at(s, pat, j));
    } else {
        let t = s.subrange(1, s.len() as int);
        lemma_find_first(t, pat);
        assert(forall|j: int|
            1 <= j ==> (occurs_at(s, pat, j) <==> occurs_at(t, pat, j - 1))) by {
            assert forall|j: int| 1 <= j implies (occurs_at(s, pat, j) <==> occurs_at(
                t,
                pat,
                j - 1,
            )) by {
                if 0 <= j - 1 && j - 1 + pat.len() <= t.len() {
                    assert(t.subrange(j - 1, j - 1 + pat.len()) =~= s.subrange(
                        j,
                        j + pat.len(),
                    ));
                }
            }
        }
        assert(!occurs_at(s, pat, 0));
    }
}

/// Finds the first occurrence of `pat` in `s`.
pub fn find_first(s: &str, pat: &str) -> (r: Option<usize>)
    ensures
        match r {
            Some(i) => spec_find(s@, pat@) == Some(i as int),
            None => spec_find(s@, pat@) is None,
        },
{
    let n = s.unicode_len();
    let m = pat.unicode_len();
    proof {
        lemma_find_first(s@, pat@);
    }
    if m > n {
        return None;
    }
    if m == 0 {
        proof {
            assert(s@.subrange(0, 0) =~= pat@);
        }
        return Some(0);
    }
    let mut i: usize = 0;
    while i <= n - m
        invariant
            0 <= i <= n - m + 1,
            1 <= m <= n,
            n == s@.len(),
            m == pat@.len(),
            forall|j: int| 0 <= j < i ==> !occurs_at(s@, pat@, j),
        decreases n - i,
    {
        let sub = s.substring_char(i, i + m);
        if str_eq(sub, pat) {
            proof {
                assert(occurs_at(s@, pat@, i as int));
                lemma_find_first(s@, pat@);
                match spec_find(s@, pat@) {
                    Some(k) => {
                        assert(!(k < i) && !(i < k));
                    },
                    None => {
                        assert(false);
                    },
                }
            }
            return Some(i);
        }
        proof {
            assert(!occurs_at(s@, pat@, i as int));
        }
        i = i + 1;
    }
    proof {
        lemma_find_first(s@, pat@);
        assert forall|j: int| !occurs_at(s@, pat@, j) by {
            if 0 <= j && j + pat@.len() <= s@.len() {
                assert(j < i);
            }
        }
        match spec_find(s@, pat@) {
            Some(k) => {
                assert(occurs_at(s@, pat@, k));
                assert(false);
            },
            None => {},
        }
    }
    None
}

} // verus!
