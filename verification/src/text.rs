use vstd::prelude::*;

verus! {

// Text is handled as vectors of characters: every scanning routine of this
// crate states its contract over `Seq<char>`.

/// Number of occurrences of the character `c` in `s`.
pub open spec fn count_char(s: Seq<char>, c: char) -> nat
    decreases s.len(),
{
    if s.len() == 0 {
        0
    } else {
        count_char(s.drop_last(), c) + if s.last() == c {
            1nat
        } else {
            0nat
        }
    }
}

pub proof fn lemma_count_le_len(s: Seq<char>, c: char)
    ensures
        count_char(s, c) <= s.len(),
    decreases s.len(),
{
    if s.len() > 0 {
        lemma_count_le_len(s.drop_last(), c);
    }
}

pub proof fn lemma_count_concat(a: Seq<char>, b: Seq<char>, c: char)
    ensures
        count_char(a + b, c) == count_char(a, c) + count_char(b, c),
    decreases b.len(),
{
    if b.len() == 0 {
        assert(a + b =~= a);
    } else {
        lemma_count_concat(a, b.drop_last(), c);
        assert((a + b).drop_last() =~= a + b.drop_last());
        assert((a + b).last() == b.last());
    }
}

/// `p` is the position of the `k`-th occurrence (counting from 1) of `c` in `s`.
pub open spec fn is_kth_char(s: Seq<char>, c: char, k: nat, p: int) -> bool {
    0 <= p < s.len() && s[p] == c && count_char(s.subrange(0, p + 1), c) == k
}

pub proof fn lemma_count_prefix_monotone(s: Seq<char>, c: char, i: int, j: int)
    requires
        0 <= i <= j <= s.len(),
    ensures
        count_char(s.subrange(0, i), c) <= count_char(s.subrange(0, j), c),
    decreases j - i,
{
    if i < j {
        lemma_count_prefix_monotone(s, c, i + 1, j);
        assert(s.subrange(0, i + 1).drop_last() =~= s.subrange(0, i));
        assert(s.subrange(0, i + 1).last() == s[i]);
    }
}

/// At most one position is the `k`-th occurrence of `c`.
pub proof fn lemma_kth_char_unique(s: Seq<char>, c: char, k: nat, p1: int, p2: int)
    requires
        is_kth_char(s, c, k, p1),
        is_kth_char(s, c, k, p2),
    ensures
        p1 == p2,
{
    if p1 < p2 {
        assert(s.subrange(0, p2).subrange(0, p1 + 1) =~= s.subrange(0, p1 + 1));
        lemma_count_prefix_monotone(s.subrange(0, p2), c, p1 + 1, p2);
        assert(s.subrange(0, p2).subrange(0, p2) =~= s.subrange(0, p2));
        assert(s.subrange(0, p2 + 1).drop_last() =~= s.subrange(0, p2));
        assert(count_char(s.subrange(0, p2 + 1), c) >= k + 1);
    }
    if p2 < p1 {
        assert(s.subrange(0, p1).subrange(0, p2 + 1) =~= s.subrange(0, p2 + 1));
        lemma_count_prefix_monotone(s.subrange(0, p1), c, p2 + 1, p1);
        assert(s.subrange(0, p1).subrange(0, p1) =~= s.subrange(0, p1));
        assert(s.subrange(0, p1 + 1).drop_last() =~= s.subrange(0, p1));
        assert(count_char(s.subrange(0, p1 + 1), c) >= k + 1);
    }
}

/// The position of the `k`-th occurrence of `c` in `s`.
pub open spec fn kth_char_pos(s: Seq<char>, c: char, k: nat) -> int {
    choose|p: int| is_kth_char(s, c, k, p)
}

/// Position of the `k`-th occurrence (from 1) of `c` in `s`, scanning forward.
pub fn find_kth_char(s: &[char], c: char, k: usize) -> (r: Option<usize>)
    requires
        k >= 1,
    ensures
        match r {
            Some(p) => is_kth_char(s@, c, k as nat, p as int),
            None => count_char(s@, c) < k,
        },
{
    let mut i: usize = 0;
    let mut seen: usize = 0;
    proof {
        assert(s@.subrange(0, 0) =~= Seq::<char>::empty());
    }
    while i < s.len()
        invariant
            0 <= i <= s@.len(),
            seen == count_char(s@.subrange(0, i as int), c),
            seen < k,
        decreases s@.len() - i,
    {
        proof {
            assert(s@.subrange(0, i + 1).drop_last() =~= s@.subrange(0, i as int));
            assert(s@.subrange(0, i + 1).last() == s@[i as int]);
        }
        if s[i] == c {
            if seen + 1 == k {
                return Some(i);
            }
            seen += 1;
        }
        i += 1;
    }
    proof {
        assert(s@.subrange(0, s@.len() as int) =~= s@);
    }
    None
}

/// The pattern `pat` occurs in `s` at position `i`.
pub open spec fn match_at(s: Seq<char>, pat: Seq<char>, i: int) -> bool {
    0 <= i && i + pat.len() <= s.len() && s.subrange(i, i + pat.len()) == pat
}

/// Position of the first occurrence of `pat` in `s` at or after `from`.
/// An empty pattern matches wherever the search starts.
pub open spec fn spec_find_sub(s: Seq<char>, pat: Seq<char>, from: int) -> Option<int>
    decreases s.len() - from,
{
    if from < 0 {
        spec_find_sub(s, pat, 0)
    } else if from + pat.len() > s.len() {
        None
    } else if pat.len() == 0 {
        Some(from)
    } else if s.subrange(from, from + pat.len()) == pat {
        Some(from)
    } else {
        spec_find_sub(s, pat, from + 1)
    }
}

/// What `spec_find_sub` returns is the first match: a match where it points,
/// and no match between `from` and there.
pub proof fn lemma_find_sub_correct(s: Seq<char>, pat: Seq<char>, from: int)
    requires
        0 <= from,
    ensures
        match spec_find_sub(s, pat, from) {
            Some(i) => from <= i && match_at(s, pat, i) && (forall|k: int|
                from <= k < i ==> !match_at(s, pat, k)),
            None => forall|k: int| from <= k ==> !match_at(s, pat, k),
        },
    decreases s.len() - from,
{
    if from + pat.len() > s.len() {
    } else if pat.len() == 0 {
        assert(s.subrange(from, from) =~= pat);
    } else if s.subrange(from, from + pat.len()) == pat {
    } else {
        lemma_find_sub_correct(s, pat, from + 1);
    }
}

/// `s` contains the pattern `pat` somewhere.
pub open spec fn contains_sub(s: Seq<char>, pat: Seq<char>) -> bool {
    spec_find_sub(s, pat, 0) is Some
}

/// Compare the pattern against `s` at position `i`.
pub fn match_at_exec(s: &[char], pat: &[char], i: usize) -> (r: bool)
    requires
        i <= s@.len(),
        pat@.len() <= s@.len() - i,
    ensures
        r == match_at(s@, pat@, i as int),
{
    let mut j: usize = 0;
    while j < pat.len()
        invariant
            i <= s@.len(),
            pat@.len() <= s@.len() - i,
            0 <= j <= pat@.len(),
            forall|k: int| 0 <= k < j ==> s@[i + k] == pat@[k],
        decreases pat@.len() - j,
    {
        let n = s.len();
        proof {
            assert(i + j < n);
        }
        if s[i + j] != pat[j] {
            assert(s@.subrange(i as int, i + pat@.len())[j as int] != pat@[j as int]);
            return false;
        }
        j += 1;
    }
    assert(s@.subrange(i as int, i + pat@.len()) =~= pat@);
    true
}

/// First occurrence of `pat` in `s` at or after `from`.
pub fn find_sub_from(s: &[char], pat: &[char], from: usize) -> (r: Option<usize>)
    requires
        pat@.len() >= 1,
    ensures
        match r {
            Some(i) => from <= i && spec_find_sub(s@, pat@, from as int) == Some(i as int),
            None => spec_find_sub(s@, pat@, from as int) is None,
        },
{
    if pat.len() > s.len() || from > s.len() - pat.len() {
        proof {
            lemma_find_none_past_end(s@, pat@, from as int);
        }
        return None;
    }
    let mut i: usize = from;
    loop
        invariant
            from <= i,
            1 <= pat@.len() <= s@.len(),
            i <= s@.len() - pat@.len(),
            spec_find_sub(s@, pat@, from as int) == spec_find_sub(s@, pat@, i as int),
        decreases s@.len() - i,
    {
        if match_at_exec(s, pat, i) {
            assert(spec_find_sub(s@, pat@, i as int) == Some(i as int));
            return Some(i);
        }
        if i == s.len() - pat.len() {
            proof {
                assert(spec_find_sub(s@, pat@, i as int) == spec_find_sub(s@, pat@, i + 1));
                assert(spec_find_sub(s@, pat@, i + 1) is None);
            }
            return None;
        }
        proof {
            assert(spec_find_sub(s@, pat@, i as int) == spec_find_sub(s@, pat@, i + 1));
        }
        i += 1;
    }
}

proof fn lemma_find_none_past_end(s: Seq<char>, pat: Seq<char>, from: int)
    requires
        from + pat.len() > s.len(),
        from >= 0,
    ensures
        spec_find_sub(s, pat, from) is None,
{
}

/// First occurrence of the character `c` in `s` at or after `from`.
pub fn find_char_from(s: &[char], c: char, from: usize) -> (r: Option<usize>)
    ensures
        match r {
            Some(i) => from <= i && i < s@.len() && s@[i as int] == c && (forall|k: int|
                from <= k < i ==> s@[k] != c),
            None => forall|k: int| from <= k < s@.len() ==> s@[k] != c,
        },
{
    let mut i: usize = from;
    while i < s.len()
        invariant
            from <= i,
            forall|k: int| from <= k < i && k < s@.len() ==> s@[k] != c,
        decreases s@.len() - i,
    {
        if s[i] == c {
            return Some(i);
        }
        i += 1;
    }
    None
}

/// Last occurrence of the character `c` in `s`.
pub fn rfind_char(s: &[char], c: char) -> (r: Option<usize>)
    ensures
        match r {
            Some(i) => i < s@.len() && s@[i as int] == c && (forall|k: int|
                i < k < s@.len() ==> s@[k] != c),
            None => forall|k: int| 0 <= k < s@.len() ==> s@[k] != c,
        },
{
    let mut i: usize = s.len();
    while i > 0
        invariant
            i <= s@.len(),
            forall|k: int| i <= k < s@.len() ==> s@[k] != c,
        decreases i,
    {
        i -= 1;
        if s[i] == c {
            return Some(i);
        }
    }
    None
}

/// Count the occurrences of the character `c` in `s`.
pub fn count_char_exec(s: &[char], c: char) -> (r: usize)
    ensures
        r == count_char(s@, c),
{
    let mut i: usize = 0;
    let mut n: usize = 0;
    while i < s.len()
        invariant
            0 <= i <= s@.len(),
            n == count_char(s@.subrange(0, i as int), c),
            n <= i,
        decreases s@.len() - i,
    {
        proof {
            assert(s@.subrange(0, i + 1).drop_last() =~= s@.subrange(0, i as int));
            assert(s@.subrange(0, i + 1).last() == s@[i as int]);
        }
        if s[i] == c {
            n += 1;
        }
        i += 1;
    }
    proof {
        assert(s@.subrange(0, s@.len() as int) =~= s@);
    }
    n
}

/// Whole-sequence equality of two character slices.
pub fn eq_chars(a: &[char], b: &[char]) -> (r: bool)
    ensures
        r == (a@ == b@),
{
    if a.len() != b.len() {
        return false;
    }
    let mut i: usize = 0;
    while i < a.len()
        invariant
            a@.len() == b@.len(),
            0 <= i <= a@.len(),
            forall|k: int| 0 <= k < i ==> a@[k] == b@[k],
        decreases a@.len() - i,
    {
        if a[i] != b[i] {
            return false;
        }
        i += 1;
    }
    proof {
        assert(a@ =~= b@);
    }
    true
}

/// `s` starts with `pat`.
pub fn starts_with(s: &[char], pat: &[char]) -> (r: bool)
    ensures
        r == (pat@.len() <= s@.len() && s@.subrange(0, pat@.len() as int) == pat@),
{
    if pat.len() > s.len() {
        return false;
    }
    match_at_exec(s, pat, 0)
}

/// `s` ends with `pat`.
pub fn ends_with(s: &[char], pat: &[char]) -> (r: bool)
    ensures
        r == (pat@.len() <= s@.len() && s@.subrange(s@.len() - pat@.len(), s@.len() as int)
            == pat@),
{
    if pat.len() > s.len() {
        return false;
    }
    let r = match_at_exec(s, pat, s.len() - pat.len());
    proof {
        assert(s@.len() - pat@.len() + pat@.len() == s@.len());
    }
    r
}

/// Copy of `s[i..j]`.
pub fn sub_chars(s: &[char], i: usize, j: usize) -> (r: Vec<char>)
    requires
        i <= j <= s@.len(),
    ensures
        r@ == s@.subrange(i as int, j as int),
{
    let mut v: Vec<char> = Vec::new();
    let mut k: usize = i;
    while k < j
        invariant
            i <= k <= j <= s@.len(),
            v@ =~= s@.subrange(i as int, k as int),
        decreases j - k,
    {
        v.push(s[k]);
        proof {
            assert(v@ =~= s@.subrange(i as int, k + 1));
        }
        k += 1;
    }
    v
}

/// Append all of `src` to `dst`.
pub fn push_all(dst: &mut Vec<char>, src: &[char])
    ensures
        final(dst)@ == old(dst)@ + src@,
{
    let mut k: usize = 0;
    while k < src.len()
        invariant
            0 <= k <= src@.len(),
            dst@ =~= old(dst)@ + src@.subrange(0, k as int),
        decreases src@.len() - k,
    {
        dst.push(src[k]);
        proof {
            assert(dst@ =~= old(dst)@ + src@.subrange(0, k + 1));
        }
        k += 1;
    }
    proof {
        assert(dst@ =~= old(dst)@ + src@);
    }
}

/// The characters this crate treats as blank in source text.
pub open spec fn is_space(c: char) -> bool {
    c == ' ' || c == '\t' || c == '\r' || c == '\n'
}

/// Decide `is_space` on a concrete character.
pub fn is_space_exec(c: char) -> (r: bool)
    ensures
        r == is_space(c),
{
    c == ' ' || c == '\t' || c == '\r' || c == '\n'
}

/// `s` with blank characters removed from both ends.
pub open spec fn spec_trim(s: Seq<char>) -> Seq<char>
    decreases s.len(),
{
    if s.len() == 0 {
        s
    } else if is_space(s.first()) {
        spec_trim(s.drop_first())
    } else if is_space(s.last()) {
        spec_trim(s.drop_last())
    } else {
        s
    }
}

/// `s` with blank characters removed from the end only.
pub open spec fn spec_trim_end(s: Seq<char>) -> Seq<char>
    decreases s.len(),
{
    if s.len() == 0 {
        s
    } else if is_space(s.last()) {
        spec_trim_end(s.drop_last())
    } else {
        s
    }
}

/// Trim blanks from both ends of `s`.
#[verifier::rlimit(30)]
pub fn trim_chars(s: &[char]) -> (r: Vec<char>)
    ensures
        r@ == spec_trim(s@),
{
    proof {
        assert(s@.subrange(0, s@.len() as int) =~= s@);
    }
    let mut lo: usize = 0;
    let mut hi: usize = s.len();
    while lo < hi && is_space_exec(s[lo])
        invariant
            0 <= lo <= hi <= s@.len(),
            spec_trim(s@) == spec_trim(s@.subrange(lo as int, hi as int)),
        decreases hi - lo,
    {
        proof {
            assert(s@.subrange(lo as int, hi as int).drop_first() =~= s@.subrange(
                lo + 1,
                hi as int,
            ));
        }
        lo += 1;
    }
    while lo < hi && is_space_exec(s[hi - 1])
        invariant
            0 <= lo <= hi <= s@.len(),
            spec_trim(s@) == spec_trim(s@.subrange(lo as int, hi as int)),
            lo < hi ==> !is_space(s@[lo as int]),
        decreases hi - lo,
    {
        proof {
            assert(s@.subrange(lo as int, hi as int).drop_last() =~= s@.subrange(
                lo as int,
                hi - 1,
            ));
        }
        hi -= 1;
    }
    let r = sub_chars(s, lo, hi);
    proof {
        let t = s@.subrange(lo as int, hi as int);
        assert(spec_trim(t) == t);
    }
    r
}

/// Trim blanks from the end of `s`.
pub fn trim_end_chars(s: &[char]) -> (r: Vec<char>)
    ensures
        r@ == spec_trim_end(s@),
{
    proof {
        assert(s@.subrange(0, s@.len() as int) =~= s@);
    }
    let mut hi: usize = s.len();
    while hi > 0 && is_space_exec(s[hi - 1])
        invariant
            0 <= hi <= s@.len(),
            spec_trim_end(s@) == spec_trim_end(s@.subrange(0, hi as int)),
        decreases hi,
    {
        proof {
            assert(s@.subrange(0, hi as int).drop_last() =~= s@.subrange(0, hi - 1));
        }
        hi -= 1;
    }
    let r = sub_chars(s, 0, hi);
    proof {
        let t = s@.subrange(0, hi as int);
        assert(spec_trim_end(t) == t);
    }
    r
}

/// Position of the first `'\n'` in `s`, or the length of `s` if there is none.
pub open spec fn first_newline_or_len(s: Seq<char>) -> int
    decreases s.len(),
{
    if s.len() == 0 {
        0
    } else if s.first() == '\n' {
        0
    } else {
        1 + first_newline_or_len(s.drop_first())
    }
}

pub proof fn lemma_first_newline_at(s: Seq<char>, j: int)
    requires
        0 <= j < s.len(),
        s[j] == '\n',
        forall|k: int| 0 <= k < j ==> s[k] != '\n',
    ensures
        first_newline_or_len(s) == j,
    decreases j,
{
    if j > 0 {
        lemma_first_newline_at(s.drop_first(), j - 1);
    }
}

pub proof fn lemma_first_newline_none(s: Seq<char>)
    requires
        forall|k: int| 0 <= k < s.len() ==> s[k] != '\n',
    ensures
        first_newline_or_len(s) == s.len(),
    decreases s.len(),
{
    if s.len() > 0 {
        lemma_first_newline_none(s.drop_first());
    }
}

/// The lines of `s`: maximal runs split at `'\n'`, the separators dropped.
/// An empty text has no lines; a trailing separator opens no extra line.
pub open spec fn spec_lines(s: Seq<char>) -> Seq<Seq<char>>
    decreases s.len(),
{
    if s.len() == 0 {
        Seq::empty()
    } else {
        let i = first_newline_or_len(s);
        if 0 <= i < s.len() {
            seq![s.subrange(0, i)] + spec_lines(s.subrange(i + 1, s.len() as int))
        } else {
            seq![s]
        }
    }
}

pub proof fn lemma_first_newline_bounds(s: Seq<char>)
    ensures
        0 <= first_newline_or_len(s) <= s.len(),
        first_newline_or_len(s) < s.len() ==> s[first_newline_or_len(s)] == '\n',
    decreases s.len(),
{
    if s.len() > 0 && s.first() != '\n' {
        lemma_first_newline_bounds(s.drop_first());
    }
}

/// Split `s` into its lines.
pub fn split_lines(s: &[char]) -> (r: Vec<Vec<char>>)
    ensures
        r.deep_view() == spec_lines(s@),
{
    let mut r: Vec<Vec<char>> = Vec::new();
    let mut start: usize = 0;
    proof {
        assert(s@.subrange(0, s@.len() as int) =~= s@);
        assert(r.deep_view() =~= Seq::<Seq<char>>::empty());
    }
    while start < s.len()
        invariant
            0 <= start <= s@.len(),
            spec_lines(s@) == r.deep_view() + spec_lines(s@.subrange(start as int, s@.len() as int)),
        decreases s@.len() - start,
    {
        let ghost rest = s@.subrange(start as int, s@.len() as int);
        let ghost old_dv = r.deep_view();
        match find_char_from(s, '\n', start) {
            Some(i) => {
                let line = sub_chars(s, start, i);
                proof {
                    lemma_first_newline_at(rest, i - start);
                    assert(rest.subrange(0, i - start) =~= s@.subrange(start as int, i as int));
                    assert(rest.subrange(i - start + 1, rest.len() as int) =~= s@.subrange(
                        i + 1,
                        s@.len() as int,
                    ));
                    assert(spec_lines(rest) == seq![line@] + spec_lines(
                        s@.subrange(i + 1, s@.len() as int),
                    ));
                }
                r.push(line);
                proof {
                    assert(line.deep_view() =~= line@);
                    assert(r.deep_view() =~= old_dv + seq![line@]) by {
                        assert(forall|k: int|
                            0 <= k < old_dv.len() ==> r.deep_view()[k] == old_dv[k]);
                        assert(r.deep_view()[old_dv.len() as int] == line.deep_view());
                    }
                    assert(spec_lines(s@) == r.deep_view() + spec_lines(
                        s@.subrange(i + 1, s@.len() as int),
                    )) by {
                        assert(old_dv + (seq![line@] + spec_lines(
                            s@.subrange(i + 1, s@.len() as int),
                        )) =~= (old_dv + seq![line@]) + spec_lines(
                            s@.subrange(i + 1, s@.len() as int),
                        ));
                    }
                }
                start = i + 1;
            },
            None => {
                let line = sub_chars(s, start, s.len());
                proof {
                    lemma_first_newline_none(rest);
                    assert(spec_lines(rest) == seq![rest]);
                }
                r.push(line);
                proof {
                    assert(line.deep_view() =~= rest);
                    assert(r.deep_view() =~= old_dv + seq![rest]) by {
                        assert(forall|k: int|
                            0 <= k < old_dv.len() ==> r.deep_view()[k] == old_dv[k]);
                        assert(r.deep_view()[old_dv.len() as int] == line.deep_view());
                    }
                    assert(spec_lines(s@.subrange(s@.len() as int, s@.len() as int))
                        =~= Seq::<Seq<char>>::empty());
                    assert(spec_lines(s@) == r.deep_view() + spec_lines(
                        s@.subrange(s@.len() as int, s@.len() as int),
                    )) by {
                        assert(old_dv + seq![rest] =~= (old_dv + seq![rest]) + Seq::<
                            Seq<char>,
                        >::empty());
                    }
                }
                start = s.len();
            },
        }
    }
    proof {
        assert(spec_lines(s@.subrange(start as int, s@.len() as int)) =~= Seq::<Seq<char>>::empty());
        assert(spec_lines(s@) =~= r.deep_view());
    }
    r
}

/// Position of the last occurrence of `c` in `s`.
pub open spec fn spec_rfind_char(s: Seq<char>, c: char) -> Option<int>
    decreases s.len(),
{
    if s.len() == 0 {
        None
    } else if s.last() == c {
        Some(s.len() - 1)
    } else {
        spec_rfind_char(s.drop_last(), c)
    }
}

pub proof fn lemma_rfind_char_correct(s: Seq<char>, c: char)
    ensures
        match spec_rfind_char(s, c) {
            Some(i) => 0 <= i < s.len() && s[i] == c && (forall|k: int|
                i < k < s.len() ==> s[k] != c),
            None => forall|k: int| 0 <= k < s.len() ==> s[k] != c,
        },
    decreases s.len(),
{
    if s.len() == 0 {
    } else if s.last() == c {
    } else {
        lemma_rfind_char_correct(s.drop_last(), c);
        let d = s.drop_last();
        match spec_rfind_char(d, c) {
            Some(i) => {
                assert(s[i] == d[i]);
                assert(forall|k: int| i < k < d.len() ==> s[k] == d[k]);
            },
            None => {
                assert(forall|k: int| 0 <= k < d.len() ==> s[k] == d[k]);
            },
        }
    }
}

/// Position of the first occurrence of `c` in `s`, or the length of `s`.
pub open spec fn first_char_or_len(s: Seq<char>, c: char) -> int
    decreases s.len(),
{
    if s.len() == 0 {
        0
    } else if s.first() == c {
        0
    } else {
        1 + first_char_or_len(s.drop_first(), c)
    }
}

pub proof fn lemma_first_char_at(s: Seq<char>, c: char, j: int)
    requires
        0 <= j < s.len(),
        s[j] == c,
        forall|k: int| 0 <= k < j ==> s[k] != c,
    ensures
        first_char_or_len(s, c) == j,
    decreases j,
{
    if j > 0 {
        lemma_first_char_at(s.drop_first(), c, j - 1);
    }
}

pub proof fn lemma_first_char_none(s: Seq<char>, c: char)
    requires
        forall|k: int| 0 <= k < s.len() ==> s[k] != c,
    ensures
        first_char_or_len(s, c) == s.len(),
    decreases s.len(),
{
    if s.len() > 0 {
        lemma_first_char_none(s.drop_first(), c);
    }
}

pub proof fn lemma_first_char_bounds(s: Seq<char>, c: char)
    ensures
        0 <= first_char_or_len(s, c) <= s.len(),
        first_char_or_len(s, c) < s.len() ==> s[first_char_or_len(s, c)] == c,
    decreases s.len(),
{
    if s.len() > 0 && s.first() != c {
        lemma_first_char_bounds(s.drop_first(), c);
    }
}

/// Total occurrences of `c` over a sequence of lines.
pub open spec fn sum_counts(lines: Seq<Seq<char>>, c: char) -> nat
    decreases lines.len(),
{
    if lines.len() == 0 {
        0
    } else {
        count_char(lines.first(), c) + sum_counts(lines.drop_first(), c)
    }
}

pub proof fn lemma_sum_take_step(lines: Seq<Seq<char>>, c: char, n: int)
    requires
        0 <= n < lines.len(),
    ensures
        sum_counts(lines.take(n + 1), c) == sum_counts(lines.take(n), c) + count_char(
            lines[n],
            c,
        ),
    decreases n,
{
    if n == 0 {
        assert(lines.take(1).first() == lines[0]);
        assert(lines.take(1).drop_first() =~= Seq::<Seq<char>>::empty());
        assert(lines.take(0) =~= Seq::<Seq<char>>::empty());
    } else {
        lemma_sum_take_step(lines.drop_first(), c, n - 1);
        assert(lines.take(n + 1).drop_first() =~= lines.drop_first().take(n));
        assert(lines.take(n).drop_first() =~= lines.drop_first().take(n - 1));
        assert(lines.take(n + 1).first() == lines.first());
        assert(lines.take(n).first() == lines.first());
        assert(lines.drop_first()[n - 1] == lines[n as int]);
    }
}

pub proof fn lemma_sum_take_le(lines: Seq<Seq<char>>, c: char, n: int)
    requires
        0 <= n <= lines.len(),
    ensures
        sum_counts(lines.take(n), c) <= sum_counts(lines, c),
    decreases lines.len(),
{
    if n == 0 {
        assert(lines.take(0) =~= Seq::<Seq<char>>::empty());
    } else {
        lemma_sum_take_le(lines.drop_first(), c, n - 1);
        assert(lines.take(n).drop_first() =~= lines.drop_first().take(n - 1));
        assert(lines.take(n).first() == lines.first());
    }
}

/// For any character other than the separator, the occurrences in a text are
/// exactly the occurrences in its lines.
pub proof fn lemma_lines_count(s: Seq<char>, c: char)
    requires
        c != '\n',
    ensures
        sum_counts(spec_lines(s), c) == count_char(s, c),
    decreases s.len(),
{
    if s.len() == 0 {
    } else {
        lemma_first_newline_bounds(s);
        let i = first_newline_or_len(s);
        if 0 <= i < s.len() {
            let head = s.subrange(0, i);
            let tail = s.subrange(i + 1, s.len() as int);
            lemma_lines_count(tail, c);
            assert(s =~= head + seq![s[i]] + tail);
            lemma_count_concat(head + seq![s[i]], tail, c);
            lemma_count_concat(head, seq![s[i]], c);
            assert(count_char(seq![s[i]], c) == 0) by {
                let single = seq![s[i]];
                assert(single.last() == s[i]);
                assert(single.drop_last() =~= Seq::<char>::empty());
                assert(count_char(Seq::<char>::empty(), c) == 0);
            }
            assert(spec_lines(s).drop_first() =~= spec_lines(tail));
            assert(spec_lines(s).first() == head);
            assert(sum_counts(spec_lines(s), c) == count_char(head, c) + sum_counts(
                spec_lines(tail),
                c,
            ));
        } else {
            assert(spec_lines(s) == seq![s]);
            assert(spec_lines(s).first() == s);
            assert(spec_lines(s).drop_first() =~= Seq::<Seq<char>>::empty());
            assert(sum_counts(Seq::<Seq<char>>::empty(), c) == 0);
        }
    }
}

/// Whole-string equality through the character views.
pub fn str_eq(a: &str, b: &str) -> (r: bool)
    ensures
        r == (a@ == b@),
{
    let av = str_to_chars(a);
    let bv = str_to_chars(b);
    eq_chars(av.as_slice(), bv.as_slice())
}

/// Copy the characters of a string into a vector.
pub fn str_to_chars(s: &str) -> (r: Vec<char>)
    ensures
        r@ == s@,
{
    let n = s.unicode_len();
    let mut v: Vec<char> = Vec::new();
    let mut i: usize = 0;
    while i < n
        invariant
            n == s@.len(),
            0 <= i <= n,
            v@ =~= s@.subrange(0, i as int),
        decreases n - i,
    {
        v.push(s.get_char(i));
        proof {
            assert(v@ =~= s@.subrange(0, i + 1));
        }
        i += 1;
    }
    proof {
        assert(v@ =~= s@);
    }
    v
}

/// Relies on `String`'s `FromIterator` over `char`: collecting characters
/// builds the string of exactly those characters in order.
#[verifier::external_body]
pub fn chars_to_string(v: &Vec<char>) -> (r: String)
    ensures
        r@ == v@,
{
    v.iter().collect()
}

} // verus!
