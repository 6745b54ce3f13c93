use vstd::prelude::*;

use crate::text::count_char;
use crate::text::count_char_exec;
use crate::text::is_kth_char;
use crate::text::kth_char_pos;
use crate::text::lemma_kth_char_unique;
use crate::text::find_kth_char;
use crate::text::lemma_count_le_len;
use crate::text::lemma_lines_count;
use crate::text::lemma_sum_take_le;
use crate::text::lemma_sum_take_step;
use crate::text::sum_counts;
use crate::text::spec_lines;
use crate::text::split_lines;
use crate::text::spec_trim_end;
use crate::text::trim_end_chars;
use crate::text::str_to_chars;
use crate::text::chars_to_string;
use crate::text::push_all;
use crate::text::sub_chars;
use crate::text::first_newline_or_len;
use crate::text::lemma_first_newline_bounds;
use crate::text::spec_find_sub;
use crate::text::lemma_find_sub_correct;
use crate::text::find_sub_from;
use crate::text::is_space;
use crate::text::is_space_exec;
use crate::text::first_char_or_len;

verus! {

// The source scanner: balanced-span extraction over raw text, line by line.

/// The delimiters the scanner balances.
pub open spec fn is_open_char(c: char) -> bool {
    c == '(' || c == '{' || c == '[' || c == '<' || c == '"'
}

/// The closing delimiter belonging to an opening one.
pub open spec fn close_of(open_char: char) -> char {
    match open_char {
        '(' => ')',
        '{' => '}',
        '[' => ']',
        '<' => '>',
        _ => '"',
    }
}

/// The closing delimiter belonging to an opening one.
pub fn get_matching_closing_char(open_char: char) -> (r: char)
    requires
        is_open_char(open_char),
    ensures
        r == close_of(open_char),
{
    match open_char {
        '(' => ')',
        '{' => '}',
        '[' => ']',
        '<' => '>',
        _ => '"',
    }
}

/// The balanced-span scan over a sequence of lines, carrying the delimiter
/// counts seen so far. A line that closes more than it opens is cut directly
/// after the delimiter that balances the span; otherwise the line is kept
/// (trailing blanks dropped) and the scan stops once the counts agree and are
/// not zero.
pub open spec fn spec_scan_lines(
    lines: Seq<Seq<char>>,
    oc: char,
    cc: char,
    opens: nat,
    closes: nat,
) -> Seq<char>
    decreases lines.len(),
{
    if lines.len() == 0 {
        Seq::empty()
    } else {
        let line = lines.first();
        let lo = count_char(line, oc);
        let lc = count_char(line, cc);
        if closes + lc > opens + lo && opens + lo > closes {
            let k = (opens + lo - closes) as nat;
            let p = kth_char_pos(line, cc, k);
            line.subrange(0, p + 1) + seq!['\n']
        } else if opens + lo == closes + lc && opens + lo != 0 {
            spec_trim_end(line) + seq!['\n']
        } else {
            spec_trim_end(line) + seq!['\n'] + spec_scan_lines(
                lines.drop_first(),
                oc,
                cc,
                (opens + lo) as nat,
                (closes + lc) as nat,
            )
        }
    }
}

/// The minimal balanced span of `content` for the delimiter `open_char`,
/// starting from its first line.
pub open spec fn spec_get_item(content: Seq<char>, open_char: char) -> Seq<char> {
    spec_scan_lines(spec_lines(content), open_char, close_of(open_char), 0, 0)
}

/// Return the minimal balanced span of `content` for `open_char`, tracking
/// nested delimiter counts line by line. An unbalanced text yields the whole
/// text as a best-effort span.
#[verifier::rlimit(100)]
#[verifier::spinoff_prover]
pub fn get_item(content: &str, open_char: char) -> (r: String)
    requires
        is_open_char(open_char),
    ensures
        r@ == spec_get_item(content@, open_char),
{
    let cv = str_to_chars(content);
    let close_char = get_matching_closing_char(open_char);
    let lines = split_lines(&cv);
    let ghost dv = lines.deep_view();
    let mut item: Vec<char> = Vec::new();
    let mut opens: usize = 0;
    let mut closes: usize = 0;
    let mut li: usize = 0;
    proof {
        assert(dv.skip(0) =~= dv);
        assert(dv.take(0) =~= Seq::<Seq<char>>::empty());
        lemma_lines_count(cv@, open_char);
        lemma_count_le_len(cv@, open_char);
        if close_char != '\n' {
            lemma_lines_count(cv@, close_char);
            lemma_count_le_len(cv@, close_char);
        } else {
            lemma_sum_newline_zero(cv@);
        }
    }
    while li < lines.len()
        invariant
            is_open_char(open_char),
            close_char == close_of(open_char),
            cv@ == content@,
            dv == lines.deep_view(),
            dv.len() == lines@.len(),
            0 <= li <= lines@.len(),
            opens == sum_counts(dv.take(li as int), open_char),
            closes == sum_counts(dv.take(li as int), close_char),
            sum_counts(dv, open_char) <= cv@.len(),
            sum_counts(dv, close_char) <= cv@.len(),
            spec_get_item(content@, open_char) == item@ + spec_scan_lines(
                dv.skip(li as int),
                open_char,
                close_char,
                opens as nat,
                closes as nat,
            ),
        decreases lines@.len() - li,
    {
        let line: &Vec<char> = &lines[li];
        let ghost lseq = line@;
        proof {
            assert(dv[li as int] == lines@[li as int].deep_view());
            assert(lines@[li as int].deep_view() =~= lseq);
            assert(dv.skip(li as int).first() == lseq);
        }
        let lo = count_char_exec(line.as_slice(), open_char);
        let lc = count_char_exec(line.as_slice(), close_char);
        proof {
            lemma_sum_take_step(dv, open_char, li as int);
            lemma_sum_take_step(dv, close_char, li as int);
            lemma_sum_take_le(dv, open_char, li + 1);
            lemma_sum_take_le(dv, close_char, li + 1);
            assert(opens + lo == sum_counts(dv.take(li + 1), open_char));
            assert(closes + lc == sum_counts(dv.take(li + 1), close_char));
        }
        let total = cv.len();
        proof {
            assert(opens + lo <= total);
            assert(closes + lc <= total);
        }
        if closes + lc > opens + lo && opens + lo > closes {
            let k = opens + lo - closes;
            let ghost pre = item@;
            let p = match find_kth_char(line.as_slice(), close_char, k) {
                Some(p) => p,
                None => {
                    proof {
                        assert(false);
                    }
                    0
                },
            };
            let ll = line.len();
            proof {
                assert(p < ll);
            }
            let part = sub_chars(line.as_slice(), 0, p + 1);
            push_all(&mut item, part.as_slice());
            item.push('\n');
            proof {
                assert(exists|q: int| is_kth_char(lseq, close_char, k as nat, q)) by {
                    assert(is_kth_char(lseq, close_char, k as nat, p as int));
                }
                let sp = kth_char_pos(lseq, close_char, k as nat);
                assert(is_kth_char(lseq, close_char, k as nat, sp));
                lemma_kth_char_unique(lseq, close_char, k as nat, sp, p as int);
                assert(spec_scan_lines(
                    dv.skip(li as int),
                    open_char,
                    close_char,
                    opens as nat,
                    closes as nat,
                ) == lseq.subrange(0, p + 1) + seq!['\n']);
                assert(item@ =~= pre + (lseq.subrange(0, p + 1) + seq!['\n']));
                assert(item@ =~= spec_get_item(content@, open_char));
            }
            return chars_to_string(&item);
        }
        let ghost pre = item@;
        let trimmed = trim_end_chars(line.as_slice());
        push_all(&mut item, trimmed.as_slice());
        item.push('\n');
        proof {
            assert(item@ =~= pre + (spec_trim_end(lseq) + seq!['\n']));
        }
        let ghost old_opens = opens;
        let ghost old_closes = closes;
        opens = opens + lo;
        closes = closes + lc;
        if opens == closes && opens != 0 {
            proof {
                assert(spec_scan_lines(
                    dv.skip(li as int),
                    open_char,
                    close_char,
                    old_opens as nat,
                    old_closes as nat,
                ) == spec_trim_end(lseq) + seq!['\n']);
                assert(item@ =~= spec_get_item(content@, open_char));
            }
            return chars_to_string(&item);
        }
        proof {
            assert(dv.skip(li as int).drop_first() =~= dv.skip(li + 1));
            assert(spec_scan_lines(
                dv.skip(li as int),
                open_char,
                close_char,
                old_opens as nat,
                old_closes as nat,
            ) == spec_trim_end(lseq) + seq!['\n'] + spec_scan_lines(
                dv.skip(li + 1),
                open_char,
                close_char,
                opens as nat,
                closes as nat,
            ));
            assert(pre + (spec_trim_end(lseq) + seq!['\n']) + spec_scan_lines(
                dv.skip(li + 1),
                open_char,
                close_char,
                opens as nat,
                closes as nat,
            ) =~= pre + (spec_trim_end(lseq) + seq!['\n'] + spec_scan_lines(
                dv.skip(li + 1),
                open_char,
                close_char,
                opens as nat,
                closes as nat,
            )));
        }
        li += 1;
    }
    proof {
        assert(dv.skip(li as int) =~= Seq::<Seq<char>>::empty());
        assert(spec_scan_lines(
            Seq::<Seq<char>>::empty(),
            open_char,
            close_char,
            opens as nat,
            closes as nat,
        ) == Seq::<char>::empty());
        assert(item@ =~= spec_get_item(content@, open_char));
    }
    chars_to_string(&item)
}

/// Lines carry no separator characters, so a sum of `'\n'` counts over lines
/// is zero.
pub proof fn lemma_sum_newline_zero(s: Seq<char>)
    ensures
        sum_counts(spec_lines(s), '\n') == 0,
    decreases s.len(),
{
    if s.len() == 0 {
    } else {
        lemma_first_newline_bounds(s);
        let i = first_newline_or_len(s);
        if 0 <= i < s.len() {
            let head = s.subrange(0, i);
            let tail = s.subrange(i + 1, s.len() as int);
            lemma_sum_newline_zero(tail);
            assert(count_char(head, '\n') == 0) by {
                lemma_head_no_newline(s, i);
            }
            assert(spec_lines(s).drop_first() =~= spec_lines(tail));
            assert(spec_lines(s).first() == head);
            assert(sum_counts(spec_lines(s), '\n') == count_char(head, '\n') + sum_counts(
                spec_lines(tail),
                '\n',
            ));
        } else {
            assert(count_char(s, '\n') == 0) by {
                lemma_no_newline_before_first(s, i);
                lemma_count_zero_when_absent(s, '\n');
            }
            assert(spec_lines(s).first() == s);
            assert(spec_lines(s).drop_first() =~= Seq::<Seq<char>>::empty());
            assert(sum_counts(Seq::<Seq<char>>::empty(), '\n') == 0);
        }
    }
}

proof fn lemma_head_no_newline(s: Seq<char>, i: int)
    requires
        i == first_newline_or_len(s),
        0 <= i <= s.len(),
    ensures
        count_char(s.subrange(0, i), '\n') == 0,
{
    lemma_no_newline_before_first(s, i);
    assert(forall|k: int| 0 <= k < i ==> s.subrange(0, i)[k] != '\n');
    lemma_count_zero_when_absent(s.subrange(0, i), '\n');
}

proof fn lemma_no_newline_before_first(s: Seq<char>, i: int)
    requires
        i == first_newline_or_len(s),
        0 <= i <= s.len(),
    ensures
        forall|k: int| 0 <= k < i ==> s[k] != '\n',
    decreases s.len(),
{
    if s.len() > 0 && s.first() != '\n' {
        crate::text::lemma_first_newline_bounds(s.drop_first());
        lemma_no_newline_before_first(s.drop_first(), i - 1);
        assert(forall|k: int| 1 <= k < i ==> s[k] == s.drop_first()[k - 1]);
    }
}

proof fn lemma_count_zero_when_absent(s: Seq<char>, c: char)
    requires
        forall|k: int| 0 <= k < s.len() ==> s[k] != c,
    ensures
        count_char(s, c) == 0,
    decreases s.len(),
{
    if s.len() > 0 {
        lemma_count_zero_when_absent(s.drop_last(), c);
    }
}


/// Successive non-overlapping occurrences of `pat` in `s`, from `from` on.
pub open spec fn spec_occurrences(s: Seq<char>, pat: Seq<char>, from: int) -> Seq<int>
    decreases s.len() - from,
    when 0 <= from && pat.len() >= 1
    via spec_occurrences_dec
{
    match spec_find_sub(s, pat, from) {
        None => Seq::empty(),
        Some(i) => seq![i] + spec_occurrences(s, pat, i + pat.len()),
    }
}

#[via_fn]
proof fn spec_occurrences_dec(s: Seq<char>, pat: Seq<char>, from: int) {
    lemma_find_sub_correct(s, pat, from);
}

/// All non-overlapping occurrences of `item` in `content`, each paired with
/// its rank: entry `j` is `(j, position of the j-th occurrence)`.
pub fn get_item_indices(content: &str, item: &str) -> (r: Vec<(usize, usize)>)
    requires
        item@.len() >= 1,
    ensures
        ({
            let occ = spec_occurrences(content@, item@, 0);
            &&& r@.len() == occ.len()
            &&& forall|j: int|
                0 <= j < occ.len() ==> ((#[trigger] r@[j]).0 == j && r@[j].1 == occ[j])
        }),
{
    let cv = str_to_chars(content);
    let pv = str_to_chars(item);
    let ghost occ = spec_occurrences(content@, item@, 0);
    let mut r: Vec<(usize, usize)> = Vec::new();
    let mut cur: usize = 0;
    let n = cv.len();
    proof {
        assert(occ.skip(0) =~= occ);
    }
    loop
        invariant
            cv@ == content@,
            pv@ == item@,
            item@.len() >= 1,
            n == content@.len(),
            occ == spec_occurrences(content@, item@, 0),
            r@.len() <= occ.len(),
            forall|j: int|
                0 <= j < r@.len() ==> ((#[trigger] r@[j]).0 == j && r@[j].1 == occ[j]),
            occ.skip(r@.len() as int) == spec_occurrences(content@, item@, cur as int),
            cur <= n + item@.len(),
        decreases n + item@.len() - cur,
    {
        let ghost pre_len = r@.len() as int;
        match find_sub_from(cv.as_slice(), pv.as_slice(), cur) {
            Some(i) => {
                proof {
                    lemma_find_sub_correct(content@, item@, cur as int);
                    assert(spec_occurrences(content@, item@, cur as int) == seq![i as int]
                        + spec_occurrences(content@, item@, i + item@.len()));
                    assert(occ.skip(pre_len).len() >= 1);
                    assert(pre_len < occ.len());
                    assert(occ.skip(pre_len)[0] == i as int);
                    assert(occ[pre_len] == i as int);
                    assert(i + item@.len() <= content@.len());
                }
                let rank = r.len();
                let ghost old_r = r@;
                r.push((rank, i));
                proof {
                    assert(r@ =~= old_r.push((rank, i)));
                    assert(forall|j: int| 0 <= j < pre_len ==> r@[j] == old_r[j]);
                    assert(r@[pre_len].0 == pre_len && r@[pre_len].1 == occ[pre_len]);
                    assert(forall|j: int|
                        0 <= j < r@.len() ==> ((#[trigger] r@[j]).0 == j && r@[j].1
                            == occ[j]));
                    assert(occ.skip(pre_len).drop_first() =~= occ.skip(pre_len + 1));
                    assert(occ.skip(pre_len).drop_first() == spec_occurrences(
                        content@,
                        item@,
                        i + item@.len(),
                    ));
                }
                cur = i + pv.len();
            },
            None => {
                proof {
                    assert(spec_occurrences(content@, item@, cur as int)
                        =~= Seq::<int>::empty());
                    assert(occ.skip(r@.len() as int) =~= Seq::<int>::empty());
                    assert(r@.len() == occ.len());
                }
                return r;
            },
        }
    }
}

/// All the places an account-builder call starts in `content`, each paired
/// with its rank among those calls.
pub fn get_account_meta_indices(content: &str) -> (r: Vec<(usize, usize)>)
    ensures
        ({
            let occ = spec_occurrences(content@, "AccountMeta::"@, 0);
            &&& r@.len() == occ.len()
            &&& forall|j: int|
                0 <= j < occ.len() ==> ((#[trigger] r@[j]).0 == j && r@[j].1 == occ[j])
        }),
{
    proof {
        reveal_strlit("AccountMeta::");
    }
    let r = get_item_indices(content, "AccountMeta::");
    proof {
        let occ = spec_occurrences(content@, "AccountMeta::"@, 0);
        assert(r@.len() == occ.len());
        assert(forall|j: int|
            0 <= j < occ.len() ==> ((#[trigger] r@[j]).0 == j && r@[j].1 == occ[j]));
    }
    r
}

/// The single-line slice between the first `open_char` and the last matching
/// closer: what stands inside the outermost delimiters, or nothing when no
/// closer stands after the opener.
pub open spec fn spec_get_inside_item(content: Seq<char>, oc: char) -> Option<Seq<char>> {
    match spec_find_sub(content, seq![oc], 0) {
        None => None,
        Some(oi) => match crate::text::spec_rfind_char(content, close_of(oc)) {
            Some(ci) => if ci > oi {
                Some(content.subrange(oi + 1, ci))
            } else {
                None
            },
            None => None,
        },
    }
}

pub fn get_inside_item_vec(s: &[char], open_char: char) -> (r: Option<Vec<char>>)
    requires
        is_open_char(open_char),
    ensures
        match r {
            Some(v) => spec_get_inside_item(s@, open_char) == Some(v@),
            None => spec_get_inside_item(s@, open_char) is None,
        },
{
    let close_char = get_matching_closing_char(open_char);
    let mut pat: Vec<char> = Vec::new();
    pat.push(open_char);
    proof {
        assert(pat@ =~= seq![open_char]);
    }
    let oi = match find_sub_from(s, pat.as_slice(), 0) {
        Some(oi) => oi,
        None => {
            return None;
        },
    };
    let ci = match crate::text::rfind_char(s, close_char) {
        Some(ci) => ci,
        None => {
            proof {
                crate::text::lemma_rfind_char_correct(s@, close_char);
                if crate::text::spec_rfind_char(s@, close_char) is Some {
                    let sci = crate::text::spec_rfind_char(s@, close_char)->Some_0;
                    assert(s@[sci] != close_char);
                }
            }
            return None;
        },
    };
    proof {
        crate::text::lemma_rfind_char_correct(s@, close_char);
        match crate::text::spec_rfind_char(s@, close_char) {
            Some(sci) => {
                if sci < ci {
                    assert(s@[ci as int] != close_char);
                }
                if ci < sci {
                    assert(s@[sci] != close_char);
                }
                assert(sci == ci);
            },
            None => {
                assert(s@[ci as int] != close_char);
            },
        }
        lemma_find_sub_correct(s@, seq![open_char], 0);
        assert(s@.subrange(oi as int, oi + 1) =~= seq![s@[oi as int]]);
    }
    if ci > oi {
        Some(sub_chars(s, oi + 1, ci))
    } else {
        None
    }
}

/// The content between the first `open_char` of `content` and the last
/// matching closer.
pub fn get_inside_item(content: &str, open_char: char) -> (r: Option<String>)
    requires
        is_open_char(open_char),
    ensures
        match r {
            Some(v) => spec_get_inside_item(content@, open_char) == Some(v@),
            None => spec_get_inside_item(content@, open_char) is None,
        },
{
    let cv = str_to_chars(content);
    match get_inside_item_vec(cv.as_slice(), open_char) {
        Some(v) => Some(chars_to_string(&v)),
        None => None,
    }
}

/// The first line of `content`.
pub open spec fn spec_first_line(content: Seq<char>) -> Seq<char> {
    let n = first_newline_or_len(content);
    if 0 <= n <= content.len() {
        content.subrange(0, n)
    } else {
        content
    }
}

pub fn first_line_chars(s: &[char]) -> (r: Vec<char>)
    ensures
        r@ == spec_first_line(s@),
{
    match crate::text::find_char_from(s, '\n', 0) {
        Some(i) => {
            proof {
                crate::text::lemma_first_newline_at(s@, i as int);
            }
            sub_chars(s, 0, i)
        },
        None => {
            proof {
                crate::text::lemma_first_newline_none(s@);
                assert(s@.subrange(0, s@.len() as int) =~= s@);
            }
            sub_chars(s, 0, s.len())
        },
    }
}

/// `get_inside_item` applied to the first line of `content` alone.
pub fn get_inside_item_line(content: &str, open_char: char) -> (r: Option<String>)
    requires
        is_open_char(open_char),
    ensures
        match r {
            Some(v) => spec_get_inside_item(spec_first_line(content@), open_char) == Some(v@),
            None => spec_get_inside_item(spec_first_line(content@), open_char) is None,
        },
{
    let cv = str_to_chars(content);
    let fl = first_line_chars(cv.as_slice());
    match get_inside_item_vec(fl.as_slice(), open_char) {
        Some(v) => Some(chars_to_string(&v)),
        None => None,
    }
}


/// Position of the first blank character of `s`, or the length of `s`.
pub open spec fn first_space_or_len(s: Seq<char>) -> int
    decreases s.len(),
{
    if s.len() == 0 {
        0
    } else if is_space(s.first()) {
        0
    } else {
        1 + first_space_or_len(s.drop_first())
    }
}

pub proof fn lemma_first_space_bounds(s: Seq<char>)
    ensures
        0 <= first_space_or_len(s) <= s.len(),
        first_space_or_len(s) < s.len() ==> is_space(s[first_space_or_len(s)]),
    decreases s.len(),
{
    if s.len() > 0 && !is_space(s.first()) {
        lemma_first_space_bounds(s.drop_first());
    }
}

pub proof fn lemma_first_space_at(s: Seq<char>, j: int)
    requires
        0 <= j <= s.len(),
        forall|k: int| 0 <= k < j ==> !is_space(s[k]),
        j < s.len() ==> is_space(s[j]),
    ensures
        first_space_or_len(s) == j,
    decreases j,
{
    if j > 0 {
        lemma_first_space_at(s.drop_first(), j - 1);
        assert(forall|k: int| 0 <= k < j - 1 ==> s.drop_first()[k] == s[k + 1]);
    }
}

/// The blank-separated tokens of `s`.
pub open spec fn spec_tokens(s: Seq<char>) -> Seq<Seq<char>>
    decreases s.len(),
{
    if s.len() == 0 {
        Seq::empty()
    } else if is_space(s.first()) {
        spec_tokens(s.drop_first())
    } else {
        let e = first_space_or_len(s);
        if 1 <= e <= s.len() {
            seq![s.subrange(0, e)] + spec_tokens(s.subrange(e, s.len() as int))
        } else {
            seq![s]
        }
    }
}

/// Split `s` into blank-separated tokens.
pub fn split_tokens(s: &[char]) -> (r: Vec<Vec<char>>)
    ensures
        r.deep_view() == spec_tokens(s@),
{
    let mut r: Vec<Vec<char>> = Vec::new();
    let mut i: usize = 0;
    proof {
        assert(s@.skip(0) =~= s@);
        assert(r.deep_view() =~= Seq::<Seq<char>>::empty());
    }
    while i < s.len()
        invariant
            0 <= i <= s@.len(),
            spec_tokens(s@) == r.deep_view() + spec_tokens(s@.skip(i as int)),
        decreases s@.len() - i,
    {
        let ghost rest = s@.skip(i as int);
        if is_space_exec(s[i]) {
            proof {
                assert(rest.drop_first() =~= s@.skip(i + 1));
            }
            i += 1;
        } else {
            let mut j: usize = i + 1;
            while j < s.len() && !is_space_exec(s[j])
                invariant
                    0 <= i < j <= s@.len(),
                    forall|k: int| i <= k < j ==> !is_space(s@[k]),
                decreases s@.len() - j,
            {
                j += 1;
            }
            let tok = sub_chars(s, i, j);
            let ghost old_dv = r.deep_view();
            proof {
                assert(forall|k: int| 0 <= k < j - i ==> rest[k] == s@[i + k]);
                lemma_first_space_at(rest, j - i);
                assert(rest.subrange(0, j - i) =~= tok@);
                assert(rest.subrange(j - i, rest.len() as int) =~= s@.skip(j as int));
                assert(spec_tokens(rest) == seq![tok@] + spec_tokens(s@.skip(j as int)));
            }
            r.push(tok);
            proof {
                assert(tok.deep_view() =~= tok@);
                assert(r.deep_view() =~= old_dv + seq![tok@]) by {
                    assert(forall|k: int|
                        0 <= k < old_dv.len() ==> r.deep_view()[k] == old_dv[k]);
                    assert(r.deep_view()[old_dv.len() as int] == tok.deep_view());
                }
                assert(spec_tokens(s@) == r.deep_view() + spec_tokens(s@.skip(j as int))) by {
                    assert(old_dv + (seq![tok@] + spec_tokens(s@.skip(j as int))) =~= (old_dv
                        + seq![tok@]) + spec_tokens(s@.skip(j as int)));
                }
            }
            i = j;
        }
    }
    proof {
        assert(spec_tokens(s@.skip(i as int)) =~= Seq::<Seq<char>>::empty());
        assert(spec_tokens(s@) =~= r.deep_view());
    }
    r
}

/// The token of the first line of `item` at position `idx`, cut before any
/// `'('`; what names an extracted item (position 2) or says whether it is a
/// record or a tagged union (position 1).
pub open spec fn spec_item_info(item: Seq<char>, idx: int) -> Option<Seq<char>> {
    let toks = spec_tokens(spec_first_line(item));
    if 0 <= idx < toks.len() {
        let t = toks[idx];
        let c = first_char_or_len(t, '(');
        if 0 <= c <= t.len() {
            Some(t.subrange(0, c))
        } else {
            Some(t)
        }
    } else {
        None
    }
}

/// The whitespace-delimited token at `index` of the first line of `item`,
/// cut before any opening parenthesis.
pub fn get_item_info_from_full_item_and_index(item: &str, index: usize) -> (r: Option<String>)
    ensures
        match r {
            Some(v) => spec_item_info(item@, index as int) == Some(v@),
            None => spec_item_info(item@, index as int) is None,
        },
{
    let cv = str_to_chars(item);
    let fl = first_line_chars(cv.as_slice());
    let toks = split_tokens(fl.as_slice());
    if index >= toks.len() {
        return None;
    }
    let t: &Vec<char> = &toks[index];
    proof {
        assert(toks.deep_view()[index as int] == toks@[index as int].deep_view());
        assert(toks@[index as int].deep_view() =~= t@);
    }
    let cut = match crate::text::find_char_from(t.as_slice(), '(', 0) {
        Some(c) => {
            proof {
                crate::text::lemma_first_char_at(t@, '(', c as int);
            }
            c
        },
        None => {
            proof {
                crate::text::lemma_first_char_none(t@, '(');
            }
            t.len()
        },
    };
    let out = sub_chars(t.as_slice(), 0, cut);
    Some(chars_to_string(&out))
}

/// The name token of an extracted item: the third token of its first line.
pub fn get_item_name_from_full_item(item: &str) -> (r: Option<String>)
    ensures
        match r {
            Some(v) => spec_item_info(item@, 2) == Some(v@),
            None => spec_item_info(item@, 2) is None,
        },
{
    get_item_info_from_full_item_and_index(item, 2)
}

/// The kind token of an extracted item: the second token of its first line,
/// naming the declaration form.
pub fn get_item_type_from_full_item(item: &str) -> (r: Option<String>)
    ensures
        match r {
            Some(v) => spec_item_info(item@, 1) == Some(v@),
            None => spec_item_info(item@, 1) is None,
        },
{
    get_item_info_from_full_item_and_index(item, 1)
}


/// The local definition of the type `name` in `content`: a plain record
/// (`pub struct Name {...}`), a one-field wrapper (`pub struct Name(...)`),
/// an empty declaration (`pub struct Name;`, given a synthesized empty body),
/// or a tagged union (`pub enum Name {...}`) — the first of these that
/// occurs, or nothing.
pub open spec fn spec_local_type(name: Seq<char>, content: Seq<char>) -> Option<Seq<char>> {
    let p1 = "pub struct "@ + name + " "@;
    let p2 = "pub struct "@ + name + "("@;
    let p3 = "pub struct "@ + name + ";"@;
    let p4 = "pub enum "@ + name + " "@;
    match spec_find_sub(content, p1, 0) {
        Some(i) => Some(spec_get_item(content.skip(i), '{')),
        None => match spec_find_sub(content, p2, 0) {
            Some(i) => Some(spec_get_item(content.skip(i), '(')),
            None => match spec_find_sub(content, p3, 0) {
                Some(i) => {
                    let start = content.skip(i);
                    let j = first_char_or_len(start, ';');
                    if 0 <= j <= start.len() {
                        Some(start.subrange(0, j) + " {}\n"@)
                    } else {
                        Some(start + " {}\n"@)
                    }
                },
                None => match spec_find_sub(content, p4, 0) {
                    Some(i) => Some(spec_get_item(content.skip(i), '{')),
                    None => None,
                },
            },
        },
    }
}

fn build_pattern(head: &str, name: &[char], tail: &str) -> (r: Vec<char>)
    ensures
        r@ == head@ + name@ + tail@,
{
    let mut r = str_to_chars(head);
    push_all(&mut r, name);
    let t = str_to_chars(tail);
    push_all(&mut r, t.as_slice());
    r
}

/// Find the local definition of `name` in `content`, trying the record,
/// wrapper, empty and tagged-union declaration forms in that order.
pub fn get_local_type(name: &str, content: &str) -> (r: Option<String>)
    ensures
        match r {
            Some(v) => spec_local_type(name@, content@) == Some(v@),
            None => spec_local_type(name@, content@) is None,
        },
{
    proof {
        reveal_strlit("pub struct ");
        reveal_strlit("pub enum ");
        reveal_strlit(" ");
        reveal_strlit("(");
        reveal_strlit(";");
    }
    let cv = str_to_chars(content);
    let nv = str_to_chars(name);
    let p1 = build_pattern("pub struct ", nv.as_slice(), " ");
    if let Some(i) = find_sub_from(cv.as_slice(), p1.as_slice(), 0) {
        proof {
            lemma_find_sub_correct(cv@, p1@, 0);
        }
        let tail = sub_chars(cv.as_slice(), i, cv.len());
        let tail_str = chars_to_string(&tail);
        proof {
            assert(tail@ =~= content@.skip(i as int));
        }
        return Some(get_item(tail_str.as_str(), '{'));
    }
    let p2 = build_pattern("pub struct ", nv.as_slice(), "(");
    if let Some(i) = find_sub_from(cv.as_slice(), p2.as_slice(), 0) {
        proof {
            lemma_find_sub_correct(cv@, p2@, 0);
        }
        let tail = sub_chars(cv.as_slice(), i, cv.len());
        let tail_str = chars_to_string(&tail);
        proof {
            assert(tail@ =~= content@.skip(i as int));
        }
        return Some(get_item(tail_str.as_str(), '('));
    }
    let p3 = build_pattern("pub struct ", nv.as_slice(), ";");
    if let Some(i) = find_sub_from(cv.as_slice(), p3.as_slice(), 0) {
        proof {
            lemma_find_sub_correct(cv@, p3@, 0);
        }
        let tail = sub_chars(cv.as_slice(), i, cv.len());
        proof {
            assert(tail@ =~= content@.skip(i as int));
        }
        let j = match crate::text::find_char_from(tail.as_slice(), ';', 0) {
            Some(j) => {
                proof {
                    crate::text::lemma_first_char_at(tail@, ';', j as int);
                }
                j
            },
            None => {
                proof {
                    crate::text::lemma_first_char_none(tail@, ';');
                }
                tail.len()
            },
        };
        let mut out = sub_chars(tail.as_slice(), 0, j);
        let suffix = str_to_chars(" {}\n");
        push_all(&mut out, suffix.as_slice());
        return Some(chars_to_string(&out));
    }
    let p4 = build_pattern("pub enum ", nv.as_slice(), " ");
    if let Some(i) = find_sub_from(cv.as_slice(), p4.as_slice(), 0) {
        proof {
            lemma_find_sub_correct(cv@, p4@, 0);
        }
        let tail = sub_chars(cv.as_slice(), i, cv.len());
        let tail_str = chars_to_string(&tail);
        proof {
            assert(tail@ =~= content@.skip(i as int));
        }
        return Some(get_item(tail_str.as_str(), '{'));
    }
    None
}

/// The value text of the constant `const_name` in `content`: the last token
/// before the `';'` on the line where `const <name>` is declared. A path such
/// as a self-qualified constant is looked up by its last segment.
pub open spec fn spec_const_value(const_name: Seq<char>, content: Seq<char>) -> Option<
    Seq<char>,
> {
    let name = match crate::text::spec_rfind_char(const_name, ':') {
        Some(j) => const_name.subrange(j + 1, const_name.len() as int),
        None => const_name,
    };
    let pat = "const "@ + name;
    match spec_find_sub(content, pat, 0) {
        None => None,
        Some(i) => {
            let line = spec_first_line(content.skip(i));
            let c = first_char_or_len(line, ';');
            let upto = if 0 <= c <= line.len() {
                line.subrange(0, c)
            } else {
                line
            };
            let toks = spec_tokens(upto);
            if toks.len() > 0 {
                Some(toks.last())
            } else {
                None
            }
        },
    }
}

/// Look up the declared value of a named constant in `content`.
pub fn get_const_value(const_name: &str, all_content: &str) -> (r: Option<String>)
    ensures
        match r {
            Some(v) => spec_const_value(const_name@, all_content@) == Some(v@),
            None => spec_const_value(const_name@, all_content@) is None,
        },
{
    proof {
        reveal_strlit("const ");
    }
    let cn = str_to_chars(const_name);
    let name: Vec<char> = match crate::text::rfind_char(cn.as_slice(), ':') {
        Some(j) => {
            proof {
                crate::text::lemma_rfind_char_correct(cn@, ':');
                match crate::text::spec_rfind_char(cn@, ':') {
                    Some(sj) => {
                        if sj < j {
                            assert(cn@[j as int] != ':');
                        }
                        if (j as int) < sj {
                            assert(cn@[sj] != ':');
                        }
                    },
                    None => {
                        assert(cn@[j as int] != ':');
                    },
                }
            }
            let cl = cn.len();
            proof {
                assert(j < cl);
            }
            sub_chars(cn.as_slice(), j + 1, cl)
        },
        None => {
            proof {
                crate::text::lemma_rfind_char_correct(cn@, ':');
                if crate::text::spec_rfind_char(cn@, ':') is Some {
                    let sj = crate::text::spec_rfind_char(cn@, ':')->Some_0;
                    assert(cn@[sj] != ':');
                }
            }
            sub_chars(cn.as_slice(), 0, cn.len())
        },
    };
    proof {
        assert(cn@.subrange(0, cn@.len() as int) =~= cn@);
    }
    let pat = build_pattern("const ", name.as_slice(), "");
    proof {
        reveal_strlit("");
        assert(pat@ =~= "const "@ + name@);
    }
    let cv = str_to_chars(all_content);
    let i = match find_sub_from(cv.as_slice(), pat.as_slice(), 0) {
        Some(i) => i,
        None => {
            return None;
        },
    };
    proof {
        lemma_find_sub_correct(cv@, pat@, 0);
    }
    let tail = sub_chars(cv.as_slice(), i, cv.len());
    proof {
        assert(tail@ =~= all_content@.skip(i as int));
    }
    let line = first_line_chars(tail.as_slice());
    let c = match crate::text::find_char_from(line.as_slice(), ';', 0) {
        Some(c) => {
            proof {
                crate::text::lemma_first_char_at(line@, ';', c as int);
            }
            c
        },
        None => {
            proof {
                crate::text::lemma_first_char_none(line@, ';');
            }
            line.len()
        },
    };
    let upto = sub_chars(line.as_slice(), 0, c);
    let toks = split_tokens(upto.as_slice());
    if toks.len() == 0 {
        return None;
    }
    let t: &Vec<char> = &toks[toks.len() - 1];
    proof {
        let dv = toks.deep_view();
        assert(dv[dv.len() - 1] == toks@[toks@.len() - 1].deep_view());
        assert(toks@[toks@.len() - 1].deep_view() =~= t@);
        assert(spec_tokens(upto@).last() == t@);
    }
    Some(chars_to_string(t))
}

/// `content` cut before its unit-test section, when one is declared.
pub open spec fn spec_without_tests(content: Seq<char>) -> Seq<char> {
    match spec_find_sub(content, "#[cfg(test)]\nmod"@, 0) {
        Some(i) => content.subrange(0, i),
        None => content,
    }
}

/// Drop the unit-test section of a source file, keeping what stands before it.
pub fn get_file_without_tests(content: &str) -> (r: String)
    ensures
        r@ == spec_without_tests(content@),
{
    proof {
        reveal_strlit("#[cfg(test)]\nmod");
    }
    let cv = str_to_chars(content);
    let marker = str_to_chars("#[cfg(test)]\nmod");
    match find_sub_from(cv.as_slice(), marker.as_slice(), 0) {
        Some(i) => {
            proof {
                crate::text::lemma_find_sub_correct(content@, marker@, 0);
            }
            let head = sub_chars(cv.as_slice(), 0, i);
            chars_to_string(&head)
        },
        None => {
            let whole = sub_chars(cv.as_slice(), 0, cv.len());
            proof {
                assert(whole@ =~= content@);
            }
            chars_to_string(&whole)
        },
    }
}

} // verus!
