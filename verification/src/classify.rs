use vstd::prelude::*;

use crate::text::contains_sub;
use crate::text::spec_find_sub;
use crate::text::find_sub_from;
use crate::text::lemma_find_sub_correct;
use crate::text::str_to_chars;
use crate::text::chars_to_string;
use crate::text::sub_chars;
use crate::text::push_all;
use crate::text::trim_chars;
use crate::text::spec_trim;
use crate::text::str_eq;
use crate::text::spec_rfind_char;
use crate::text::rfind_char;
use crate::text::lemma_rfind_char_correct;
use crate::scan::spec_first_line;
use crate::scan::first_line_chars;
use crate::scan::spec_tokens;
use crate::scan::split_tokens;
use crate::scan::spec_get_inside_item;
use crate::scan::get_inside_item_vec;
use crate::scan::spec_occurrences;
use crate::scan::get_item_indices;
use crate::types::spec_is_type_defined;
use crate::types::is_type_defined;
use crate::resolve::push_name;
use crate::resolve::contains_name;

verus! {

// The account classifier: independent textual signals decide which record
// types stand for on-chain state; classification wins over plain type use.

/// Every occurrence of `pat` in `s`, left to right, rewritten to `rep`.
pub open spec fn spec_replace_all(s: Seq<char>, pat: Seq<char>, rep: Seq<char>) -> Seq<char>
    decreases s.len(),
    when pat.len() >= 1
    via spec_replace_all_dec
{
    match spec_find_sub(s, pat, 0) {
        None => s,
        Some(i) => s.subrange(0, i) + rep + spec_replace_all(
            s.subrange(i + pat.len(), s.len() as int),
            pat,
            rep,
        ),
    }
}

#[via_fn]
proof fn spec_replace_all_dec(s: Seq<char>, pat: Seq<char>, rep: Seq<char>) {
    crate::text::lemma_find_sub_correct(s, pat, 0);
}

/// Rewrite every occurrence of `pat` in `s` to `rep`.
pub fn replace_all(s: &[char], pat: &[char], rep: &[char]) -> (r: Vec<char>)
    requires
        pat@.len() >= 1,
    ensures
        r@ == spec_replace_all(s@, pat@, rep@),
    decreases s@.len(),
{
    match find_sub_from(s, pat, 0) {
        None => {
            let r = sub_chars(s, 0, s.len());
            proof {
                assert(r@ =~= s@);
            }
            r
        },
        Some(i) => {
            proof {
                lemma_find_sub_correct(s@, pat@, 0);
            }
            let n = s.len();
            proof {
                assert(i + pat@.len() <= n);
            }
            let mut r = sub_chars(s, 0, i);
            push_all(&mut r, rep);
            let tail = sub_chars(s, i + pat.len(), s.len());
            let rest = replace_all(tail.as_slice(), pat, rep);
            push_all(&mut r, rest.as_slice());
            proof {
                assert(tail@ =~= s@.subrange(i + pat@.len(), s@.len() as int));
            }
            r
        },
    }
}

/// The configured split markers: what ends the meaningful part of a raw
/// account expression.
pub open spec fn spec_split_markers() -> Seq<Seq<char>> {
    seq![".key"@, ".pubkey"@]
}

/// A raw account expression normalized to an account field name: cut at the
/// first split marker, mapped to its well-known name when it mentions one,
/// trimmed, and with path separators turned into underscores.
pub open spec fn spec_convert_account_name(raw: Seq<char>) -> Seq<char> {
    let t0 = spec_trim(raw);
    let t1 = cut_at_marker(raw, t0, 0);
    let t2 = if contains_sub(t1, "system_program"@) {
        "system_program"@
    } else if contains_sub(t1, "token_program"@) || contains_sub(t1, "spl_token"@) {
        "token_program"@
    } else if contains_sub(t1, "bpf_loader_upgradeable"@) {
        "bpf_loader_upgradeable"@
    } else if contains_sub(t1, "::rent"@) {
        "rent"@
    } else if contains_sub(t1, "clock"@) {
        "clock"@
    } else {
        t1
    };
    let t3 = spec_trim(t2);
    if contains_sub(t3, "::"@) {
        spec_replace_all(t3, "::"@, "_"@)
    } else if contains_sub(t3, "."@) {
        spec_replace_all(t3, "."@, "_"@)
    } else {
        t3
    }
}

/// Cut the trimmed raw name before the first split marker that occurs in
/// it; without a marker the raw name itself stands.
pub open spec fn cut_at_marker(raw: Seq<char>, trimmed: Seq<char>, k: int) -> Seq<char>
    decreases spec_split_markers().len() - k,
{
    if k < 0 || k >= spec_split_markers().len() {
        raw
    } else {
        let m = spec_split_markers()[k];
        match spec_find_sub(trimmed, m, 0) {
            Some(i) => trimmed.subrange(0, i),
            None => cut_at_marker(raw, trimmed, k + 1),
        }
    }
}

/// Normalize a raw account expression to an account field name.
pub fn convert_account_name(name_uncut: &str) -> (r: String)
    ensures
        r@ == spec_convert_account_name(name_uncut@),
{
    proof {
        reveal_strlit(".key");
        reveal_strlit(".pubkey");
        reveal_strlit("system_program");
        reveal_strlit("token_program");
        reveal_strlit("spl_token");
        reveal_strlit("bpf_loader_upgradeable");
        reveal_strlit("::rent");
        reveal_strlit("clock");
        reveal_strlit("::");
        reveal_strlit(".");
        reveal_strlit("_");
    }
    let raw = str_to_chars(name_uncut);
    let t0 = trim_chars(raw.as_slice());
    let m1 = str_to_chars(".key");
    let m2 = str_to_chars(".pubkey");
    let t1: Vec<char> = match find_sub_from(t0.as_slice(), m1.as_slice(), 0) {
        Some(i) => {
            proof {
                lemma_find_sub_correct(t0@, m1@, 0);
            }
            sub_chars(t0.as_slice(), 0, i)
        },
        None => match find_sub_from(t0.as_slice(), m2.as_slice(), 0) {
            Some(i) => {
                proof {
                    lemma_find_sub_correct(t0@, m2@, 0);
                }
                sub_chars(t0.as_slice(), 0, i)
            },
            None => {
                let whole = sub_chars(raw.as_slice(), 0, raw.len());
                proof {
                    assert(whole@ =~= raw@);
                }
                whole
            },
        },
    };
    proof {
        assert(spec_split_markers().len() == 2);
        assert(spec_split_markers()[0] == ".key"@);
        assert(spec_split_markers()[1] == ".pubkey"@);
        assert(m1@ == ".key"@);
        assert(m2@ == ".pubkey"@);
        assert(t1@ == cut_at_marker(raw@, t0@, 0)) by {
            match spec_find_sub(t0@, ".key"@, 0) {
                Some(i0) => {
                    assert(cut_at_marker(raw@, t0@, 0) == t0@.subrange(0, i0));
                },
                None => {
                    assert(cut_at_marker(raw@, t0@, 0) == cut_at_marker(raw@, t0@, 1));
                    match spec_find_sub(t0@, ".pubkey"@, 0) {
                        Some(i1) => {
                            assert(cut_at_marker(raw@, t0@, 1) == t0@.subrange(0, i1));
                        },
                        None => {
                            assert(cut_at_marker(raw@, t0@, 1) == cut_at_marker(raw@, t0@, 2));
                            assert(cut_at_marker(raw@, t0@, 2) == raw@);
                        },
                    }
                },
            }
        }
    }
    let t2: Vec<char> = if contains_pat(t1.as_slice(), "system_program") {
        str_to_chars("system_program")
    } else if contains_pat(t1.as_slice(), "token_program") || contains_pat(
        t1.as_slice(),
        "spl_token",
    ) {
        str_to_chars("token_program")
    } else if contains_pat(t1.as_slice(), "bpf_loader_upgradeable") {
        str_to_chars("bpf_loader_upgradeable")
    } else if contains_pat(t1.as_slice(), "::rent") {
        str_to_chars("rent")
    } else if contains_pat(t1.as_slice(), "clock") {
        str_to_chars("clock")
    } else {
        t1
    };
    let t3 = trim_chars(t2.as_slice());
    let sep = str_to_chars("::");
    let dot = str_to_chars(".");
    let us = str_to_chars("_");
    let out: Vec<char> = if contains_pat(t3.as_slice(), "::") {
        replace_all(t3.as_slice(), sep.as_slice(), us.as_slice())
    } else if contains_pat(t3.as_slice(), ".") {
        replace_all(t3.as_slice(), dot.as_slice(), us.as_slice())
    } else {
        t3
    };
    chars_to_string(&out)
}

fn contains_pat(l: &[char], lit: &str) -> (r: bool)
    requires
        lit@.len() >= 1,
    ensures
        r == contains_sub(l@, lit@),
{
    let pv = str_to_chars(lit);
    match find_sub_from(l, pv.as_slice(), 0) {
        Some(_) => true,
        None => false,
    }
}

/// Accept a guessed name into the account-name list: once, and only when
/// it is a defined type reference that is not the instruction union itself
/// and not the self-type keyword.
pub open spec fn push_guess(acc: Seq<Seq<char>>, n: Seq<char>) -> Seq<Seq<char>> {
    if !acc.contains(n) && !contains_sub(n, "Instruction"@) && spec_is_type_defined(n) && n
        != "Self"@ {
        acc.push(n)
    } else {
        acc
    }
}

fn push_guess_exec(acc: &mut Vec<String>, n: String)
    ensures
        final(acc).deep_view() == push_guess(old(acc).deep_view(), n@),
{
    proof {
        reveal_strlit("Instruction");
    }
    let nv = str_to_chars(n.as_str());
    let ok = !contains_name(acc, n.as_str()) && !contains_pat(nv.as_slice(), "Instruction")
        && is_type_defined(n.as_str()) && !str_eq(n.as_str(), "Self");
    if ok {
        push_name(acc, n);
    }
}

/// The guesses gathered from the account-marker trait heads: at each
/// occurrence of `impl <trait> for`, the fourth token of that line.
pub open spec fn guesses_from_traits(
    all: Seq<char>,
    occ: Seq<int>,
    k: int,
    acc: Seq<Seq<char>>,
) -> Seq<Seq<char>>
    decreases occ.len() - k,
{
    if k < 0 || k >= occ.len() {
        acc
    } else {
        let idx = occ[k];
        let acc2 = if 0 <= idx <= all.len() {
            let toks = spec_tokens(spec_first_line(all.skip(idx)));
            if toks.len() > 3 {
                push_guess(acc, toks[3])
            } else {
                acc
            }
        } else {
            acc
        };
        guesses_from_traits(all, occ, k + 1, acc2)
    }
}

/// The guesses gathered from decode-from-slice call sites: the last token
/// standing between the preceding line break and the call.
pub open spec fn guesses_from_slice_calls(
    all: Seq<char>,
    occ: Seq<int>,
    k: int,
    acc: Seq<Seq<char>>,
) -> Seq<Seq<char>>
    decreases occ.len() - k,
{
    if k < 0 || k >= occ.len() {
        acc
    } else {
        let idx = occ[k];
        let acc2 = if 0 <= idx <= all.len() {
            match spec_rfind_char(all.take(idx), '\n') {
                Some(nl) => {
                    let toks = spec_tokens(all.subrange(nl, idx));
                    if toks.len() >= 1 {
                        push_guess(acc, toks.last())
                    } else {
                        acc
                    }
                },
                None => acc,
            }
        } else {
            acc
        };
        guesses_from_slice_calls(all, occ, k + 1, acc2)
    }
}

/// The guesses gathered from unchecked decode calls with an explicit type
/// parameter: the text between the angle brackets, cut after its last path
/// separator.
pub open spec fn guesses_from_unchecked(
    all: Seq<char>,
    occ: Seq<int>,
    k: int,
    acc: Seq<Seq<char>>,
) -> Seq<Seq<char>>
    decreases occ.len() - k,
{
    if k < 0 || k >= occ.len() {
        acc
    } else {
        let idx = occ[k];
        let acc2 = if 0 <= idx <= all.len() {
            match spec_get_inside_item(spec_first_line(all.skip(idx)), '<') {
                Some(inside) => if spec_is_type_defined(inside) && inside != "Self"@ {
                    let cut = match spec_rfind_char(inside, ':') {
                        Some(j) => inside.subrange(j + 1, inside.len() as int),
                        None => inside,
                    };
                    push_guess(acc, cut)
                } else {
                    acc
                },
                None => acc,
            }
        } else {
            acc
        };
        guesses_from_unchecked(all, occ, k + 1, acc2)
    }
}

/// The best-guess account names of the merged source: the trait heads, the
/// decode-from-slice call sites and the unchecked decode calls, in that
/// order, deduplicated and filtered.
pub open spec fn spec_best_guess_account_names(all: Seq<char>) -> Seq<Seq<char>> {
    let a1 = guesses_from_traits(
        all,
        spec_occurrences(all, "impl Pack for"@, 0),
        0,
        Seq::empty(),
    );
    let a2 = guesses_from_traits(all, spec_occurrences(all, "impl IsInitialized for"@, 0), 0, a1);
    let a3 = guesses_from_slice_calls(all, spec_occurrences(all, "::try_from_slice("@, 0), 0, a2);
    guesses_from_unchecked(all, spec_occurrences(all, "try_from_slice_unchecked::"@, 0), 0, a3)
}


/// Gather the best-guess account names from the merged source. The result
/// is a heuristic: over- and under-classification are possible and are data
/// quality findings, not failures.
#[verifier::rlimit(100)]
pub fn get_best_guess_account_names(all_content: &str) -> (r: Vec<String>)
    ensures
        r.deep_view() == spec_best_guess_account_names(all_content@),
{
    proof {
        reveal_strlit("impl Pack for");
        reveal_strlit("impl IsInitialized for");
        reveal_strlit("::try_from_slice(");
        reveal_strlit("try_from_slice_unchecked::");
    }
    let cv = str_to_chars(all_content);
    let mut acc: Vec<String> = Vec::new();
    proof {
        assert(acc.deep_view() =~= Seq::<Seq<char>>::empty());
    }
    let occ1 = get_item_indices(all_content, "impl Pack for");
    guesses_from_traits_exec(&cv, &occ1, &mut acc, Ghost("impl Pack for"@));
    let occ2 = get_item_indices(all_content, "impl IsInitialized for");
    guesses_from_traits_exec(&cv, &occ2, &mut acc, Ghost("impl IsInitialized for"@));
    let occ3 = get_item_indices(all_content, "::try_from_slice(");
    guesses_from_slice_calls_exec(&cv, &occ3, &mut acc, Ghost("::try_from_slice("@));
    let occ4 = get_item_indices(all_content, "try_from_slice_unchecked::");
    guesses_from_unchecked_exec(&cv, &occ4, &mut acc, Ghost("try_from_slice_unchecked::"@));
    acc
}

fn guesses_from_traits_exec(
    cv: &Vec<char>,
    occ: &Vec<(usize, usize)>,
    acc: &mut Vec<String>,
    pat: Ghost<Seq<char>>,
)
    requires
        pat@.len() >= 1,
        occ@.len() == spec_occurrences(cv@, pat@, 0).len(),
        forall|j: int|
            0 <= j < occ@.len() ==> (#[trigger] occ@[j]).1 == spec_occurrences(cv@, pat@, 0)[j],
    ensures
        final(acc).deep_view() == guesses_from_traits(
            cv@,
            spec_occurrences(cv@, pat@, 0),
            0,
            old(acc).deep_view(),
        ),
{
    let ghost socc = spec_occurrences(cv@, pat@, 0);
    let mut k: usize = 0;
    while k < occ.len()
        invariant
            socc == spec_occurrences(cv@, pat@, 0),
            pat@.len() >= 1,
            occ@.len() == socc.len(),
            forall|j: int| 0 <= j < occ@.len() ==> (#[trigger] occ@[j]).1 == socc[j],
            0 <= k <= occ@.len(),
            guesses_from_traits(cv@, socc, 0, old(acc).deep_view()) == guesses_from_traits(
                cv@,
                socc,
                k as int,
                acc.deep_view(),
            ),
        decreases occ@.len() - k,
    {
        let ghost pre_acc = acc.deep_view();
        proof {
            crate::resolve::lemma_occurrences_are_matches(cv@, pat@, 0);
            assert(crate::text::match_at(cv@, pat@, socc[k as int]));
        }
        let idx = occ[k].1;
        let tail = sub_chars(cv.as_slice(), idx, cv.len());
        proof {
            assert(tail@ =~= cv@.skip(idx as int));
        }
        let fl = first_line_chars(tail.as_slice());
        let toks = split_tokens(fl.as_slice());
        if toks.len() > 3 {
            proof {
                assert(toks.deep_view()[3] == toks@[3].deep_view());
                assert(toks@[3].deep_view() =~= toks@[3]@);
            }
            let cand = chars_to_string(&toks[3]);
            push_guess_exec(acc, cand);
        }
        proof {
            let sidx = socc[k as int];
            assert(fl@ == spec_first_line(cv@.skip(sidx)));
            let stoks = spec_tokens(spec_first_line(cv@.skip(sidx)));
            assert(toks.deep_view() == stoks);
            assert(toks.deep_view().len() == toks@.len());
            if toks@.len() > 3 {
                assert(acc.deep_view() == push_guess(pre_acc, stoks[3]));
            } else {
                assert(acc.deep_view() == pre_acc);
            }
            assert(guesses_from_traits(cv@, socc, k as int, pre_acc) == guesses_from_traits(
                cv@,
                socc,
                k + 1,
                acc.deep_view(),
            ));
        }
        k += 1;
    }
    proof {
        assert(guesses_from_traits(cv@, socc, occ@.len() as int, acc.deep_view())
            == acc.deep_view());
    }
}

fn guesses_from_slice_calls_exec(
    cv: &Vec<char>,
    occ: &Vec<(usize, usize)>,
    acc: &mut Vec<String>,
    pat: Ghost<Seq<char>>,
)
    requires
        pat@.len() >= 1,
        occ@.len() == spec_occurrences(cv@, pat@, 0).len(),
        forall|j: int|
            0 <= j < occ@.len() ==> (#[trigger] occ@[j]).1 == spec_occurrences(cv@, pat@, 0)[j],
    ensures
        final(acc).deep_view() == guesses_from_slice_calls(
            cv@,
            spec_occurrences(cv@, pat@, 0),
            0,
            old(acc).deep_view(),
        ),
{
    let ghost socc = spec_occurrences(cv@, pat@, 0);
    let mut k: usize = 0;
    while k < occ.len()
        invariant
            socc == spec_occurrences(cv@, pat@, 0),
            pat@.len() >= 1,
            occ@.len() == socc.len(),
            forall|j: int| 0 <= j < occ@.len() ==> (#[trigger] occ@[j]).1 == socc[j],
            0 <= k <= occ@.len(),
            guesses_from_slice_calls(cv@, socc, 0, old(acc).deep_view())
                == guesses_from_slice_calls(cv@, socc, k as int, acc.deep_view()),
        decreases occ@.len() - k,
    {
        let ghost pre_acc = acc.deep_view();
        proof {
            crate::resolve::lemma_occurrences_are_matches(cv@, pat@, 0);
            assert(crate::text::match_at(cv@, pat@, socc[k as int]));
        }
        let idx = occ[k].1;
        let head = sub_chars(cv.as_slice(), 0, idx);
        proof {
            assert(head@ =~= cv@.take(idx as int));
        }
        match rfind_char(head.as_slice(), '\n') {
            Some(nl) => {
                proof {
                    lemma_rfind_char_correct(head@, '\n');
                    match spec_rfind_char(head@, '\n') {
                        Some(sj) => {
                            if sj < nl {
                                assert(head@[nl as int] != '\n');
                            }
                            if (nl as int) < sj {
                                assert(head@[sj] != '\n');
                            }
                        },
                        None => {
                            assert(head@[nl as int] != '\n');
                        },
                    }
                }
                let seg = sub_chars(head.as_slice(), nl, head.len());
                proof {
                    assert(seg@ =~= cv@.subrange(nl as int, idx as int));
                }
                let toks = split_tokens(seg.as_slice());
                if toks.len() >= 1 {
                    proof {
                        assert(toks.deep_view()[toks@.len() - 1] == toks@[toks@.len()
                            - 1].deep_view());
                        assert(toks@[toks@.len() - 1].deep_view() =~= toks@[toks@.len() - 1]@);
                        assert(spec_tokens(seg@).last() == toks@[toks@.len() - 1].deep_view());
                    }
                    let cand = chars_to_string(&toks[toks.len() - 1]);
                    push_guess_exec(acc, cand);
                }
            },
            None => {
                proof {
                    lemma_rfind_char_correct(head@, '\n');
                    if spec_rfind_char(head@, '\n') is Some {
                        let sj = spec_rfind_char(head@, '\n')->Some_0;
                        assert(head@[sj] != '\n');
                    }
                }
            },
        }
        proof {
            let sidx = socc[k as int];
            assert(head@ == cv@.take(sidx));
            match spec_rfind_char(cv@.take(sidx), '\n') {
                Some(nl) => {
                    let stoks = spec_tokens(cv@.subrange(nl, sidx));
                    if stoks.len() >= 1 {
                        assert(acc.deep_view() == push_guess(pre_acc, stoks.last()));
                    } else {
                        assert(acc.deep_view() == pre_acc);
                    }
                },
                None => {
                    assert(acc.deep_view() == pre_acc);
                },
            }
            assert(guesses_from_slice_calls(cv@, socc, k as int, pre_acc)
                == guesses_from_slice_calls(cv@, socc, k + 1, acc.deep_view()));
        }
        k += 1;
    }
    proof {
        assert(guesses_from_slice_calls(cv@, socc, occ@.len() as int, acc.deep_view())
            == acc.deep_view());
    }
}

fn guesses_from_unchecked_exec(
    cv: &Vec<char>,
    occ: &Vec<(usize, usize)>,
    acc: &mut Vec<String>,
    pat: Ghost<Seq<char>>,
)
    requires
        pat@.len() >= 1,
        occ@.len() == spec_occurrences(cv@, pat@, 0).len(),
        forall|j: int|
            0 <= j < occ@.len() ==> (#[trigger] occ@[j]).1 == spec_occurrences(cv@, pat@, 0)[j],
    ensures
        final(acc).deep_view() == guesses_from_unchecked(
            cv@,
            spec_occurrences(cv@, pat@, 0),
            0,
            old(acc).deep_view(),
        ),
{
    let ghost socc = spec_occurrences(cv@, pat@, 0);
    let mut k: usize = 0;
    while k < occ.len()
        invariant
            socc == spec_occurrences(cv@, pat@, 0),
            pat@.len() >= 1,
            occ@.len() == socc.len(),
            forall|j: int| 0 <= j < occ@.len() ==> (#[trigger] occ@[j]).1 == socc[j],
            0 <= k <= occ@.len(),
            guesses_from_unchecked(cv@, socc, 0, old(acc).deep_view()) == guesses_from_unchecked(
                cv@,
                socc,
                k as int,
                acc.deep_view(),
            ),
        decreases occ@.len() - k,
    {
        let ghost pre_acc = acc.deep_view();
        proof {
            crate::resolve::lemma_occurrences_are_matches(cv@, pat@, 0);
            assert(crate::text::match_at(cv@, pat@, socc[k as int]));
        }
        let idx = occ[k].1;
        let tail = sub_chars(cv.as_slice(), idx, cv.len());
        proof {
            assert(tail@ =~= cv@.skip(idx as int));
        }
        let fl = first_line_chars(tail.as_slice());
        match get_inside_item_vec(fl.as_slice(), '<') {
            Some(inside) => {
                let inside_str = chars_to_string(&inside);
                if is_type_defined(inside_str.as_str()) && !str_eq(inside_str.as_str(), "Self") {
                    let cut: Vec<char> = match rfind_char(inside.as_slice(), ':') {
                        Some(j) => {
                            proof {
                                lemma_rfind_char_correct(inside@, ':');
                                match spec_rfind_char(inside@, ':') {
                                    Some(sj) => {
                                        if sj < j {
                                            assert(inside@[j as int] != ':');
                                        }
                                        if (j as int) < sj {
                                            assert(inside@[sj] != ':');
                                        }
                                    },
                                    None => {
                                        assert(inside@[j as int] != ':');
                                    },
                                }
                            }
                            let il = inside.len();
                            proof {
                                assert(j < il);
                            }
                            sub_chars(inside.as_slice(), j + 1, il)
                        },
                        None => {
                            proof {
                                lemma_rfind_char_correct(inside@, ':');
                                if spec_rfind_char(inside@, ':') is Some {
                                    let sj = spec_rfind_char(inside@, ':')->Some_0;
                                    assert(inside@[sj] != ':');
                                }
                            }
                            let whole = sub_chars(inside.as_slice(), 0, inside.len());
                            proof {
                                assert(whole@ =~= inside@);
                            }
                            whole
                        },
                    };
                    let cand = chars_to_string(&cut);
                    push_guess_exec(acc, cand);
                }
            },
            None => {},
        }
        proof {
            assert(guesses_from_unchecked(cv@, socc, k as int, pre_acc) == guesses_from_unchecked(
                cv@,
                socc,
                k + 1,
                acc.deep_view(),
            ));
        }
        k += 1;
    }
    proof {
        assert(guesses_from_unchecked(cv@, socc, occ@.len() as int, acc.deep_view())
            == acc.deep_view());
    }
}

/// The names of `names` that are not listed in `excl`, in order.
pub open spec fn spec_without(names: Seq<Seq<char>>, excl: Seq<Seq<char>>) -> Seq<Seq<char>>
    decreases names.len(),
{
    if names.len() == 0 {
        Seq::empty()
    } else {
        spec_without(names.drop_last(), excl) + if excl.contains(names.last()) {
            Seq::<Seq<char>>::empty()
        } else {
            seq![names.last()]
        }
    }
}

/// No name classified as an account remains a plain user type: the
/// classification invariant.
pub proof fn lemma_classification_disjoint(names: Seq<Seq<char>>, excl: Seq<Seq<char>>)
    ensures
        forall|n: Seq<char>|
            excl.contains(n) ==> !spec_without(names, excl).contains(n),
    decreases names.len(),
{
    if names.len() > 0 {
        lemma_classification_disjoint(names.drop_last(), excl);
        assert forall|n: Seq<char>| excl.contains(n) implies !spec_without(
            names,
            excl,
        ).contains(n) by {
            if spec_without(names, excl).contains(n) {
                let w = spec_without(names, excl);
                let k = choose|k: int| 0 <= k < w.len() && w[k] == n;
                let prev = spec_without(names.drop_last(), excl);
                if k < prev.len() {
                    assert(prev.contains(n));
                } else {
                    assert(n == names.last());
                }
            }
        }
    }
}

/// Drop the classified account names from the retained user types: after
/// classification no name stands in both lists.
pub fn remove_account_names(retained: &Vec<String>, accounts: &Vec<String>) -> (r: Vec<String>)
    ensures
        r.deep_view() == spec_without(retained.deep_view(), accounts.deep_view()),
        forall|n: Seq<char>|
            accounts.deep_view().contains(n) ==> !r.deep_view().contains(n),
{
    let ghost rdv = retained.deep_view();
    let ghost adv = accounts.deep_view();
    let mut r: Vec<String> = Vec::new();
    let mut i: usize = 0;
    proof {
        assert(rdv.take(0) =~= Seq::<Seq<char>>::empty());
        assert(r.deep_view() =~= spec_without(rdv.take(0), adv));
    }
    while i < retained.len()
        invariant
            rdv == retained.deep_view(),
            adv == accounts.deep_view(),
            0 <= i <= retained@.len(),
            r.deep_view() == spec_without(rdv.take(i as int), adv),
        decreases retained@.len() - i,
    {
        proof {
            assert(rdv.take(i + 1).drop_last() =~= rdv.take(i as int));
            assert(rdv.take(i + 1).last() == rdv[i as int]);
            assert(rdv[i as int] == retained@[i as int].deep_view());
        }
        if !contains_name(accounts, retained[i].as_str()) {
            push_name(&mut r, retained[i].clone());
        }
        proof {
            assert(r.deep_view() =~= spec_without(rdv.take(i + 1), adv));
        }
        i += 1;
    }
    proof {
        assert(rdv.take(rdv.len() as int) =~= rdv);
        lemma_classification_disjoint(rdv, adv);
    }
    r
}


/// The collected entries that stand as plain user types: used elsewhere in
/// the merged source and not classified as accounts, names and texts in
/// parallel.
pub open spec fn spec_user_entries(
    names: Seq<Seq<char>>,
    texts: Seq<Seq<char>>,
    all: Seq<char>,
    accs: Seq<Seq<char>>,
    i: int,
) -> (Seq<Seq<char>>, Seq<Seq<char>>)
    decreases names.len() - i,
{
    if i < 0 || i >= names.len() || names.len() != texts.len() {
        (Seq::empty(), Seq::empty())
    } else {
        let rest = spec_user_entries(names, texts, all, accs, i + 1);
        if crate::resolve::spec_used_elsewhere(names[i], all) && !accs.contains(names[i]) {
            (seq![names[i]] + rest.0, seq![texts[i]] + rest.1)
        } else {
            rest
        }
    }
}

/// No user entry carries an account name.
pub proof fn lemma_user_entries_not_accounts(
    names: Seq<Seq<char>>,
    texts: Seq<Seq<char>>,
    all: Seq<char>,
    accs: Seq<Seq<char>>,
    i: int,
)
    ensures
        forall|x: Seq<char>|
            spec_user_entries(names, texts, all, accs, i).0.contains(x) ==> !accs.contains(x),
    decreases names.len() - i,
{
    if 0 <= i < names.len() && names.len() == texts.len() {
        lemma_user_entries_not_accounts(names, texts, all, accs, i + 1);
        let rest = spec_user_entries(names, texts, all, accs, i + 1);
        assert forall|x: Seq<char>|
            spec_user_entries(names, texts, all, accs, i).0.contains(x) implies !accs.contains(
            x,
        ) by {
            let kept = spec_user_entries(names, texts, all, accs, i).0;
            let k = choose|k: int| 0 <= k < kept.len() && kept[k] == x;
            if kept != rest.0 {
                if k == 0 {
                    assert(names[i] == x);
                } else {
                    assert(rest.0[k - 1] == x);
                }
            }
        }
    }
}

/// The collected texts of the classified accounts, in collection order.
pub open spec fn spec_account_texts(
    names: Seq<Seq<char>>,
    texts: Seq<Seq<char>>,
    accs: Seq<Seq<char>>,
    i: int,
) -> Seq<Seq<char>>
    decreases names.len() - i,
{
    if i < 0 || i >= names.len() || names.len() != texts.len() {
        Seq::empty()
    } else {
        (if accs.contains(names[i]) {
            seq![texts[i]]
        } else {
            Seq::<Seq<char>>::empty()
        }) + spec_account_texts(names, texts, accs, i + 1)
    }
}

/// The listed texts joined into one.
pub open spec fn spec_concat_texts(texts: Seq<Seq<char>>, i: int) -> Seq<char>
    decreases texts.len() - i,
{
    if i < 0 || i >= texts.len() {
        Seq::empty()
    } else {
        texts[i] + spec_concat_texts(texts, i + 1)
    }
}

fn user_entries_exec(
    names: &Vec<String>,
    texts: &Vec<String>,
    all_content: &str,
    accs: &Vec<String>,
) -> (r: (Vec<String>, Vec<String>))
    requires
        names@.len() == texts@.len(),
    ensures
        (r.0.deep_view(), r.1.deep_view()) == spec_user_entries(
            names.deep_view(),
            texts.deep_view(),
            all_content@,
            accs.deep_view(),
            0,
        ),
        r.0@.len() == r.1@.len(),
{
    let ghost ndv = names.deep_view();
    let ghost tdv = texts.deep_view();
    let ghost adv = accs.deep_view();
    let mut kn: Vec<String> = Vec::new();
    let mut kt: Vec<String> = Vec::new();
    let mut i: usize = 0;
    proof {
        assert(kn.deep_view() =~= Seq::<Seq<char>>::empty());
        assert(kt.deep_view() =~= Seq::<Seq<char>>::empty());
    }
    while i < names.len()
        invariant
            ndv == names.deep_view(),
            tdv == texts.deep_view(),
            adv == accs.deep_view(),
            names@.len() == texts@.len(),
            0 <= i <= names@.len(),
            kn@.len() == kt@.len(),
            spec_user_entries(ndv, tdv, all_content@, adv, 0) == (
                kn.deep_view() + spec_user_entries(ndv, tdv, all_content@, adv, i as int).0,
                kt.deep_view() + spec_user_entries(ndv, tdv, all_content@, adv, i as int).1,
            ),
        decreases names@.len() - i,
    {
        proof {
            assert(ndv[i as int] == names@[i as int].deep_view());
            assert(tdv[i as int] == texts@[i as int].deep_view());
        }
        let keep = crate::resolve::used_elsewhere(names[i].as_str(), all_content)
            && !crate::resolve::contains_name(accs, names[i].as_str());
        if keep {
            let ghost pk = kn.deep_view();
            let ghost pt = kt.deep_view();
            crate::resolve::push_name(&mut kn, names[i].clone());
            crate::resolve::push_name(&mut kt, texts[i].clone());
            proof {
                assert(spec_user_entries(ndv, tdv, all_content@, adv, i as int).0 == seq![
                    ndv[i as int],
                ] + spec_user_entries(ndv, tdv, all_content@, adv, i + 1).0);
                assert(kn.deep_view() + spec_user_entries(ndv, tdv, all_content@, adv, i + 1).0
                    =~= pk + (seq![ndv[i as int]] + spec_user_entries(
                    ndv,
                    tdv,
                    all_content@,
                    adv,
                    i + 1,
                ).0));
                assert(kt.deep_view() + spec_user_entries(ndv, tdv, all_content@, adv, i + 1).1
                    =~= pt + (seq![tdv[i as int]] + spec_user_entries(
                    ndv,
                    tdv,
                    all_content@,
                    adv,
                    i + 1,
                ).1));
            }
        } else {
            proof {
                assert(spec_user_entries(ndv, tdv, all_content@, adv, i as int)
                    == spec_user_entries(ndv, tdv, all_content@, adv, i + 1));
            }
        }
        i += 1;
    }
    proof {
        assert(spec_user_entries(ndv, tdv, all_content@, adv, ndv.len() as int).0 =~= Seq::<
            Seq<char>,
        >::empty());
        assert(spec_user_entries(ndv, tdv, all_content@, adv, ndv.len() as int).1 =~= Seq::<
            Seq<char>,
        >::empty());
        assert(kn.deep_view() =~= kn.deep_view() + Seq::<Seq<char>>::empty());
        assert(kt.deep_view() =~= kt.deep_view() + Seq::<Seq<char>>::empty());
    }
    (kn, kt)
}

fn account_texts_exec(names: &Vec<String>, texts: &Vec<String>, accs: &Vec<String>) -> (r: Vec<
    String,
>)
    requires
        names@.len() == texts@.len(),
    ensures
        r.deep_view() == spec_account_texts(
            names.deep_view(),
            texts.deep_view(),
            accs.deep_view(),
            0,
        ),
{
    let ghost ndv = names.deep_view();
    let ghost tdv = texts.deep_view();
    let ghost adv = accs.deep_view();
    let mut out: Vec<String> = Vec::new();
    let mut i: usize = 0;
    proof {
        assert(out.deep_view() =~= Seq::<Seq<char>>::empty());
    }
    while i < names.len()
        invariant
            ndv == names.deep_view(),
            tdv == texts.deep_view(),
            adv == accs.deep_view(),
            names@.len() == texts@.len(),
            0 <= i <= names@.len(),
            spec_account_texts(ndv, tdv, adv, 0) == out.deep_view() + spec_account_texts(
                ndv,
                tdv,
                adv,
                i as int,
            ),
        decreases names@.len() - i,
    {
        proof {
            assert(ndv[i as int] == names@[i as int].deep_view());
            assert(tdv[i as int] == texts@[i as int].deep_view());
        }
        let ghost pre = out.deep_view();
        if crate::resolve::contains_name(accs, names[i].as_str()) {
            crate::resolve::push_name(&mut out, texts[i].clone());
        }
        proof {
            assert(spec_account_texts(ndv, tdv, adv, i as int) == (if adv.contains(
                ndv[i as int],
            ) {
                seq![tdv[i as int]]
            } else {
                Seq::<Seq<char>>::empty()
            }) + spec_account_texts(ndv, tdv, adv, i + 1));
            assert(out.deep_view() + spec_account_texts(ndv, tdv, adv, i + 1) =~= pre
                + spec_account_texts(ndv, tdv, adv, i as int));
        }
        i += 1;
    }
    proof {
        assert(spec_account_texts(ndv, tdv, adv, ndv.len() as int) =~= Seq::<Seq<char>>::empty());
        assert(out.deep_view() =~= out.deep_view() + Seq::<Seq<char>>::empty());
    }
    out
}

fn concat_texts_exec(texts: &Vec<String>) -> (r: String)
    ensures
        r@ == spec_concat_texts(texts.deep_view(), 0),
{
    let ghost tdv = texts.deep_view();
    let mut acc: Vec<char> = Vec::new();
    let mut i: usize = 0;
    proof {
        assert(acc@ =~= Seq::<char>::empty());
    }
    while i < texts.len()
        invariant
            tdv == texts.deep_view(),
            0 <= i <= texts@.len(),
            spec_concat_texts(tdv, 0) == acc@ + spec_concat_texts(tdv, i as int),
        decreases texts@.len() - i,
    {
        proof {
            assert(tdv[i as int] == texts@[i as int].deep_view());
        }
        let ghost pre = acc@;
        let tv = str_to_chars(texts[i].as_str());
        crate::text::push_all(&mut acc, tv.as_slice());
        proof {
            assert(spec_concat_texts(tdv, i as int) == tdv[i as int] + spec_concat_texts(
                tdv,
                i + 1,
            ));
            assert(acc@ + spec_concat_texts(tdv, i + 1) =~= pre + spec_concat_texts(
                tdv,
                i as int,
            ));
        }
        i += 1;
    }
    proof {
        assert(spec_concat_texts(tdv, tdv.len() as int) =~= Seq::<char>::empty());
        assert(acc@ =~= acc@ + Seq::<char>::empty());
    }
    crate::text::chars_to_string(&acc)
}

/// The classified account model of one source root.
pub struct AccountModel {
    /// Every type resolved from the state declarations, with its text.
    pub collector: crate::resolve::TypeCollector,
    /// The names classified as on-chain account state.
    pub account_names: Vec<String>,
    /// The retained plain user types, accounts removed and the unused
    /// pruned away: the names.
    pub user_type_names: Vec<String>,
    /// The item texts of the retained user types, parallel to the names.
    pub user_type_texts: Vec<String>,
    /// Guessed accounts that resolved nowhere: reported, not silently
    /// dropped — the model is incomplete when any stand here.
    pub missing_accounts: Vec<String>,
    /// Whether the resolution walk drained its worklist.
    pub complete: bool,
}

/// Classify the types of one root: resolve the type graph from the state
/// source, gather the best-guess account names, resolve accounts that were
/// never collected, keep as user types the entries used elsewhere that are
/// not accounts, and prune those to the fixed point against the account
/// texts. An account name resolving nowhere is reported in the result.
pub fn create_accounts_from_content(
    state_content: &str,
    all_content: &str,
    max_steps: u64,
) -> (r: AccountModel)
    ensures
        r.collector.wf(),
        r.account_names.deep_view() == spec_best_guess_account_names(all_content@),
        forall|n: Seq<char>|
            r.account_names.deep_view().contains(n) ==> !r.user_type_names.deep_view().contains(
                n,
            ),
        ({
            let pairs = spec_user_entries(
                r.collector.all_type_names.deep_view(),
                r.collector.all_types.deep_view(),
                all_content@,
                r.account_names.deep_view(),
                0,
            );
            let base = spec_concat_texts(
                spec_account_texts(
                    r.collector.all_type_names.deep_view(),
                    r.collector.all_types.deep_view(),
                    r.account_names.deep_view(),
                    0,
                ),
                0,
            );
            (r.user_type_names.deep_view(), r.user_type_texts.deep_view())
                == crate::resolve::spec_prune(pairs.0, pairs.1, base, (pairs.0.len() + 1) as nat)
        }),
        forall|i: int|
            0 <= i < r.collector.all_types.deep_view().len() ==> crate::resolve::valid_entry(
                r.collector.all_type_names.deep_view()[i],
                #[trigger] r.collector.all_types.deep_view()[i],
                state_content@,
                all_content@,
            ),
        forall|k: int|
            0 <= k < r.missing_accounts.deep_view().len()
                ==> crate::scan::spec_local_type(
                #[trigger] r.missing_accounts.deep_view()[k],
                all_content@,
            ) is None,
        forall|k: int|
            0 <= k < r.account_names.deep_view().len()
                ==> r.collector.all_type_names.deep_view().contains(
                #[trigger] r.account_names.deep_view()[k],
            ) || r.missing_accounts.deep_view().contains(r.account_names.deep_view()[k]),
{
    let (mut c, complete) = crate::resolve::collect_types(state_content, all_content, max_steps);
    let account_names = get_best_guess_account_names(all_content);
    let mut missing_accounts: Vec<String> = Vec::new();
    let mut k: usize = 0;
    proof {
        assert(missing_accounts.deep_view() =~= Seq::<Seq<char>>::empty());
    }
    while k < account_names.len()
        invariant
            c.wf(),
            0 <= k <= account_names@.len(),
            forall|i: int|
                0 <= i < c.all_types.deep_view().len() ==> crate::resolve::valid_entry(
                    c.all_type_names.deep_view()[i],
                    #[trigger] c.all_types.deep_view()[i],
                    state_content@,
                    all_content@,
                ),
            forall|q: int|
                0 <= q < missing_accounts.deep_view().len() ==> crate::scan::spec_local_type(
                    #[trigger] missing_accounts.deep_view()[q],
                    all_content@,
                ) is None,
            forall|j: int|
                0 <= j < k ==> c.all_type_names.deep_view().contains(
                    #[trigger] account_names.deep_view()[j],
                ) || missing_accounts.deep_view().contains(account_names.deep_view()[j]),
        decreases account_names@.len() - k,
    {
        let name = account_names[k].clone();
        let ghost nv = name@;
        proof {
            assert(account_names.deep_view()[k as int] == account_names@[k as int].deep_view());
        }
        if !crate::resolve::contains_name(&c.all_type_names, name.as_str()) {
            match crate::scan::get_local_type(name.as_str(), all_content) {
                Some(text) => {
                    let ghost pre_texts = c.all_types.deep_view();
                    let ghost pre_names = c.all_type_names.deep_view();
                    let ghost txv = text@;
                    c.add(name, text);
                    proof {
                        if !pre_names.contains(nv) {
                            assert(c.all_types.deep_view() == pre_texts.push(txv));
                            assert(forall|i: int|
                                0 <= i < pre_texts.len() ==> c.all_types.deep_view()[i]
                                    == pre_texts[i]);
                            assert(crate::resolve::valid_entry(
                                nv,
                                txv,
                                state_content@,
                                all_content@,
                            )) by {
                                assert(crate::scan::spec_local_type(nv, all_content@) == Some(
                                    txv,
                                ));
                            }
                        }
                        crate::resolve::lemma_add_keeps_names(pre_names, pre_texts, nv, txv);
                        assert(c.all_type_names.deep_view().contains(nv));
                        assert(forall|j: int|
                            0 <= j < k ==> c.all_type_names.deep_view().contains(
                                #[trigger] account_names.deep_view()[j],
                            ) || missing_accounts.deep_view().contains(
                                account_names.deep_view()[j],
                            )) by {
                            assert(forall|x: Seq<char>|
                                pre_names.contains(x) ==> c.all_type_names.deep_view().contains(
                                    x,
                                ));
                        }
                    }
                },
                None => {
                    let ghost pre = missing_accounts.deep_view();
                    crate::resolve::push_name(&mut missing_accounts, name);
                    proof {
                        assert(forall|q: int|
                            0 <= q < pre.len() ==> missing_accounts.deep_view()[q] == pre[q]);
                        assert(missing_accounts.deep_view()[pre.len() as int] == nv);
                        assert(missing_accounts.deep_view().contains(nv));
                        assert(forall|x: Seq<char>|
                            pre.contains(x) ==> missing_accounts.deep_view().contains(x)) by {
                            assert(forall|q: int|
                                0 <= q < pre.len() ==> missing_accounts.deep_view()[q] == pre[q]);
                        }
                    }
                },
            }
        }
        k += 1;
    }
    proof {
        assert(c.all_type_names@.len() == c.all_types@.len());
    }
    let (un, ut) = user_entries_exec(&c.all_type_names, &c.all_types, all_content, &account_names);
    let atx = account_texts_exec(&c.all_type_names, &c.all_types, &account_names);
    let base = concat_texts_exec(&atx);
    let ghost pairs = spec_user_entries(
        c.all_type_names.deep_view(),
        c.all_types.deep_view(),
        all_content@,
        account_names.deep_view(),
        0,
    );
    proof {
        assert(un.deep_view().len() == un@.len());
        assert(ut.deep_view().len() == ut@.len());
    }
    let (user_type_names, user_type_texts) = crate::resolve::prune_unused_types(
        un,
        ut,
        base.as_str(),
    );
    proof {
        crate::resolve::lemma_prune_elements(
            pairs.0,
            pairs.1,
            base@,
            (pairs.0.len() + 1) as nat,
        );
        lemma_user_entries_not_accounts(
            c.all_type_names.deep_view(),
            c.all_types.deep_view(),
            all_content@,
            account_names.deep_view(),
            0,
        );
    }
    AccountModel {
        collector: c,
        account_names,
        user_type_names,
        user_type_texts,
        missing_accounts,
        complete,
    }
}

} // verus!
