use vstd::prelude::*;

use crate::text::contains_sub;
use crate::text::spec_find_sub;
use crate::text::find_sub_from;
use crate::text::lemma_find_sub_correct;
use crate::text::str_to_chars;
use crate::text::chars_to_string;
use crate::text::sub_chars;
use crate::text::trim_chars;
use crate::text::spec_trim;
use crate::text::first_char_or_len;
use crate::text::find_char_from;
use crate::text::lemma_first_char_at;
use crate::text::lemma_first_char_none;
use crate::scan::spec_get_item;
use crate::scan::get_item;
use crate::scan::spec_occurrences;
use crate::types::AccountRef;
use crate::types::spec_parse_u64;
use crate::types::parse_u64;
use crate::classify::spec_replace_all;
use crate::classify::replace_all;
use crate::classify::spec_convert_account_name;
use crate::classify::convert_account_name;
use crate::resolve::push_name;
use crate::resolve::contains_name;

verus! {

// The instruction synthesizer: recover the ordered account list of each
// constructor function, with mutability, signer and optionality flags.

/// The pieces of `s` split at every occurrence of `pat`.
pub open spec fn split_by(s: Seq<char>, pat: Seq<char>) -> Seq<Seq<char>>
    decreases s.len(),
    when pat.len() >= 1
    via split_by_dec
{
    match spec_find_sub(s, pat, 0) {
        None => seq![s],
        Some(i) => seq![s.subrange(0, i)] + split_by(
            s.subrange(i + pat.len(), s.len() as int),
            pat,
        ),
    }
}

#[via_fn]
proof fn split_by_dec(s: Seq<char>, pat: Seq<char>) {
    crate::text::lemma_find_sub_correct(s, pat, 0);
}

/// Split `s` at every occurrence of `pat`.
pub fn split_by_exec(s: &[char], pat: &[char]) -> (r: Vec<Vec<char>>)
    requires
        pat@.len() >= 1,
    ensures
        r.deep_view() == split_by(s@, pat@),
    decreases s@.len(),
{
    match find_sub_from(s, pat, 0) {
        None => {
            let whole = sub_chars(s, 0, s.len());
            let mut r: Vec<Vec<char>> = Vec::new();
            proof {
                assert(whole@ =~= s@);
                assert(whole.deep_view() =~= s@);
            }
            r.push(whole);
            proof {
                assert(r.deep_view() =~= seq![s@]);
            }
            r
        },
        Some(i) => {
            proof {
                lemma_find_sub_correct(s@, pat@, 0);
            }
            let n = s.len();
            proof {
                assert(i + pat@.len() <= n);
            }
            let head = sub_chars(s, 0, i);
            let tail = sub_chars(s, i + pat.len(), n);
            let rest = split_by_exec(tail.as_slice(), pat);
            let mut r: Vec<Vec<char>> = Vec::new();
            proof {
                assert(head.deep_view() =~= head@);
            }
            r.push(head);
            let mut m: usize = 0;
            let ghost rdv0 = r.deep_view();
            proof {
                assert(rdv0 =~= seq![s@.subrange(0, i as int)]);
                assert(tail@ =~= s@.subrange(i + pat@.len(), s@.len() as int));
            }
            while m < rest.len()
                invariant
                    0 <= m <= rest@.len(),
                    rdv0 == seq![s@.subrange(0, i as int)],
                    r.deep_view() == rdv0 + rest.deep_view().take(m as int),
                decreases rest@.len() - m,
            {
                proof {
                    assert(rest.deep_view()[m as int] == rest@[m as int].deep_view());
                    assert(rest@[m as int].deep_view() =~= rest@[m as int]@);
                }
                let piece = sub_chars(rest[m].as_slice(), 0, rest[m].len());
                proof {
                    assert(piece@ =~= rest@[m as int]@);
                }
                let ghost before = r.deep_view();
                r.push(piece);
                proof {
                    assert(r.deep_view() =~= before.push(rest.deep_view()[m as int])) by {
                        assert(forall|q: int|
                            0 <= q < before.len() ==> r.deep_view()[q] == before[q]);
                        assert(r.deep_view()[before.len() as int] =~= rest.deep_view()[m as int]);
                    }
                    assert(r.deep_view() =~= rdv0 + rest.deep_view().take(m + 1));
                }
                m += 1;
            }
            proof {
                assert(rest.deep_view().take(rest.deep_view().len() as int) =~= rest.deep_view());
                assert(r.deep_view() =~= split_by(s@, pat@));
            }
            r
        },
    }
}

/// The account name a builder-call piece declares as a default: the piece
/// must mention a path, and the name stands between its first parenthesis
/// and its first comma, dereference marks dropped.
pub open spec fn default_from_piece(piece: Seq<char>) -> Option<Seq<char>> {
    if !contains_sub(piece, "::"@) {
        None
    } else {
        let q = spec_replace_all(piece, "*"@, ""@);
        let p = first_char_or_len(q, '(');
        let c = first_char_or_len(q, ',');
        if p < q.len() && c < q.len() && p + 1 <= c {
            Some(spec_convert_account_name(q.subrange(p + 1, c)))
        } else {
            None
        }
    }
}

fn default_from_piece_exec(piece: &[char]) -> (r: Option<String>)
    ensures
        match r {
            Some(v) => default_from_piece(piece@) == Some(v@),
            None => default_from_piece(piece@) is None,
        },
{
    proof {
        reveal_strlit("::");
        reveal_strlit("*");
        reveal_strlit("");
    }
    let sep = str_to_chars("::");
    if find_sub_from(piece, sep.as_slice(), 0).is_none() {
        return None;
    }
    let star = str_to_chars("*");
    let empty = str_to_chars("");
    let q = replace_all(piece, star.as_slice(), empty.as_slice());
    let p = match find_char_from(q.as_slice(), '(', 0) {
        Some(p) => {
            proof {
                lemma_first_char_at(q@, '(', p as int);
            }
            p
        },
        None => {
            proof {
                lemma_first_char_none(q@, '(');
            }
            return None;
        },
    };
    let c = match find_char_from(q.as_slice(), ',', 0) {
        Some(c) => {
            proof {
                lemma_first_char_at(q@, ',', c as int);
            }
            c
        },
        None => {
            proof {
                lemma_first_char_none(q@, ',');
            }
            return None;
        },
    };
    if p >= c {
        return None;
    }
    let raw = sub_chars(q.as_slice(), p + 1, c);
    let raw_str = chars_to_string(&raw);
    Some(convert_account_name(raw_str.as_str()))
}

/// The default account names when the list is built as a literal sequence:
/// the builder pieces of the text up to the closing bracket, one name each
/// where one can be read.
pub open spec fn defaults_from_pieces(pieces: Seq<Seq<char>>, k: int, acc: Seq<Seq<char>>) -> Seq<
    Seq<char>,
>
    decreases pieces.len() - k,
{
    if k < 0 || k >= pieces.len() {
        acc
    } else {
        let acc2 = match default_from_piece(pieces[k]) {
            Some(n) => acc.push(n),
            None => acc,
        };
        defaults_from_pieces(pieces, k + 1, acc2)
    }
}

/// The default account names of a constructor whose accounts are built as a
/// literal sequence.
pub open spec fn spec_defaults_from_vec(function: Seq<char>, v: int) -> Seq<Seq<char>> {
    let tailf = function.skip(v);
    let e = first_char_or_len(tailf, ']');
    if 0 <= e < tailf.len() && e >= 1 {
        let metas = tailf.subrange(0, e - 1);
        defaults_from_pieces(split_by(metas, "AccountMeta"@), 0, Seq::empty())
    } else {
        Seq::empty()
    }
}

fn defaults_from_vec_exec(function: &[char], v: usize) -> (r: Vec<String>)
    requires
        v <= function@.len(),
    ensures
        r.deep_view() == spec_defaults_from_vec(function@, v as int),
{
    proof {
        reveal_strlit("AccountMeta");
    }
    let tailf = sub_chars(function, v, function.len());
    proof {
        assert(tailf@ =~= function@.skip(v as int));
    }
    let e = match find_char_from(tailf.as_slice(), ']', 0) {
        Some(e) => {
            proof {
                lemma_first_char_at(tailf@, ']', e as int);
            }
            e
        },
        None => {
            proof {
                lemma_first_char_none(tailf@, ']');
            }
            let r: Vec<String> = Vec::new();
            proof {
                assert(r.deep_view() =~= Seq::<Seq<char>>::empty());
                if tailf@.len() > 0 {
                    assert(first_char_or_len(tailf@, ']') == tailf@.len());
                }
            }
            return r;
        },
    };
    if e < 1 {
        let r: Vec<String> = Vec::new();
        proof {
            assert(r.deep_view() =~= Seq::<Seq<char>>::empty());
        }
        return r;
    }
    let metas = sub_chars(tailf.as_slice(), 0, e - 1);
    let am = str_to_chars("AccountMeta");
    let pieces = split_by_exec(metas.as_slice(), am.as_slice());
    let mut acc: Vec<String> = Vec::new();
    let ghost pdv = pieces.deep_view();
    let mut k: usize = 0;
    proof {
        assert(acc.deep_view() =~= Seq::<Seq<char>>::empty());
    }
    while k < pieces.len()
        invariant
            pdv == pieces.deep_view(),
            0 <= k <= pieces@.len(),
            defaults_from_pieces(pdv, 0, Seq::empty()) == defaults_from_pieces(
                pdv,
                k as int,
                acc.deep_view(),
            ),
        decreases pieces@.len() - k,
    {
        let ghost pre = acc.deep_view();
        proof {
            assert(pdv[k as int] == pieces@[k as int].deep_view());
            assert(pieces@[k as int].deep_view() =~= pieces@[k as int]@);
        }
        match default_from_piece_exec(pieces[k].as_slice()) {
            Some(n) => {
                push_name(&mut acc, n);
            },
            None => {},
        }
        proof {
            assert(defaults_from_pieces(pdv, k as int, pre) == defaults_from_pieces(
                pdv,
                k + 1,
                acc.deep_view(),
            ));
        }
        k += 1;
    }
    proof {
        assert(defaults_from_pieces(pdv, pdv.len() as int, acc.deep_view()) == acc.deep_view());
    }
    acc
}

/// The value of one additive capacity term: a digit literal as it stands,
/// a named term through the source-wide constant lookup, anything else
/// contributing nothing.
pub open spec fn cap_term_value(term: Seq<char>, all: Seq<char>) -> nat {
    match spec_parse_u64(term) {
        Some(n) => n as nat,
        None => match crate::scan::spec_const_value(term, all) {
            Some(cv) => match spec_parse_u64(cv) {
                Some(n) => n as nat,
                None => 0,
            },
            None => 0,
        },
    }
}

/// The declared capacity of a pre-sized account list: the sum of the
/// additive terms between the capacity call's parentheses, named constants
/// resolved across the whole source.
pub open spec fn sum_cap_terms(pieces: Seq<Seq<char>>, k: int, acc: nat, all: Seq<char>) -> nat
    decreases pieces.len() - k,
{
    if k < 0 || k >= pieces.len() {
        acc
    } else {
        sum_cap_terms(pieces, k + 1, (acc + cap_term_value(spec_trim(pieces[k]), all)) as nat, all)
    }
}

/// The capacity declared by a pre-sized construction, read from the text
/// after the capacity call.
pub open spec fn spec_capacity(function: Seq<char>, w: int, all: Seq<char>) -> nat {
    let tailf = function.skip(w);
    let p = first_char_or_len(tailf, '(');
    match spec_find_sub(tailf, ");"@, 0) {
        Some(e) => if p + 1 <= e {
            sum_cap_terms(split_by(tailf.subrange(p + 1, e), "+"@), 0, 0, all)
        } else {
            0
        },
        None => 0,
    }
}

fn capacity_exec(function: &[char], w: usize, all_content: &str) -> (r: u128)
    requires
        w <= function@.len(),
    ensures
        r == spec_capacity(function@, w as int, all_content@) || (spec_capacity(
            function@,
            w as int,
            all_content@,
        ) > u128::MAX && r == u128::MAX),
{
    proof {
        reveal_strlit(");");
        reveal_strlit("+");
    }
    let tailf = sub_chars(function, w, function.len());
    proof {
        assert(tailf@ =~= function@.skip(w as int));
    }
    let p = match find_char_from(tailf.as_slice(), '(', 0) {
        Some(p) => {
            proof {
                lemma_first_char_at(tailf@, '(', p as int);
            }
            p
        },
        None => {
            proof {
                lemma_first_char_none(tailf@, '(');
            }
            tailf.len()
        },
    };
    let close = str_to_chars(");");
    let e = match find_sub_from(tailf.as_slice(), close.as_slice(), 0) {
        Some(e) => e,
        None => {
            return 0;
        },
    };
    proof {
        lemma_find_sub_correct(tailf@, ");"@, 0);
    }
    if p >= e {
        return 0;
    }
    let inside = sub_chars(tailf.as_slice(), p + 1, e);
    let plus = str_to_chars("+");
    let pieces = split_by_exec(inside.as_slice(), plus.as_slice());
    let ghost pdv = pieces.deep_view();
    let mut acc: u128 = 0;
    let mut sat: bool = false;
    let mut k: usize = 0;
    while k < pieces.len()
        invariant
            pdv == pieces.deep_view(),
            0 <= k <= pieces@.len(),
            !sat ==> sum_cap_terms(pdv, 0, 0, all_content@) == sum_cap_terms(
                pdv,
                k as int,
                acc as nat,
                all_content@,
            ),
            sat ==> sum_cap_terms(pdv, 0, 0, all_content@) > u128::MAX && acc == u128::MAX,
        decreases pieces@.len() - k,
    {
        proof {
            assert(pdv[k as int] == pieces@[k as int].deep_view());
            assert(pieces@[k as int].deep_view() =~= pieces@[k as int]@);
        }
        let t = trim_chars(pieces[k].as_slice());
        let term: u64 = match parse_u64(t.as_slice()) {
            Some(n) => n,
            None => {
                let t_str = chars_to_string(&t);
                match crate::scan::get_const_value(t_str.as_str(), all_content) {
                    Some(cv) => {
                        let cvv = str_to_chars(cv.as_str());
                        match parse_u64(cvv.as_slice()) {
                            Some(n) => n,
                            None => 0,
                        }
                    },
                    None => 0,
                }
            },
        };
        proof {
            assert(term == cap_term_value(t@, all_content@));
        }
        if !sat {
            if acc <= u128::MAX - term as u128 {
                acc = acc + term as u128;
            } else {
                proof {
                    lemma_cap_terms_monotone(
                        pdv,
                        k + 1,
                        (acc + term as u128) as nat,
                        all_content@,
                    );
                }
                sat = true;
                acc = u128::MAX;
            }
        }
        k += 1;
    }
    proof {
        if !sat {
            assert(sum_cap_terms(pdv, pdv.len() as int, acc as nat, all_content@) == acc as nat);
        }
    }
    acc
}

proof fn lemma_cap_terms_monotone(pieces: Seq<Seq<char>>, k: int, acc: nat, all: Seq<char>)
    ensures
        sum_cap_terms(pieces, k, acc, all) >= acc,
    decreases pieces.len() - k,
{
    if 0 <= k < pieces.len() {
        lemma_cap_terms_monotone(
            pieces,
            k + 1,
            (acc + cap_term_value(spec_trim(pieces[k]), all)) as nat,
            all,
        );
    }
}


/// A default account name drawn from the text at one builder call of a
/// pre-sized construction.
pub open spec fn default_at_meta(tailf: Seq<char>, idx: int) -> Option<Seq<char>> {
    if 0 <= idx <= tailf.len() {
        let sub = tailf.skip(idx);
        let p = first_char_or_len(sub, '(');
        let c = first_char_or_len(sub, ',');
        if p < sub.len() && c < sub.len() && p < c {
            Some(
                spec_convert_account_name(
                    spec_replace_all(sub.subrange(p + 1, c), "*"@, ""@),
                ),
            )
        } else {
            None
        }
    } else {
        None
    }
}

/// The default names of a pre-sized construction: only the builder calls
/// whose rank falls below the declared capacity count.
pub open spec fn defaults_from_capacity(
    tailf: Seq<char>,
    occ: Seq<int>,
    k: int,
    cap: nat,
    acc: Seq<Seq<char>>,
) -> Seq<Seq<char>>
    decreases occ.len() - k,
{
    if k < 0 || k >= occ.len() {
        acc
    } else {
        let acc2 = if k < cap {
            match default_at_meta(tailf, occ[k]) {
                Some(n) => acc.push(n),
                None => acc,
            }
        } else {
            acc
        };
        defaults_from_capacity(tailf, occ, k + 1, cap, acc2)
    }
}

/// The default (mandatory) account names of a constructor: from the literal
/// sequence when there is one, from the pre-sized construction otherwise,
/// and none when neither construction style occurs.
pub open spec fn spec_defaults(function: Seq<char>, all: Seq<char>) -> Seq<Seq<char>> {
    match spec_find_sub(function, "vec!"@, 0) {
        Some(v) => spec_defaults_from_vec(function, v),
        None => match spec_find_sub(function, "Vec::with_capacity"@, 0) {
            Some(w) => {
                let tailf = function.skip(w);
                defaults_from_capacity(
                    tailf,
                    spec_occurrences(tailf, "AccountMeta::"@, 0),
                    0,
                    spec_capacity(function, w, all),
                    Seq::empty(),
                )
            },
            None => Seq::empty(),
        },
    }
}

fn default_at_meta_exec(tailf: &[char], idx: usize) -> (r: Option<String>)
    requires
        idx <= tailf@.len(),
    ensures
        match r {
            Some(v) => default_at_meta(tailf@, idx as int) == Some(v@),
            None => default_at_meta(tailf@, idx as int) is None,
        },
{
    proof {
        reveal_strlit("*");
        reveal_strlit("");
    }
    let sub = sub_chars(tailf, idx, tailf.len());
    proof {
        assert(sub@ =~= tailf@.skip(idx as int));
    }
    let p = match find_char_from(sub.as_slice(), '(', 0) {
        Some(p) => {
            proof {
                lemma_first_char_at(sub@, '(', p as int);
            }
            p
        },
        None => {
            proof {
                lemma_first_char_none(sub@, '(');
            }
            return None;
        },
    };
    let c = match find_char_from(sub.as_slice(), ',', 0) {
        Some(c) => {
            proof {
                lemma_first_char_at(sub@, ',', c as int);
            }
            c
        },
        None => {
            proof {
                lemma_first_char_none(sub@, ',');
            }
            return None;
        },
    };
    if p >= c {
        return None;
    }
    let raw0 = sub_chars(sub.as_slice(), p + 1, c);
    let star = str_to_chars("*");
    let empty = str_to_chars("");
    let raw = replace_all(raw0.as_slice(), star.as_slice(), empty.as_slice());
    let raw_str = chars_to_string(&raw);
    Some(convert_account_name(raw_str.as_str()))
}

fn defaults_exec(function: &[char], all_content: &str) -> (r: Vec<String>)
    ensures
        r.deep_view() == spec_defaults(function@, all_content@),
{
    proof {
        reveal_strlit("vec!");
        reveal_strlit("Vec::with_capacity");
        reveal_strlit("AccountMeta::");
    }
    let vpat = str_to_chars("vec!");
    if let Some(v) = find_sub_from(function, vpat.as_slice(), 0) {
        proof {
            lemma_find_sub_correct(function@, "vec!"@, 0);
        }
        return defaults_from_vec_exec(function, v);
    }
    let wpat = str_to_chars("Vec::with_capacity");
    let w = match find_sub_from(function, wpat.as_slice(), 0) {
        Some(w) => w,
        None => {
            let r: Vec<String> = Vec::new();
            proof {
                assert(r.deep_view() =~= Seq::<Seq<char>>::empty());
            }
            return r;
        },
    };
    proof {
        lemma_find_sub_correct(function@, "Vec::with_capacity"@, 0);
    }
    let cap = capacity_exec(function, w, all_content);
    let ghost scap = spec_capacity(function@, w as int, all_content@);
    let tailf = sub_chars(function, w, function.len());
    proof {
        assert(tailf@ =~= function@.skip(w as int));
    }
    let tail_str = chars_to_string(&tailf);
    let occ = crate::scan::get_account_meta_indices(tail_str.as_str());
    let ghost socc = spec_occurrences(tailf@, "AccountMeta::"@, 0);
    let mut acc: Vec<String> = Vec::new();
    let mut k: usize = 0;
    proof {
        assert(acc.deep_view() =~= Seq::<Seq<char>>::empty());
    }
    while k < occ.len()
        invariant
            tailf@ == function@.skip(w as int),
            socc == spec_occurrences(tailf@, "AccountMeta::"@, 0),
            occ@.len() == socc.len(),
            forall|j: int| 0 <= j < occ@.len() ==> (#[trigger] occ@[j]).1 == socc[j],
            0 <= k <= occ@.len(),
            cap == scap || (scap > u128::MAX && cap == u128::MAX),
            defaults_from_capacity(tailf@, socc, 0, scap, Seq::empty())
                == defaults_from_capacity(tailf@, socc, k as int, scap, acc.deep_view()),
        decreases occ@.len() - k,
    {
        let ghost pre = acc.deep_view();
        proof {
            reveal_strlit("AccountMeta::");
            crate::resolve::lemma_occurrences_are_matches(tailf@, "AccountMeta::"@, 0);
            assert(crate::text::match_at(tailf@, "AccountMeta::"@, socc[k as int]));
        }
        let idx = occ[k].1;
        let in_cap: bool = (k as u128) < cap;
        proof {
            assert(in_cap == ((k as int) < scap));
        }
        if in_cap {
            match default_at_meta_exec(tailf.as_slice(), idx) {
                Some(n) => {
                    push_name(&mut acc, n);
                },
                None => {},
            }
        }
        proof {
            assert(defaults_from_capacity(tailf@, socc, k as int, scap, pre)
                == defaults_from_capacity(tailf@, socc, k + 1, scap, acc.deep_view()));
        }
        k += 1;
    }
    proof {
        assert(defaults_from_capacity(tailf@, socc, occ@.len() as int, scap, acc.deep_view())
            == acc.deep_view());
    }
    acc
}

/// One account entry read at a builder call: its normalized name and the
/// mutability, signer and optionality flags — or nothing for a placeholder
/// or an unreadable call.
pub open spec fn meta_entry(function: Seq<char>, idx: int, defaults: Seq<Seq<char>>) -> Option<
    (Seq<char>, bool, bool, bool),
> {
    if 0 <= idx <= function.len() {
        let meta = spec_get_item(function.skip(idx), '(');
        let p = first_char_or_len(meta, '(');
        let c = first_char_or_len(meta, ',');
        if p < meta.len() && c < meta.len() && p <= c {
            let raw = spec_replace_all(
                spec_replace_all(meta.subrange(p, c), "*"@, ""@),
                "("@,
                ""@,
            );
            let name = spec_convert_account_name(raw);
            if contains_sub(name, "Pubkey::default"@) {
                None
            } else {
                let is_mut = !contains_sub(meta, "new_readonly("@);
                let is_signer = !contains_sub(meta, ", false"@);
                let optional = defaults.len() > 0 && !defaults.contains(name);
                Some((name, is_mut, is_signer, optional))
            }
        } else {
            None
        }
    } else {
        None
    }
}

/// The ordered account entries of a constructor body, in call order.
pub open spec fn accounts_from(
    function: Seq<char>,
    occ: Seq<int>,
    k: int,
    defaults: Seq<Seq<char>>,
    acc: Seq<(Seq<char>, bool, bool, bool)>,
) -> Seq<(Seq<char>, bool, bool, bool)>
    decreases occ.len() - k,
{
    if k < 0 || k >= occ.len() {
        acc
    } else {
        let acc2 = match meta_entry(function, occ[k], defaults) {
            Some(e) => acc.push(e),
            None => acc,
        };
        accounts_from(function, occ, k + 1, defaults, acc2)
    }
}

/// The account list of a constructor body.
pub open spec fn spec_account_list(function: Seq<char>, all: Seq<char>) -> Seq<(Seq<char>, bool, bool, bool)> {
    accounts_from(
        function,
        spec_occurrences(function, "AccountMeta::"@, 0),
        0,
        spec_defaults(function, all),
        Seq::empty(),
    )
}

/// One reference carries exactly one listed entry.
pub open spec fn ref_matches(a: AccountRef, t: (Seq<char>, bool, bool, bool)) -> bool {
    &&& a.name@ == t.0
    &&& a.mutable == t.1
    &&& a.signer == t.2
    &&& a.optional == t.3
}

/// The located constructor body: by exact name in the instruction source
/// first, in the whole merged source second.
pub open spec fn spec_locate_function(
    content: Seq<char>,
    all: Seq<char>,
    fname: Seq<char>,
) -> Option<Seq<char>> {
    let pat = "pub fn "@ + fname + "("@;
    match spec_find_sub(content, pat, 0) {
        Some(i) => Some(spec_get_item(content.skip(i), '{')),
        None => match spec_find_sub(all, pat, 0) {
            Some(i) => Some(spec_get_item(all.skip(i), '{')),
            None => None,
        },
    }
}

fn meta_entry_exec(function: &[char], idx: usize, defaults: &Vec<String>) -> (r: Option<
    AccountRef,
>)
    requires
        idx <= function@.len(),
    ensures
        match r {
            Some(a) => meta_entry(function@, idx as int, defaults.deep_view()) matches Some(t)
                && ref_matches(a, t),
            None => meta_entry(function@, idx as int, defaults.deep_view()) is None,
        },
{
    proof {
        reveal_strlit("*");
        reveal_strlit("(");
        reveal_strlit("");
        reveal_strlit("Pubkey::default");
        reveal_strlit("new_readonly(");
        reveal_strlit(", false");
    }
    let tail = sub_chars(function, idx, function.len());
    proof {
        assert(tail@ =~= function@.skip(idx as int));
    }
    let tail_str = chars_to_string(&tail);
    let meta_str = get_item(tail_str.as_str(), '(');
    let meta = str_to_chars(meta_str.as_str());
    let p = match find_char_from(meta.as_slice(), '(', 0) {
        Some(p) => {
            proof {
                lemma_first_char_at(meta@, '(', p as int);
            }
            p
        },
        None => {
            proof {
                lemma_first_char_none(meta@, '(');
            }
            return None;
        },
    };
    let c = match find_char_from(meta.as_slice(), ',', 0) {
        Some(c) => {
            proof {
                lemma_first_char_at(meta@, ',', c as int);
            }
            c
        },
        None => {
            proof {
                lemma_first_char_none(meta@, ',');
            }
            return None;
        },
    };
    if p > c {
        return None;
    }
    let raw0 = sub_chars(meta.as_slice(), p, c);
    let star = str_to_chars("*");
    let paren = str_to_chars("(");
    let empty = str_to_chars("");
    let raw1 = replace_all(raw0.as_slice(), star.as_slice(), empty.as_slice());
    let raw = replace_all(raw1.as_slice(), paren.as_slice(), empty.as_slice());
    let raw_str = chars_to_string(&raw);
    let name = convert_account_name(raw_str.as_str());
    let name_chars = str_to_chars(name.as_str());
    let pd = str_to_chars("Pubkey::default");
    if find_sub_from(name_chars.as_slice(), pd.as_slice(), 0).is_some() {
        return None;
    }
    let nr = str_to_chars("new_readonly(");
    let is_mut = find_sub_from(meta.as_slice(), nr.as_slice(), 0).is_none();
    let cf = str_to_chars(", false");
    let is_signer = find_sub_from(meta.as_slice(), cf.as_slice(), 0).is_none();
    let optional = defaults.len() > 0 && !contains_name(defaults, name.as_str());
    proof {
        assert(defaults.deep_view().len() == defaults@.len());
    }
    Some(AccountRef { name, mutable: is_mut, signer: is_signer, optional })
}

/// Recover the ordered account list of the constructor `function_name`:
/// the mandatory accounts first read from the construction style, every
/// builder call then listed in call order with its flags, the ones outside
/// the mandatory set marked optional. Nothing is returned when the
/// constructor is not found — the caller skips that variant.
pub fn create_context(content: &str, all_content: &str, function_name: &str) -> (r: Option<
    Vec<AccountRef>,
>)
    ensures
        match r {
            Some(accs) => spec_locate_function(content@, all_content@, function_name@) matches
                Some(f) && {
                let sal = spec_account_list(f, all_content@);
                &&& accs@.len() == sal.len()
                &&& forall|j: int|
                    0 <= j < sal.len() ==> ref_matches(#[trigger] accs@[j], sal[j])
            },
            None => spec_locate_function(content@, all_content@, function_name@) is None,
        },
{
    proof {
        reveal_strlit("pub fn ");
        reveal_strlit("(");
        reveal_strlit("AccountMeta::");
    }
    let cv = str_to_chars(content);
    let av = str_to_chars(all_content);
    let fv = str_to_chars(function_name);
    let mut pat = str_to_chars("pub fn ");
    crate::text::push_all(&mut pat, fv.as_slice());
    let op = str_to_chars("(");
    crate::text::push_all(&mut pat, op.as_slice());
    let function: String = match find_sub_from(cv.as_slice(), pat.as_slice(), 0) {
        Some(i) => {
            proof {
                lemma_find_sub_correct(cv@, pat@, 0);
            }
            let tail = sub_chars(cv.as_slice(), i, cv.len());
            proof {
                assert(tail@ =~= content@.skip(i as int));
            }
            let tail_str = chars_to_string(&tail);
            get_item(tail_str.as_str(), '{')
        },
        None => match find_sub_from(av.as_slice(), pat.as_slice(), 0) {
            Some(i) => {
                proof {
                    lemma_find_sub_correct(av@, pat@, 0);
                }
                let tail = sub_chars(av.as_slice(), i, av.len());
                proof {
                    assert(tail@ =~= all_content@.skip(i as int));
                }
                let tail_str = chars_to_string(&tail);
                get_item(tail_str.as_str(), '{')
            },
            None => {
                return None;
            },
        },
    };
    let fchars = str_to_chars(function.as_str());
    let ghost f = fchars@;
    let defaults = defaults_exec(fchars.as_slice(), all_content);
    let occ = crate::scan::get_account_meta_indices(function.as_str());
    let ghost socc = spec_occurrences(f, "AccountMeta::"@, 0);
    let ghost sdef = spec_defaults(f, all_content@);
    let mut accs: Vec<AccountRef> = Vec::new();
    let ghost mut gacc: Seq<(Seq<char>, bool, bool, bool)> = Seq::empty();
    let mut k: usize = 0;
    while k < occ.len()
        invariant
            f == fchars@,
            socc == spec_occurrences(f, "AccountMeta::"@, 0),
            sdef == defaults.deep_view(),
            sdef == spec_defaults(f, all_content@),
            occ@.len() == socc.len(),
            forall|j: int| 0 <= j < occ@.len() ==> (#[trigger] occ@[j]).1 == socc[j],
            0 <= k <= occ@.len(),
            accs@.len() == gacc.len(),
            forall|j: int| 0 <= j < gacc.len() ==> ref_matches(#[trigger] accs@[j], gacc[j]),
            accounts_from(f, socc, 0, sdef, Seq::empty()) == accounts_from(
                f,
                socc,
                k as int,
                sdef,
                gacc,
            ),
        decreases occ@.len() - k,
    {
        let ghost pre = gacc;
        proof {
            reveal_strlit("AccountMeta::");
            crate::resolve::lemma_occurrences_are_matches(f, "AccountMeta::"@, 0);
            assert(crate::text::match_at(f, "AccountMeta::"@, socc[k as int]));
        }
        let idx = occ[k].1;
        match meta_entry_exec(fchars.as_slice(), idx, &defaults) {
            Some(a) => {
                let ghost entry = meta_entry(f, idx as int, sdef)->Some_0;
                let ghost old_accs = accs@;
                accs.push(a);
                proof {
                    gacc = gacc.push(entry);
                    assert(forall|j: int|
                        0 <= j < old_accs.len() ==> accs@[j] == old_accs[j]);
                    assert(accs@[old_accs.len() as int] == a);
                }
            },
            None => {},
        }
        proof {
            assert(accounts_from(f, socc, k as int, sdef, pre) == accounts_from(
                f,
                socc,
                k + 1,
                sdef,
                gacc,
            ));
        }
        k += 1;
    }
    proof {
        assert(accounts_from(f, socc, occ@.len() as int, sdef, gacc) == gacc);
        assert(spec_account_list(f, all_content@) == gacc);
    }
    Some(accs)
}


/// One recognized shape of a variant line of the instruction union.
pub enum VariantLine {
    /// A one-liner whose payload is a separately declared type.
    Payload(String, String),
    /// A variant with no arguments.
    Unit(String),
    /// A one-liner with inline named fields.
    Inline(String, Vec<crate::types::FieldDef>),
    /// The head of a payload spanning several lines.
    OpensBlock(String),
}

/// The name and type text declared on a `name: type` field line: the part
/// before the first `':'`, trimmed and less a visibility marker, and the
/// part after it, trimmed and less a trailing comma. A line without a
/// `':'` or with an empty name declares no field.
pub open spec fn spec_field_line(l: Seq<char>) -> Option<(Seq<char>, Seq<char>)> {
    let c = first_char_or_len(l, ':');
    if !(0 <= c < l.len()) {
        None
    } else {
        let name0 = spec_trim(l.subrange(0, c));
        let name = if name0.len() >= "pub "@.len() && name0.subrange(0, "pub "@.len() as int)
            == "pub "@ {
            name0.subrange("pub "@.len() as int, name0.len() as int)
        } else {
            name0
        };
        if name.len() == 0 {
            None
        } else {
            let ty0 = spec_trim(l.subrange(c + 1, l.len() as int));
            let ty = if ty0.len() >= 1 && ty0.last() == ',' {
                ty0.drop_last()
            } else {
                ty0
            };
            Some((name, ty))
        }
    }
}

/// One field parsed from a `name: type` line: its name as declared, its
/// type read through the type-reference parser, an unparseable text kept as
/// a defined name.
pub fn field_from_line(line: &[char]) -> (r: Option<crate::types::FieldDef>)
    ensures
        match r {
            Some(f) => spec_field_line(line@) matches Some(p) && {
                &&& f.name@ == p.0
                &&& if crate::types::spec_can_parse(crate::types::strip_blanks(p.1)) {
                    crate::types::spec_parses_to(crate::types::strip_blanks(p.1), f.ty)
                } else {
                    f.ty matches crate::types::TypeRef::Defined(d) && d@ == p.1
                }
            },
            None => spec_field_line(line@) is None,
        },
{
    let c = match find_char_from(line, ':', 0) {
        Some(c) => {
            proof {
                lemma_first_char_at(line@, ':', c as int);
            }
            c
        },
        None => {
            proof {
                lemma_first_char_none(line@, ':');
            }
            return None;
        },
    };
    let name_part0 = sub_chars(line, 0, c);
    let name_part = trim_chars(name_part0.as_slice());
    let name_clean = strip_leading_pub(name_part.as_slice());
    if name_clean.len() == 0 {
        return None;
    }
    let n = line.len();
    proof {
        assert(c < n);
    }
    let ty_part0 = sub_chars(line, c + 1, n);
    let ty_part = trim_chars(ty_part0.as_slice());
    let ty_text: Vec<char> = if ty_part.len() >= 1 && ty_part[ty_part.len() - 1] == ',' {
        let cut = sub_chars(ty_part.as_slice(), 0, ty_part.len() - 1);
        proof {
            assert(cut@ =~= ty_part@.drop_last());
        }
        cut
    } else {
        ty_part
    };
    let ty_str = chars_to_string(&ty_text);
    let ty = match crate::types::parse_type_ref(ty_str.as_str()) {
        Some(t) => t,
        None => crate::types::TypeRef::Defined(ty_str),
    };
    Some(crate::types::FieldDef { name: chars_to_string(&name_clean), ty })
}

fn strip_leading_pub(s: &[char]) -> (r: Vec<char>)
    ensures
        r@ == if s@.len() >= "pub "@.len() && s@.subrange(0, "pub "@.len() as int) == "pub "@ {
            s@.subrange("pub "@.len() as int, s@.len() as int)
        } else {
            s@
        },
{
    proof {
        reveal_strlit("pub ");
    }
    let pat = str_to_chars("pub ");
    if crate::text::starts_with(s, pat.as_slice()) {
        sub_chars(s, pat.len(), s.len())
    } else {
        let whole = sub_chars(s, 0, s.len());
        proof {
            assert(whole@ =~= s@);
        }
        whole
    }
}

/// The classification of one variant line: the shape tag (a payload
/// reference, a unit variant, inline fields, or the head of a multi-line
/// payload), the variant name, and the payload or inline text.
pub open spec fn spec_variant_line(l: Seq<char>) -> Option<(int, Seq<char>, Seq<char>)> {
    if l.len() <= 1 {
        None
    } else if first_char_or_len(l, '(') < l.len() && contains_sub(l, "),"@) {
        let pi = first_char_or_len(l, '(');
        let ci = first_char_or_len(l, ')');
        if ci >= l.len() || pi == 0 || pi + 1 > ci {
            None
        } else {
            Some((0int, l.subrange(0, pi), l.subrange(pi + 1, ci)))
        }
    } else if contains_sub(l, "{}"@) {
        let toks = crate::scan::spec_tokens(l);
        if toks.len() >= 1 {
            Some((1int, toks[0], Seq::empty()))
        } else {
            None
        }
    } else if first_char_or_len(l, '{') < l.len() && crate::text::spec_rfind_char(l, '}')
        is Some {
        let o = first_char_or_len(l, '{');
        let c = crate::text::spec_rfind_char(l, '}')->Some_0;
        let toks = crate::scan::spec_tokens(l);
        if toks.len() == 0 || o + 1 > c {
            None
        } else {
            Some((2int, toks[0], l.subrange(o + 1, c)))
        }
    } else if first_char_or_len(l, ':') >= l.len() && crate::text::spec_rfind_char(l, '}')
        is None {
        match spec_find_sub(l, " {"@, 0) {
            Some(i) => Some((3int, l.subrange(0, i), Seq::empty())),
            None => {
                let n = crate::classify::spec_replace_all(l, ","@, ""@);
                if n.len() >= 1 {
                    Some((1int, n, Seq::empty()))
                } else {
                    None
                }
            },
        }
    } else {
        None
    }
}

/// The type text of a field declares the given type reference: it parses to
/// it, or it is kept whole as a defined name.
pub open spec fn field_ty_matches(ty_text: Seq<char>, ty: crate::types::TypeRef) -> bool {
    if crate::types::spec_can_parse(crate::types::strip_blanks(ty_text)) {
        crate::types::spec_parses_to(crate::types::strip_blanks(ty_text), ty)
    } else {
        ty matches crate::types::TypeRef::Defined(d) && d@ == ty_text
    }
}

/// The field declarations among the trimmed pieces, in order.
pub open spec fn spec_line_fields(pieces: Seq<Seq<char>>, k: int) -> Seq<(Seq<char>, Seq<char>)>
    decreases pieces.len() - k,
{
    if k < 0 || k >= pieces.len() {
        Seq::empty()
    } else {
        (match spec_field_line(spec_trim(pieces[k])) {
            Some(p) => seq![p],
            None => Seq::empty(),
        }) + spec_line_fields(pieces, k + 1)
    }
}

/// The fields carry exactly the declarations of the comma-separated inline
/// text, in order.
pub open spec fn inline_fields_match(inner: Seq<char>, fields: Seq<crate::types::FieldDef>)
    -> bool {
    let expected = spec_line_fields(split_by(inner, ","@), 0);
    &&& fields.len() == expected.len()
    &&& forall|j: int|
        0 <= j < expected.len() ==> (#[trigger] fields[j]).name@ == expected[j].0
            && field_ty_matches(expected[j].1, fields[j].ty)
}

/// Classify one (trimmed, comment-free) variant line of the instruction
/// union into the four recognized shapes: a payload reference, a unit
/// variant, inline named fields, or the head of a multi-line payload.
pub fn parse_variant_line(line: &[char]) -> (r: Option<VariantLine>)
    ensures
        match r {
            Some(v) => spec_variant_line(line@) matches Some(t) && match v {
                VariantLine::Payload(n, p) => t.0 == 0 && n@ == t.1 && p@ == t.2,
                VariantLine::Unit(n) => t.0 == 1 && n@ == t.1,
                VariantLine::Inline(n, fields) => t.0 == 2 && n@ == t.1
                    && inline_fields_match(t.2, fields@),
                VariantLine::OpensBlock(n) => t.0 == 3 && n@ == t.1,
            },
            None => spec_variant_line(line@) is None,
        },
{
    proof {
        reveal_strlit("),");
        reveal_strlit("{}");
        reveal_strlit(" {");
        reveal_strlit(",");
        reveal_strlit("");
    }
    if line.len() <= 1 {
        return None;
    }
    let close_pat = str_to_chars("),");
    let p = match find_char_from(line, '(', 0) {
        Some(p) => {
            proof {
                lemma_first_char_at(line@, '(', p as int);
            }
            Some(p)
        },
        None => {
            proof {
                lemma_first_char_none(line@, '(');
            }
            None
        },
    };
    let has_close = find_sub_from(line, close_pat.as_slice(), 0).is_some();
    if p.is_some() && has_close {
        let pi = p.unwrap();
        let ci = match find_char_from(line, ')', 0) {
            Some(ci) => {
                proof {
                    lemma_first_char_at(line@, ')', ci as int);
                }
                ci
            },
            None => {
                proof {
                    lemma_first_char_none(line@, ')');
                }
                return None;
            },
        };
        if pi == 0 || pi + 1 > ci {
            return None;
        }
        let name = sub_chars(line, 0, pi);
        let payload = sub_chars(line, pi + 1, ci);
        return Some(
            VariantLine::Payload(chars_to_string(&name), chars_to_string(&payload)),
        );
    }
    let empty_pat = str_to_chars("{}");
    let toks = crate::scan::split_tokens(line);
    let ghost stoks = crate::scan::spec_tokens(line@);
    proof {
        assert(toks.deep_view().len() == toks@.len());
    }
    if find_sub_from(line, empty_pat.as_slice(), 0).is_some() {
        if toks.len() >= 1 {
            proof {
                assert(toks.deep_view()[0] == toks@[0].deep_view());
                assert(toks@[0].deep_view() =~= toks@[0]@);
            }
            return Some(VariantLine::Unit(chars_to_string(&toks[0])));
        }
        return None;
    }
    let ob = match find_char_from(line, '{', 0) {
        Some(o) => {
            proof {
                lemma_first_char_at(line@, '{', o as int);
            }
            Some(o)
        },
        None => {
            proof {
                lemma_first_char_none(line@, '{');
            }
            None
        },
    };
    let cb = match crate::text::rfind_char(line, '}') {
        Some(c) => {
            proof {
                crate::text::lemma_rfind_char_correct(line@, '}');
                match crate::text::spec_rfind_char(line@, '}') {
                    Some(sj) => {
                        if sj < c {
                            assert(line@[c as int] != '}');
                        }
                        if (c as int) < sj {
                            assert(line@[sj] != '}');
                        }
                    },
                    None => {
                        assert(line@[c as int] != '}');
                    },
                }
            }
            Some(c)
        },
        None => {
            proof {
                crate::text::lemma_rfind_char_correct(line@, '}');
                if crate::text::spec_rfind_char(line@, '}') is Some {
                    let sj = crate::text::spec_rfind_char(line@, '}')->Some_0;
                    assert(line@[sj] != '}');
                }
            }
            None
        },
    };
    if ob.is_some() && cb.is_some() {
        let o = ob.unwrap();
        let c = cb.unwrap();
        if toks.len() == 0 || o + 1 > c {
            return None;
        }
        let inner = sub_chars(line, o + 1, c);
        let comma_pat = str_to_chars(",");
        let pieces = split_by_exec(inner.as_slice(), comma_pat.as_slice());
        let ghost pdv = pieces.deep_view();
        let ghost expected = spec_line_fields(pdv, 0);
        let mut fields: Vec<crate::types::FieldDef> = Vec::new();
        let ghost mut gexp: Seq<(Seq<char>, Seq<char>)> = Seq::empty();
        let mut m: usize = 0;
        while m < pieces.len()
            invariant
                pdv == pieces.deep_view(),
                0 <= m <= pieces@.len(),
                fields@.len() == gexp.len(),
                forall|j: int|
                    0 <= j < gexp.len() ==> (#[trigger] fields@[j]).name@ == gexp[j].0
                        && field_ty_matches(gexp[j].1, fields@[j].ty),
                spec_line_fields(pdv, 0) == gexp + spec_line_fields(pdv, m as int),
            decreases pieces@.len() - m,
        {
            proof {
                assert(pdv[m as int] == pieces@[m as int].deep_view());
                assert(pieces@[m as int].deep_view() =~= pieces@[m as int]@);
            }
            let t = trim_chars(pieces[m].as_slice());
            let ghost pre = gexp;
            match field_from_line(t.as_slice()) {
                Some(f) => {
                    let ghost entry = spec_field_line(t@)->Some_0;
                    let ghost old_fields = fields@;
                    fields.push(f);
                    proof {
                        gexp = gexp.push(entry);
                        assert(forall|j: int|
                            0 <= j < old_fields.len() ==> fields@[j] == old_fields[j]);
                        assert(fields@[old_fields.len() as int] == f);
                    }
                },
                None => {},
            }
            proof {
                assert(spec_line_fields(pdv, m as int) == (match spec_field_line(
                    spec_trim(pdv[m as int]),
                ) {
                    Some(p2) => seq![p2],
                    None => Seq::<(Seq<char>, Seq<char>)>::empty(),
                }) + spec_line_fields(pdv, m + 1));
                assert(gexp + spec_line_fields(pdv, m + 1) =~= pre + (spec_line_fields(
                    pdv,
                    m as int,
                )));
                assert(spec_line_fields(pdv, 0) =~= gexp + spec_line_fields(pdv, m + 1));
            }
            m += 1;
        }
        proof {
            assert(spec_line_fields(pdv, pdv.len() as int) =~= Seq::<(Seq<char>, Seq<
                char,
            >)>::empty());
            assert(gexp =~= spec_line_fields(pdv, 0));
            assert(toks.deep_view()[0] == toks@[0].deep_view());
            assert(toks@[0].deep_view() =~= toks@[0]@);
        }
        return Some(VariantLine::Inline(chars_to_string(&toks[0]), fields));
    }
    let colon = match find_char_from(line, ':', 0) {
        Some(c) => {
            proof {
                lemma_first_char_at(line@, ':', c as int);
            }
            Some(c)
        },
        None => {
            proof {
                lemma_first_char_none(line@, ':');
            }
            None
        },
    };
    if colon.is_none() && cb.is_none() {
        let open_pat = str_to_chars(" {");
        match find_sub_from(line, open_pat.as_slice(), 0) {
            Some(i) => {
                proof {
                    lemma_find_sub_correct(line@, " {"@, 0);
                }
                let name = sub_chars(line, 0, i);
                return Some(VariantLine::OpensBlock(chars_to_string(&name)));
            },
            None => {
                let comma = str_to_chars(",");
                let empty = str_to_chars("");
                let name = crate::classify::replace_all(
                    line,
                    comma.as_slice(),
                    empty.as_slice(),
                );
                if name.len() == 0 {
                    return None;
                }
                return Some(VariantLine::Unit(chars_to_string(&name)));
            },
        }
    }
    None
}

} // verus!
