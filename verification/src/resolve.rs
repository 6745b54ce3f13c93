use vstd::prelude::*;

use crate::text::spec_find_sub;
use crate::text::find_sub_from;
use crate::text::lemma_find_sub_correct;
use crate::text::str_to_chars;
use crate::text::chars_to_string;
use crate::text::sub_chars;
use crate::text::push_all;
use crate::text::trim_chars;
use crate::text::spec_trim;
use crate::text::spec_lines;
use crate::text::split_lines;
use crate::text::contains_sub;
use crate::text::str_eq;
use crate::text::spec_rfind_char;
use crate::text::rfind_char;
use crate::text::lemma_rfind_char_correct;
use crate::text::first_char_or_len;
use crate::scan::spec_get_inside_item;
use crate::scan::spec_first_line;
use crate::scan::spec_item_info;
use crate::scan::get_item_name_from_full_item;
use crate::types::strip_blanks;
use crate::types::is_prim_text;
use crate::types::is_optional_text;
use crate::types::is_collection_text;
use crate::types::is_array_text;
use crate::types::optional_inner;
use crate::types::collection_inner;
use crate::types::spec_parse_u64;
use crate::types::parse_u64;
use crate::types::spec_is_type_defined;
use crate::types::is_type_defined;

verus! {

// The type resolver: it walks item texts for nested type names, resolves
// each name once, and separates all resolved types from the retained ones.

/// The substitution table: externally defined aliases and the primitive of
/// the same byte shape.
pub open spec fn spec_replaceable(name: Seq<char>) -> Option<Seq<char>> {
    if name == "Slot"@ {
        Some("u64"@)
    } else if name == "UnixTimestamp"@ {
        Some("i64"@)
    } else if name == "Epoch"@ {
        Some("u64"@)
    } else {
        None
    }
}

/// Look a name up in the substitution table.
pub fn replaceable_alias(name: &str) -> (r: Option<String>)
    ensures
        match r {
            Some(v) => spec_replaceable(name@) == Some(v@),
            None => spec_replaceable(name@) is None,
        },
{
    if str_eq(name, "Slot") {
        Some(lit_string("u64"))
    } else if str_eq(name, "UnixTimestamp") {
        Some(lit_string("i64"))
    } else if str_eq(name, "Epoch") {
        Some(lit_string("u64"))
    } else {
        None
    }
}

fn lit_string(s: &str) -> (r: String)
    ensures
        r@ == s@,
{
    let v = str_to_chars(s);
    chars_to_string(&v)
}

/// A line the scanner skips before any counting: documentation or an
/// attribute marker.
pub open spec fn is_skip_line(l: Seq<char>) -> bool {
    ||| contains_sub(l, "///"@)
    ||| contains_sub(l, "//!"@)
    ||| contains_sub(l, "#["@)
}

fn contains_lit(l: &[char], lit: &str) -> (r: bool)
    requires
        lit@.len() >= 1,
    ensures
        r == contains_sub(l@, lit@),
{
    let pv = str_to_chars(lit);
    match find_sub_from(l, pv.as_slice(), 0) {
        Some(_) => true,
        None => false,
    }
}

pub fn is_skip_line_exec_pub(l: &[char]) -> (r: bool)
    ensures
        r == is_skip_line(l@),
{
    proof {
        reveal_strlit("///");
        reveal_strlit("//!");
        reveal_strlit("#[");
    }
    contains_lit(l, "///") || contains_lit(l, "//!") || contains_lit(l, "#[")
}

/// The declared type text of a field line: what stands after the first
/// `':'`, trimmed, less a trailing comma — only on a line that declares a
/// field and carries no comment.
pub open spec fn line_property(l: Seq<char>) -> Option<Seq<char>> {
    if !contains_sub(l, ":"@) || contains_sub(l, "//"@) {
        None
    } else {
        let c = first_char_or_len(l, ':');
        let after = if 0 <= c + 1 <= l.len() {
            l.subrange(c + 1, l.len() as int)
        } else {
            l
        };
        let t = spec_trim(after);
        if t.len() >= 1 && t.last() == ',' {
            Some(t.drop_last())
        } else {
            Some(t)
        }
    }
}

fn line_property_exec(l: &[char]) -> (r: Option<Vec<char>>)
    ensures
        match r {
            Some(v) => line_property(l@) == Some(v@),
            None => line_property(l@) is None,
        },
{
    proof {
        reveal_strlit(":");
        reveal_strlit("//");
    }
    if !contains_lit(l, ":") || contains_lit(l, "//") {
        proof {
            assert(":"@.len() == 1);
        }
        return None;
    }
    let c = match crate::text::find_char_from(l, ':', 0) {
        Some(c) => {
            proof {
                crate::text::lemma_first_char_at(l@, ':', c as int);
            }
            c
        },
        None => {
            proof {
                crate::text::lemma_first_char_none(l@, ':');
                lemma_find_sub_correct(l@, ":"@, 0);
                let i = spec_find_sub(l@, ":"@, 0)->Some_0;
                assert(":"@.len() == 1);
                assert(l@.subrange(i, i + 1) == ":"@);
                assert(l@.subrange(i, i + 1) =~= seq![l@[i]]);
                assert(l@[i] == ":"@[0]);
                assert(l@[i] == ':');
            }
            return None;
        },
    };
    let n = l.len();
    proof {
        assert(c < n);
    }
    let after = sub_chars(l, c + 1, n);
    let t = trim_chars(after.as_slice());
    if t.len() >= 1 && t[t.len() - 1] == ',' {
        let cut = sub_chars(t.as_slice(), 0, t.len() - 1);
        proof {
            assert(cut@ =~= t@.drop_last());
        }
        Some(cut)
    } else {
        Some(t)
    }
}

/// The defined type name a (stripped) type text ultimately refers to:
/// wrappers and sized arrays are unwrapped recursively, a nullable-wrapped
/// alias yields its inner text, a plain name yields itself, and primitives
/// and malformed arrays yield nothing.
pub open spec fn nested_defined_name(u: Seq<char>) -> Option<Seq<char>>
    decreases u.len(),
{
    if is_prim_text(u) {
        None
    } else if is_optional_text(u) {
        nested_defined_name(optional_inner(u))
    } else if is_collection_text(u) {
        nested_defined_name(collection_inner(u))
    } else if is_array_text(u) {
        match spec_rfind_char(u, ';') {
            Some(semi) => if 1 <= semi < u.len() - 1 && spec_parse_u64(
                u.subrange(semi + 1, u.len() - 1),
            ) is Some {
                nested_defined_name(u.subrange(1, semi))
            } else {
                None
            },
            None => None,
        }
    } else if u.len() >= 1 {
        if u.len() >= "COption"@.len() && u.subrange(0, "COption"@.len() as int) == "COption"@ {
            spec_get_inside_item(u, '<')
        } else {
            Some(u)
        }
    } else {
        None
    }
}

fn nested_defined_name_exec(u: Vec<char>) -> (r: Option<Vec<char>>)
    ensures
        match r {
            Some(v) => nested_defined_name(u@) == Some(v@),
            None => nested_defined_name(u@) is None,
        },
    decreases u@.len(),
{
    proof {
        reveal_strlit("Option<");
        reveal_strlit("Vec<");
        reveal_strlit("COption");
    }
    let s = u.as_slice();
    if is_prim_text_exec(s) {
        return None;
    }
    let opt_head = str_to_chars("Option<");
    if u.len() > opt_head.len() + 1 && crate::text::starts_with(s, opt_head.as_slice()) && s[u.len()
        - 1] == '>' {
        let inner = sub_chars(s, opt_head.len(), u.len() - 1);
        return nested_defined_name_exec(inner);
    }
    let vec_head = str_to_chars("Vec<");
    if u.len() > vec_head.len() + 1 && crate::text::starts_with(s, vec_head.as_slice()) && s[u.len()
        - 1] == '>' {
        let inner = sub_chars(s, vec_head.len(), u.len() - 1);
        return nested_defined_name_exec(inner);
    }
    if u.len() >= 2 && s[0] == '[' && s[u.len() - 1] == ']' {
        let semi = match rfind_char(s, ';') {
            Some(semi) => {
                proof {
                    lemma_rfind_char_correct(u@, ';');
                    match spec_rfind_char(u@, ';') {
                        Some(sj) => {
                            if sj < semi {
                                assert(u@[semi as int] != ';');
                            }
                            if (semi as int) < sj {
                                assert(u@[sj] != ';');
                            }
                        },
                        None => {
                            assert(u@[semi as int] != ';');
                        },
                    }
                }
                semi
            },
            None => {
                proof {
                    lemma_rfind_char_correct(u@, ';');
                    if spec_rfind_char(u@, ';') is Some {
                        let sj = spec_rfind_char(u@, ';')->Some_0;
                        assert(u@[sj] != ';');
                    }
                }
                return None;
            },
        };
        if !(1 <= semi && semi < u.len() - 1) {
            return None;
        }
        let len_part = sub_chars(s, semi + 1, u.len() - 1);
        if parse_u64(len_part.as_slice()).is_none() {
            return None;
        }
        let inner = sub_chars(s, 1, semi);
        return nested_defined_name_exec(inner);
    }
    if u.len() == 0 {
        return None;
    }
    let cop = str_to_chars("COption");
    if u.len() >= cop.len() && crate::text::starts_with(s, cop.as_slice()) {
        return crate::scan::get_inside_item_vec(s, '<');
    }
    Some(u)
}

/// Decide whether a stripped text has a primitive shape.
fn is_prim_text_exec(s: &[char]) -> (r: bool)
    ensures
        r == is_prim_text(s@),
{
    let mut r = false;
    if eq_lit2(s, "bool") || eq_lit2(s, "u8") || eq_lit2(s, "i8") || eq_lit2(s, "u16") || eq_lit2(
        s,
        "i16",
    ) {
        r = true;
    }
    if eq_lit2(s, "u32") || eq_lit2(s, "i32") || eq_lit2(s, "f32") || eq_lit2(s, "u64") || eq_lit2(
        s,
        "i64",
    ) {
        r = true;
    }
    if eq_lit2(s, "f64") || eq_lit2(s, "u128") || eq_lit2(s, "i128") || eq_lit2(s, "String")
        || eq_lit2(s, "&str") {
        r = true;
    }
    if eq_lit2(s, "&'staticstr") || eq_lit2(s, "Pubkey") || eq_lit2(s, "Vec<u8>") || eq_lit2(
        s,
        "bytes",
    ) {
        r = true;
    }
    r
}

fn eq_lit2(s: &[char], lit: &str) -> (r: bool)
    ensures
        r == (s@ == lit@),
{
    let lv = str_to_chars(lit);
    crate::text::eq_chars(s, lv.as_slice())
}

/// The nested type name carried by one variant line of a tagged union: the
/// payload between parentheses, unwrapped once more between angle brackets
/// when there are any.
pub open spec fn enum_line_name(l: Seq<char>) -> Option<Seq<char>> {
    match spec_get_inside_item(l, '(') {
        Some(w) => match spec_get_inside_item(w, '<') {
            Some(w2) => Some(w2),
            None => Some(w),
        },
        None => None,
    }
}

/// An item text declares a one-field wrapper record on a single line.
pub open spec fn is_wrapper_item(item: Seq<char>) -> bool {
    let fl = spec_first_line(item);
    fl.len() >= 2 && fl.subrange(fl.len() - 2, fl.len() as int) == ");"@
}

/// The item text declares a tagged union.
pub open spec fn is_union_item(item: Seq<char>) -> bool {
    spec_item_info(item, 1) == Some("enum"@)
}

/// The nested type names of the lines of an item, in reading order: for a
/// tagged union the variant payload names, and for every field line the
/// defined name of its type; skipped lines contribute nothing.
pub open spec fn lines_nested_names(lines: Seq<Seq<char>>, is_union: bool) -> Seq<Seq<char>>
    decreases lines.len(),
{
    if lines.len() == 0 {
        Seq::empty()
    } else {
        let l = lines.first();
        let here = if is_skip_line(l) {
            Seq::empty()
        } else {
            (if is_union {
                match enum_line_name(l) {
                    Some(n) => seq![n],
                    None => Seq::empty(),
                }
            } else {
                Seq::<Seq<char>>::empty()
            }) + (match line_property(l) {
                Some(pt) => match nested_defined_name(strip_blanks(pt)) {
                    Some(n) => seq![n],
                    None => Seq::empty(),
                },
                None => Seq::empty(),
            })
        };
        here + lines_nested_names(lines.drop_first(), is_union)
    }
}

/// The nested type names referenced by an item text: for a one-line wrapper
/// the wrapped text, otherwise the names drawn from its lines.
pub open spec fn item_nested_names(item: Seq<char>) -> Seq<Seq<char>> {
    if is_wrapper_item(item) {
        match spec_get_inside_item(spec_first_line(item), '(') {
            Some(inside) => seq![inside],
            None => Seq::empty(),
        }
    } else {
        lines_nested_names(spec_lines(item), is_union_item(item))
    }
}

/// List the nested type names referenced by an item text.
#[verifier::rlimit(100)]
pub fn nested_names_of_item(item: &str) -> (r: Vec<String>)
    ensures
        r.deep_view() == item_nested_names(item@),
{
    proof {
        reveal_strlit(");");
    }
    let cv = str_to_chars(item);
    let fl = crate::scan::first_line_chars(cv.as_slice());
    let closer = str_to_chars(");");
    let mut r: Vec<String> = Vec::new();
    if crate::text::ends_with(fl.as_slice(), closer.as_slice()) {
        proof {
            assert(is_wrapper_item(item@));
        }
        match crate::scan::get_inside_item_vec(fl.as_slice(), '(') {
            Some(inside) => {
                let s = chars_to_string(&inside);
                r.push(s);
                proof {
                    assert(r.deep_view() =~= item_nested_names(item@));
                }
            },
            None => {
                proof {
                    assert(r.deep_view() =~= item_nested_names(item@));
                }
            },
        }
        return r;
    }
    let is_union = match crate::scan::get_item_type_from_full_item(item) {
        Some(t) => {
            let b = str_eq(t.as_str(), "enum");
            proof {
                if b {
                    assert(spec_item_info(item@, 1) == Some("enum"@));
                } else {
                    assert(spec_item_info(item@, 1) != Some("enum"@));
                }
            }
            b
        },
        None => {
            proof {
                assert(spec_item_info(item@, 1) != Some("enum"@));
            }
            false
        },
    };
    let lines = split_lines(cv.as_slice());
    let ghost dv = lines.deep_view();
    let mut li: usize = 0;
    proof {
        assert(dv.skip(0) =~= dv);
        assert(r.deep_view() =~= Seq::<Seq<char>>::empty());
    }
    while li < lines.len()
        invariant
            dv == lines.deep_view(),
            dv.len() == lines@.len(),
            0 <= li <= lines@.len(),
            is_union == is_union_item(item@),
            !is_wrapper_item(item@),
            item_nested_names(item@) == r.deep_view() + lines_nested_names(
                dv.skip(li as int),
                is_union,
            ),
        decreases lines@.len() - li,
    {
        let l: &Vec<char> = &lines[li];
        let ghost lseq = l@;
        proof {
            assert(dv[li as int] == lines@[li as int].deep_view());
            assert(lines@[li as int].deep_view() =~= lseq);
            assert(dv.skip(li as int).first() == lseq);
            assert(dv.skip(li as int).drop_first() =~= dv.skip(li + 1));
        }
        let ghost pre = r.deep_view();
        if !is_skip_line_exec_pub(l.as_slice()) {
            if is_union {
                match crate::scan::get_inside_item_vec(l.as_slice(), '(') {
                    Some(w) => match crate::scan::get_inside_item_vec(w.as_slice(), '<') {
                        Some(w2) => {
                            let s = chars_to_string(&w2);
                            push_name(&mut r, s);
                        },
                        None => {
                            let s = chars_to_string(&w);
                            push_name(&mut r, s);
                        },
                    },
                    None => {},
                }
            }
            match line_property_exec(l.as_slice()) {
                Some(pt) => {
                    let stripped = crate::types::strip_blanks_exec(pt.as_slice());
                    match nested_defined_name_exec(stripped) {
                        Some(n) => {
                            let s = chars_to_string(&n);
                            push_name(&mut r, s);
                        },
                        None => {},
                    }
                },
                None => {},
            }
        }
        proof {
            assert(r.deep_view() =~= pre + lines_here(lseq, is_union));
            assert(item_nested_names(item@) == r.deep_view() + lines_nested_names(
                dv.skip(li + 1),
                is_union,
            )) by {
                assert(lines_nested_names(dv.skip(li as int), is_union) == lines_here(
                    lseq,
                    is_union,
                ) + lines_nested_names(dv.skip(li + 1), is_union));
                assert(pre + (lines_here(lseq, is_union) + lines_nested_names(
                    dv.skip(li + 1),
                    is_union,
                )) =~= (pre + lines_here(lseq, is_union)) + lines_nested_names(
                    dv.skip(li + 1),
                    is_union,
                ));
            }
        }
        li += 1;
    }
    proof {
        assert(lines_nested_names(dv.skip(li as int), is_union) =~= Seq::<Seq<char>>::empty());
        assert(r.deep_view() =~= item_nested_names(item@));
    }
    r
}

/// What one line contributes to the nested names.
pub open spec fn lines_here(l: Seq<char>, is_union: bool) -> Seq<Seq<char>> {
    if is_skip_line(l) {
        Seq::empty()
    } else {
        (if is_union {
            match enum_line_name(l) {
                Some(n) => seq![n],
                None => Seq::empty(),
            }
        } else {
            Seq::<Seq<char>>::empty()
        }) + (match line_property(l) {
            Some(pt) => match nested_defined_name(strip_blanks(pt)) {
                Some(n) => seq![n],
                None => Seq::empty(),
            },
            None => Seq::empty(),
        })
    }
}

/// Append one name, growing the listed views by its characters.
pub fn push_name(r: &mut Vec<String>, s: String)
    ensures
        final(r).deep_view() == old(r).deep_view().push(s@),
{
    let ghost before = r.deep_view();
    let ghost sv = s@;
    r.push(s);
    proof {
        assert(r.deep_view() =~= before.push(sv)) by {
            assert(forall|k: int| 0 <= k < before.len() ==> r.deep_view()[k] == before[k]);
            assert(r.deep_view()[before.len() as int] == sv);
        }
    }
}


/// The defined type name a field type text ultimately refers to, unwrapping
/// one wrapper level at a time and looking through a nullable-wrapped alias.
pub fn get_inside_defined_type_name_from_str(ty_text: &str) -> (r: Option<String>)
    ensures
        match r {
            Some(v) => nested_defined_name(strip_blanks(ty_text@)) == Some(v@),
            None => nested_defined_name(strip_blanks(ty_text@)) is None,
        },
{
    let cv = str_to_chars(ty_text);
    let stripped = crate::types::strip_blanks_exec(cv.as_slice());
    match nested_defined_name_exec(stripped) {
        Some(v) => Some(chars_to_string(&v)),
        None => None,
    }
}

/// Whether a list of names holds `n`.
pub fn contains_name(v: &Vec<String>, n: &str) -> (r: bool)
    ensures
        r == v.deep_view().contains(n@),
{
    let mut i: usize = 0;
    while i < v.len()
        invariant
            0 <= i <= v@.len(),
            forall|k: int| 0 <= k < i ==> v.deep_view()[k] != n@,
        decreases v@.len() - i,
    {
        proof {
            assert(v.deep_view()[i as int] == v@[i as int].deep_view());
        }
        if str_eq(v[i].as_str(), n) {
            proof {
                assert(v.deep_view()[i as int] == n@);
            }
            return true;
        }
        i += 1;
    }
    proof {
        if v.deep_view().contains(n@) {
            let k = choose|k: int| 0 <= k < v.deep_view().len() && v.deep_view()[k] == n@;
            assert(v.deep_view()[k] != n@);
        }
    }
    false
}

/// Adding an entry under a name that is already listed changes nothing;
/// a new name is appended together with its text.
pub open spec fn spec_add_entry(
    names: Seq<Seq<char>>,
    texts: Seq<Seq<char>>,
    name: Seq<char>,
    text: Seq<char>,
) -> (Seq<Seq<char>>, Seq<Seq<char>>) {
    if names.contains(name) {
        (names, texts)
    } else {
        (names.push(name), texts.push(text))
    }
}

/// Resolving the same name twice collects it once: a second identical
/// addition leaves the lists exactly as the first left them.
pub proof fn lemma_add_entry_idempotent(
    names: Seq<Seq<char>>,
    texts: Seq<Seq<char>>,
    name: Seq<char>,
    text: Seq<char>,
)
    ensures
        ({
            let (n1, t1) = spec_add_entry(names, texts, name, text);
            spec_add_entry(n1, t1, name, text) == (n1, t1)
        }),
{
    if !names.contains(name) {
        assert(names.push(name)[names.len() as int] == name);
        assert(names.push(name).contains(name));
    }
}

/// The accumulated output of the resolver.
pub struct TypeCollector {
    /// Every type ever resolved, by first-definition order: the names.
    pub all_type_names: Vec<String>,
    /// The item texts, parallel to the names.
    pub all_types: Vec<String>,
    /// Names replaced through the substitution table.
    pub replaced: Vec<String>,
    /// Names that resolved nowhere, each recorded once.
    pub irresolvable: Vec<String>,
    /// Every name the walk has processed.
    pub visited: Vec<String>,
}

impl TypeCollector {
    /// The lists are parallel and hold each name once.
    pub open spec fn wf(self) -> bool {
        &&& self.all_type_names@.len() == self.all_types@.len()
        &&& (forall|i: int, j: int|
            0 <= i < j < self.all_type_names.deep_view().len()
                ==> self.all_type_names.deep_view()[i] != self.all_type_names.deep_view()[j])
    }

    /// Record one resolved item under its name, first definition winning.
    pub fn add(&mut self, name: String, text: String)
        requires
            old(self).wf(),
        ensures
            final(self).wf(),
            (final(self).all_type_names.deep_view(), final(self).all_types.deep_view())
                == spec_add_entry(
                old(self).all_type_names.deep_view(),
                old(self).all_types.deep_view(),
                name@,
                text@,
            ),
            final(self).replaced == old(self).replaced,
            final(self).irresolvable == old(self).irresolvable,
            final(self).visited == old(self).visited,
    {
        let ghost old_names = self.all_type_names.deep_view();
        let ghost old_texts = self.all_types.deep_view();
        let ghost nv = name@;
        let ghost tv = text@;
        if contains_name(&self.all_type_names, name.as_str()) {
            return ;
        }
        self.all_type_names.push(name);
        self.all_types.push(text);
        proof {
            assert(self.all_type_names.deep_view() =~= old_names.push(nv)) by {
                assert(forall|k: int|
                    0 <= k < old_names.len() ==> self.all_type_names.deep_view()[k]
                        == old_names[k]);
                assert(self.all_type_names.deep_view()[old_names.len() as int] == nv);
            }
            assert(self.all_types.deep_view() =~= old_texts.push(tv)) by {
                assert(forall|k: int|
                    0 <= k < old_texts.len() ==> self.all_types.deep_view()[k] == old_texts[k]);
                assert(self.all_types.deep_view()[old_texts.len() as int] == tv);
            }
            assert(forall|i: int, j: int|
                0 <= i < j < self.all_type_names.deep_view().len()
                    ==> self.all_type_names.deep_view()[i]
                    != self.all_type_names.deep_view()[j]) by {
                assert(forall|i: int|
                    0 <= i < old_names.len() ==> self.all_type_names.deep_view()[i]
                        == old_names[i]);
                assert(!old_names.contains(nv));
            }
        }
    }
}

/// Provenance of one collected entry: a span cut at a record marker of the
/// state source, stored under its own name token, or the local resolution
/// of the stored name in the merged source.
pub open spec fn valid_entry(
    name: Seq<char>,
    text: Seq<char>,
    state: Seq<char>,
    all: Seq<char>,
) -> bool {
    ||| (spec_item_info(text, 2) == Some(name) && exists|k: int|
        crate::text::match_at(state, "pub struct"@, k) && text == crate::scan::spec_get_item(
            #[trigger] state.skip(k),
            '{',
        ))
    ||| crate::scan::spec_local_type(name, all) == Some(text)
}

/// Every record declaration of the state source stands in the collected
/// names, under the name token of its span.
pub open spec fn roots_collected(names: Seq<Seq<char>>, state: Seq<char>) -> bool {
    forall|j: int|
        0 <= j < crate::scan::spec_occurrences(state, "pub struct"@, 0).len()
            ==> match spec_item_info(
            crate::scan::spec_get_item(
                state.skip(#[trigger] crate::scan::spec_occurrences(state, "pub struct"@, 0)[j]),
                '{',
            ),
            2,
        ) {
            Some(nm) => names.contains(nm),
            None => true,
        }
}

/// Every processed name that has a local definition has been collected.
pub open spec fn visited_resolved(
    visited: Seq<Seq<char>>,
    names: Seq<Seq<char>>,
    all: Seq<char>,
) -> bool {
    forall|v: int|
        0 <= v < visited.len() && crate::scan::spec_local_type(#[trigger] visited[v], all)
            is Some ==> names.contains(visited[v])
}

/// No name stands twice in the list.
pub open spec fn names_unique(names: Seq<Seq<char>>) -> bool {
    forall|i: int, j: int| 0 <= i < j < names.len() ==> names[i] != names[j]
}

/// Adding an entry keeps every listed name listed.
pub proof fn lemma_add_keeps_names(
    names: Seq<Seq<char>>,
    texts: Seq<Seq<char>>,
    name: Seq<char>,
    text: Seq<char>,
)
    ensures
        forall|x: Seq<char>|
            names.contains(x) ==> #[trigger] spec_add_entry(names, texts, name, text).0.contains(
                x,
            ),
        spec_add_entry(names, texts, name, text).0.contains(name),
{
    if !names.contains(name) {
        assert forall|x: Seq<char>| names.contains(x) implies names.push(name).contains(x) by {
            lemma_contains_after_push(names, x, name);
        }
        assert(names.push(name)[names.len() as int] == name);
    }
}

/// A name recorded as irresolvable: no local definition, no substitution,
/// yet shaped like a defined type reference and not a tuple of names.
pub open spec fn irresolvable_prop(n: Seq<char>, all: Seq<char>) -> bool {
    &&& crate::scan::spec_local_type(n, all) is None
    &&& spec_replaceable(n) is None
    &&& spec_is_type_defined(n)
    &&& !contains_sub(n, ","@)
}


/// Each listed occurrence position carries a match of the pattern.
pub proof fn lemma_occurrences_are_matches(s: Seq<char>, pat: Seq<char>, from: int)
    requires
        0 <= from,
        pat.len() >= 1,
    ensures
        forall|j: int|
            0 <= j < crate::scan::spec_occurrences(s, pat, from).len()
                ==> crate::text::match_at(
                s,
                pat,
                #[trigger] crate::scan::spec_occurrences(s, pat, from)[j],
            ),
    decreases s.len() - from,
{
    lemma_find_sub_correct(s, pat, from);
    match spec_find_sub(s, pat, from) {
        None => {},
        Some(i) => {
            lemma_occurrences_are_matches(s, pat, i + pat.len());
            let occ = crate::scan::spec_occurrences(s, pat, from);
            let rest = crate::scan::spec_occurrences(s, pat, i + pat.len());
            assert(forall|j: int| 1 <= j < occ.len() ==> occ[j] == rest[j - 1]);
        },
    }
}

pub proof fn lemma_contains_after_push(s: Seq<Seq<char>>, x: Seq<char>, y: Seq<char>)
    requires
        s.contains(x),
    ensures
        s.push(y).contains(x),
{
    let k = choose|k: int| 0 <= k < s.len() && s[k] == x;
    assert(s.push(y)[k] == x);
}

/// The closure property: every nested name of every collected entry is
/// either already processed or still queued.
pub open spec fn closure_inv(
    texts: Seq<Seq<char>>,
    visited: Seq<Seq<char>>,
    pending: Seq<Seq<char>>,
) -> bool {
    forall|i: int, j: int|
        0 <= i < texts.len() && 0 <= j < item_nested_names(#[trigger] texts[i]).len()
            ==> visited.contains(#[trigger] item_nested_names(texts[i])[j]) || pending.contains(
            item_nested_names(texts[i])[j],
        )
}

/// Resolve the type graph rooted at the record declarations of the state
/// source: a worklist walk that resolves each nested name once, records
/// substitutions and irresolvable names, and stops after `max_steps` steps.
/// The second result says whether the worklist was drained; when it was,
/// every nested name of every collected item has been processed.
#[verifier::rlimit(100)]
pub fn collect_types(state_content: &str, all_content: &str, max_steps: u64) -> (r: (
    TypeCollector,
    bool,
))
    ensures
        r.0.wf(),
        forall|i: int|
            0 <= i < r.0.all_types.deep_view().len() ==> valid_entry(
                r.0.all_type_names.deep_view()[i],
                #[trigger] r.0.all_types.deep_view()[i],
                state_content@,
                all_content@,
            ),
        r.1 ==> closure_inv(
            r.0.all_types.deep_view(),
            r.0.visited.deep_view(),
            Seq::empty(),
        ),
        forall|k: int|
            0 <= k < r.0.irresolvable.deep_view().len() ==> irresolvable_prop(
                #[trigger] r.0.irresolvable.deep_view()[k],
                all_content@,
            ),
        roots_collected(r.0.all_type_names.deep_view(), state_content@),
        visited_resolved(
            r.0.visited.deep_view(),
            r.0.all_type_names.deep_view(),
            all_content@,
        ),
        forall|k: int|
            0 <= k < r.0.replaced.deep_view().len() ==> spec_replaceable(
                #[trigger] r.0.replaced.deep_view()[k],
            ) is Some,
        names_unique(r.0.replaced.deep_view()),
        names_unique(r.0.irresolvable.deep_view()),
{
    proof {
        reveal_strlit("pub struct");
        reveal_strlit(",");
    }
    let mut c = TypeCollector {
        all_type_names: Vec::new(),
        all_types: Vec::new(),
        replaced: Vec::new(),
        irresolvable: Vec::new(),
        visited: Vec::new(),
    };
    let mut queue: Vec<String> = Vec::new();
    proof {
        assert(c.all_types.deep_view() =~= Seq::<Seq<char>>::empty());
        assert(c.all_type_names.deep_view() =~= Seq::<Seq<char>>::empty());
        assert(c.irresolvable.deep_view() =~= Seq::<Seq<char>>::empty());
        assert(queue.deep_view() =~= Seq::<Seq<char>>::empty());
    }
    // Roots: every record declaration of the state source.
    let idxs = crate::scan::get_item_indices(state_content, "pub struct");
    let scv = str_to_chars(state_content);
    let mut k: usize = 0;
    proof {
        lemma_occurrences_are_matches(state_content@, "pub struct"@, 0);
    }
    while k < idxs.len()
        invariant
            c.wf(),
            scv@ == state_content@,
            forall|j: int|
                0 <= j < crate::scan::spec_occurrences(state_content@, "pub struct"@, 0).len()
                    ==> crate::text::match_at(
                    state_content@,
                    "pub struct"@,
                    #[trigger] crate::scan::spec_occurrences(state_content@, "pub struct"@, 0)[j],
                ),
            idxs@.len() == crate::scan::spec_occurrences(state_content@, "pub struct"@, 0).len(),
            forall|j: int|
                0 <= j < idxs@.len() ==> (#[trigger] idxs@[j]).1 == crate::scan::spec_occurrences(
                    state_content@,
                    "pub struct"@,
                    0,
                )[j],
            "pub struct"@.len() >= 1,
            forall|i: int|
                0 <= i < c.all_types.deep_view().len() ==> valid_entry(
                    c.all_type_names.deep_view()[i],
                    #[trigger] c.all_types.deep_view()[i],
                    state_content@,
                    all_content@,
                ),
            closure_inv(c.all_types.deep_view(), c.visited.deep_view(), queue.deep_view()),
            forall|q: int|
                0 <= q < c.irresolvable.deep_view().len() ==> irresolvable_prop(
                    #[trigger] c.irresolvable.deep_view()[q],
                    all_content@,
                ),
            c.visited.deep_view() == Seq::<Seq<char>>::empty(),
            c.replaced.deep_view() == Seq::<Seq<char>>::empty(),
            c.irresolvable.deep_view() == Seq::<Seq<char>>::empty(),
            forall|j: int|
                0 <= j < k ==> match spec_item_info(
                    crate::scan::spec_get_item(
                        state_content@.skip(
                            #[trigger] crate::scan::spec_occurrences(
                                state_content@,
                                "pub struct"@,
                                0,
                            )[j],
                        ),
                        '{',
                    ),
                    2,
                ) {
                    Some(nm) => c.all_type_names.deep_view().contains(nm),
                    None => true,
                },
        decreases idxs@.len() - k,
    {
        let pos = idxs[k].1;
        proof {
            assert(idxs@[k as int].1 == crate::scan::spec_occurrences(
                state_content@,
                "pub struct"@,
                0,
            )[k as int]);
            assert(crate::text::match_at(state_content@, "pub struct"@, pos as int));
        }
        let tail = sub_chars(scv.as_slice(), pos, scv.len());
        let tail_str = chars_to_string(&tail);
        proof {
            assert(tail_str@ =~= state_content@.skip(pos as int));
        }
        let text = crate::scan::get_item(tail_str.as_str(), '{');
        let nested = nested_names_of_item(text.as_str());
        let ghost old_qdv = queue.deep_view();
        let mut m: usize = 0;
        while m < nested.len()
            invariant
                0 <= m <= nested@.len(),
                nested.deep_view() == item_nested_names(text@),
                queue.deep_view() == old_qdv + nested.deep_view().take(m as int),
            decreases nested@.len() - m,
        {
            proof {
                assert(nested.deep_view()[m as int] == nested@[m as int].deep_view());
            }
            let part = nested[m].clone();
            push_name(&mut queue, part);
            proof {
                assert(queue.deep_view() =~= old_qdv + nested.deep_view().take(m + 1));
            }
            m += 1;
        }
        proof {
            assert(nested.deep_view().take(nested.deep_view().len() as int) =~= nested.deep_view());
        }
        match crate::scan::get_item_name_from_full_item(text.as_str()) {
            Some(nm) => {
                let ghost pre_texts = c.all_types.deep_view();
                let ghost pre_names = c.all_type_names.deep_view();
                let ghost nmv = nm@;
                let ghost txv = text@;
                c.add(nm, text);
                proof {
                    // every old queue element stays present
                    assert(forall|x: Seq<char>|
                        old_qdv.contains(x) ==> queue.deep_view().contains(x)) by {
                        assert(forall|q: int|
                            0 <= q < old_qdv.len() ==> queue.deep_view()[q] == old_qdv[q]);
                    }
                    // the new entry's nested names are all queued
                    assert(forall|j: int|
                        0 <= j < item_nested_names(txv).len() ==> queue.deep_view().contains(
                            #[trigger] item_nested_names(txv)[j],
                        )) by {
                        assert(forall|j: int|
                            0 <= j < item_nested_names(txv).len() ==> queue.deep_view()[old_qdv.len()
                                + j] == item_nested_names(txv)[j]);
                    }
                    if !pre_names.contains(nmv) {
                        assert(c.all_types.deep_view() == pre_texts.push(txv));
                        assert(forall|i: int|
                            0 <= i < pre_texts.len() ==> c.all_types.deep_view()[i]
                                == pre_texts[i]);
                        assert(valid_entry(nmv, txv, state_content@, all_content@)) by {
                            assert(spec_item_info(txv, 2) == Some(nmv));
                            assert(crate::text::match_at(state_content@, "pub struct"@, pos as int));
                            assert(txv == crate::scan::spec_get_item(
                                state_content@.skip(pos as int),
                                '{',
                            ));
                        }
                    }
                    lemma_add_keeps_names(pre_names, pre_texts, nmv, txv);
                    assert(c.all_type_names.deep_view().contains(nmv));
                    assert(spec_item_info(txv, 2) == Some(nmv));
                }
            },
            None => {
                proof {
                    assert(forall|x: Seq<char>|
                        old_qdv.contains(x) ==> queue.deep_view().contains(x)) by {
                        assert(forall|q: int|
                            0 <= q < old_qdv.len() ==> queue.deep_view()[q] == old_qdv[q]);
                    }
                }
            },
        }
        k += 1;
    }
    // The worklist: resolve each queued name once.
    let mut qi: usize = 0;
    let mut steps: u64 = 0;
    let acv = str_to_chars(all_content);
    proof {
        assert(queue.deep_view().skip(0) =~= queue.deep_view());
    }
    while qi < queue.len() && steps < max_steps
        invariant
            c.wf(),
            acv@ == all_content@,
            0 <= qi <= queue@.len(),
            forall|i: int|
                0 <= i < c.all_types.deep_view().len() ==> valid_entry(
                    c.all_type_names.deep_view()[i],
                    #[trigger] c.all_types.deep_view()[i],
                    state_content@,
                    all_content@,
                ),
            closure_inv(
                c.all_types.deep_view(),
                c.visited.deep_view(),
                queue.deep_view().skip(qi as int),
            ),
            forall|q: int|
                0 <= q < c.irresolvable.deep_view().len() ==> irresolvable_prop(
                    #[trigger] c.irresolvable.deep_view()[q],
                    all_content@,
                ),
            roots_collected(c.all_type_names.deep_view(), state_content@),
            visited_resolved(
                c.visited.deep_view(),
                c.all_type_names.deep_view(),
                all_content@,
            ),
            forall|q: int|
                0 <= q < c.replaced.deep_view().len() ==> spec_replaceable(
                    #[trigger] c.replaced.deep_view()[q],
                ) is Some,
            names_unique(c.replaced.deep_view()),
            names_unique(c.irresolvable.deep_view()),
        decreases max_steps - steps,
    {
        proof {
            reveal_strlit(",");
        }
        let name_s: String = queue[qi].clone();
        let ghost nsv = name_s@;
        let ghost qdv0 = queue.deep_view();
        let ghost qi0 = qi as int;
        proof {
            assert(queue.deep_view()[qi as int] == queue@[qi as int].deep_view());
            assert(nsv == queue.deep_view()[qi as int]);
        }
        qi += 1;
        steps += 1;
        if contains_name(&c.visited, name_s.as_str()) {
            proof {
                lemma_pop_to_visited(qdv0, qi0, c.visited.deep_view(), nsv);
                lemma_closure_after_pop(
                    c.all_types.deep_view(),
                    c.visited.deep_view(),
                    qdv0,
                    qi0,
                    nsv,
                );
            }
            continue ;
        }
        let ghost pre_vis = c.visited.deep_view();
        push_name(&mut c.visited, name_s.clone());
        proof {
            assert(c.visited.deep_view().contains(nsv)) by {
                assert(c.visited.deep_view()[pre_vis.len() as int] == nsv);
            }
            assert(forall|x: Seq<char>| pre_vis.contains(x) ==> c.visited.deep_view().contains(x))
                by {
                assert(forall|q: int|
                    0 <= q < pre_vis.len() ==> c.visited.deep_view()[q] == pre_vis[q]);
            }
            assert(closure_inv(c.all_types.deep_view(), c.visited.deep_view(), qdv0.skip(qi0)));
            lemma_closure_after_pop(
                c.all_types.deep_view(),
                c.visited.deep_view(),
                qdv0,
                qi0,
                nsv,
            );
        }
        match crate::scan::get_local_type(name_s.as_str(), all_content) {
            Some(text) => {
                let nested = nested_names_of_item(text.as_str());
                let ghost old_qdv = queue.deep_view();
                let mut m: usize = 0;
                while m < nested.len()
                    invariant
                        0 <= m <= nested@.len(),
                        nested.deep_view() == item_nested_names(text@),
                        queue.deep_view() == old_qdv + nested.deep_view().take(m as int),
                    decreases nested@.len() - m,
                {
                    proof {
                        assert(nested.deep_view()[m as int] == nested@[m as int].deep_view());
                    }
                    let part = nested[m].clone();
                    push_name(&mut queue, part);
                    proof {
                        assert(queue.deep_view() =~= old_qdv + nested.deep_view().take(m + 1));
                    }
                    m += 1;
                }
                proof {
                    assert(nested.deep_view().take(nested.deep_view().len() as int)
                        =~= nested.deep_view());
                    assert(qi <= old_qdv.len());
                    assert(forall|x: Seq<char>|
                        old_qdv.skip(qi as int).contains(x) ==> queue.deep_view().skip(
                            qi as int,
                        ).contains(x)) by {
                        assert(forall|q: int|
                            0 <= q < old_qdv.len() - qi ==> queue.deep_view().skip(qi as int)[q]
                                == old_qdv.skip(qi as int)[q]);
                    }
                }
                let ghost pre_texts = c.all_types.deep_view();
                let ghost pre_names = c.all_type_names.deep_view();
                let ghost txv = text@;
                c.add(name_s.clone(), text);
                proof {
                    assert(forall|j: int|
                        0 <= j < item_nested_names(txv).len() ==> queue.deep_view().skip(
                            qi as int,
                        ).contains(#[trigger] item_nested_names(txv)[j])) by {
                        assert(forall|j: int|
                            0 <= j < item_nested_names(txv).len() ==> queue.deep_view().skip(
                                qi as int,
                            )[old_qdv.len() - qi + j] == item_nested_names(txv)[j]);
                    }
                    if !pre_names.contains(nsv) {
                        assert(c.all_types.deep_view() == pre_texts.push(txv));
                        assert(forall|i: int|
                            0 <= i < pre_texts.len() ==> c.all_types.deep_view()[i]
                                == pre_texts[i]);
                        assert(valid_entry(nsv, txv, state_content@, all_content@)) by {
                            assert(crate::scan::spec_local_type(nsv, all_content@) == Some(txv));
                        }
                    }
                    lemma_add_keeps_names(pre_names, pre_texts, nsv, txv);
                    assert(c.all_type_names.deep_view().contains(nsv));
                    assert(roots_collected(c.all_type_names.deep_view(), state_content@)) by {
                        assert(forall|x: Seq<char>|
                            pre_names.contains(x) ==> c.all_type_names.deep_view().contains(x));
                    }
                    assert(visited_resolved(
                        c.visited.deep_view(),
                        c.all_type_names.deep_view(),
                        all_content@,
                    )) by {
                        assert(forall|x: Seq<char>|
                            pre_names.contains(x) ==> c.all_type_names.deep_view().contains(x));
                    }
                }
            },
            None => {
                match replaceable_alias(name_s.as_str()) {
                    Some(_) => {
                        if !contains_name(&c.replaced, name_s.as_str()) {
                            let ghost pre_rep = c.replaced.deep_view();
                            push_name(&mut c.replaced, name_s);
                            proof {
                                assert(forall|q: int|
                                    0 <= q < pre_rep.len() ==> c.replaced.deep_view()[q]
                                        == pre_rep[q]);
                                assert(c.replaced.deep_view()[pre_rep.len() as int] == nsv);
                                assert(names_unique(c.replaced.deep_view())) by {
                                    assert(!pre_rep.contains(nsv));
                                }
                            }
                        }
                    },
                    None => {
                        if is_type_defined(name_s.as_str()) {
                            let ncv = str_to_chars(name_s.as_str());
                            if contains_lit(ncv.as_slice(), ",") {
                                // a tuple of names: queue each part
                                let parts = split_on_comma(ncv.as_slice());
                                let mut m: usize = 0;
                                let ghost old_qdv = queue.deep_view();
                                while m < parts.len()
                                    invariant
                                        0 <= m <= parts@.len(),
                                        queue.deep_view() == old_qdv + parts.deep_view().take(
                                            m as int,
                                        ),
                                    decreases parts@.len() - m,
                                {
                                    proof {
                                        assert(parts.deep_view()[m as int]
                                            == parts@[m as int].deep_view());
                                    }
                                    let part = parts[m].clone();
                                    push_name(&mut queue, part);
                                    proof {
                                        assert(queue.deep_view() =~= old_qdv
                                            + parts.deep_view().take(m + 1));
                                    }
                                    m += 1;
                                }
                                proof {
                                    assert(qi <= old_qdv.len());
                                    assert(forall|x: Seq<char>|
                                        old_qdv.skip(qi as int).contains(x)
                                            ==> queue.deep_view().skip(qi as int).contains(x)) by {
                                        assert(forall|q: int|
                                            0 <= q < old_qdv.len() - qi ==> queue.deep_view().skip(
                                                qi as int,
                                            )[q] == old_qdv.skip(qi as int)[q]);
                                    }
                                }
                            } else {
                                if !contains_name(&c.irresolvable, name_s.as_str()) {
                                    let ghost pre_irr = c.irresolvable.deep_view();
                                    push_name(&mut c.irresolvable, name_s);
                                    proof {
                                        assert(forall|q: int|
                                            0 <= q < pre_irr.len()
                                                ==> c.irresolvable.deep_view()[q] == pre_irr[q]);
                                        assert(c.irresolvable.deep_view()[pre_irr.len() as int]
                                            == nsv);
                                        assert(irresolvable_prop(nsv, all_content@));
                                        assert(names_unique(c.irresolvable.deep_view())) by {
                                            assert(!pre_irr.contains(nsv));
                                        }
                                    }
                                }
                            }
                        }
                    },
                }
            },
        }
    }
    let complete = qi >= queue.len();
    proof {
        if qi >= queue@.len() {
            assert(queue.deep_view().skip(qi as int) =~= Seq::<Seq<char>>::empty());
        }
    }
    (c, complete)
}

/// Once the popped name is among the visited, the closure property carries
/// over to the shortened queue.
proof fn lemma_pop_to_visited(qdv: Seq<Seq<char>>, qi: int, visited: Seq<Seq<char>>, popped: Seq<
    char,
>)
    requires
        0 <= qi < qdv.len(),
        qdv[qi] == popped,
        visited.contains(popped),
    ensures
        forall|x: Seq<char>|
            qdv.skip(qi).contains(x) ==> visited.contains(x) || qdv.skip(qi + 1).contains(x),
{
    assert forall|x: Seq<char>| qdv.skip(qi).contains(x) implies visited.contains(x) || qdv.skip(
        qi + 1,
    ).contains(x) by {
        let k = choose|k: int| 0 <= k < qdv.skip(qi).len() && qdv.skip(qi)[k] == x;
        if k == 0 {
            assert(x == popped);
        } else {
            assert(qdv.skip(qi + 1)[k - 1] == x);
        }
    }
}

proof fn lemma_closure_after_pop(
    texts: Seq<Seq<char>>,
    visited: Seq<Seq<char>>,
    qdv: Seq<Seq<char>>,
    qi: int,
    popped: Seq<char>,
)
    requires
        0 <= qi < qdv.len(),
        qdv[qi] == popped,
        visited.contains(popped),
        closure_inv(texts, visited, qdv.skip(qi)),
    ensures
        closure_inv(texts, visited, qdv.skip(qi + 1)),
{
    lemma_pop_to_visited(qdv, qi, visited, popped);
}

/// Split a name list on commas, trimming each part.
fn split_on_comma(s: &[char]) -> (r: Vec<String>)
{
    let mut r: Vec<String> = Vec::new();
    let mut start: usize = 0;
    loop
        invariant
            0 <= start <= s@.len() + 1,
        decreases s@.len() + 1 - start,
    {
        if start > s.len() {
            return r;
        }
        match crate::text::find_char_from(s, ',', start) {
            Some(i) => {
                let part = sub_chars(s, start, i);
                let t = trim_chars(part.as_slice());
                r.push(chars_to_string(&t));
                start = i + 1;
            },
            None => {
                let part = sub_chars(s, start, s.len());
                let t = trim_chars(part.as_slice());
                r.push(chars_to_string(&t));
                return r;
            },
        }
    }
}


/// The name is used somewhere else in the merged source as a return type,
/// a parameter type, or a generic argument.
pub open spec fn spec_used_elsewhere(name: Seq<char>, all: Seq<char>) -> bool {
    ||| contains_sub(all, "-> "@ + name)
    ||| contains_sub(all, ": "@ + name + ","@)
    ||| contains_sub(all, ": "@ + name + ")"@)
    ||| contains_sub(all, "<"@ + name + ", "@)
}

/// Decide whether a type name is used elsewhere in the merged source.
pub fn used_elsewhere(name: &str, all_content: &str) -> (r: bool)
    ensures
        r == spec_used_elsewhere(name@, all_content@),
{
    proof {
        reveal_strlit("-> ");
        reveal_strlit(": ");
        reveal_strlit(",");
        reveal_strlit(")");
        reveal_strlit("<");
        reveal_strlit(", ");
    }
    let cv = str_to_chars(all_content);
    let nv = str_to_chars(name);
    let mut p1 = str_to_chars("-> ");
    push_all(&mut p1, nv.as_slice());
    let mut p2 = str_to_chars(": ");
    push_all(&mut p2, nv.as_slice());
    let c1 = str_to_chars(",");
    push_all(&mut p2, c1.as_slice());
    let mut p3 = str_to_chars(": ");
    push_all(&mut p3, nv.as_slice());
    let c2 = str_to_chars(")");
    push_all(&mut p3, c2.as_slice());
    let mut p4 = str_to_chars("<");
    push_all(&mut p4, nv.as_slice());
    let c3 = str_to_chars(", ");
    push_all(&mut p4, c3.as_slice());
    let f1 = match find_sub_from(cv.as_slice(), p1.as_slice(), 0) {
        Some(_) => true,
        None => false,
    };
    let f2 = match find_sub_from(cv.as_slice(), p2.as_slice(), 0) {
        Some(_) => true,
        None => false,
    };
    let f3 = match find_sub_from(cv.as_slice(), p3.as_slice(), 0) {
        Some(_) => true,
        None => false,
    };
    let f4 = match find_sub_from(cv.as_slice(), p4.as_slice(), 0) {
        Some(_) => true,
        None => false,
    };
    f1 || f2 || f3 || f4
}

/// The names of `names` that are used elsewhere in the merged source, in
/// their given order: the retained types.
pub open spec fn spec_retained(names: Seq<Seq<char>>, all: Seq<char>) -> Seq<Seq<char>>
    decreases names.len(),
{
    if names.len() == 0 {
        Seq::empty()
    } else {
        spec_retained(names.drop_last(), all) + if spec_used_elsewhere(names.last(), all) {
            seq![names.last()]
        } else {
            Seq::empty()
        }
    }
}

/// Keep the types that the merged source uses elsewhere.
pub fn retained_types(names: &Vec<String>, all_content: &str) -> (r: Vec<String>)
    ensures
        r.deep_view() == spec_retained(names.deep_view(), all_content@),
{
    let mut r: Vec<String> = Vec::new();
    let mut i: usize = 0;
    let ghost dv = names.deep_view();
    proof {
        assert(dv.take(0) =~= Seq::<Seq<char>>::empty());
        assert(r.deep_view() =~= spec_retained(dv.take(0), all_content@));
    }
    while i < names.len()
        invariant
            dv == names.deep_view(),
            0 <= i <= names@.len(),
            r.deep_view() == spec_retained(dv.take(i as int), all_content@),
        decreases names@.len() - i,
    {
        proof {
            assert(dv.take(i + 1).drop_last() =~= dv.take(i as int));
            assert(dv.take(i + 1).last() == dv[i as int]);
            assert(dv[i as int] == names@[i as int].deep_view());
        }
        if used_elsewhere(names[i].as_str(), all_content) {
            push_name(&mut r, names[i].clone());
        }
        proof {
            assert(r.deep_view() =~= spec_retained(dv.take(i + 1), all_content@));
        }
        i += 1;
    }
    proof {
        assert(dv.take(dv.len() as int) =~= dv);
    }
    r
}

/// Total occurrences of `name` across the base text and the listed item
/// texts.
pub open spec fn sum_occurrences(name: Seq<char>, texts: Seq<Seq<char>>) -> nat
    decreases texts.len(),
{
    if texts.len() == 0 {
        0
    } else {
        crate::scan::spec_occurrences(texts.first(), name, 0).len() + sum_occurrences(
            name,
            texts.drop_first(),
        )
    }
}

pub open spec fn occ_total(name: Seq<char>, base: Seq<char>, texts: Seq<Seq<char>>) -> nat {
    crate::scan::spec_occurrences(base, name, 0).len() + sum_occurrences(name, texts)
}

/// One pruning pass: keep exactly the entries whose name occurs other than
/// once across the base text and all currently kept texts.
pub open spec fn pass_kept(
    names: Seq<Seq<char>>,
    texts: Seq<Seq<char>>,
    base: Seq<char>,
    i: int,
) -> (Seq<Seq<char>>, Seq<Seq<char>>)
    decreases names.len() - i,
{
    if i < 0 || i >= names.len() || names.len() != texts.len() {
        (Seq::empty(), Seq::empty())
    } else {
        let rest = pass_kept(names, texts, base, i + 1);
        if names[i].len() >= 1 && occ_total(names[i], base, texts) != 1 {
            (seq![names[i]] + rest.0, seq![texts[i]] + rest.1)
        } else {
            rest
        }
    }
}

/// Pruning to a fixed point: passes repeat until one removes nothing.
pub open spec fn spec_prune(
    names: Seq<Seq<char>>,
    texts: Seq<Seq<char>>,
    base: Seq<char>,
    fuel: nat,
) -> (Seq<Seq<char>>, Seq<Seq<char>>)
    decreases fuel,
{
    if fuel == 0 || names.len() != texts.len() {
        (names, texts)
    } else {
        let kept = pass_kept(names, texts, base, 0);
        if kept.0.len() == names.len() {
            (names, texts)
        } else {
            spec_prune(kept.0, kept.1, base, (fuel - 1) as nat)
        }
    }
}

/// A pass keeps no more entries than it was given, and keeping them all
/// means it changed nothing.
pub proof fn lemma_pass_kept_len(
    names: Seq<Seq<char>>,
    texts: Seq<Seq<char>>,
    base: Seq<char>,
    i: int,
)
    requires
        0 <= i <= names.len(),
        names.len() == texts.len(),
    ensures
        pass_kept(names, texts, base, i).0.len() <= names.len() - i,
        pass_kept(names, texts, base, i).0.len() == pass_kept(names, texts, base, i).1.len(),
        pass_kept(names, texts, base, i).0.len() == names.len() - i ==> pass_kept(
            names,
            texts,
            base,
            i,
        ) == (names.skip(i), texts.skip(i)),
    decreases names.len() - i,
{
    if i < names.len() {
        lemma_pass_kept_len(names, texts, base, i + 1);
        let rest = pass_kept(names, texts, base, i + 1);
        if pass_kept(names, texts, base, i).0.len() == names.len() - i {
            assert(rest.0.len() == names.len() - i - 1);
            assert(rest == (names.skip(i + 1), texts.skip(i + 1)));
            assert(seq![names[i]] + names.skip(i + 1) =~= names.skip(i));
            assert(seq![texts[i]] + texts.skip(i + 1) =~= texts.skip(i));
        }
    } else {
        assert(names.skip(i) =~= Seq::<Seq<char>>::empty());
        assert(texts.skip(i) =~= Seq::<Seq<char>>::empty());
    }
}

/// A pass keeps only names it was given.
pub proof fn lemma_pass_kept_elements(
    names: Seq<Seq<char>>,
    texts: Seq<Seq<char>>,
    base: Seq<char>,
    i: int,
)
    ensures
        forall|x: Seq<char>|
            pass_kept(names, texts, base, i).0.contains(x) ==> names.contains(x),
    decreases names.len() - i,
{
    if 0 <= i < names.len() && names.len() == texts.len() {
        lemma_pass_kept_elements(names, texts, base, i + 1);
        let rest = pass_kept(names, texts, base, i + 1);
        assert forall|x: Seq<char>|
            pass_kept(names, texts, base, i).0.contains(x) implies names.contains(x) by {
            let kept = pass_kept(names, texts, base, i).0;
            let k = choose|k: int| 0 <= k < kept.len() && kept[k] == x;
            if kept != rest.0 {
                if k == 0 {
                    assert(names[i] == x);
                } else {
                    assert(rest.0[k - 1] == x);
                }
            }
        }
    }
}

/// Pruning keeps only names it was given.
pub proof fn lemma_prune_elements(
    names: Seq<Seq<char>>,
    texts: Seq<Seq<char>>,
    base: Seq<char>,
    fuel: nat,
)
    ensures
        forall|x: Seq<char>|
            spec_prune(names, texts, base, fuel).0.contains(x) ==> names.contains(x),
    decreases fuel,
{
    if fuel == 0 || names.len() != texts.len() {
    } else {
        let kept = pass_kept(names, texts, base, 0);
        lemma_pass_kept_len(names, texts, base, 0);
        if kept.0.len() == names.len() {
        } else {
            lemma_pass_kept_elements(names, texts, base, 0);
            lemma_prune_elements(kept.0, kept.1, base, (fuel - 1) as nat);
        }
    }
}

/// The pruning fixed point: a further pass on the result of pruning removes
/// nothing.
pub proof fn lemma_prune_fixed_point(
    names: Seq<Seq<char>>,
    texts: Seq<Seq<char>>,
    base: Seq<char>,
    fuel: nat,
)
    requires
        names.len() == texts.len(),
        fuel > names.len(),
    ensures
        ({
            let pruned = spec_prune(names, texts, base, fuel);
            pass_kept(pruned.0, pruned.1, base, 0).0.len() == pruned.0.len()
        }),
    decreases fuel,
{
    let kept = pass_kept(names, texts, base, 0);
    lemma_pass_kept_len(names, texts, base, 0);
    if kept.0.len() == names.len() {
        assert(names.skip(0) =~= names);
        assert(texts.skip(0) =~= texts);
    } else {
        lemma_prune_fixed_point(kept.0, kept.1, base, (fuel - 1) as nat);
    }
}


/// Whether `name` occurs exactly once over the base text and all item
/// texts, counting non-overlapping occurrences.
fn occurs_exactly_once(name: &str, base: &str, texts: &Vec<String>) -> (r: bool)
    requires
        name@.len() >= 1,
    ensures
        r == (occ_total(name@, base@, texts.deep_view()) == 1),
{
    let base_idx = crate::scan::get_item_indices(base, name);
    let mut tally: usize = if base_idx.len() >= 2 {
        2
    } else {
        base_idx.len()
    };
    let ghost tdv = texts.deep_view();
    proof {
        assert(tdv.take(0) =~= Seq::<Seq<char>>::empty());
        assert(sum_occurrences(name@, tdv.take(0)) == 0);
    }
    let mut j: usize = 0;
    while j < texts.len()
        invariant
            tdv == texts.deep_view(),
            0 <= j <= texts@.len(),
            name@.len() >= 1,
            tally <= 2,
            (tally as nat) == if crate::scan::spec_occurrences(base@, name@, 0).len()
                + sum_occurrences(name@, tdv.take(j as int)) >= 2 {
                2nat
            } else {
                crate::scan::spec_occurrences(base@, name@, 0).len() + sum_occurrences(
                    name@,
                    tdv.take(j as int),
                )
            },
        decreases texts@.len() - j,
    {
        proof {
            assert(tdv[j as int] == texts@[j as int].deep_view());
        }
        let idx = crate::scan::get_item_indices(texts[j].as_str(), name);
        let add: usize = if idx.len() >= 2 {
            2
        } else {
            idx.len()
        };
        if tally + add >= 2 {
            tally = 2;
        } else {
            tally = tally + add;
        }
        proof {
            lemma_sum_occ_take_step(name@, tdv, j as int);
        }
        j += 1;
    }
    proof {
        assert(tdv.take(tdv.len() as int) =~= tdv);
    }
    tally == 1
}

proof fn lemma_sum_occ_take_step(name: Seq<char>, texts: Seq<Seq<char>>, j: int)
    requires
        0 <= j < texts.len(),
    ensures
        sum_occurrences(name, texts.take(j + 1)) == sum_occurrences(name, texts.take(j))
            + crate::scan::spec_occurrences(texts[j], name, 0).len(),
    decreases j,
{
    if j == 0 {
        assert(texts.take(1).first() == texts[0]);
        assert(texts.take(1).drop_first() =~= Seq::<Seq<char>>::empty());
        assert(texts.take(0) =~= Seq::<Seq<char>>::empty());
    } else {
        lemma_sum_occ_take_step(name, texts.drop_first(), j - 1);
        assert(texts.take(j + 1).drop_first() =~= texts.drop_first().take(j));
        assert(texts.take(j).drop_first() =~= texts.drop_first().take(j - 1));
        assert(texts.take(j + 1).first() == texts.first());
        assert(texts.take(j).first() == texts.first());
        assert(texts.drop_first()[j - 1] == texts[j]);
    }
}

/// One pruning pass over parallel name and text lists.
fn prune_pass(names: &Vec<String>, texts: &Vec<String>, base: &str) -> (r: (Vec<String>, Vec<
    String,
>))
    requires
        names@.len() == texts@.len(),
    ensures
        (r.0.deep_view(), r.1.deep_view()) == pass_kept(
            names.deep_view(),
            texts.deep_view(),
            base@,
            0,
        ),
        r.0@.len() == r.1@.len(),
        r.0@.len() <= names@.len(),
{
    let mut kn: Vec<String> = Vec::new();
    let mut kt: Vec<String> = Vec::new();
    let ghost ndv = names.deep_view();
    let ghost tdv = texts.deep_view();
    let mut i: usize = 0;
    proof {
        assert(kn.deep_view() =~= Seq::<Seq<char>>::empty());
        assert(kt.deep_view() =~= Seq::<Seq<char>>::empty());
    }
    while i < names.len()
        invariant
            ndv == names.deep_view(),
            tdv == texts.deep_view(),
            names@.len() == texts@.len(),
            0 <= i <= names@.len(),
            kn@.len() == kt@.len(),
            kn@.len() <= i,
            pass_kept(ndv, tdv, base@, 0) == (
                kn.deep_view() + pass_kept(ndv, tdv, base@, i as int).0,
                kt.deep_view() + pass_kept(ndv, tdv, base@, i as int).1,
            ),
        decreases names@.len() - i,
    {
        proof {
            assert(ndv[i as int] == names@[i as int].deep_view());
            assert(tdv[i as int] == texts@[i as int].deep_view());
        }
        let nl = names[i].as_str().unicode_len();
        let keep = if nl >= 1 {
            !occurs_exactly_once(names[i].as_str(), base, texts)
        } else {
            false
        };
        if keep {
            let ghost pk = kn.deep_view();
            let ghost pt = kt.deep_view();
            push_name(&mut kn, names[i].clone());
            push_name(&mut kt, texts[i].clone());
            proof {
                assert(pass_kept(ndv, tdv, base@, i as int).0 == seq![ndv[i as int]] + pass_kept(
                    ndv,
                    tdv,
                    base@,
                    i + 1,
                ).0);
                assert(kn.deep_view() + pass_kept(ndv, tdv, base@, i + 1).0 =~= pk + (seq![
                    ndv[i as int],
                ] + pass_kept(ndv, tdv, base@, i + 1).0));
                assert(kt.deep_view() + pass_kept(ndv, tdv, base@, i + 1).1 =~= pt + (seq![
                    tdv[i as int],
                ] + pass_kept(ndv, tdv, base@, i + 1).1));
            }
        } else {
            proof {
                assert(pass_kept(ndv, tdv, base@, i as int) == pass_kept(
                    ndv,
                    tdv,
                    base@,
                    i + 1,
                ));
            }
        }
        i += 1;
    }
    proof {
        assert(pass_kept(ndv, tdv, base@, ndv.len() as int).0 =~= Seq::<Seq<char>>::empty());
        assert(pass_kept(ndv, tdv, base@, ndv.len() as int).1 =~= Seq::<Seq<char>>::empty());
        assert(kn.deep_view() =~= kn.deep_view() + Seq::<Seq<char>>::empty());
        assert(kt.deep_view() =~= kt.deep_view() + Seq::<Seq<char>>::empty());
        lemma_pass_kept_len(ndv, tdv, base@, 0);
    }
    (kn, kt)
}

/// Prune the retained types to a fixed point: a type used only at its own
/// definition is removed, and removals repeat until a pass removes nothing.
pub fn prune_unused_types(names: Vec<String>, texts: Vec<String>, base: &str) -> (r: (Vec<
    String,
>, Vec<String>))
    requires
        names@.len() == texts@.len(),
    ensures
        (r.0.deep_view(), r.1.deep_view()) == spec_prune(
            names.deep_view(),
            texts.deep_view(),
            base@,
            (names.deep_view().len() + 1) as nat,
        ),
        pass_kept(r.0.deep_view(), r.1.deep_view(), base@, 0).0.len() == r.0.deep_view().len(),
{
    let ghost orig_n = names.deep_view();
    let ghost orig_t = texts.deep_view();
    let ghost fuel0: nat = (orig_n.len() + 1) as nat;
    proof {
        assert(orig_n.len() == names@.len());
        assert(orig_t.len() == texts@.len());
    }
    let mut cur_n = names;
    let mut cur_t = texts;
    let ghost mut fuel: nat = fuel0;
    loop
        invariant
            cur_n@.len() == cur_t@.len(),
            orig_n.len() == orig_t.len(),
            fuel0 > orig_n.len(),
            orig_n == names.deep_view(),
            orig_t == texts.deep_view(),
            fuel0 == (names.deep_view().len() + 1) as nat,
            fuel > cur_n.deep_view().len(),
            spec_prune(orig_n, orig_t, base@, fuel0) == spec_prune(
                cur_n.deep_view(),
                cur_t.deep_view(),
                base@,
                fuel,
            ),
        decreases cur_n@.len(),
    {
        let (kn, kt) = prune_pass(&cur_n, &cur_t, base);
        if kn.len() == cur_n.len() {
            proof {
                assert(cur_n.deep_view().len() == cur_n@.len());
                assert(cur_t.deep_view().len() == cur_t@.len());
                assert(kn.deep_view().len() == kn@.len());
                assert(pass_kept(cur_n.deep_view(), cur_t.deep_view(), base@, 0).0.len()
                    == cur_n.deep_view().len());
                assert(spec_prune(cur_n.deep_view(), cur_t.deep_view(), base@, fuel) == (
                    cur_n.deep_view(),
                    cur_t.deep_view(),
                ));
                lemma_prune_fuel_irrelevant(orig_n, orig_t, base@, fuel0);
                assert(spec_prune(orig_n, orig_t, base@, fuel0) == (
                    cur_n.deep_view(),
                    cur_t.deep_view(),
                ));
            }
            return (cur_n, cur_t);
        }
        proof {
            assert(cur_n.deep_view().len() == cur_n@.len());
            assert(cur_t.deep_view().len() == cur_t@.len());
            assert(kn.deep_view().len() == kn@.len());
            assert(spec_prune(cur_n.deep_view(), cur_t.deep_view(), base@, fuel) == spec_prune(
                kn.deep_view(),
                kt.deep_view(),
                base@,
                (fuel - 1) as nat,
            ));
            fuel = (fuel - 1) as nat;
        }
        cur_n = kn;
        cur_t = kt;
    }
}

/// With fuel beyond the list length, pruning reaches its fixed point.
proof fn lemma_prune_fuel_irrelevant(
    names: Seq<Seq<char>>,
    texts: Seq<Seq<char>>,
    base: Seq<char>,
    fuel: nat,
)
    requires
        names.len() == texts.len(),
        fuel > names.len(),
    ensures
        ({
            let pruned = spec_prune(names, texts, base, fuel);
            pass_kept(pruned.0, pruned.1, base, 0).0.len() == pruned.0.len()
        }),
{
    lemma_prune_fixed_point(names, texts, base, fuel);
}

} // verus!
