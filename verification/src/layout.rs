use vstd::prelude::*;

use crate::types::TypeRef;
use crate::types::FieldDef;
use crate::types::VariantDef;
use crate::types::VariantPayload;
use crate::types::TypeShape;
use crate::types::ProgramType;
use crate::types::spec_parse_u64;
use crate::types::parse_u64;
use crate::text::spec_trim;
use crate::text::trim_chars;
use crate::text::spec_lines;
use crate::text::split_lines;
use crate::text::str_to_chars;
use crate::text::chars_to_string;
use crate::text::sub_chars;
use crate::text::starts_with;
use crate::text::push_all;
use crate::text::spec_find_sub;
use crate::text::find_sub_from;
use crate::text::lemma_find_sub_correct;
use crate::text::first_char_or_len;
use crate::text::contains_sub;
use crate::scan::spec_get_item;
use crate::scan::get_item;
use crate::scan::spec_tokens;
use crate::scan::split_tokens;
use crate::scan::spec_const_value;
use crate::scan::get_const_value;

verus! {

// The layout synthesizer: serialized sizes over the resolved type graph,
// reconciled against an independently declared fixed length.

/// Nesting depth of wrappers around a type reference.
pub open spec fn type_height(t: TypeRef) -> nat
    decreases t,
{
    match t {
        TypeRef::Optional(inner) => 1 + type_height(*inner),
        TypeRef::Collection(inner) => 1 + type_height(*inner),
        TypeRef::NullableWrap(inner) => 1 + type_height(*inner),
        TypeRef::Array(inner, _) => 1 + type_height(*inner),
        _ => 0,
    }
}

/// The first program type of the table carrying `name`.
pub open spec fn spec_find_type(table: Seq<ProgramType>, name: Seq<char>) -> Option<ProgramType>
    decreases table.len(),
{
    if table.len() == 0 {
        None
    } else if table.first().name@ == name {
        Some(table.first())
    } else {
        spec_find_type(table.drop_first(), name)
    }
}

/// The serialized size of a type in bytes: primitives by the fixed table,
/// arrays by multiplication, records as the sum of their fields, tagged
/// unions as one discriminant byte plus the largest resolvable variant.
/// Collections, strings, byte blobs and optional values have no fixed size.
/// `fuel` bounds the resolution depth through defined names; a cycle or a
/// missing name yields no size.
pub open spec fn spec_size_of(t: TypeRef, table: Seq<ProgramType>, fuel: nat) -> Option<u64>
    decreases fuel, 0nat, type_height(t),
{
    match t {
        TypeRef::Bool => Some(1),
        TypeRef::U8 => Some(1),
        TypeRef::I8 => Some(1),
        TypeRef::U16 => Some(2),
        TypeRef::I16 => Some(2),
        TypeRef::U32 => Some(4),
        TypeRef::I32 => Some(4),
        TypeRef::F32 => Some(4),
        TypeRef::U64 => Some(8),
        TypeRef::I64 => Some(8),
        TypeRef::F64 => Some(8),
        TypeRef::U128 => Some(16),
        TypeRef::I128 => Some(16),
        TypeRef::PublicKey => Some(32),
        TypeRef::Bytes => None,
        TypeRef::Str => None,
        TypeRef::Optional(_) => None,
        TypeRef::Collection(_) => None,
        TypeRef::NullableWrap(_) => None,
        TypeRef::Array(inner, n) => match spec_size_of(*inner, table, fuel) {
            Some(s) => if n * s <= u64::MAX {
                Some((n * s) as u64)
            } else {
                None
            },
            None => None,
        },
        TypeRef::Defined(name) => if name@ == "Decimal"@ {
            Some(16)
        } else if fuel == 0 {
            None
        } else {
            match spec_find_type(table, name@) {
                Some(pt) => match pt.shape {
                    TypeShape::Record(fields) => spec_fields_size(
                        fields@,
                        0,
                        table,
                        (fuel - 1) as nat,
                    ),
                    TypeShape::TaggedUnion(variants) => match spec_variants_max(
                        variants@,
                        0,
                        table,
                        (fuel - 1) as nat,
                    ) {
                        Some(m) => if m + 1 <= u64::MAX {
                            Some((m + 1) as u64)
                        } else {
                            None
                        },
                        None => None,
                    },
                },
                None => None,
            }
        },
    }
}

/// Sum of the sizes of `fields[i..]`; no sum when any field has no size.
pub open spec fn spec_fields_size(
    fields: Seq<FieldDef>,
    i: int,
    table: Seq<ProgramType>,
    fuel: nat,
) -> Option<u64>
    decreases fuel, 1nat, fields.len() - i,
{
    if i < 0 || i >= fields.len() {
        Some(0)
    } else {
        match spec_size_of(fields[i].ty, table, fuel) {
            Some(s) => match spec_fields_size(fields, i + 1, table, fuel) {
                Some(rest) => if s + rest <= u64::MAX {
                    Some((s + rest) as u64)
                } else {
                    None
                },
                None => None,
            },
            None => None,
        }
    }
}

/// Sum of the sizes of the tuple elements `tys[i..]`.
pub open spec fn spec_tuple_size(
    tys: Seq<TypeRef>,
    i: int,
    table: Seq<ProgramType>,
    fuel: nat,
) -> Option<u64>
    decreases fuel, 1nat, tys.len() - i,
{
    if i < 0 || i >= tys.len() {
        Some(0)
    } else {
        match spec_size_of(tys[i], table, fuel) {
            Some(s) => match spec_tuple_size(tys, i + 1, table, fuel) {
                Some(rest) => if s + rest <= u64::MAX {
                    Some((s + rest) as u64)
                } else {
                    None
                },
                None => None,
            },
            None => None,
        }
    }
}

/// The payload size of one variant: nothing contributes zero; a payload with
/// any unsized field has no size, which excludes the variant.
pub open spec fn spec_variant_size(v: VariantDef, table: Seq<ProgramType>, fuel: nat) -> Option<
    u64,
>
    decreases fuel, 2nat, 0nat,
{
    match v.payload {
        VariantPayload::Empty => Some(0),
        VariantPayload::Named(fields) => spec_fields_size(fields@, 0, table, fuel),
        VariantPayload::Tuple(tys) => spec_tuple_size(tys@, 0, table, fuel),
    }
}

/// The largest resolvable variant payload size among `variants[i..]`, or
/// nothing when none resolves.
pub open spec fn spec_variants_max(
    variants: Seq<VariantDef>,
    i: int,
    table: Seq<ProgramType>,
    fuel: nat,
) -> Option<u64>
    decreases fuel, 3nat, variants.len() - i,
{
    if i < 0 || i >= variants.len() {
        None
    } else {
        let cur = spec_variant_size(variants[i], table, fuel);
        let rest = spec_variants_max(variants, i + 1, table, fuel);
        match cur {
            Some(c) => match rest {
                Some(r) => if c >= r {
                    Some(c)
                } else {
                    Some(r)
                },
                None => Some(c),
            },
            None => rest,
        }
    }
}

/// The index of the first program type of the table carrying `name`.
pub fn find_type_index_pub(table: &Vec<ProgramType>, name: &str) -> (r: Option<usize>)
    ensures
        match r {
            Some(j) => j < table@.len() && spec_find_type(table@, name@) == Some(table@[j as int]),
            None => spec_find_type(table@, name@) is None,
        },
{
    let mut j: usize = 0;
    proof {
        assert(table@.skip(0) =~= table@);
    }
    while j < table.len()
        invariant
            0 <= j <= table@.len(),
            spec_find_type(table@, name@) == spec_find_type(table@.skip(j as int), name@),
        decreases table@.len() - j,
    {
        proof {
            assert(table@.skip(j as int).first() == table@[j as int]);
            assert(table@.skip(j as int).drop_first() =~= table@.skip(j + 1));
        }
        if crate::text::str_eq(table[j].name.as_str(), name) {
            return Some(j);
        }
        j += 1;
    }
    None
}

fn size_of_fuel(t: &TypeRef, table: &Vec<ProgramType>, fuel: u128) -> (r: Option<u64>)
    ensures
        r == spec_size_of(*t, table@, fuel as nat),
    decreases fuel as nat, 0nat, type_height(*t),
{
    match t {
        TypeRef::Bool => Some(1),
        TypeRef::U8 => Some(1),
        TypeRef::I8 => Some(1),
        TypeRef::U16 => Some(2),
        TypeRef::I16 => Some(2),
        TypeRef::U32 => Some(4),
        TypeRef::I32 => Some(4),
        TypeRef::F32 => Some(4),
        TypeRef::U64 => Some(8),
        TypeRef::I64 => Some(8),
        TypeRef::F64 => Some(8),
        TypeRef::U128 => Some(16),
        TypeRef::I128 => Some(16),
        TypeRef::PublicKey => Some(32),
        TypeRef::Bytes => None,
        TypeRef::Str => None,
        TypeRef::Optional(_) => None,
        TypeRef::Collection(_) => None,
        TypeRef::NullableWrap(_) => None,
        TypeRef::Array(inner, n) => match size_of_fuel(inner, table, fuel) {
            Some(s) => n.checked_mul(s),
            None => None,
        },
        TypeRef::Defined(name) => {
            if crate::text::str_eq(name.as_str(), "Decimal") {
                return Some(16);
            }
            if fuel == 0 {
                return None;
            }
            match find_type_index_pub(table, name.as_str()) {
                Some(j) => match &table[j].shape {
                    TypeShape::Record(fields) => fields_size_fuel(fields, 0, table, fuel - 1),
                    TypeShape::TaggedUnion(variants) => match variants_max_fuel(
                        variants,
                        0,
                        table,
                        fuel - 1,
                    ) {
                        Some(m) => m.checked_add(1),
                        None => None,
                    },
                },
                None => None,
            }
        },
    }
}

fn fields_size_fuel(fields: &Vec<FieldDef>, i: usize, table: &Vec<ProgramType>, fuel: u128) -> (r:
    Option<u64>)
    ensures
        r == spec_fields_size(fields@, i as int, table@, fuel as nat),
    decreases fuel as nat, 1nat, fields@.len() - i,
{
    if i >= fields.len() {
        return Some(0);
    }
    match size_of_fuel(&fields[i].ty, table, fuel) {
        Some(s) => match fields_size_fuel(fields, i + 1, table, fuel) {
            Some(rest) => s.checked_add(rest),
            None => None,
        },
        None => None,
    }
}

fn tuple_size_fuel(tys: &Vec<TypeRef>, i: usize, table: &Vec<ProgramType>, fuel: u128) -> (r:
    Option<u64>)
    ensures
        r == spec_tuple_size(tys@, i as int, table@, fuel as nat),
    decreases fuel as nat, 1nat, tys@.len() - i,
{
    if i >= tys.len() {
        return Some(0);
    }
    match size_of_fuel(&tys[i], table, fuel) {
        Some(s) => match tuple_size_fuel(tys, i + 1, table, fuel) {
            Some(rest) => s.checked_add(rest),
            None => None,
        },
        None => None,
    }
}

fn variant_size_fuel(v: &VariantDef, table: &Vec<ProgramType>, fuel: u128) -> (r: Option<u64>)
    ensures
        r == spec_variant_size(*v, table@, fuel as nat),
    decreases fuel as nat, 2nat, 0nat,
{
    match &v.payload {
        VariantPayload::Empty => Some(0),
        VariantPayload::Named(fields) => fields_size_fuel(fields, 0, table, fuel),
        VariantPayload::Tuple(tys) => tuple_size_fuel(tys, 0, table, fuel),
    }
}

fn variants_max_fuel(variants: &Vec<VariantDef>, i: usize, table: &Vec<ProgramType>, fuel: u128)
    -> (r: Option<u64>)
    ensures
        r == spec_variants_max(variants@, i as int, table@, fuel as nat),
    decreases fuel as nat, 3nat, variants@.len() - i,
{
    if i >= variants.len() {
        return None;
    }
    let cur = variant_size_fuel(&variants[i], table, fuel);
    let rest = variants_max_fuel(variants, i + 1, table, fuel);
    match cur {
        Some(c) => match rest {
            Some(r) => if c >= r {
                Some(c)
            } else {
                Some(r)
            },
            None => Some(c),
        },
        None => rest,
    }
}

/// Looking a name up in an extended table finds the earlier entry first,
/// and falls through to the extension otherwise.
pub proof fn lemma_find_type_extend(t1: Seq<ProgramType>, ext: Seq<ProgramType>, name: Seq<char>)
    ensures
        spec_find_type(t1 + ext, name) == match spec_find_type(t1, name) {
            Some(p) => Some(p),
            None => spec_find_type(ext, name),
        },
    decreases t1.len(),
{
    if t1.len() == 0 {
        assert(t1 + ext =~= ext);
    } else {
        assert((t1 + ext).first() == t1.first());
        assert((t1 + ext).drop_first() =~= t1.drop_first() + ext);
        lemma_find_type_extend(t1.drop_first(), ext, name);
    }
}

/// Enough fuel to resolve every name of the table once.
pub open spec fn table_fuel(table: Seq<ProgramType>) -> nat {
    table.len() + 1
}

/// The serialized size of a type against a table of resolved program types:
/// the mathematical size when it is fixed and fits in a `u64`, nothing when
/// the type is variable, unresolvable, cyclic, or too large.
pub fn get_idl_type_size(ty: &TypeRef, types: &Vec<ProgramType>) -> (r: Option<u64>)
    ensures
        r == spec_size_of(*ty, types@, table_fuel(types@)),
{
    let fuel: u128 = types.len() as u128 + 1;
    size_of_fuel(ty, types, fuel)
}


/// The computed space of an account type: a plain size, a size with needed
/// trailing padding, variable, or not computable.
#[derive(Debug, PartialEq, Eq)]
pub enum AccountSpace {
    Normal(u64),
    PaddingNeeded((u64, u64)),
    Variable,
    NotFound,
}

/// A declared fixed length smaller than the computed size: fatal for the
/// type it names.
#[derive(Debug, PartialEq, Eq)]
pub struct LayoutConflict {
    pub declared: u64,
    pub computed: u64,
}

/// The account space as a layout value, where one is defined.
pub fn layout_of_space(space: &AccountSpace) -> (r: Option<crate::types::LayoutResult>)
    ensures
        r == match *space {
            AccountSpace::Normal(n) => Some(crate::types::LayoutResult::Fixed(n)),
            AccountSpace::PaddingNeeded((n, p)) => Some(
                crate::types::LayoutResult::FixedWithPadding(n, p),
            ),
            AccountSpace::Variable => Some(crate::types::LayoutResult::Variable),
            AccountSpace::NotFound => None,
        },
{
    match space {
        AccountSpace::Normal(n) => Some(crate::types::LayoutResult::Fixed(*n)),
        AccountSpace::PaddingNeeded((n, p)) => Some(
            crate::types::LayoutResult::FixedWithPadding(*n, *p),
        ),
        AccountSpace::Variable => Some(crate::types::LayoutResult::Variable),
        AccountSpace::NotFound => None,
    }
}

/// A line declaring the packed length: it opens with `const` once trimmed
/// and mentions `LEN`.
pub open spec fn is_len_line(l: Seq<char>) -> bool {
    let tl = spec_trim(l);
    &&& tl.len() >= "const"@.len()
    &&& tl.subrange(0, "const"@.len() as int) == "const"@
    &&& contains_sub(l, "LEN"@)
}

/// The first length-declaring line.
pub open spec fn spec_first_len_line(lines: Seq<Seq<char>>) -> Option<Seq<char>>
    decreases lines.len(),
{
    if lines.len() == 0 {
        None
    } else if is_len_line(lines.first()) {
        Some(lines.first())
    } else {
        spec_first_len_line(lines.drop_first())
    }
}

/// The declared packed byte length of the account type `name`: inside its
/// packing implementation, the value of the length constant, either a digit
/// literal or a named constant resolved across the whole source.
pub open spec fn spec_pack_space(name: Seq<char>, content: Seq<char>) -> Option<u64> {
    let pat = "impl Pack for "@ + name + " "@;
    match spec_find_sub(content, pat, 0) {
        None => None,
        Some(i) => {
            let body = spec_get_item(content.skip(i), '{');
            match spec_first_len_line(spec_lines(body)) {
                None => None,
                Some(line) => {
                    let c = first_char_or_len(line, ';');
                    let upto = if 0 <= c <= line.len() {
                        line.subrange(0, c)
                    } else {
                        line
                    };
                    let toks = spec_tokens(upto);
                    if toks.len() == 0 {
                        None
                    } else {
                        match spec_parse_u64(toks.last()) {
                            Some(n) => Some(n),
                            None => match spec_const_value(toks.last(), content) {
                                Some(cv) => spec_parse_u64(cv),
                                None => None,
                            },
                        }
                    }
                },
            }
        },
    }
}

/// Index of the first length-declaring line.
fn find_len_line(lines: &Vec<Vec<char>>) -> (r: Option<usize>)
    ensures
        match r {
            Some(j) => j < lines@.len() && spec_first_len_line(lines.deep_view()) == Some(
                lines.deep_view()[j as int],
            ),
            None => spec_first_len_line(lines.deep_view()) is None,
        },
{
    proof {
        reveal_strlit("const");
        reveal_strlit("LEN");
    }
    let ghost dv = lines.deep_view();
    let const_pat = str_to_chars("const");
    let len_pat = str_to_chars("LEN");
    let mut li: usize = 0;
    proof {
        assert(dv.skip(0) =~= dv);
    }
    while li < lines.len()
        invariant
            dv == lines.deep_view(),
            dv.len() == lines@.len(),
            0 <= li <= lines@.len(),
            const_pat@ == "const"@,
            len_pat@ == "LEN"@,
            len_pat@.len() >= 1,
            spec_first_len_line(dv) == spec_first_len_line(dv.skip(li as int)),
        decreases lines@.len() - li,
    {
        let l: &Vec<char> = &lines[li];
        proof {
            assert(dv[li as int] == lines@[li as int].deep_view());
            assert(lines@[li as int].deep_view() =~= l@);
            assert(dv.skip(li as int).first() == l@);
            assert(dv.skip(li as int).drop_first() =~= dv.skip(li + 1));
        }
        let tl = trim_chars(l.as_slice());
        let opens_const = starts_with(tl.as_slice(), const_pat.as_slice());
        let has_len = match find_sub_from(l.as_slice(), len_pat.as_slice(), 0) {
            Some(_) => true,
            None => false,
        };
        if opens_const && has_len {
            proof {
                assert(is_len_line(l@));
            }
            return Some(li);
        }
        proof {
            assert(!is_len_line(l@));
        }
        li += 1;
    }
    proof {
        assert(dv.skip(li as int) =~= Seq::<Seq<char>>::empty());
    }
    None
}

/// Find the declared packed byte length of an account type in the source.
pub fn get_account_space_from_pack(account_name: &str, all_content: &str) -> (r: Option<u64>)
    ensures
        r == spec_pack_space(account_name@, all_content@),
{
    proof {
        reveal_strlit("impl Pack for ");
        reveal_strlit(" ");
        reveal_strlit("const");
        reveal_strlit("LEN");
    }
    let cv = str_to_chars(all_content);
    let nv = str_to_chars(account_name);
    let mut pat = str_to_chars("impl Pack for ");
    push_all(&mut pat, nv.as_slice());
    let sp = str_to_chars(" ");
    push_all(&mut pat, sp.as_slice());
    let i = match find_sub_from(cv.as_slice(), pat.as_slice(), 0) {
        Some(i) => i,
        None => {
            return None;
        },
    };
    proof {
        lemma_find_sub_correct(cv@, pat@, 0);
    }
    let tail = sub_chars(cv.as_slice(), i, cv.len());
    proof {
        assert(tail@ =~= all_content@.skip(i as int));
    }
    let tail_str = chars_to_string(&tail);
    let body = get_item(tail_str.as_str(), '{');
    let body_chars = str_to_chars(body.as_str());
    let lines = split_lines(body_chars.as_slice());
    let ghost dv = lines.deep_view();
    let li = match find_len_line(&lines) {
        Some(li) => li,
        None => {
            return None;
        },
    };
    let line: &Vec<char> = &lines[li];
    proof {
        assert(dv[li as int] == lines@[li as int].deep_view());
        assert(lines@[li as int].deep_view() =~= line@);
    }
    let c = match crate::text::find_char_from(line.as_slice(), ';', 0) {
        Some(c) => {
            proof {
                crate::text::lemma_first_char_at(line@, ';', c as int);
            }
            c
        },
        None => {
            proof {
                crate::text::lemma_first_char_none(line@, ';');
            }
            line.len()
        },
    };
    let upto = sub_chars(line.as_slice(), 0, c);
    let toks = split_tokens(upto.as_slice());
    if toks.len() == 0 {
        return None;
    }
    let t: &Vec<char> = &toks[toks.len() - 1];
    proof {
        let tdv = toks.deep_view();
        assert(tdv[tdv.len() - 1] == toks@[toks@.len() - 1].deep_view());
        assert(toks@[toks@.len() - 1].deep_view() =~= t@);
        assert(spec_tokens(upto@).last() == t@);
    }
    match parse_u64(t.as_slice()) {
        Some(n) => Some(n),
        None => {
            let tok_str = chars_to_string(t);
            match get_const_value(tok_str.as_str(), all_content) {
                Some(cv_str) => {
                    let cvv = str_to_chars(cv_str.as_str());
                    parse_u64(cvv.as_slice())
                },
                None => None,
            }
        },
    }
}

/// The computed record size of the account `name` from the type table:
/// nothing when the name is missing or names a tagged union, no size when a
/// field is unsized.
pub open spec fn spec_idl_space(name: Seq<char>, table: Seq<ProgramType>, fuel: nat) -> Option<
    Option<u64>,
> {
    match spec_find_type(table, name) {
        Some(pt) => match pt.shape {
            TypeShape::Record(fields) => match spec_fields_size(fields@, 0, table, fuel) {
                Some(v) => Some(Some(v)),
                None => Some(None),
            },
            TypeShape::TaggedUnion(_) => None,
        },
        None => None,
    }
}

/// Reconciliation of the computed size with the independently declared
/// packed length: equal lengths give the plain size; a larger declaration
/// gives the declared size with trailing padding; a smaller declaration is a
/// layout conflict; with only one of the two, that one decides.
pub open spec fn spec_total_space(
    name: Seq<char>,
    content: Seq<char>,
    table: Seq<ProgramType>,
    fuel: nat,
) -> Result<AccountSpace, LayoutConflict> {
    let pack = spec_pack_space(name, content);
    match spec_idl_space(name, table, fuel) {
        Some(Some(v)) => match pack {
            Some(p) => if p > v {
                Ok(AccountSpace::PaddingNeeded((p, (p - v) as u64)))
            } else if p == v {
                Ok(AccountSpace::Normal(p))
            } else {
                Err(LayoutConflict { declared: p, computed: v })
            },
            None => Ok(AccountSpace::Normal(v)),
        },
        Some(None) => match pack {
            Some(p) => Ok(AccountSpace::Normal(p)),
            None => Ok(AccountSpace::Variable),
        },
        None => match pack {
            Some(p) => Ok(AccountSpace::Normal(p)),
            None => Ok(AccountSpace::NotFound),
        },
    }
}

/// Compute the total byte space of the account `account_name`, reconciling
/// the record size computed from the type table against the packed length
/// declared in the source.
pub fn get_total_space_for_account(
    account_name: &str,
    all_content: &str,
    types: &Vec<ProgramType>,
) -> (r: Result<AccountSpace, LayoutConflict>)
    ensures
        r == spec_total_space(account_name@, all_content@, types@, table_fuel(types@)),
{
    let pack = get_account_space_from_pack(account_name, all_content);
    let fuel: u128 = types.len() as u128 + 1;
    let idl: Option<Option<u64>> = match find_type_index_pub(types, account_name) {
        Some(j) => match &types[j].shape {
            TypeShape::Record(fields) => match fields_size_fuel(fields, 0, types, fuel) {
                Some(v) => Some(Some(v)),
                None => Some(None),
            },
            TypeShape::TaggedUnion(_) => None,
        },
        None => None,
    };
    match idl {
        Some(maybe_v) => match maybe_v {
            Some(v) => match pack {
                Some(p) => if p > v {
                    Ok(AccountSpace::PaddingNeeded((p, p - v)))
                } else if p == v {
                    Ok(AccountSpace::Normal(p))
                } else {
                    Err(LayoutConflict { declared: p, computed: v })
                },
                None => Ok(AccountSpace::Normal(v)),
            },
            None => match pack {
                Some(p) => Ok(AccountSpace::Normal(p)),
                None => Ok(AccountSpace::Variable),
            },
        },
        None => match pack {
            Some(p) => Ok(AccountSpace::Normal(p)),
            None => Ok(AccountSpace::NotFound),
        },
    }
}

// What the size function promises, stated as laws of the specification.

/// Every primitive size is the fixed table entry, whatever the type table
/// and fuel.
pub proof fn lemma_primitive_size_table(t: TypeRef, table: Seq<ProgramType>, fuel: nat)
    ensures
        t == TypeRef::Bool ==> spec_size_of(t, table, fuel) == Some(1u64),
        t == TypeRef::U8 ==> spec_size_of(t, table, fuel) == Some(1u64),
        t == TypeRef::I8 ==> spec_size_of(t, table, fuel) == Some(1u64),
        t == TypeRef::U16 ==> spec_size_of(t, table, fuel) == Some(2u64),
        t == TypeRef::I16 ==> spec_size_of(t, table, fuel) == Some(2u64),
        t == TypeRef::U32 ==> spec_size_of(t, table, fuel) == Some(4u64),
        t == TypeRef::I32 ==> spec_size_of(t, table, fuel) == Some(4u64),
        t == TypeRef::F32 ==> spec_size_of(t, table, fuel) == Some(4u64),
        t == TypeRef::U64 ==> spec_size_of(t, table, fuel) == Some(8u64),
        t == TypeRef::I64 ==> spec_size_of(t, table, fuel) == Some(8u64),
        t == TypeRef::F64 ==> spec_size_of(t, table, fuel) == Some(8u64),
        t == TypeRef::U128 ==> spec_size_of(t, table, fuel) == Some(16u64),
        t == TypeRef::I128 ==> spec_size_of(t, table, fuel) == Some(16u64),
        t == TypeRef::PublicKey ==> spec_size_of(t, table, fuel) == Some(32u64),
{
}

/// The size of a fixed array is the element count times the element size,
/// as long as that fits the size type; an unsized element leaves the array
/// unsized.
pub proof fn lemma_array_size(t: TypeRef, table: Seq<ProgramType>, fuel: nat)
    requires
        t matches TypeRef::Array(_, _),
    ensures
        ({
            let inner = t->Array_0;
            let n = t->Array_1;
            match spec_size_of(*inner, table, fuel) {
                Some(s) => if n * s <= u64::MAX {
                    spec_size_of(t, table, fuel) == Some((n * s) as u64)
                } else {
                    spec_size_of(t, table, fuel) is None
                },
                None => spec_size_of(t, table, fuel) is None,
            }
        }),
{
}

/// What the union maximum yields: an upper bound on every resolvable
/// variant, attained by one of them; or no value at all when no variant
/// resolves.
pub proof fn lemma_variants_max_correct(
    variants: Seq<VariantDef>,
    i: int,
    table: Seq<ProgramType>,
    fuel: nat,
)
    requires
        0 <= i,
    ensures
        match spec_variants_max(variants, i, table, fuel) {
            Some(m) => (forall|j: int|
                i <= j < variants.len() ==> match #[trigger] spec_variant_size(
                    variants[j],
                    table,
                    fuel,
                ) {
                    Some(s) => s <= m,
                    None => true,
                }) && (exists|j: int|
                i <= j < variants.len() && spec_variant_size(variants[j], table, fuel) == Some(
                    m,
                )),
            None => forall|j: int|
                i <= j < variants.len() ==> #[trigger] spec_variant_size(variants[j], table, fuel)
                    is None,
        },
    decreases variants.len() - i,
{
    if i < variants.len() {
        lemma_variants_max_correct(variants, i + 1, table, fuel);
    }
}

/// The size of a tagged union is one discriminant byte plus the largest
/// resolvable variant payload; a union whose variants all fail to resolve
/// has no fixed size.
pub proof fn lemma_union_size(t: TypeRef, table: Seq<ProgramType>, fuel: nat)
    requires
        t matches TypeRef::Defined(name),
        t->Defined_0@ != "Decimal"@,
        fuel >= 1,
        spec_find_type(table, t->Defined_0@) matches Some(pt) && pt.shape matches
            TypeShape::TaggedUnion(_),
    ensures
        ({
            let name = t->Defined_0;
            let pt = spec_find_type(table, name@)->Some_0;
            let variants = pt.shape->TaggedUnion_0;
            match spec_variants_max(variants@, 0, table, (fuel - 1) as nat) {
                Some(m) => {
                    &&& (m + 1 <= u64::MAX ==> spec_size_of(t, table, fuel) == Some(
                        (m + 1) as u64,
                    ))
                    &&& (forall|j: int|
                        0 <= j < variants@.len() ==> match #[trigger] spec_variant_size(
                            variants@[j],
                            table,
                            (fuel - 1) as nat,
                        ) {
                            Some(s) => s <= m,
                            None => true,
                        })
                    &&& (exists|j: int|
                        0 <= j < variants@.len() && spec_variant_size(
                            variants@[j],
                            table,
                            (fuel - 1) as nat,
                        ) == Some(m))
                },
                None => {
                    &&& spec_size_of(t, table, fuel) is None
                    &&& (forall|j: int|
                        0 <= j < variants@.len() ==> #[trigger] spec_variant_size(
                            variants@[j],
                            table,
                            (fuel - 1) as nat,
                        ) is None)
                },
            }
        }),
{
    let name = t->Defined_0;
    let pt = spec_find_type(table, name@)->Some_0;
    let variants = pt.shape->TaggedUnion_0;
    lemma_variants_max_correct(variants@, 0, table, (fuel - 1) as nat);
}


/// A type text read as a type reference, a named array length folded
/// through the source-wide constant lookup: either the text parses as it
/// stands, or it is an array whose length token names a constant whose
/// looked-up value is a number.
pub open spec fn spec_folded_type(text: Seq<char>, all: Seq<char>, ty: TypeRef) -> bool {
    let t = crate::types::strip_blanks(text);
    if crate::types::spec_can_parse(t) {
        crate::types::spec_parses_to(t, ty)
    } else {
        &&& crate::types::is_array_text(t)
        &&& match crate::text::spec_rfind_char(t, ';') {
            Some(semi) => 1 <= semi < t.len() - 1 && {
                let len_text = t.subrange(semi + 1, t.len() - 1);
                match spec_const_value(len_text, all) {
                    Some(cv) => match crate::types::spec_parse_u64(cv) {
                        Some(n) => ty matches TypeRef::Array(inner, m) && m == n
                            && crate::types::spec_parses_to(t.subrange(1, semi), *inner),
                        None => false,
                    },
                    None => false,
                }
            },
            None => false,
        }
    }
}

/// The type text can be read: it parses as it stands, or it is an array
/// whose named length resolves through the source-wide constant lookup.
pub open spec fn spec_foldable(text: Seq<char>, all: Seq<char>) -> bool {
    let t = crate::types::strip_blanks(text);
    ||| crate::types::spec_can_parse(t)
    ||| (crate::types::is_array_text(t) && match crate::text::spec_rfind_char(t, ';') {
        Some(semi) => 1 <= semi < t.len() - 1 && match spec_const_value(
            t.subrange(semi + 1, t.len() - 1),
            all,
        ) {
            Some(cv) => crate::types::spec_parse_u64(cv) is Some && crate::types::spec_can_parse(
                t.subrange(1, semi),
            ),
            None => false,
        },
        None => false,
    })
}

/// Read a type text as a type reference, folding a named array length
/// through the source-wide constant lookup: a reference is returned exactly
/// when the text can be read.
pub fn fold_array_length(ty_text: &str, all_content: &str) -> (r: Option<TypeRef>)
    ensures
        r matches Some(ty) ==> spec_folded_type(ty_text@, all_content@, ty),
        (r is Some) == spec_foldable(ty_text@, all_content@),
{
    match crate::types::parse_type_ref(ty_text) {
        Some(ty) => Some(ty),
        None => {
            let cv = str_to_chars(ty_text);
            let t = crate::types::strip_blanks_exec(cv.as_slice());
            let s = t.as_slice();
            if !(t.len() >= 2 && s[0] == '[' && s[t.len() - 1] == ']') {
                return None;
            }
            let semi = match crate::text::rfind_char(s, ';') {
                Some(semi) => {
                    proof {
                        crate::text::lemma_rfind_char_correct(t@, ';');
                        match crate::text::spec_rfind_char(t@, ';') {
                            Some(sj) => {
                                if sj < semi {
                                    assert(t@[semi as int] != ';');
                                }
                                if (semi as int) < sj {
                                    assert(t@[sj] != ';');
                                }
                            },
                            None => {
                                assert(t@[semi as int] != ';');
                            },
                        }
                    }
                    semi
                },
                None => {
                    proof {
                        crate::text::lemma_rfind_char_correct(t@, ';');
                        if crate::text::spec_rfind_char(t@, ';') is Some {
                            let sj = crate::text::spec_rfind_char(t@, ';')->Some_0;
                            assert(t@[sj] != ';');
                        }
                    }
                    return None;
                },
            };
            if !(1 <= semi && semi < t.len() - 1) {
                return None;
            }
            let len_text = sub_chars(s, semi + 1, t.len() - 1);
            let len_str = chars_to_string(&len_text);
            let folded = match get_const_value(len_str.as_str(), all_content) {
                Some(v) => v,
                None => {
                    return None;
                },
            };
            let fv = str_to_chars(folded.as_str());
            let n = match parse_u64(fv.as_slice()) {
                Some(n) => n,
                None => {
                    return None;
                },
            };
            let inner_text = sub_chars(s, 1, semi);
            let inner_str = chars_to_string(&inner_text);
            proof {
                // the inner text is already blank-free
                lemma_strip_no_blanks(cv@);
                assert(forall|k: int|
                    0 <= k < semi - 1 ==> t@.subrange(1, semi as int)[k] == t@[k + 1]);
                lemma_strip_blankfree(t@.subrange(1, semi as int));
            }
            match crate::types::parse_type_ref(inner_str.as_str()) {
                Some(inner) => Some(TypeRef::Array(Box::new(inner), n)),
                None => None,
            }
        },
    }
}

/// A blank-stripped text holds no blanks.
proof fn lemma_strip_no_blanks(s: Seq<char>)
    ensures
        forall|k: int|
            0 <= k < crate::types::strip_blanks(s).len() ==> !crate::text::is_space(
                #[trigger] crate::types::strip_blanks(s)[k],
            ),
    decreases s.len(),
{
    if s.len() > 0 {
        lemma_strip_no_blanks(s.drop_last());
        let prev = crate::types::strip_blanks(s.drop_last());
        if !crate::text::is_space(s.last()) {
            assert(forall|k: int|
                0 <= k < prev.len() ==> crate::types::strip_blanks(s)[k] == prev[k]);
            assert(crate::types::strip_blanks(s)[prev.len() as int] == s.last());
        } else {
            assert(crate::types::strip_blanks(s) =~= prev);
        }
    }
}

/// Stripping blanks from a blank-free text changes nothing.
proof fn lemma_strip_blankfree(s: Seq<char>)
    requires
        forall|k: int| 0 <= k < s.len() ==> !crate::text::is_space(#[trigger] s[k]),
    ensures
        crate::types::strip_blanks(s) == s,
    decreases s.len(),
{
    if s.len() > 0 {
        lemma_strip_blankfree(s.drop_last());
        assert(crate::types::strip_blanks(s) =~= crate::types::strip_blanks(s.drop_last())
            + seq![s.last()]);
        assert(crate::types::strip_blanks(s.drop_last()) + seq![s.last()] =~= s);
    }
}

} // verus!
