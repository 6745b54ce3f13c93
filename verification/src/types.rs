use vstd::prelude::*;

use crate::text::is_space;
use crate::text::str_to_chars;
use crate::text::chars_to_string;
use crate::text::sub_chars;
use crate::text::starts_with;
use crate::text::eq_chars;
use crate::text::rfind_char;
use crate::text::spec_rfind_char;
use crate::text::lemma_rfind_char_correct;

verus! {

// The data model: type references, record and union shapes, and the parser
// from source type text into a reference.

/// A reference to a serialized type: a primitive, one level of wrapping, or a
/// name to resolve.
#[derive(Debug, PartialEq, Eq)]
pub enum TypeRef {
    Bool,
    U8,
    I8,
    U16,
    I16,
    U32,
    I32,
    F32,
    U64,
    I64,
    F64,
    U128,
    I128,
    Bytes,
    Str,
    PublicKey,
    Defined(String),
    Optional(Box<TypeRef>),
    Collection(Box<TypeRef>),
    NullableWrap(Box<TypeRef>),
    Array(Box<TypeRef>, u64),
}

/// A named field with its type.
#[derive(Debug, PartialEq, Eq)]
pub struct FieldDef {
    pub name: String,
    pub ty: TypeRef,
}

/// The payload of one variant of a tagged union.
#[derive(Debug, PartialEq, Eq)]
pub enum VariantPayload {
    Empty,
    Named(Vec<FieldDef>),
    Tuple(Vec<TypeRef>),
}

/// One variant of a tagged union.
#[derive(Debug, PartialEq, Eq)]
pub struct VariantDef {
    pub name: String,
    pub payload: VariantPayload,
}

/// The shape of a program type: a record of fields or a tagged union.
#[derive(Debug, PartialEq, Eq)]
pub enum TypeShape {
    Record(Vec<FieldDef>),
    TaggedUnion(Vec<VariantDef>),
}

/// A named program type with its shape.
#[derive(Debug, PartialEq, Eq)]
pub struct ProgramType {
    pub name: String,
    pub shape: TypeShape,
}

/// The serialized byte shape of a type.
#[derive(Debug, PartialEq, Eq)]
pub enum LayoutResult {
    Fixed(u64),
    FixedWithPadding(u64, u64),
    Variable,
}

/// One account taken by an instruction, in wire order.
#[derive(Debug, PartialEq, Eq)]
pub struct AccountRef {
    pub name: String,
    pub mutable: bool,
    pub signer: bool,
    pub optional: bool,
}

/// A callable instruction: its names, typed arguments and ordered accounts.
#[derive(Debug)]
pub struct InstructionDef {
    pub name: String,
    pub function_name: String,
    pub args: Vec<FieldDef>,
    pub accounts: Vec<AccountRef>,
}

/// One declared error with its code and message.
#[derive(Debug, PartialEq, Eq)]
pub struct ErrorDef {
    pub code: u64,
    pub name: String,
    pub message: String,
}

/// Deep copy of a type reference; the result is the same value.
pub fn clone_type_ref(t: &TypeRef) -> (r: TypeRef)
    ensures
        r == *t,
    decreases *t,
{
    match t {
        TypeRef::Bool => TypeRef::Bool,
        TypeRef::U8 => TypeRef::U8,
        TypeRef::I8 => TypeRef::I8,
        TypeRef::U16 => TypeRef::U16,
        TypeRef::I16 => TypeRef::I16,
        TypeRef::U32 => TypeRef::U32,
        TypeRef::I32 => TypeRef::I32,
        TypeRef::F32 => TypeRef::F32,
        TypeRef::U64 => TypeRef::U64,
        TypeRef::I64 => TypeRef::I64,
        TypeRef::F64 => TypeRef::F64,
        TypeRef::U128 => TypeRef::U128,
        TypeRef::I128 => TypeRef::I128,
        TypeRef::Bytes => TypeRef::Bytes,
        TypeRef::Str => TypeRef::Str,
        TypeRef::PublicKey => TypeRef::PublicKey,
        TypeRef::Defined(name) => TypeRef::Defined(name.clone()),
        TypeRef::Optional(inner) => TypeRef::Optional(Box::new(clone_type_ref(inner))),
        TypeRef::Collection(inner) => TypeRef::Collection(Box::new(clone_type_ref(inner))),
        TypeRef::NullableWrap(inner) => TypeRef::NullableWrap(Box::new(clone_type_ref(inner))),
        TypeRef::Array(inner, n) => TypeRef::Array(Box::new(clone_type_ref(inner)), *n),
    }
}

/// `s` with every blank character removed.
pub open spec fn strip_blanks(s: Seq<char>) -> Seq<char>
    decreases s.len(),
{
    if s.len() == 0 {
        s
    } else {
        strip_blanks(s.drop_last()) + if is_space(s.last()) {
            Seq::<char>::empty()
        } else {
            seq![s.last()]
        }
    }
}

pub fn strip_blanks_exec(s: &[char]) -> (r: Vec<char>)
    ensures
        r@ == strip_blanks(s@),
{
    let mut r: Vec<char> = Vec::new();
    let mut i: usize = 0;
    proof {
        assert(s@.subrange(0, 0) =~= Seq::<char>::empty());
        assert(r@ =~= strip_blanks(s@.subrange(0, 0)));
    }
    while i < s.len()
        invariant
            0 <= i <= s@.len(),
            r@ == strip_blanks(s@.subrange(0, i as int)),
        decreases s@.len() - i,
    {
        proof {
            assert(s@.subrange(0, i + 1).drop_last() =~= s@.subrange(0, i as int));
            assert(s@.subrange(0, i + 1).last() == s@[i as int]);
        }
        if !crate::text::is_space_exec(s[i]) {
            r.push(s[i]);
        }
        proof {
            assert(r@ =~= strip_blanks(s@.subrange(0, i + 1)));
        }
        i += 1;
    }
    proof {
        assert(s@.subrange(0, s@.len() as int) =~= s@);
    }
    r
}

/// All characters of `s` are decimal digits, and there is at least one.
pub open spec fn is_decimal(s: Seq<char>) -> bool {
    s.len() >= 1 && forall|i: int| 0 <= i < s.len() ==> '0' <= #[trigger] s[i] <= '9'
}

/// The numeric value of a digit string.
pub open spec fn decimal_value(s: Seq<char>) -> int
    decreases s.len(),
{
    if s.len() == 0 {
        0
    } else {
        decimal_value(s.drop_last()) * 10 + (s.last() as int - 48)
    }
}

pub proof fn lemma_decimal_nonneg(s: Seq<char>)
    requires
        forall|i: int| 0 <= i < s.len() ==> '0' <= #[trigger] s[i] <= '9',
    ensures
        decimal_value(s) >= 0,
    decreases s.len(),
{
    if s.len() > 0 {
        assert(forall|i: int| 0 <= i < s.len() - 1 ==> s.drop_last()[i] == s[i]);
        lemma_decimal_nonneg(s.drop_last());
    }
}

/// A prefix never exceeds the whole digit string in value.
pub proof fn lemma_decimal_prefix_le(s: Seq<char>, k: int)
    requires
        0 <= k <= s.len(),
        forall|i: int| 0 <= i < s.len() ==> '0' <= #[trigger] s[i] <= '9',
    ensures
        decimal_value(s.take(k)) <= decimal_value(s),
    decreases s.len(),
{
    if k == s.len() {
        assert(s.take(k) =~= s);
    } else {
        assert(forall|i: int| 0 <= i < s.len() - 1 ==> s.drop_last()[i] == s[i]);
        lemma_decimal_prefix_le(s.drop_last(), k);
        assert(s.drop_last().take(k) =~= s.take(k));
        lemma_decimal_nonneg(s.drop_last());
        assert(decimal_value(s) >= decimal_value(s.drop_last()));
    }
}

/// Parse a digit string as an unsigned number: its value when every
/// character is a digit and the value fits, nothing otherwise.
pub open spec fn spec_parse_u64(s: Seq<char>) -> Option<u64> {
    if is_decimal(s) && decimal_value(s) <= u64::MAX {
        Some(decimal_value(s) as u64)
    } else {
        None
    }
}

/// Parse a decimal digit string into a number.
pub fn parse_u64(s: &[char]) -> (r: Option<u64>)
    ensures
        r == spec_parse_u64(s@),
{
    if s.len() == 0 {
        return None;
    }
    let mut acc: u128 = 0;
    let mut i: usize = 0;
    proof {
        assert(s@.take(0) =~= Seq::<char>::empty());
    }
    while i < s.len()
        invariant
            0 <= i <= s@.len(),
            forall|k: int| 0 <= k < i ==> '0' <= #[trigger] s@[k] <= '9',
            acc == decimal_value(s@.take(i as int)),
            acc <= u64::MAX,
        decreases s@.len() - i,
    {
        let c = s[i];
        if c < '0' || c > '9' {
            return None;
        }
        let d: u128 = (c as u8 - 48) as u128;
        proof {
            assert(s@.take(i + 1).drop_last() =~= s@.take(i as int));
            assert(s@.take(i + 1).last() == s@[i as int]);
            assert(c as int - 48 == d);
        }
        let next: u128 = acc * 10 + d;
        if next > u64::MAX as u128 {
            proof {
                if is_decimal(s@) {
                    lemma_decimal_prefix_le(s@, i + 1);
                    assert(decimal_value(s@.take(i + 1)) == next);
                    assert(decimal_value(s@) > u64::MAX);
                }
            }
            return None;
        }
        acc = next;
        i += 1;
    }
    proof {
        assert(s@.take(s@.len() as int) =~= s@);
        assert(is_decimal(s@));
    }
    Some(acc as u64)
}

/// The stripped text has the shape of a primitive name.
pub open spec fn is_prim_text(t: Seq<char>) -> bool {
    ||| t == "bool"@
    ||| t == "u8"@
    ||| t == "i8"@
    ||| t == "u16"@
    ||| t == "i16"@
    ||| t == "u32"@
    ||| t == "i32"@
    ||| t == "f32"@
    ||| t == "u64"@
    ||| t == "i64"@
    ||| t == "f64"@
    ||| t == "u128"@
    ||| t == "i128"@
    ||| t == "String"@
    ||| t == "&str"@
    ||| t == "&'staticstr"@
    ||| t == "Pubkey"@
    ||| t == "Vec<u8>"@
    ||| t == "bytes"@
}

/// The stripped text has the shape of an optional wrapper.
pub open spec fn is_optional_text(t: Seq<char>) -> bool {
    t.len() > "Option<"@.len() + 1 && t.subrange(0, "Option<"@.len() as int) == "Option<"@
        && t.last() == '>'
}

/// The stripped text has the shape of a collection wrapper.
pub open spec fn is_collection_text(t: Seq<char>) -> bool {
    t.len() > "Vec<"@.len() + 1 && t.subrange(0, "Vec<"@.len() as int) == "Vec<"@ && t.last()
        == '>'
}

/// The stripped text has the shape of a nullable-presence wrapper.
pub open spec fn is_coption_text(t: Seq<char>) -> bool {
    t.len() > "COption<"@.len() + 1 && t.subrange(0, "COption<"@.len() as int) == "COption<"@
        && t.last() == '>'
}

/// The inner text of a nullable-presence wrapper.
pub open spec fn coption_inner(t: Seq<char>) -> Seq<char> {
    t.subrange("COption<"@.len() as int, t.len() - 1)
}

/// The stripped text has the shape of a fixed array.
pub open spec fn is_array_text(t: Seq<char>) -> bool {
    t.len() >= 2 && t.first() == '[' && t.last() == ']'
}

/// The inner text of an optional wrapper.
pub open spec fn optional_inner(t: Seq<char>) -> Seq<char> {
    t.subrange("Option<"@.len() as int, t.len() - 1)
}

/// The inner text of a collection wrapper.
pub open spec fn collection_inner(t: Seq<char>) -> Seq<char> {
    t.subrange("Vec<"@.len() as int, t.len() - 1)
}

/// The stripped (blank-free) type text parses to some type reference.
pub open spec fn spec_can_parse(t: Seq<char>) -> bool
    decreases t.len(),
{
    if is_prim_text(t) {
        true
    } else if is_optional_text(t) {
        spec_can_parse(optional_inner(t))
    } else if is_collection_text(t) {
        spec_can_parse(collection_inner(t))
    } else if is_coption_text(t) {
        spec_can_parse(coption_inner(t))
    } else if is_array_text(t) {
        match spec_rfind_char(t, ';') {
            Some(semi) => if 1 <= semi < t.len() - 1 {
                spec_parse_u64(t.subrange(semi + 1, t.len() - 1)) is Some && spec_can_parse(
                    t.subrange(1, semi),
                )
            } else {
                false
            },
            None => false,
        }
    } else {
        t.len() >= 1
    }
}

/// The type reference `ty` is what the stripped type text `t` parses to.
pub open spec fn spec_parses_to(t: Seq<char>, ty: TypeRef) -> bool
    decreases ty,
{
    if is_prim_text(t) {
        ||| (t == "bool"@ && ty == TypeRef::Bool)
        ||| (t == "u8"@ && ty == TypeRef::U8)
        ||| (t == "i8"@ && ty == TypeRef::I8)
        ||| (t == "u16"@ && ty == TypeRef::U16)
        ||| (t == "i16"@ && ty == TypeRef::I16)
        ||| (t == "u32"@ && ty == TypeRef::U32)
        ||| (t == "i32"@ && ty == TypeRef::I32)
        ||| (t == "f32"@ && ty == TypeRef::F32)
        ||| (t == "u64"@ && ty == TypeRef::U64)
        ||| (t == "i64"@ && ty == TypeRef::I64)
        ||| (t == "f64"@ && ty == TypeRef::F64)
        ||| (t == "u128"@ && ty == TypeRef::U128)
        ||| (t == "i128"@ && ty == TypeRef::I128)
        ||| ((t == "String"@ || t == "&str"@ || t == "&'staticstr"@) && ty == TypeRef::Str)
        ||| (t == "Pubkey"@ && ty == TypeRef::PublicKey)
        ||| ((t == "Vec<u8>"@ || t == "bytes"@) && ty == TypeRef::Bytes)
    } else if is_optional_text(t) {
        ty matches TypeRef::Optional(inner) && spec_parses_to(optional_inner(t), *inner)
    } else if is_collection_text(t) {
        ty matches TypeRef::Collection(inner) && spec_parses_to(collection_inner(t), *inner)
    } else if is_coption_text(t) {
        ty matches TypeRef::NullableWrap(inner) && spec_parses_to(coption_inner(t), *inner)
    } else if is_array_text(t) {
        match spec_rfind_char(t, ';') {
            Some(semi) => 1 <= semi < t.len() - 1 && (ty matches TypeRef::Array(inner, n)
                && spec_parse_u64(t.subrange(semi + 1, t.len() - 1)) == Some(n)
                && spec_parses_to(t.subrange(1, semi), *inner)),
            None => false,
        }
    } else {
        t.len() >= 1 && (ty matches TypeRef::Defined(name) && name@ == t)
    }
}

fn parse_stripped(t: Vec<char>) -> (r: Option<TypeRef>)
    ensures
        match r {
            Some(ty) => spec_can_parse(t@) && spec_parses_to(t@, ty),
            None => !spec_can_parse(t@),
        },
    decreases t@.len(),
{
    proof {
        reveal_strlit("Option<");
        reveal_strlit("Vec<");
        reveal_strlit("COption<");
    }
    let s = t.as_slice();
    if eq_lit(s, "bool") {
        return Some(TypeRef::Bool);
    }
    if eq_lit(s, "u8") {
        return Some(TypeRef::U8);
    }
    if eq_lit(s, "i8") {
        return Some(TypeRef::I8);
    }
    if eq_lit(s, "u16") {
        return Some(TypeRef::U16);
    }
    if eq_lit(s, "i16") {
        return Some(TypeRef::I16);
    }
    if eq_lit(s, "u32") {
        return Some(TypeRef::U32);
    }
    if eq_lit(s, "i32") {
        return Some(TypeRef::I32);
    }
    if eq_lit(s, "f32") {
        return Some(TypeRef::F32);
    }
    if eq_lit(s, "u64") {
        return Some(TypeRef::U64);
    }
    if eq_lit(s, "i64") {
        return Some(TypeRef::I64);
    }
    if eq_lit(s, "f64") {
        return Some(TypeRef::F64);
    }
    if eq_lit(s, "u128") {
        return Some(TypeRef::U128);
    }
    if eq_lit(s, "i128") {
        return Some(TypeRef::I128);
    }
    if eq_lit(s, "String") || eq_lit(s, "&str") || eq_lit(s, "&'staticstr") {
        return Some(TypeRef::Str);
    }
    if eq_lit(s, "Pubkey") {
        return Some(TypeRef::PublicKey);
    }
    if eq_lit(s, "Vec<u8>") || eq_lit(s, "bytes") {
        return Some(TypeRef::Bytes);
    }
    let opt_head = str_to_chars("Option<");
    if t.len() > opt_head.len() + 1 && starts_with(s, opt_head.as_slice()) && s[t.len() - 1]
        == '>' {
        let inner = sub_chars(s, opt_head.len(), t.len() - 1);
        return match parse_stripped(inner) {
            Some(ty) => Some(TypeRef::Optional(Box::new(ty))),
            None => None,
        };
    }
    let vec_head = str_to_chars("Vec<");
    if t.len() > vec_head.len() + 1 && starts_with(s, vec_head.as_slice()) && s[t.len() - 1]
        == '>' {
        let inner = sub_chars(s, vec_head.len(), t.len() - 1);
        return match parse_stripped(inner) {
            Some(ty) => Some(TypeRef::Collection(Box::new(ty))),
            None => None,
        };
    }
    let cop_head = str_to_chars("COption<");
    if t.len() > cop_head.len() + 1 && starts_with(s, cop_head.as_slice()) && s[t.len() - 1]
        == '>' {
        let inner = sub_chars(s, cop_head.len(), t.len() - 1);
        return match parse_stripped(inner) {
            Some(ty) => Some(TypeRef::NullableWrap(Box::new(ty))),
            None => None,
        };
    }
    if t.len() >= 2 && s[0] == '[' && s[t.len() - 1] == ']' {
        let semi = match rfind_char(s, ';') {
            Some(semi) => {
                proof {
                    lemma_rfind_char_correct(t@, ';');
                    match spec_rfind_char(t@, ';') {
                        Some(sj) => {
                            if sj < semi {
                                assert(t@[semi as int] != ';');
                            }
                            if (semi as int) < sj {
                                assert(t@[sj] != ';');
                            }
                        },
                        None => {
                            assert(t@[semi as int] != ';');
                        },
                    }
                }
                semi
            },
            None => {
                proof {
                    lemma_rfind_char_correct(t@, ';');
                    if spec_rfind_char(t@, ';') is Some {
                        let sj = spec_rfind_char(t@, ';')->Some_0;
                        assert(t@[sj] != ';');
                    }
                }
                return None;
            },
        };
        if !(1 <= semi && semi < t.len() - 1) {
            return None;
        }
        let len_part = sub_chars(s, semi + 1, t.len() - 1);
        let n = match parse_u64(len_part.as_slice()) {
            Some(n) => n,
            None => {
                return None;
            },
        };
        let inner = sub_chars(s, 1, semi);
        return match parse_stripped(inner) {
            Some(ty) => Some(TypeRef::Array(Box::new(ty), n)),
            None => None,
        };
    }
    if t.len() >= 1 {
        let name = chars_to_string(&t);
        return Some(TypeRef::Defined(name));
    }
    None
}

/// Compare a character slice against a literal.
fn eq_lit(s: &[char], lit: &str) -> (r: bool)
    ensures
        r == (s@ == lit@),
{
    let lv = str_to_chars(lit);
    eq_chars(s, lv.as_slice())
}

/// Parse a source type text into a type reference, ignoring blanks: the
/// result, when there is one, is relation `spec_parses_to` applied to the
/// blank-free text.
pub fn parse_type_ref(s: &str) -> (r: Option<TypeRef>)
    ensures
        match r {
            Some(ty) => spec_can_parse(strip_blanks(s@)) && spec_parses_to(
                strip_blanks(s@),
                ty,
            ),
            None => !spec_can_parse(strip_blanks(s@)),
        },
{
    let cv = str_to_chars(s);
    let stripped = strip_blanks_exec(cv.as_slice());
    parse_stripped(stripped)
}

/// A type text refers to a defined (user) type: after dropping blanks it is
/// neither a primitive name nor a wrapper or array shape, and is not empty.
pub open spec fn spec_is_type_defined(s: Seq<char>) -> bool {
    let t = strip_blanks(s);
    &&& !is_prim_text(t)
    &&& !is_optional_text(t)
    &&& !is_collection_text(t)
    &&& !is_coption_text(t)
    &&& !is_array_text(t)
    &&& t.len() >= 1
}

/// Whether a type text refers to a defined (user) type.
pub fn is_type_defined(ty_text: &str) -> (r: bool)
    ensures
        r == spec_is_type_defined(ty_text@),
{
    match parse_type_ref(ty_text) {
        Some(ty) => match ty {
            TypeRef::Defined(_) => true,
            _ => false,
        },
        None => false,
    }
}

/// The immediate inner type of one level of wrapping, if any.
pub open spec fn spec_inside_type(t: TypeRef) -> Option<TypeRef> {
    match t {
        TypeRef::Array(inner, _) => Some(*inner),
        TypeRef::Optional(inner) => Some(*inner),
        TypeRef::Collection(inner) => Some(*inner),
        _ => None,
    }
}

/// The inner type of an array, optional or collection wrapper.
pub fn get_inside_type(ty: &TypeRef) -> (r: Option<TypeRef>)
    ensures
        r == spec_inside_type(*ty),
{
    match ty {
        TypeRef::Array(inner, _) => Some(clone_type_ref(inner)),
        TypeRef::Optional(inner) => Some(clone_type_ref(inner)),
        TypeRef::Collection(inner) => Some(clone_type_ref(inner)),
        _ => None,
    }
}

} // verus!
