use vstd::prelude::*;

use crate::types::TypeRef;
use crate::types::FieldDef;
use crate::types::VariantDef;
use crate::types::VariantPayload;
use crate::types::TypeShape;
use crate::types::ProgramType;
use crate::layout::spec_size_of;
use crate::layout::spec_find_type;
use crate::layout::table_fuel;
use crate::layout::type_height;
use crate::layout::get_idl_type_size;
use crate::layout::find_type_index_pub;
use crate::cases::spec_camel_from_pascal;
use crate::cases::camel_from_pascal;
use crate::text::str_to_chars;
use crate::text::chars_to_string;
use crate::text::push_all;
use crate::text::sub_chars;

verus! {

// The descriptor emitter: per-field wire descriptors and worst-case size
// expressions for the external code generator. Failures downgrade to
// best-effort empty emission.

/// The decimal digit character of `d`.
pub open spec fn digit_char(d: nat) -> char {
    ((48 + d % 10) as u32) as char
}

/// The decimal text of `n`.
pub open spec fn spec_dec(n: nat) -> Seq<char>
    decreases n,
{
    if n < 10 {
        seq![digit_char(n)]
    } else {
        spec_dec(n / 10) + seq![digit_char(n % 10)]
    }
}

/// Render a number in decimal.
pub fn u64_to_dec(n: u64) -> (r: Vec<char>)
    ensures
        r@ == spec_dec(n as nat),
    decreases n,
{
    if n < 10 {
        let b: u8 = 48 + (n as u8);
        let mut r: Vec<char> = Vec::new();
        r.push(b as char);
        proof {
            assert(r@ =~= seq![digit_char(n as nat)]);
        }
        r
    } else {
        let mut r = u64_to_dec(n / 10);
        let d: u8 = 48 + ((n % 10) as u8);
        let ghost pre = r@;
        r.push(d as char);
        proof {
            assert(r@ =~= pre + seq![digit_char(n as nat % 10)]);
        }
        r
    }
}

/// The camelCase form of a name, or the name itself when it is empty.
pub open spec fn camel_or(s: Seq<char>) -> Seq<char> {
    if s.len() >= 1 {
        spec_camel_from_pascal(s)
    } else {
        s
    }
}

fn camel_or_exec(s: &str) -> (r: String)
    ensures
        r@ == camel_or(s@),
{
    if s.unicode_len() >= 1 {
        camel_from_pascal(s)
    } else {
        let v = str_to_chars(s);
        chars_to_string(&v)
    }
}

/// Drop the leading run of `'+'` from an expression text.
pub open spec fn drop_leading_plus(s: Seq<char>) -> Seq<char>
    decreases s.len(),
{
    if s.len() >= 1 && s.first() == '+' {
        drop_leading_plus(s.drop_first())
    } else {
        s
    }
}

fn drop_leading_plus_exec(s: &[char]) -> (r: Vec<char>)
    ensures
        r@ == drop_leading_plus(s@),
{
    let mut i: usize = 0;
    proof {
        assert(s@.skip(0) =~= s@);
    }
    while i < s.len() && s[i] == '+'
        invariant
            0 <= i <= s@.len(),
            drop_leading_plus(s@) == drop_leading_plus(s@.skip(i as int)),
        decreases s@.len() - i,
    {
        proof {
            assert(s@.skip(i as int).drop_first() =~= s@.skip(i + 1));
        }
        i += 1;
    }
    let r = sub_chars(s, i, s.len());
    proof {
        assert(r@ =~= s@.skip(i as int));
        assert(drop_leading_plus(s@.skip(i as int)) == s@.skip(i as int));
    }
    r
}

/// The worst-case encoded size expression of one argument: fixed parts as
/// literal byte counts, variable parts as runtime length terms over the
/// argument path, tagged unions branching on the active variant. Types that
/// resolve nowhere contribute an empty best-effort term.
pub open spec fn spec_max_span(
    t: TypeRef,
    arg: Seq<char>,
    table: Seq<ProgramType>,
    fuel: nat,
) -> Seq<char>
    decreases fuel, 0nat, type_height(t),
{
    match t {
        TypeRef::Bytes => "+4 + "@ + arg + ".length"@,
        TypeRef::Str => "+4 + "@ + arg + ".length"@,
        TypeRef::Array(inner, n) => match spec_size_of(*inner, table, table_fuel(table)) {
            Some(es) => "+"@ + spec_dec(es as nat) + " * "@ + spec_dec(n as nat),
            None => Seq::empty(),
        },
        TypeRef::NullableWrap(inner) => "+4"@ + spec_max_span(*inner, arg, table, fuel),
        TypeRef::Defined(name) => match spec_find_type(table, name@) {
            Some(pt) => match pt.shape {
                TypeShape::Record(fields) => if fuel >= 1 {
                    span_fields(fields@, 0, arg, table, (fuel - 1) as nat)
                } else {
                    Seq::empty()
                },
                TypeShape::TaggedUnion(variants) => if fuel >= 1 {
                    "+(() => {switch (Object.keys("@ + arg + ")[0]) {"@ + span_variants(
                        variants@,
                        0,
                        arg,
                        table,
                        (fuel - 1) as nat,
                    ) + "}})()"@
                } else {
                    Seq::empty()
                },
            },
            None => Seq::empty(),
        },
        TypeRef::Optional(inner) => match spec_size_of(*inner, table, table_fuel(table)) {
            Some(s) => "+1 + ("@ + arg + " === null ? 0 : "@ + spec_dec(s as nat) + ")"@,
            None => "+1 + ("@ + arg + " === null ? 0 : "@ + drop_leading_plus(
                spec_max_span(*inner, arg, table, fuel),
            ) + ")"@,
        },
        TypeRef::Collection(inner) => match spec_size_of(*inner, table, table_fuel(table)) {
            Some(es) => "+4 + "@ + arg + ".length * "@ + spec_dec(es as nat),
            None => "+4 + "@ + arg + ".reduce((a: number, c: any) => a "@ + spec_max_span(
                *inner,
                "c"@,
                table,
                fuel,
            ) + ", 0)"@,
        },
        _ => match spec_size_of(t, table, table_fuel(table)) {
            Some(s) => "+ "@ + spec_dec(s as nat),
            None => Seq::empty(),
        },
    }
}

/// The summed span terms of record fields, each under its field path.
pub open spec fn span_fields(
    fields: Seq<FieldDef>,
    k: int,
    arg: Seq<char>,
    table: Seq<ProgramType>,
    fuel: nat,
) -> Seq<char>
    decreases fuel, 1nat, fields.len() - k,
{
    if k < 0 || k >= fields.len() {
        Seq::empty()
    } else {
        spec_max_span(fields[k].ty, arg + "."@ + fields[k].name@, table, fuel) + span_fields(
            fields,
            k + 1,
            arg,
            table,
            fuel,
        )
    }
}

/// The switch cases of a tagged union's span: each variant returns one
/// discriminant byte plus its own payload terms.
pub open spec fn span_variants(
    variants: Seq<VariantDef>,
    k: int,
    arg: Seq<char>,
    table: Seq<ProgramType>,
    fuel: nat,
) -> Seq<char>
    decreases fuel, 3nat, variants.len() - k,
{
    if k < 0 || k >= variants.len() {
        Seq::empty()
    } else {
        let vname = camel_or(variants[k].name@);
        let head = "case \""@ + vname + "\": return 1 "@;
        let body = match variants[k].payload {
            VariantPayload::Empty => ";"@,
            VariantPayload::Named(fields) => span_named_fields(
                fields@,
                0,
                arg + "."@ + vname,
                table,
                fuel,
            ) + ";"@,
            VariantPayload::Tuple(tys) => span_tuple(tys@, 0, arg, table, fuel) + ";"@,
        };
        head + body + span_variants(variants, k + 1, arg, table, fuel)
    }
}

/// The span terms of a named variant payload, all under the variant path.
pub open spec fn span_named_fields(
    fields: Seq<FieldDef>,
    k: int,
    arg: Seq<char>,
    table: Seq<ProgramType>,
    fuel: nat,
) -> Seq<char>
    decreases fuel, 1nat, fields.len() - k,
{
    if k < 0 || k >= fields.len() {
        Seq::empty()
    } else {
        spec_max_span(fields[k].ty, arg, table, fuel) + span_named_fields(
            fields,
            k + 1,
            arg,
            table,
            fuel,
        )
    }
}

/// The span terms of a tuple variant payload.
pub open spec fn span_tuple(
    tys: Seq<TypeRef>,
    k: int,
    arg: Seq<char>,
    table: Seq<ProgramType>,
    fuel: nat,
) -> Seq<char>
    decreases fuel, 1nat, tys.len() - k,
{
    if k < 0 || k >= tys.len() {
        Seq::empty()
    } else {
        spec_max_span(tys[k], arg, table, fuel) + span_tuple(tys, k + 1, arg, table, fuel)
    }
}

fn lit(s: &str) -> (r: Vec<char>)
    ensures
        r@ == s@,
{
    str_to_chars(s)
}

fn max_span_rec(t: &TypeRef, arg: &Vec<char>, table: &Vec<ProgramType>, fuel: u128) -> (r: Vec<
    char,
>)
    ensures
        r@ == spec_max_span(*t, arg@, table@, fuel as nat),
    decreases fuel as nat, 0nat, type_height(*t),
{
    match t {
        TypeRef::Bytes => {
            let mut out = lit("+4 + ");
            push_all(&mut out, arg.as_slice());
            let tl = lit(".length");
            push_all(&mut out, tl.as_slice());
            proof {
                assert(out@ =~= spec_max_span(*t, arg@, table@, fuel as nat));
            }
            out
        },
        TypeRef::Str => {
            let mut out = lit("+4 + ");
            push_all(&mut out, arg.as_slice());
            let tl = lit(".length");
            push_all(&mut out, tl.as_slice());
            proof {
                assert(out@ =~= spec_max_span(*t, arg@, table@, fuel as nat));
            }
            out
        },
        TypeRef::Array(inner, n) => match get_idl_type_size(inner, table) {
            Some(es) => {
                let mut out = lit("+");
                let d1 = u64_to_dec(es);
                push_all(&mut out, d1.as_slice());
                let star = lit(" * ");
                push_all(&mut out, star.as_slice());
                let d2 = u64_to_dec(*n);
                push_all(&mut out, d2.as_slice());
                proof {
                    assert(out@ =~= spec_max_span(*t, arg@, table@, fuel as nat));
                }
                out
            },
            None => {
                let out: Vec<char> = Vec::new();
                proof {
                    assert(out@ =~= spec_max_span(*t, arg@, table@, fuel as nat));
                }
                out
            },
        },
        TypeRef::NullableWrap(inner) => {
            let mut out = lit("+4");
            let rest = max_span_rec(inner, arg, table, fuel);
            push_all(&mut out, rest.as_slice());
            proof {
                assert(out@ =~= spec_max_span(*t, arg@, table@, fuel as nat));
            }
            out
        },
        TypeRef::Defined(name) => {
            match find_type_index_pub(table, name.as_str()) {
                Some(j) => {
                    if fuel == 0 {
                        let out: Vec<char> = Vec::new();
                        proof {
                            assert(out@ =~= spec_max_span(*t, arg@, table@, fuel as nat));
                        }
                        return out;
                    }
                    match &table[j].shape {
                        TypeShape::Record(fields) => {
                            let out = span_fields_rec(fields, 0, arg, table, fuel - 1);
                            proof {
                                assert(out@ =~= spec_max_span(*t, arg@, table@, fuel as nat));
                            }
                            out
                        },
                        TypeShape::TaggedUnion(variants) => {
                            let mut out = lit("+(() => {switch (Object.keys(");
                            push_all(&mut out, arg.as_slice());
                            let mid = lit(")[0]) {");
                            push_all(&mut out, mid.as_slice());
                            let cases = span_variants_rec(variants, 0, arg, table, fuel - 1);
                            push_all(&mut out, cases.as_slice());
                            let tail = lit("}})()");
                            push_all(&mut out, tail.as_slice());
                            proof {
                                assert(out@ =~= spec_max_span(*t, arg@, table@, fuel as nat));
                            }
                            out
                        },
                    }
                },
                None => {
                    let out: Vec<char> = Vec::new();
                    proof {
                        assert(out@ =~= spec_max_span(*t, arg@, table@, fuel as nat));
                    }
                    out
                },
            }
        },
        TypeRef::Optional(inner) => {
            let mut out = lit("+1 + (");
            push_all(&mut out, arg.as_slice());
            let mid = lit(" === null ? 0 : ");
            push_all(&mut out, mid.as_slice());
            match get_idl_type_size(inner, table) {
                Some(s) => {
                    let d = u64_to_dec(s);
                    push_all(&mut out, d.as_slice());
                },
                None => {
                    let rest = max_span_rec(inner, arg, table, fuel);
                    let cut = drop_leading_plus_exec(rest.as_slice());
                    push_all(&mut out, cut.as_slice());
                },
            }
            let close = lit(")");
            push_all(&mut out, close.as_slice());
            proof {
                assert(out@ =~= spec_max_span(*t, arg@, table@, fuel as nat));
            }
            out
        },
        TypeRef::Collection(inner) => match get_idl_type_size(inner, table) {
            Some(es) => {
                let mut out = lit("+4 + ");
                push_all(&mut out, arg.as_slice());
                let mid = lit(".length * ");
                push_all(&mut out, mid.as_slice());
                let d = u64_to_dec(es);
                push_all(&mut out, d.as_slice());
                proof {
                    assert(out@ =~= spec_max_span(*t, arg@, table@, fuel as nat));
                }
                out
            },
            None => {
                let mut out = lit("+4 + ");
                push_all(&mut out, arg.as_slice());
                let mid = lit(".reduce((a: number, c: any) => a ");
                push_all(&mut out, mid.as_slice());
                let cname = lit("c");
                proof {
                    reveal_strlit("c");
                }
                let rest = max_span_rec(inner, &cname, table, fuel);
                push_all(&mut out, rest.as_slice());
                let close = lit(", 0)");
                push_all(&mut out, close.as_slice());
                proof {
                    assert(out@ =~= spec_max_span(*t, arg@, table@, fuel as nat));
                }
                out
            },
        },
        _ => match get_idl_type_size(t, table) {
            Some(s) => {
                let mut out = lit("+ ");
                let d = u64_to_dec(s);
                push_all(&mut out, d.as_slice());
                proof {
                    assert(out@ =~= spec_max_span(*t, arg@, table@, fuel as nat));
                }
                out
            },
            None => {
                let out: Vec<char> = Vec::new();
                proof {
                    assert(out@ =~= spec_max_span(*t, arg@, table@, fuel as nat));
                }
                out
            },
        },
    }
}

fn span_fields_rec(
    fields: &Vec<FieldDef>,
    k: usize,
    arg: &Vec<char>,
    table: &Vec<ProgramType>,
    fuel: u128,
) -> (r: Vec<char>)
    ensures
        r@ == span_fields(fields@, k as int, arg@, table@, fuel as nat),
    decreases fuel as nat, 1nat, fields@.len() - k,
{
    if k >= fields.len() {
        let out: Vec<char> = Vec::new();
        proof {
            assert(out@ =~= span_fields(fields@, k as int, arg@, table@, fuel as nat));
        }
        return out;
    }
    let mut path = sub_chars(arg.as_slice(), 0, arg.len());
    let dot = lit(".");
    push_all(&mut path, dot.as_slice());
    let fname = str_to_chars(fields[k].name.as_str());
    push_all(&mut path, fname.as_slice());
    proof {
        assert(path@ =~= arg@ + "."@ + fields@[k as int].name@);
    }
    let mut out = max_span_rec(&fields[k].ty, &path, table, fuel);
    let rest = span_fields_rec(fields, k + 1, arg, table, fuel);
    push_all(&mut out, rest.as_slice());
    proof {
        assert(out@ =~= span_fields(fields@, k as int, arg@, table@, fuel as nat));
    }
    out
}

fn span_variants_rec(
    variants: &Vec<VariantDef>,
    k: usize,
    arg: &Vec<char>,
    table: &Vec<ProgramType>,
    fuel: u128,
) -> (r: Vec<char>)
    ensures
        r@ == span_variants(variants@, k as int, arg@, table@, fuel as nat),
    decreases fuel as nat, 3nat, variants@.len() - k,
{
    if k >= variants.len() {
        let out: Vec<char> = Vec::new();
        proof {
            assert(out@ =~= span_variants(variants@, k as int, arg@, table@, fuel as nat));
        }
        return out;
    }
    let vname = camel_or_exec(variants[k].name.as_str());
    let vchars = str_to_chars(vname.as_str());
    let mut out = lit("case \"");
    push_all(&mut out, vchars.as_slice());
    let mid = lit("\": return 1 ");
    push_all(&mut out, mid.as_slice());
    match &variants[k].payload {
        VariantPayload::Empty => {
            let semi = lit(";");
            push_all(&mut out, semi.as_slice());
        },
        VariantPayload::Named(fields) => {
            let mut path = sub_chars(arg.as_slice(), 0, arg.len());
            let dot = lit(".");
            push_all(&mut path, dot.as_slice());
            push_all(&mut path, vchars.as_slice());
            proof {
                assert(path@ =~= arg@ + "."@ + camel_or(variants@[k as int].name@));
            }
            let body = span_named_fields_rec(fields, 0, &path, table, fuel);
            push_all(&mut out, body.as_slice());
            let semi = lit(";");
            push_all(&mut out, semi.as_slice());
        },
        VariantPayload::Tuple(tys) => {
            let body = span_tuple_rec(tys, 0, arg, table, fuel);
            push_all(&mut out, body.as_slice());
            let semi = lit(";");
            push_all(&mut out, semi.as_slice());
        },
    }
    let rest = span_variants_rec(variants, k + 1, arg, table, fuel);
    push_all(&mut out, rest.as_slice());
    proof {
        assert(out@ =~= span_variants(variants@, k as int, arg@, table@, fuel as nat));
    }
    out
}

fn span_named_fields_rec(
    fields: &Vec<FieldDef>,
    k: usize,
    arg: &Vec<char>,
    table: &Vec<ProgramType>,
    fuel: u128,
) -> (r: Vec<char>)
    ensures
        r@ == span_named_fields(fields@, k as int, arg@, table@, fuel as nat),
    decreases fuel as nat, 1nat, fields@.len() - k,
{
    if k >= fields.len() {
        let out: Vec<char> = Vec::new();
        proof {
            assert(out@ =~= span_named_fields(fields@, k as int, arg@, table@, fuel as nat));
        }
        return out;
    }
    let mut out = max_span_rec(&fields[k].ty, arg, table, fuel);
    let rest = span_named_fields_rec(fields, k + 1, arg, table, fuel);
    push_all(&mut out, rest.as_slice());
    proof {
        assert(out@ =~= span_named_fields(fields@, k as int, arg@, table@, fuel as nat));
    }
    out
}

fn span_tuple_rec(
    tys: &Vec<TypeRef>,
    k: usize,
    arg: &Vec<char>,
    table: &Vec<ProgramType>,
    fuel: u128,
) -> (r: Vec<char>)
    ensures
        r@ == span_tuple(tys@, k as int, arg@, table@, fuel as nat),
    decreases fuel as nat, 1nat, tys@.len() - k,
{
    if k >= tys.len() {
        let out: Vec<char> = Vec::new();
        proof {
            assert(out@ =~= span_tuple(tys@, k as int, arg@, table@, fuel as nat));
        }
        return out;
    }
    let mut out = max_span_rec(&tys[k], arg, table, fuel);
    let rest = span_tuple_rec(tys, k + 1, arg, table, fuel);
    push_all(&mut out, rest.as_slice());
    proof {
        assert(out@ =~= span_tuple(tys@, k as int, arg@, table@, fuel as nat));
    }
    out
}

/// The worst-case encoded size expression of the argument `arg_name` of
/// type `ty`, against the resolved type table.
pub fn get_max_span(ty: &TypeRef, arg_name: &str, types: &Vec<ProgramType>) -> (r: String)
    ensures
        r@ == spec_max_span(*ty, arg_name@, types@, table_fuel(types@)),
{
    let arg = str_to_chars(arg_name);
    let fuel: u128 = types.len() as u128 + 1;
    let out = max_span_rec(ty, &arg, types, fuel);
    chars_to_string(&out)
}


/// The camelCase form of a snake_case name, or the name itself when empty.
pub open spec fn camel_of_snake_or(s: Seq<char>) -> Seq<char> {
    if s.len() >= 1 {
        spec_camel_from_pascal(crate::cases::spec_pascal_from_snake(s))
    } else {
        s
    }
}

fn camel_of_snake_or_exec(s: &str) -> (r: String)
    ensures
        r@ == camel_of_snake_or(s@),
{
    if s.unicode_len() >= 1 {
        crate::cases::camel_from_snake(s)
    } else {
        let v = str_to_chars(s);
        chars_to_string(&v)
    }
}

/// The wire descriptor expression of one type: a builder call per category,
/// records and unions composed from their parts, an unresolvable name
/// downgraded to a single byte.
pub open spec fn spec_buffer_type(t: TypeRef, table: Seq<ProgramType>, fuel: nat) -> Seq<char>
    decreases fuel, 0nat, type_height(t),
{
    match t {
        TypeRef::Bool => "B.bool("@,
        TypeRef::U8 => "B.u8("@,
        TypeRef::I8 => "B.i8("@,
        TypeRef::U16 => "B.u16("@,
        TypeRef::I16 => "B.i16("@,
        TypeRef::U32 => "B.u32("@,
        TypeRef::I32 => "B.i32("@,
        TypeRef::F32 => "B.f32("@,
        TypeRef::U64 => "B.u64("@,
        TypeRef::I64 => "B.i64("@,
        TypeRef::F64 => "B.f64("@,
        TypeRef::U128 => "B.u128("@,
        TypeRef::I128 => "B.i128("@,
        TypeRef::Bytes => "B.bytes("@,
        TypeRef::Str => "B.utf8Str("@,
        TypeRef::PublicKey => "B.publicKey("@,
        TypeRef::Array(inner, n) => "B.seq("@ + spec_buffer_type(*inner, table, fuel) + "), "@
            + spec_dec(n as nat) + ", "@,
        TypeRef::Optional(inner) => "B.option("@ + spec_buffer_type(*inner, table, fuel)
            + "), "@,
        TypeRef::Collection(inner) => "B.vec("@ + spec_buffer_type(*inner, table, fuel) + "), "@,
        TypeRef::NullableWrap(inner) => "B.coption("@ + spec_buffer_type(*inner, table, fuel)
            + "), "@,
        TypeRef::Defined(name) => if name@ == "Decimal"@ {
            "B.decimal("@
        } else {
            match spec_find_type(table, name@) {
                Some(pt) => match pt.shape {
                    TypeShape::Record(fields) => if fuel >= 1 {
                        "B.struct(["@ + buffer_fields(fields@, 0, table, (fuel - 1) as nat)
                            + "], "@
                    } else {
                        "B.u8("@
                    },
                    TypeShape::TaggedUnion(variants) => if fuel >= 1 {
                        "((p: string) => { const U = B.union(B.u8(\"discriminator\"), null, p);"@
                            + buffer_variants(variants@, 0, table, (fuel - 1) as nat)
                            + "return U;})("@
                    } else {
                        "B.u8("@
                    },
                },
                None => "B.u8("@,
            }
        },
    }
}

/// The field descriptors of a record, each closed over its field name.
pub open spec fn buffer_fields(
    fields: Seq<FieldDef>,
    k: int,
    table: Seq<ProgramType>,
    fuel: nat,
) -> Seq<char>
    decreases fuel, 1nat, fields.len() - k,
{
    if k < 0 || k >= fields.len() {
        Seq::empty()
    } else {
        spec_buffer_type(fields[k].ty, table, fuel) + "\""@ + fields[k].name@ + "\"),"@
            + buffer_fields(fields, k + 1, table, fuel)
    }
}

/// The variant descriptors of a tagged union, added under their positional
/// discriminant values and camelCase names.
pub open spec fn buffer_variants(
    variants: Seq<VariantDef>,
    k: int,
    table: Seq<ProgramType>,
    fuel: nat,
) -> Seq<char>
    decreases fuel, 3nat, variants.len() - k,
{
    if k < 0 || k >= variants.len() {
        Seq::empty()
    } else {
        let vname = camel_or(variants[k].name@);
        let entry = match variants[k].payload {
            VariantPayload::Named(fields) => "U.addVariant("@ + spec_dec(k as nat)
                + ", B.struct(["@ + buffer_named_fields(fields@, 0, table, fuel) + "]), \""@
                + vname + "\");"@,
            VariantPayload::Tuple(tys) => if tys@.len() >= 1 {
                "U.addVariant("@ + spec_dec(k as nat) + ", "@ + spec_buffer_type(
                    tys@[0],
                    table,
                    fuel,
                ) + "), \""@ + vname + "\");"@
            } else {
                "U.addVariant("@ + spec_dec(k as nat) + ", B.struct([]), \""@ + vname + "\");"@
            },
            VariantPayload::Empty => "U.addVariant("@ + spec_dec(k as nat) + ", B.struct([]), \""@
                + vname + "\");"@,
        };
        entry + buffer_variants(variants, k + 1, table, fuel)
    }
}

/// The field descriptors of a named variant payload, field names folded to
/// camelCase.
pub open spec fn buffer_named_fields(
    fields: Seq<FieldDef>,
    k: int,
    table: Seq<ProgramType>,
    fuel: nat,
) -> Seq<char>
    decreases fuel, 1nat, fields.len() - k,
{
    if k < 0 || k >= fields.len() {
        Seq::empty()
    } else {
        spec_buffer_type(fields[k].ty, table, fuel) + "\""@ + camel_of_snake_or(
            fields[k].name@,
        ) + "\"),"@ + buffer_named_fields(fields, k + 1, table, fuel)
    }
}

fn buffer_type_rec(t: &TypeRef, table: &Vec<ProgramType>, fuel: u128) -> (r: Vec<char>)
    ensures
        r@ == spec_buffer_type(*t, table@, fuel as nat),
    decreases fuel as nat, 0nat, type_height(*t),
{
    match t {
        TypeRef::Bool => lit("B.bool("),
        TypeRef::U8 => lit("B.u8("),
        TypeRef::I8 => lit("B.i8("),
        TypeRef::U16 => lit("B.u16("),
        TypeRef::I16 => lit("B.i16("),
        TypeRef::U32 => lit("B.u32("),
        TypeRef::I32 => lit("B.i32("),
        TypeRef::F32 => lit("B.f32("),
        TypeRef::U64 => lit("B.u64("),
        TypeRef::I64 => lit("B.i64("),
        TypeRef::F64 => lit("B.f64("),
        TypeRef::U128 => lit("B.u128("),
        TypeRef::I128 => lit("B.i128("),
        TypeRef::Bytes => lit("B.bytes("),
        TypeRef::Str => lit("B.utf8Str("),
        TypeRef::PublicKey => lit("B.publicKey("),
        TypeRef::Array(inner, n) => {
            let mut out = lit("B.seq(");
            let body = buffer_type_rec(inner, table, fuel);
            push_all(&mut out, body.as_slice());
            let mid = lit("), ");
            push_all(&mut out, mid.as_slice());
            let d = u64_to_dec(*n);
            push_all(&mut out, d.as_slice());
            let tail = lit(", ");
            push_all(&mut out, tail.as_slice());
            proof {
                assert(out@ =~= spec_buffer_type(*t, table@, fuel as nat));
            }
            out
        },
        TypeRef::Optional(inner) => {
            let mut out = lit("B.option(");
            let body = buffer_type_rec(inner, table, fuel);
            push_all(&mut out, body.as_slice());
            let tail = lit("), ");
            push_all(&mut out, tail.as_slice());
            proof {
                assert(out@ =~= spec_buffer_type(*t, table@, fuel as nat));
            }
            out
        },
        TypeRef::Collection(inner) => {
            let mut out = lit("B.vec(");
            let body = buffer_type_rec(inner, table, fuel);
            push_all(&mut out, body.as_slice());
            let tail = lit("), ");
            push_all(&mut out, tail.as_slice());
            proof {
                assert(out@ =~= spec_buffer_type(*t, table@, fuel as nat));
            }
            out
        },
        TypeRef::NullableWrap(inner) => {
            let mut out = lit("B.coption(");
            let body = buffer_type_rec(inner, table, fuel);
            push_all(&mut out, body.as_slice());
            let tail = lit("), ");
            push_all(&mut out, tail.as_slice());
            proof {
                assert(out@ =~= spec_buffer_type(*t, table@, fuel as nat));
            }
            out
        },
        TypeRef::Defined(name) => {
            if crate::text::str_eq(name.as_str(), "Decimal") {
                return lit("B.decimal(");
            }
            match find_type_index_pub(table, name.as_str()) {
                Some(j) => {
                    if fuel == 0 {
                        let out = lit("B.u8(");
                        proof {
                            assert(out@ =~= spec_buffer_type(*t, table@, fuel as nat));
                        }
                        return out;
                    }
                    match &table[j].shape {
                        TypeShape::Record(fields) => {
                            let mut out = lit("B.struct([");
                            let body = buffer_fields_rec(fields, 0, table, fuel - 1);
                            push_all(&mut out, body.as_slice());
                            let tail = lit("], ");
                            push_all(&mut out, tail.as_slice());
                            proof {
                                assert(out@ =~= spec_buffer_type(*t, table@, fuel as nat));
                            }
                            out
                        },
                        TypeShape::TaggedUnion(variants) => {
                            let mut out = lit(
                                "((p: string) => { const U = B.union(B.u8(\"discriminator\"), null, p);",
                            );
                            let body = buffer_variants_rec(variants, 0, table, fuel - 1);
                            push_all(&mut out, body.as_slice());
                            let tail = lit("return U;})(");
                            push_all(&mut out, tail.as_slice());
                            proof {
                                assert(out@ =~= spec_buffer_type(*t, table@, fuel as nat));
                            }
                            out
                        },
                    }
                },
                None => {
                    let out = lit("B.u8(");
                    proof {
                        assert(out@ =~= spec_buffer_type(*t, table@, fuel as nat));
                    }
                    out
                },
            }
        },
    }
}

fn buffer_fields_rec(fields: &Vec<FieldDef>, k: usize, table: &Vec<ProgramType>, fuel: u128) -> (r:
    Vec<char>)
    ensures
        r@ == buffer_fields(fields@, k as int, table@, fuel as nat),
    decreases fuel as nat, 1nat, fields@.len() - k,
{
    if k >= fields.len() {
        let out: Vec<char> = Vec::new();
        proof {
            assert(out@ =~= buffer_fields(fields@, k as int, table@, fuel as nat));
        }
        return out;
    }
    let mut out = buffer_type_rec(&fields[k].ty, table, fuel);
    let q1 = lit("\"");
    push_all(&mut out, q1.as_slice());
    let fname = str_to_chars(fields[k].name.as_str());
    push_all(&mut out, fname.as_slice());
    let q2 = lit("\"),");
    push_all(&mut out, q2.as_slice());
    let rest = buffer_fields_rec(fields, k + 1, table, fuel);
    push_all(&mut out, rest.as_slice());
    proof {
        assert(out@ =~= buffer_fields(fields@, k as int, table@, fuel as nat));
    }
    out
}

fn buffer_variants_rec(
    variants: &Vec<VariantDef>,
    k: usize,
    table: &Vec<ProgramType>,
    fuel: u128,
) -> (r: Vec<char>)
    ensures
        r@ == buffer_variants(variants@, k as int, table@, fuel as nat),
    decreases fuel as nat, 3nat, variants@.len() - k,
{
    if k >= variants.len() {
        let out: Vec<char> = Vec::new();
        proof {
            assert(out@ =~= buffer_variants(variants@, k as int, table@, fuel as nat));
        }
        return out;
    }
    let vname = camel_or_exec(variants[k].name.as_str());
    let vchars = str_to_chars(vname.as_str());
    let mut out = lit("U.addVariant(");
    let d = u64_to_dec(k as u64);
    push_all(&mut out, d.as_slice());
    match &variants[k].payload {
        VariantPayload::Named(fields) => {
            let mid = lit(", B.struct([");
            push_all(&mut out, mid.as_slice());
            let body = buffer_named_fields_rec(fields, 0, table, fuel);
            push_all(&mut out, body.as_slice());
            let close = lit("]), \"");
            push_all(&mut out, close.as_slice());
            push_all(&mut out, vchars.as_slice());
            let tail = lit("\");");
            push_all(&mut out, tail.as_slice());
        },
        VariantPayload::Tuple(tys) => {
            if tys.len() >= 1 {
                let mid = lit(", ");
                push_all(&mut out, mid.as_slice());
                let body = buffer_type_rec(&tys[0], table, fuel);
                push_all(&mut out, body.as_slice());
                let close = lit("), \"");
                push_all(&mut out, close.as_slice());
                push_all(&mut out, vchars.as_slice());
                let tail = lit("\");");
                push_all(&mut out, tail.as_slice());
            } else {
                let mid = lit(", B.struct([]), \"");
                push_all(&mut out, mid.as_slice());
                push_all(&mut out, vchars.as_slice());
                let tail = lit("\");");
                push_all(&mut out, tail.as_slice());
            }
        },
        VariantPayload::Empty => {
            let mid = lit(", B.struct([]), \"");
            push_all(&mut out, mid.as_slice());
            push_all(&mut out, vchars.as_slice());
            let tail = lit("\");");
            push_all(&mut out, tail.as_slice());
        },
    }
    let rest = buffer_variants_rec(variants, k + 1, table, fuel);
    push_all(&mut out, rest.as_slice());
    proof {
        assert(out@ =~= buffer_variants(variants@, k as int, table@, fuel as nat));
    }
    out
}

fn buffer_named_fields_rec(
    fields: &Vec<FieldDef>,
    k: usize,
    table: &Vec<ProgramType>,
    fuel: u128,
) -> (r: Vec<char>)
    ensures
        r@ == buffer_named_fields(fields@, k as int, table@, fuel as nat),
    decreases fuel as nat, 1nat, fields@.len() - k,
{
    if k >= fields.len() {
        let out: Vec<char> = Vec::new();
        proof {
            assert(out@ =~= buffer_named_fields(fields@, k as int, table@, fuel as nat));
        }
        return out;
    }
    let mut out = buffer_type_rec(&fields[k].ty, table, fuel);
    let q1 = lit("\"");
    push_all(&mut out, q1.as_slice());
    let cname = camel_of_snake_or_exec(fields[k].name.as_str());
    let cchars = str_to_chars(cname.as_str());
    push_all(&mut out, cchars.as_slice());
    let q2 = lit("\"),");
    push_all(&mut out, q2.as_slice());
    let rest = buffer_named_fields_rec(fields, k + 1, table, fuel);
    push_all(&mut out, rest.as_slice());
    proof {
        assert(out@ =~= buffer_named_fields(fields@, k as int, table@, fuel as nat));
    }
    out
}

/// The wire descriptor of one field: its type's descriptor closed over the
/// field's name.
pub open spec fn spec_field_buffer(f: FieldDef, table: Seq<ProgramType>) -> Seq<char> {
    spec_buffer_type(f.ty, table, table_fuel(table)) + "\""@ + f.name@ + "\"),"@
}

/// The wire descriptor of one field of a record or argument list.
pub fn get_buffer_type(idl_field: &FieldDef, types: &Vec<ProgramType>) -> (r: String)
    ensures
        r@ == spec_field_buffer(*idl_field, types@),
{
    let fuel: u128 = types.len() as u128 + 1;
    let mut out = buffer_type_rec(&idl_field.ty, types, fuel);
    let q1 = lit("\"");
    push_all(&mut out, q1.as_slice());
    let fname = str_to_chars(idl_field.name.as_str());
    push_all(&mut out, fname.as_slice());
    let q2 = lit("\"),");
    push_all(&mut out, q2.as_slice());
    proof {
        assert(out@ =~= spec_field_buffer(*idl_field, types@));
    }
    chars_to_string(&out)
}

} // verus!
