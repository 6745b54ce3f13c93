use native_to_anchor::cases::{
    camel_from_pascal, camel_from_snake, pascal_from_camel, pascal_from_kebab, pascal_from_snake,
    snake_case, snake_from_kebab, snake_from_pascal,
};
use native_to_anchor::classify::{
    convert_account_name, create_accounts_from_content, get_best_guess_account_names,
};
use native_to_anchor::emit::{get_buffer_type, get_max_span};
use native_to_anchor::gen::{
    create_errors, create_instructions, item_to_program_type, program_info_from_package,
    program_types_from_items, resolve_instruction_arg_types, scaffold_pretext,
    skipped_variant_names, Commands, Generator, GeneratorConfig, IdlArgs, Package, PackageArgs,
    ProgramAndIdlGenerator, ProgramInfo,
};
use native_to_anchor::instr::create_context;
use native_to_anchor::layout::{
    fold_array_length, get_account_space_from_pack, get_idl_type_size,
    get_total_space_for_account, layout_of_space, AccountSpace,
};
use native_to_anchor::resolve::{
    collect_types, get_inside_defined_type_name_from_str, prune_unused_types, replaceable_alias,
    retained_types, TypeCollector,
};
use native_to_anchor::scan::{
    get_account_meta_indices, get_const_value, get_file_without_tests, get_inside_item,
    get_inside_item_line, get_item, get_item_indices, get_item_name_from_full_item,
    get_item_type_from_full_item, get_local_type, get_matching_closing_char,
};
use native_to_anchor::types::{
    is_type_defined, parse_type_ref, parse_u64, FieldDef, LayoutResult, ProgramType, TypeRef,
    TypeShape, VariantDef, VariantPayload,
};

fn s(x: &str) -> String {
    x.to_string()
}

fn field(name: &str, ty: TypeRef) -> FieldDef {
    FieldDef { name: s(name), ty }
}

fn record(name: &str, fields: Vec<FieldDef>) -> ProgramType {
    ProgramType { name: s(name), shape: TypeShape::Record(fields) }
}

// ---- case conversions ----

#[test]
fn case_conversions() {
    assert_eq!(snake_from_pascal("DepositReserveLiquidity"), "deposit_reserve_liquidity");
    assert_eq!(snake_case("SwapBaseIn"), "swap_base_in");
    assert_eq!(snake_from_kebab("stake-pool"), "stake_pool");
    assert_eq!(pascal_from_snake("swap_base_in"), "SwapBaseIn");
    assert_eq!(pascal_from_camel("swapBaseIn"), "SwapBaseIn");
    assert_eq!(pascal_from_kebab("stake-pool"), "StakePool");
    assert_eq!(camel_from_pascal("SwapBaseIn"), "swapBaseIn");
    assert_eq!(camel_from_snake("swap_base_in"), "swapBaseIn");
}

// ---- scanner ----

#[test]
fn balanced_item_scan() {
    assert_eq!(get_matching_closing_char('('), ')');
    assert_eq!(get_matching_closing_char('{'), '}');
    let src = "pub struct A {\n    pub x: u8,\n}\npub struct B {}\n";
    let item = get_item(src, '{');
    assert_eq!(item, "pub struct A {\n    pub x: u8,\n}\n");
}

#[test]
fn item_scan_cuts_inside_line() {
    // the span balances in the middle of the third line
    let src = "call(a,\n  b,\n  c)); x\nrest\n";
    let item = get_item(src, '(');
    assert_eq!(item, "call(a,\n  b,\n  c)\n");
}

#[test]
fn inside_item() {
    assert_eq!(get_inside_item("foo(bar, baz) extra)", '(').as_deref(), Some("bar, baz) extra"));
    assert_eq!(get_inside_item("no parens", '('), None);
    assert_eq!(get_inside_item_line("head<T>\nrest<U>", '<').as_deref(), Some("T"));
}

#[test]
fn item_indices_and_names() {
    let idx = get_item_indices("ab ab ab", "ab");
    assert_eq!(idx, vec![(0, 0), (1, 3), (2, 6)]);
    let metas = get_account_meta_indices("x AccountMeta::new AccountMeta::old");
    assert_eq!(metas.len(), 2);
    assert_eq!(metas[0], (0, 2));
    let item = "pub struct Config {\n    pub a: u8,\n}\n";
    assert_eq!(get_item_name_from_full_item(item).as_deref(), Some("Config"));
    assert_eq!(get_item_type_from_full_item(item).as_deref(), Some("struct"));
}

#[test]
fn local_type_forms() {
    let src = "pub struct Plain {\n    pub a: u8,\n}\npub struct Wrap(u64);\npub struct Empty;\npub enum Choice {\n    One,\n}\n";
    assert_eq!(get_local_type("Plain", src).as_deref(), Some("pub struct Plain {\n    pub a: u8,\n}\n"));
    assert_eq!(get_local_type("Wrap", src).as_deref(), Some("pub struct Wrap(u64);\n"));
    assert_eq!(get_local_type("Empty", src).as_deref(), Some("pub struct Empty {}\n"));
    assert_eq!(get_local_type("Choice", src).as_deref(), Some("pub enum Choice {\n    One,\n}\n"));
    assert_eq!(get_local_type("Absent", src), None);
}

#[test]
fn const_values() {
    let src = "pub const MAX_SIGNERS: usize = 11;\nconst LEN: usize = 82;\n";
    assert_eq!(get_const_value("MAX_SIGNERS", src).as_deref(), Some("11"));
    assert_eq!(get_const_value("Self::LEN", src).as_deref(), Some("82"));
    assert_eq!(get_const_value("MISSING", src), None);
}

#[test]
fn strips_test_section() {
    let src = "fn a() {}\n#[cfg(test)]\nmod tests {\n}\n";
    assert_eq!(get_file_without_tests(src), "fn a() {}\n");
    assert_eq!(get_file_without_tests("fn b() {}\n"), "fn b() {}\n");
}

// ---- type parsing ----

#[test]
fn type_reference_parsing() {
    assert_eq!(parse_type_ref("u64"), Some(TypeRef::U64));
    assert_eq!(parse_type_ref("Pubkey"), Some(TypeRef::PublicKey));
    assert_eq!(parse_type_ref("Vec<u8>"), Some(TypeRef::Bytes));
    assert_eq!(
        parse_type_ref("Option<u32>"),
        Some(TypeRef::Optional(Box::new(TypeRef::U32)))
    );
    assert_eq!(
        parse_type_ref("Vec<u16>"),
        Some(TypeRef::Collection(Box::new(TypeRef::U16)))
    );
    assert_eq!(
        parse_type_ref("COption<Pubkey>"),
        Some(TypeRef::NullableWrap(Box::new(TypeRef::PublicKey)))
    );
    assert_eq!(
        parse_type_ref("[u8; 32]"),
        Some(TypeRef::Array(Box::new(TypeRef::U8), 32))
    );
    // a named length does not parse here; it is folded via the constant table
    assert_eq!(parse_type_ref("[u8; MAX]"), None);
    assert_eq!(parse_type_ref("MyThing"), Some(TypeRef::Defined(s("MyThing"))));
    assert!(is_type_defined("MyThing"));
    assert!(!is_type_defined("u64"));
    assert!(!is_type_defined("Option<MyThing>"));
    assert_eq!(parse_u64(&"123".chars().collect::<Vec<char>>()), Some(123));
    assert_eq!(parse_u64(&"12x".chars().collect::<Vec<char>>()), None);
}

// ---- layout: the fixed size table and scenarios ----

#[test]
fn primitive_size_table() {
    let table: Vec<ProgramType> = Vec::new();
    assert_eq!(get_idl_type_size(&TypeRef::Bool, &table), Some(1));
    assert_eq!(get_idl_type_size(&TypeRef::U8, &table), Some(1));
    assert_eq!(get_idl_type_size(&TypeRef::I8, &table), Some(1));
    assert_eq!(get_idl_type_size(&TypeRef::U16, &table), Some(2));
    assert_eq!(get_idl_type_size(&TypeRef::I16, &table), Some(2));
    assert_eq!(get_idl_type_size(&TypeRef::U32, &table), Some(4));
    assert_eq!(get_idl_type_size(&TypeRef::I32, &table), Some(4));
    assert_eq!(get_idl_type_size(&TypeRef::F32, &table), Some(4));
    assert_eq!(get_idl_type_size(&TypeRef::U64, &table), Some(8));
    assert_eq!(get_idl_type_size(&TypeRef::I64, &table), Some(8));
    assert_eq!(get_idl_type_size(&TypeRef::F64, &table), Some(8));
    assert_eq!(get_idl_type_size(&TypeRef::U128, &table), Some(16));
    assert_eq!(get_idl_type_size(&TypeRef::I128, &table), Some(16));
    assert_eq!(get_idl_type_size(&TypeRef::PublicKey, &table), Some(32));
    assert_eq!(get_idl_type_size(&TypeRef::Str, &table), None);
    assert_eq!(get_idl_type_size(&TypeRef::Bytes, &table), None);
}

#[test]
fn array_sizes() {
    let table: Vec<ProgramType> = Vec::new();
    let arr = TypeRef::Array(Box::new(TypeRef::U8), 32);
    assert_eq!(get_idl_type_size(&arr, &table), Some(32));
    let arr2 = TypeRef::Array(Box::new(TypeRef::PublicKey), 11);
    assert_eq!(get_idl_type_size(&arr2, &table), Some(352));
    // a named length resolved from source text
    let src = "pub const MAX: usize = 10;\n";
    let n: u64 = get_const_value("MAX", src).unwrap().parse().unwrap();
    let folded = TypeRef::Array(Box::new(TypeRef::U8), n);
    assert_eq!(get_idl_type_size(&folded, &table), Some(10));
}

#[test]
fn union_sizes() {
    // Scenario D: {Empty, WithU64(u64)} sizes to 1 + 8
    let table = vec![ProgramType {
        name: s("Ix"),
        shape: TypeShape::TaggedUnion(vec![
            VariantDef { name: s("Empty"), payload: VariantPayload::Empty },
            VariantDef { name: s("WithU64"), payload: VariantPayload::Tuple(vec![TypeRef::U64]) },
        ]),
    }];
    assert_eq!(get_idl_type_size(&TypeRef::Defined(s("Ix")), &table), Some(9));
    // every variant unresolvable: the union is variable
    let table2 = vec![ProgramType {
        name: s("Bad"),
        shape: TypeShape::TaggedUnion(vec![VariantDef {
            name: s("Only"),
            payload: VariantPayload::Tuple(vec![TypeRef::Defined(s("Nope"))]),
        }]),
    }];
    assert_eq!(get_idl_type_size(&TypeRef::Defined(s("Bad")), &table2), None);
}

#[test]
fn record_size_scenarios() {
    // Scenario A: {a: u8, b: u64} with no declared length
    let table = vec![record("Thing", vec![field("a", TypeRef::U8), field("b", TypeRef::U64)])];
    let got = get_total_space_for_account("Thing", "", &table).unwrap();
    assert_eq!(got, AccountSpace::Normal(9));
    assert_eq!(layout_of_space(&got), Some(LayoutResult::Fixed(9)));
    // Scenario B: declared length 16 adds 7 bytes of padding
    let src16 = "impl Pack for Thing {\n    const LEN: usize = 16;\n}\n";
    let got16 = get_total_space_for_account("Thing", src16, &table).unwrap();
    assert_eq!(got16, AccountSpace::PaddingNeeded((16, 7)));
    assert_eq!(layout_of_space(&got16), Some(LayoutResult::FixedWithPadding(16, 7)));
    // Scenario C: declared length 8 is a fatal layout conflict
    let src8 = "impl Pack for Thing {\n    const LEN: usize = 8;\n}\n";
    let conflict = get_total_space_for_account("Thing", src8, &table).unwrap_err();
    assert_eq!(conflict.declared, 8);
    assert_eq!(conflict.computed, 9);
}

#[test]
fn pack_space_through_named_constant() {
    let src = "pub const STATE_LEN: usize = 42;\nimpl Pack for St {\n    const LEN: usize = STATE_LEN;\n}\n";
    assert_eq!(get_account_space_from_pack("St", src), Some(42));
    assert_eq!(get_account_space_from_pack("Other", src), None);
}

#[test]
fn variable_record() {
    let table = vec![record("V", vec![field("data", TypeRef::Bytes)])];
    let got = get_total_space_for_account("V", "", &table).unwrap();
    assert_eq!(got, AccountSpace::Variable);
    assert_eq!(get_total_space_for_account("Missing", "", &table).unwrap(), AccountSpace::NotFound);
}

// ---- resolver ----

#[test]
fn collector_add_is_idempotent() {
    let mut c = TypeCollector {
        all_type_names: Vec::new(),
        all_types: Vec::new(),
        replaced: Vec::new(),
        irresolvable: Vec::new(),
        visited: Vec::new(),
    };
    let item = "pub struct Foo {\n    pub a: u8,\n}\n";
    c.add(s("Foo"), s(item));
    c.add(s("Foo"), s(item));
    assert_eq!(c.all_type_names, vec![s("Foo")]);
    assert_eq!(c.all_types, vec![s(item)]);
}

#[test]
fn worklist_resolves_nested_types() {
    let state = "pub struct Outer {\n    pub inner: Inner,\n    pub n: u64,\n}\n";
    let all = "pub struct Outer {\n    pub inner: Inner,\n    pub n: u64,\n}\npub struct Inner {\n    pub x: u8,\n}\nfn take(v: Inner) {}\n";
    let (c, complete) = collect_types(state, all, 10_000);
    assert!(complete);
    assert!(c.all_type_names.contains(&s("Outer")));
    assert!(c.all_type_names.contains(&s("Inner")));
    assert!(c.irresolvable.is_empty());
    // unknown names are recorded once
    let state2 = "pub struct Lone {\n    pub g: Ghostly,\n}\n";
    let (c2, done2) = collect_types(state2, state2, 10_000);
    assert!(done2);
    assert_eq!(c2.irresolvable, vec![s("Ghostly")]);
    assert_eq!(replaceable_alias("Slot").as_deref(), Some("u64"));
    assert_eq!(replaceable_alias("UnixTimestamp").as_deref(), Some("i64"));
    assert_eq!(replaceable_alias("Whatever"), None);
}

#[test]
fn retained_and_pruning_fixed_point() {
    let names = vec![s("Used"), s("Orphan")];
    let texts = vec![
        s("pub struct Used {\n    pub x: u8,\n}\n"),
        s("pub struct Orphan {\n    pub y: u8,\n}\n"),
    ];
    // the base mentions Used a second time; Orphan occurs only at its own
    // definition and is pruned
    let base = "fn f(u: Used) {}\n";
    let (kept_names, kept_texts) = prune_unused_types(names, texts, base);
    assert_eq!(kept_names, vec![s("Used")]);
    assert_eq!(kept_texts.len(), 1);
    // a second pass removes nothing: the fixed point
    let (again_names, again_texts) =
        prune_unused_types(kept_names.clone(), kept_texts.clone(), base);
    assert_eq!(again_names, kept_names);
    assert_eq!(again_texts, kept_texts);

    let all = "fn g() -> Used { loop {} }\n";
    let retained = retained_types(&vec![s("Used"), s("Plain")], all);
    assert_eq!(retained, vec![s("Used")]);
}

// ---- classifier ----

#[test]
fn account_names_are_normalized() {
    assert_eq!(convert_account_name("spl_token::id()"), "token_program");
    assert_eq!(convert_account_name("solana_program::system_program::id()"), "system_program");
    assert_eq!(convert_account_name("sysvar::rent::id()"), "rent");
    assert_eq!(convert_account_name("sysvar::clock::id()"), "clock");
    assert_eq!(convert_account_name("payer_info.key"), "payer_info");
    assert_eq!(convert_account_name(" plain_name "), "plain_name");
    assert_eq!(convert_account_name("a.b"), "a_b");
}

#[test]
fn best_guess_account_signals() {
    let all = "impl Pack for ConfigAccount {\n}\nlet st: StakeState =\n    StakeState::try_from_slice(data)?;\nlet x = try_from_slice_unchecked::<Registry>(&buf)?;\n";
    let names = get_best_guess_account_names(all);
    assert_eq!(names, vec![s("ConfigAccount"), s("StakeState"), s("Registry")]);
}

#[test]
fn classification_keeps_roles_apart() {
    let state = "pub struct ConfigAccount {\n    pub meta: Meta,\n}\npub struct Meta {\n    pub x: u8,\n}\n";
    let all = "pub struct ConfigAccount {\n    pub meta: Meta,\n}\npub struct Meta {\n    pub x: u8,\n}\nimpl Pack for ConfigAccount {\n}\nfn load(m: Meta) -> ConfigAccount { loop {} }\n";
    let model = create_accounts_from_content(state, all, 10_000);
    assert!(model.complete);
    assert_eq!(model.account_names, vec![s("ConfigAccount")]);
    // the classification invariant: no name stands in both lists
    for a in &model.account_names {
        assert!(!model.user_type_names.contains(a));
    }
    assert!(model.user_type_names.contains(&s("Meta")));
    assert!(model.missing_accounts.is_empty());
    // a guessed account that resolves nowhere is reported
    let all2 = "impl Pack for Phantom {\n}\n";
    let model2 = create_accounts_from_content("", all2, 10_000);
    assert_eq!(model2.missing_accounts, vec![s("Phantom")]);
}

// ---- instruction synthesis ----

const CTX_SRC: &str = "pub enum DemoInstruction {\n    DoThing,\n}\npub fn do_thing(payer: &Pubkey, config: &Pubkey, extra: &Pubkey) -> Instruction {\n    let accounts = vec![\n        AccountMeta::new(*payer, true),\n        AccountMeta::new_readonly(*config, false),\n    ];\n    accounts.push(AccountMeta::new(*extra, false));\n    Instruction { accounts }\n}\n";

#[test]
fn context_orders_and_flags_accounts() {
    let accs = create_context(CTX_SRC, CTX_SRC, "do_thing").unwrap();
    assert_eq!(accs.len(), 3);
    assert_eq!(accs[0].name, "payer");
    assert!(accs[0].mutable);
    assert!(accs[0].signer);
    assert!(!accs[0].optional);
    assert_eq!(accs[1].name, "config");
    assert!(!accs[1].mutable);
    assert!(!accs[1].signer);
    assert!(!accs[1].optional);
    // Scenario F: the appended third account is optional and trails the
    // mandatory pair
    assert_eq!(accs[2].name, "extra");
    assert!(accs[2].optional);
    assert!(create_context(CTX_SRC, CTX_SRC, "absent_fn").is_none());
}

#[test]
fn capacity_style_defaults() {
    let src = "pub fn sized(a: &Pubkey) -> Instruction {\n    let mut accounts = Vec::with_capacity(1 + 1);\n    accounts.push(AccountMeta::new(*first, true));\n    accounts.push(AccountMeta::new(*second, false));\n    accounts.push(AccountMeta::new(*third, false));\n    Instruction { accounts }\n}\n";
    let accs = create_context(src, src, "sized").unwrap();
    assert_eq!(accs.len(), 3);
    assert!(!accs[0].optional);
    assert!(!accs[1].optional);
    assert!(accs[2].optional);
}

#[test]
fn instructions_skip_missing_constructors() {
    // Scenario E: the second variant has no constructor anywhere and is
    // skipped with nothing emitted for it
    let src = "pub enum DemoInstruction {\n    DoThing { amount: u64 },\n    Missing { other: u8 },\n}\npub fn do_thing(payer: &Pubkey) -> Instruction {\n    let accounts = vec![\n        AccountMeta::new(*payer, true),\n    ];\n    Instruction { accounts }\n}\n";
    let ixs = create_instructions(src, src);
    assert_eq!(ixs.len(), 1);
    assert_eq!(ixs[0].name, "DoThing");
    assert_eq!(ixs[0].function_name, "do_thing");
    assert_eq!(ixs[0].args.len(), 1);
    assert_eq!(ixs[0].args[0].name, "amount");
    assert_eq!(ixs[0].args[0].ty, TypeRef::U64);
    assert_eq!(ixs[0].accounts.len(), 1);
    assert_eq!(ixs[0].accounts[0].name, "payer");
}

#[test]
fn instructions_from_payload_type() {
    let src = "pub enum DemoInstruction {\n    Trade(TradeArgs),\n}\npub struct TradeArgs {\n    pub amount: u64,\n    pub side: u8,\n}\npub fn trade(payer: &Pubkey) -> Instruction {\n    let accounts = vec![\n        AccountMeta::new(*payer, true),\n    ];\n    Instruction { accounts }\n}\n";
    let ixs = create_instructions(src, src);
    assert_eq!(ixs.len(), 1);
    assert_eq!(ixs[0].function_name, "trade");
    assert_eq!(ixs[0].args.len(), 2);
    assert_eq!(ixs[0].args[0].name, "amount");
    assert_eq!(ixs[0].args[1].name, "side");
}

// ---- errors ----

#[test]
fn errors_renumber_from_zero() {
    let src = "pub enum DemoError {\n    #[error(\"first failed\")]\n    FirstBad,\n    #[error(\"second failed\")]\n    SecondBad,\n}\n";
    let errs = create_errors(src);
    assert_eq!(errs.len(), 2);
    assert_eq!(errs[0].code, 0);
    assert_eq!(errs[0].name, "FirstBad");
    assert_eq!(errs[0].message, "first failed");
    assert_eq!(errs[1].code, 1);
    assert_eq!(errs[1].name, "SecondBad");
}

// ---- emitter ----

#[test]
fn max_span_expressions() {
    let table: Vec<ProgramType> = Vec::new();
    assert_eq!(get_max_span(&TypeRef::U64, "amount", &table), "+ 8");
    assert_eq!(get_max_span(&TypeRef::Str, "name", &table), "+4 + name.length");
    assert_eq!(
        get_max_span(&TypeRef::Collection(Box::new(TypeRef::U16)), "xs", &table),
        "+4 + xs.length * 2"
    );
    assert_eq!(
        get_max_span(&TypeRef::Optional(Box::new(TypeRef::U32)), "x", &table),
        "+1 + (x === null ? 0 : 4)"
    );
    assert_eq!(
        get_max_span(&TypeRef::Array(Box::new(TypeRef::U8), 32), "buf", &table),
        "+1 * 32"
    );
    let table2 = vec![record("Inner", vec![field("v", TypeRef::U64)])];
    assert_eq!(get_max_span(&TypeRef::Defined(s("Inner")), "arg", &table2), "+ 8");
}

#[test]
fn buffer_descriptors() {
    let table: Vec<ProgramType> = Vec::new();
    assert_eq!(get_buffer_type(&field("a", TypeRef::U8), &table), "B.u8(\"a\"),");
    assert_eq!(
        get_buffer_type(&field("key", TypeRef::PublicKey), &table),
        "B.publicKey(\"key\"),"
    );
    assert_eq!(
        get_buffer_type(&field("xs", TypeRef::Collection(Box::new(TypeRef::U64))), &table),
        "B.vec(B.u64(), \"xs\"),"
    );
    let table2 = vec![record("Inner", vec![field("v", TypeRef::U64)])];
    assert_eq!(
        get_buffer_type(&field("w", TypeRef::Defined(s("Inner"))), &table2),
        "B.struct([B.u64(\"v\"),], \"w\"),"
    );
    // an unresolvable name downgrades to a single byte
    assert_eq!(get_buffer_type(&field("m", TypeRef::Defined(s("Gone"))), &table), "B.u8(\"m\"),");
}

// ---- configuration and program information ----

#[test]
fn config_flag_logic() {
    let idl = GeneratorConfig::idl(
        IdlArgs { path: None, keep_dummy_program: false, dummy_program_path: Some(s("p")) },
        s("out"),
    );
    match idl.command {
        Commands::Idl(a) => assert!(a.keep_dummy_program),
        _ => panic!("expected a schema command"),
    }
    let pkg = GeneratorConfig::package(
        PackageArgs {
            path: Some(s("src")),
            keep: true,
            keep_dummy_program: false,
            keep_idl_json: false,
            skip_init: false,
            yarn_lock: false,
            dummy_program_path: None,
            idl_path: None,
        },
        s("out"),
    );
    match pkg.command {
        Commands::Package(a) => {
            assert!(a.keep_dummy_program);
            assert!(a.keep_idl_json);
        },
        _ => panic!("expected a package command"),
    }
    assert_eq!(pkg.maybe_path.as_deref(), Some("src"));
}

#[test]
fn program_info_defaulting() {
    let info = program_info_from_package(Package {
        name: None,
        description: None,
        version: None,
        license: None,
        repository: None,
        authors: None,
    });
    assert_eq!(info.name, "native-program");
    assert_eq!(info.version, "0.1.0");
    assert_eq!(info.license, "Apache-2.0");
    assert_eq!(info.author, "");
    let info2 = program_info_from_package(Package {
        name: Some(s("stake-pool")),
        description: Some(s("d")),
        version: Some(s("2.0.0")),
        license: Some(s("MIT")),
        repository: Some(s("r")),
        authors: Some(vec![s("ann"), s("bo")]),
    });
    assert_eq!(info2.name, "stake-pool");
    assert_eq!(info2.author, "ann, bo");
    assert!(scaffold_pretext("stake_pool").contains("pub mod stake_pool"));
}

// ---- structured types from item texts ----

#[test]
fn structured_types_with_const_folding() {
    let all = "pub const MAX: usize = 3;\npub struct Keys {\n    pub ks: [Pubkey; MAX],\n}\n";
    assert_eq!(
        fold_array_length("[u8; MAX]", all),
        Some(TypeRef::Array(Box::new(TypeRef::U8), 3))
    );
    assert_eq!(fold_array_length("[u8; NOPE]", all), None);
    let item = "pub struct Keys {\n    pub ks: [Pubkey; MAX],\n}\n";
    let pt = item_to_program_type(item, all).unwrap();
    assert_eq!(pt.name, "Keys");
    let table = vec![pt];
    // three public keys of 32 bytes each
    assert_eq!(get_idl_type_size(&TypeRef::Defined(s("Keys")), &table), Some(96));
}

#[test]
fn structured_union_from_text() {
    let item = "pub enum Move {\n    Stay,\n    Jump(u64),\n}\n";
    let pt = item_to_program_type(item, "").unwrap();
    assert_eq!(pt.name, "Move");
    match &pt.shape {
        TypeShape::TaggedUnion(vs) => {
            assert_eq!(vs.len(), 2);
            assert_eq!(vs[0].name, "Stay");
            assert_eq!(vs[0].payload, VariantPayload::Empty);
            assert_eq!(vs[1].name, "Jump");
        },
        _ => panic!("expected a tagged union"),
    }
    let table = program_types_from_items(&vec![s(item)], "");
    assert_eq!(table.len(), 1);
    assert_eq!(get_idl_type_size(&TypeRef::Defined(s("Move")), &table), Some(9));
}

#[test]
fn wrapper_record_from_text() {
    let pt = item_to_program_type("pub struct Wrap(u64);\n", "").unwrap();
    assert_eq!(pt.name, "Wrap");
    let table = vec![pt];
    assert_eq!(get_idl_type_size(&TypeRef::Defined(s("Wrap")), &table), Some(8));
}

// ---- nested names and generator accessors ----

#[test]
fn nested_defined_names() {
    assert_eq!(get_inside_defined_type_name_from_str("Option<Meta>").as_deref(), Some("Meta"));
    assert_eq!(get_inside_defined_type_name_from_str("Vec<Meta>").as_deref(), Some("Meta"));
    assert_eq!(get_inside_defined_type_name_from_str("[Meta; 4]").as_deref(), Some("Meta"));
    assert_eq!(get_inside_defined_type_name_from_str("COption<Pubkey>").as_deref(), Some("Pubkey"));
    assert_eq!(get_inside_defined_type_name_from_str("u64"), None);
    // an array with a named length is left to the constant-folding path
    assert_eq!(get_inside_defined_type_name_from_str("[Meta; MAX]"), None);
}

#[test]
fn generator_halves() {
    let generator = Generator {
        program_info: ProgramInfo {
            name: s("stake-pool"),
            description: s(""),
            version: s("1.0.0"),
            license: s("MIT"),
            repository: s(""),
            author: s(""),
        },
        native_src_path: s("native/stake-pool/src"),
        generated_project_path: s("generated/stake-pool"),
        idl_path: s("generated/stake-pool/idl.json"),
        all_content: s(""),
    };
    let prog = ProgramAndIdlGenerator::new_program(&generator);
    assert!(prog.idl_generator().is_none());
    assert_eq!(
        prog.native_src_path().map(|p| p.as_str()),
        Some("native/stake-pool/src")
    );
    assert!(prog.anchor_content.contains("pub mod stake_pool"));
    let idl = ProgramAndIdlGenerator::new_idl(&generator, true);
    let half = idl.idl_generator().unwrap();
    assert!(half.keep_dummy_program);
    assert_eq!(half.idl_path, "generated/stake-pool/idl.json");
}

#[test]
fn union_span_expression() {
    let table = vec![ProgramType {
        name: s("Cmd"),
        shape: TypeShape::TaggedUnion(vec![
            VariantDef { name: s("Go"), payload: VariantPayload::Empty },
            VariantDef { name: s("Pay"), payload: VariantPayload::Tuple(vec![TypeRef::U64]) },
        ]),
    }];
    let span = get_max_span(&TypeRef::Defined(s("Cmd")), "cmd", &table);
    assert_eq!(
        span,
        "+(() => {switch (Object.keys(cmd)[0]) {case \"go\": return 1 ;case \"pay\": return 1 + 8;}})()"
    );
}

#[test]
fn unbalanced_item_is_best_effort() {
    // a truncated declaration yields the whole text as a partial span
    let item = get_item("open( a\n b\n", '(');
    assert_eq!(item, "open( a\n b\n");
}

// ---- edges: empty inputs and size bounds ----

#[test]
fn empty_inputs() {
    assert_eq!(get_item("", '{'), "");
    assert_eq!(get_inside_item("", '('), None);
    assert_eq!(get_file_without_tests(""), "");
    assert_eq!(convert_account_name(""), "");
    assert_eq!(parse_type_ref(""), None);
    assert_eq!(get_item_name_from_full_item(""), None);
    assert!(create_instructions("", "").is_empty());
    assert!(create_errors("").is_empty());
}

#[test]
fn size_bounds() {
    // one past the largest representable value
    assert_eq!(parse_u64(&"18446744073709551615".chars().collect::<Vec<char>>()),
        Some(u64::MAX));
    assert_eq!(parse_u64(&"18446744073709551616".chars().collect::<Vec<char>>()), None);
    // a multiplication beyond the size type has no fixed size
    let table: Vec<ProgramType> = Vec::new();
    let huge = TypeRef::Array(Box::new(TypeRef::U64), u64::MAX);
    assert_eq!(get_idl_type_size(&huge, &table), None);
}

// ---- review-driven scenarios ----

#[test]
fn capacity_terms_resolve_named_constants() {
    // the capacity sum resolves a named term through the constant lookup
    let src = "pub const BASE: usize = 1;\npub fn sized(a: &Pubkey) -> Instruction {\n    let mut accounts = Vec::with_capacity(BASE + 1);\n    accounts.push(AccountMeta::new(*first, true));\n    accounts.push(AccountMeta::new(*second, false));\n    accounts.push(AccountMeta::new(*third, false));\n    Instruction { accounts }\n}\n";
    let accs = create_context(src, src, "sized").unwrap();
    assert_eq!(accs.len(), 3);
    assert!(!accs[0].optional);
    assert!(!accs[1].optional);
    assert!(accs[2].optional);
}

#[test]
fn pipeline_prunes_unused_user_types() {
    // Orphan is referenced as a parameter type (so retained), but no kept
    // text mentions it, so the fixed-point pruning removes it; Meta stays
    // because the account text uses it
    let state = "pub struct ConfigAccount {\n    pub meta: Meta,\n}\npub struct Meta {\n    pub x: u8,\n}\npub struct Orphan {\n    pub y: u8,\n}\n";
    let all = "pub struct ConfigAccount {\n    pub meta: Meta,\n}\npub struct Meta {\n    pub x: u8,\n}\npub struct Orphan {\n    pub y: u8,\n}\nimpl Pack for ConfigAccount {\n}\nfn load(m: Meta) -> ConfigAccount { loop {} }\nfn stray(o: Orphan) {}\n";
    let model = create_accounts_from_content(state, all, 10_000);
    assert!(model.user_type_names.contains(&s("Meta")));
    assert!(!model.user_type_names.contains(&s("Orphan")));
    assert_eq!(model.user_type_names.len(), model.user_type_texts.len());
}

#[test]
fn instruction_arg_types_are_topped_up() {
    let src = "pub enum DemoInstruction {\n    DoThing { meta: Meta },\n    Ghost(GhostArgs),\n}\npub struct Meta {\n    pub x: u8,\n}\npub fn do_thing(payer: &Pubkey) -> Instruction {\n    let accounts = vec![\n        AccountMeta::new(*payer, true),\n    ];\n    Instruction { accounts }\n}\npub fn ghost(payer: &Pubkey) -> Instruction {\n    let accounts = vec![\n        AccountMeta::new(*payer, true),\n    ];\n    Instruction { accounts }\n}\n";
    let ixs = create_instructions(src, src);
    assert_eq!(ixs.len(), 2);
    // an inline field of a defined type; a synthetic argument of an
    // undeclared payload type
    assert_eq!(ixs[0].args[0].name, "meta");
    assert_eq!(ixs[0].args[0].ty, TypeRef::Defined(s("Meta")));
    assert_eq!(ixs[1].args[0].name, "arg");
    let (table, missing) = resolve_instruction_arg_types(&ixs, Vec::new(), src);
    // Meta is now resolvable; GhostArgs is reported
    assert_eq!(get_idl_type_size(&TypeRef::Defined(s("Meta")), &table), Some(1));
    assert_eq!(missing, vec![s("GhostArgs")]);
}

#[test]
fn skipped_variants_are_reported() {
    let src = "pub enum DemoInstruction {\n    DoThing { amount: u64 },\n    Missing { other: u8 },\n}\npub fn do_thing(payer: &Pubkey) -> Instruction {\n    let accounts = vec![\n        AccountMeta::new(*payer, true),\n    ];\n    Instruction { accounts }\n}\n";
    assert_eq!(skipped_variant_names(src, src), vec![s("Missing")]);
}
