use vstd::prelude::*;

use crate::text::contains_sub;
use crate::text::str_to_chars;
use crate::text::chars_to_string;
use crate::text::push_all;
use crate::text::sub_chars;
use crate::text::trim_chars;
use crate::text::find_sub_from;
use crate::text::lemma_find_sub_correct;
use crate::text::find_char_from;
use crate::cases::spec_snake_from_pascal;
use crate::cases::snake_from_pascal;
use crate::cases::spec_snake_from_kebab;
use crate::cases::snake_from_kebab;
use crate::types::InstructionDef;
use crate::types::FieldDef;
use crate::types::TypeRef;
use crate::types::ErrorDef;
use crate::instr::spec_locate_function;
use crate::instr::spec_account_list;
use crate::instr::ref_matches;
use crate::instr::create_context;

verus! {

// The per-root generator: configuration, program information, and the
// instruction and error synthesis over one program source root.

/// The declared package fields of a program manifest, as plain values.
pub struct Package {
    pub name: Option<String>,
    pub description: Option<String>,
    pub version: Option<String>,
    pub license: Option<String>,
    pub repository: Option<String>,
    pub authors: Option<Vec<String>>,
}

/// The program information a generation run works from.
pub struct ProgramInfo {
    pub name: String,
    pub description: String,
    pub version: String,
    pub license: String,
    pub repository: String,
    pub author: String,
}

/// The authors joined into one name, comma-separated, empty names skipped
/// at the front.
pub open spec fn spec_join_authors(authors: Seq<Seq<char>>, k: int, acc: Seq<char>) -> Seq<char>
    decreases authors.len() - k,
{
    if k < 0 || k >= authors.len() {
        acc
    } else {
        let acc2 = if acc.len() == 0 {
            authors[k]
        } else {
            acc + ", "@ + authors[k]
        };
        spec_join_authors(authors, k + 1, acc2)
    }
}

/// Build the program information from a parsed package section, defaulting
/// every missing field.
pub fn program_info_from_package(pkg: Package) -> (r: ProgramInfo)
    ensures
        r.name@ == match pkg.name {
            Some(n) => n@,
            None => "native-program"@,
        },
        r.description@ == match pkg.description {
            Some(d) => d@,
            None => ""@,
        },
        r.version@ == match pkg.version {
            Some(v) => v@,
            None => "0.1.0"@,
        },
        r.license@ == match pkg.license {
            Some(l) => l@,
            None => "Apache-2.0"@,
        },
        r.repository@ == match pkg.repository {
            Some(p) => p@,
            None => ""@,
        },
        r.author@ == match pkg.authors {
            Some(a) => spec_join_authors(a.deep_view(), 0, Seq::empty()),
            None => ""@,
        },
{
    proof {
        reveal_strlit("");
    }
    let name = match pkg.name {
        Some(n) => n,
        None => lit_string("native-program"),
    };
    let description = match pkg.description {
        Some(d) => d,
        None => lit_string(""),
    };
    let version = match pkg.version {
        Some(v) => v,
        None => lit_string("0.1.0"),
    };
    let license = match pkg.license {
        Some(l) => l,
        None => lit_string("Apache-2.0"),
    };
    let repository = match pkg.repository {
        Some(p) => p,
        None => lit_string(""),
    };
    let author = match pkg.authors {
        Some(authors) => {
            let ghost adv = authors.deep_view();
            let mut acc: Vec<char> = Vec::new();
            let mut k: usize = 0;
            proof {
                assert(acc@ =~= Seq::<char>::empty());
            }
            while k < authors.len()
                invariant
                    adv == authors.deep_view(),
                    0 <= k <= authors@.len(),
                    spec_join_authors(adv, 0, Seq::empty()) == spec_join_authors(
                        adv,
                        k as int,
                        acc@,
                    ),
                decreases authors@.len() - k,
            {
                proof {
                    assert(adv[k as int] == authors@[k as int].deep_view());
                    reveal_strlit(", ");
                }
                let a = str_to_chars(authors[k].as_str());
                if acc.len() == 0 {
                    let ghost pre = acc@;
                    push_all(&mut acc, a.as_slice());
                    proof {
                        assert(acc@ =~= adv[k as int]);
                    }
                } else {
                    let sep = str_to_chars(", ");
                    push_all(&mut acc, sep.as_slice());
                    push_all(&mut acc, a.as_slice());
                }
                k += 1;
            }
            proof {
                assert(spec_join_authors(adv, adv.len() as int, acc@) == acc@);
            }
            chars_to_string(&acc)
        },
        None => lit_string(""),
    };
    ProgramInfo { name, description, version, license, repository, author }
}

fn lit_string(s: &str) -> (r: String)
    ensures
        r@ == s@,
{
    let v = str_to_chars(s);
    chars_to_string(&v)
}

/// The arguments of a program-scaffold run.
pub struct ProgramArgs {
    pub path: Option<String>,
}

/// The arguments of a schema-generation run.
pub struct IdlArgs {
    pub path: Option<String>,
    pub keep_dummy_program: bool,
    pub dummy_program_path: Option<String>,
}

/// The arguments of a package-generation run.
pub struct PackageArgs {
    pub path: Option<String>,
    pub keep: bool,
    pub keep_dummy_program: bool,
    pub keep_idl_json: bool,
    pub skip_init: bool,
    pub yarn_lock: bool,
    pub dummy_program_path: Option<String>,
    pub idl_path: Option<String>,
}

/// One generation command with its arguments.
pub enum Commands {
    Program(ProgramArgs),
    Idl(IdlArgs),
    Package(PackageArgs),
}

/// One prepared generation run: the command, the output directory, and the
/// chosen source path.
pub struct GeneratorConfig {
    pub command: Commands,
    pub generated_path: String,
    pub maybe_path: Option<String>,
}

impl GeneratorConfig {
    /// Configure a scaffold run.
    pub fn program(args: ProgramArgs, generated_path_string: String) -> (r: GeneratorConfig)
        ensures
            r.command matches Commands::Program(a) && a.path == args.path,
            r.generated_path == generated_path_string,
            r.maybe_path == args.path,
    {
        let maybe_path = clone_opt(&args.path);
        GeneratorConfig {
            command: Commands::Program(args),
            generated_path: generated_path_string,
            maybe_path,
        }
    }

    /// Configure a schema run: a given scaffold path forces keeping it.
    pub fn idl(args: IdlArgs, generated_path_string: String) -> (r: GeneratorConfig)
        ensures
            r.command matches Commands::Idl(a) && {
                &&& a.path == args.path
                &&& a.dummy_program_path == args.dummy_program_path
                &&& a.keep_dummy_program == (args.dummy_program_path is Some
                    || args.keep_dummy_program)
            },
            r.generated_path == generated_path_string,
            r.maybe_path == args.path,
    {
        let maybe_path = clone_opt(&args.path);
        let keep_dummy_program = match args.dummy_program_path {
            Some(_) => true,
            None => args.keep_dummy_program,
        };
        GeneratorConfig {
            command: Commands::Idl(
                IdlArgs { keep_dummy_program, path: args.path, dummy_program_path: args.dummy_program_path },
            ),
            generated_path: generated_path_string,
            maybe_path,
        }
    }

    /// Configure a package run: keeping everything follows from an explicit
    /// keep, a given scaffold path, or a given schema path.
    pub fn package(args: PackageArgs, generated_path_string: String) -> (r: GeneratorConfig)
        ensures
            r.command matches Commands::Package(a) && {
                let forced = args.keep || args.dummy_program_path is Some || args.idl_path
                    is Some;
                &&& a.path == args.path
                &&& a.keep == args.keep
                &&& a.dummy_program_path == args.dummy_program_path
                &&& a.idl_path == args.idl_path
                &&& a.skip_init == args.skip_init
                &&& a.yarn_lock == args.yarn_lock
                &&& a.keep_dummy_program == (forced || args.keep_dummy_program)
                &&& a.keep_idl_json == (forced || args.keep_idl_json)
            },
            r.generated_path == generated_path_string,
            r.maybe_path == args.path,
    {
        let forced = args.keep || args.dummy_program_path.is_some() || args.idl_path.is_some();
        let keep_dummy_program = if forced {
            true
        } else {
            args.keep_dummy_program
        };
        let keep_idl_json = if forced {
            true
        } else {
            args.keep_idl_json
        };
        let maybe_path = clone_opt(&args.path);
        GeneratorConfig {
            command: Commands::Package(
                PackageArgs {
                    keep_dummy_program,
                    keep_idl_json,
                    path: args.path,
                    keep: args.keep,
                    skip_init: args.skip_init,
                    yarn_lock: args.yarn_lock,
                    dummy_program_path: args.dummy_program_path,
                    idl_path: args.idl_path,
                },
            ),
            generated_path: generated_path_string,
            maybe_path,
        }
    }
}

fn clone_opt(o: &Option<String>) -> (r: Option<String>)
    ensures
        r == *o,
{
    match o {
        Some(s) => Some(s.clone()),
        None => None,
    }
}

/// One program source root prepared for generation: its information and the
/// merged source, with the derived paths as plain text.
pub struct Generator {
    pub program_info: ProgramInfo,
    pub native_src_path: String,
    pub generated_project_path: String,
    pub idl_path: String,
    pub all_content: String,
}

/// The scaffold generator of one root.
pub struct ProgramGenerator {
    pub native_src_path: String,
}

/// The schema generator of one root.
pub struct IdlGenerator {
    pub idl_path: String,
    pub keep_dummy_program: bool,
}

/// The combined scaffold-and-schema generator of one root.
pub struct ProgramAndIdlGenerator {
    pub program_generator: Option<ProgramGenerator>,
    pub idl_generator: Option<IdlGenerator>,
    pub program_info_name: String,
    pub all_content: String,
    pub anchor_path: String,
    pub anchor_content: String,
}

/// The scaffold preamble for a program of the given snake_case name.
pub open spec fn spec_scaffold_pretext(name: Seq<char>) -> Seq<char> {
    "use anchor_lang::prelude::*;\n\n#[program]\npub mod "@ + name + " {\nuse super::*;\n"@
}

/// The scaffold preamble for a program name.
pub fn scaffold_pretext(name: &str) -> (r: String)
    ensures
        r@ == spec_scaffold_pretext(name@),
{
    let mut out = str_to_chars("use anchor_lang::prelude::*;\n\n#[program]\npub mod ");
    let nv = str_to_chars(name);
    push_all(&mut out, nv.as_slice());
    let tail = str_to_chars(" {\nuse super::*;\n");
    push_all(&mut out, tail.as_slice());
    chars_to_string(&out)
}

impl ProgramAndIdlGenerator {
    /// Prepare a scaffold run for one root: the scaffold text opens with the
    /// preamble under the program's snake_case name.
    pub fn new_program(generator: &Generator) -> (r: ProgramAndIdlGenerator)
        ensures
            r.program_generator matches Some(p) && p.native_src_path
                == generator.native_src_path,
            r.idl_generator is None,
            r.program_info_name == generator.program_info.name,
            r.all_content == generator.all_content,
            r.anchor_content@ == spec_scaffold_pretext(
                spec_snake_from_kebab(generator.program_info.name@),
            ),
    {
        let snake = snake_from_kebab(generator.program_info.name.as_str());
        let anchor_content = scaffold_pretext(snake.as_str());
        let anchor_path = generator.generated_project_path.clone();
        ProgramAndIdlGenerator {
            program_generator: Some(
                ProgramGenerator { native_src_path: generator.native_src_path.clone() },
            ),
            idl_generator: None,
            program_info_name: generator.program_info.name.clone(),
            all_content: generator.all_content.clone(),
            anchor_path,
            anchor_content,
        }
    }

    /// Prepare a schema run for one root.
    pub fn new_idl(generator: &Generator, keep_dummy_program: bool) -> (r: ProgramAndIdlGenerator)
        ensures
            r.idl_generator matches Some(g) && g.keep_dummy_program == keep_dummy_program
                && g.idl_path == generator.idl_path,
            r.program_generator matches Some(p) && p.native_src_path
                == generator.native_src_path,
            r.anchor_content@ == spec_scaffold_pretext(
                spec_snake_from_kebab(generator.program_info.name@),
            ),
    {
        let snake = snake_from_kebab(generator.program_info.name.as_str());
        let anchor_content = scaffold_pretext(snake.as_str());
        ProgramAndIdlGenerator {
            program_generator: Some(
                ProgramGenerator { native_src_path: generator.native_src_path.clone() },
            ),
            idl_generator: Some(
                IdlGenerator { idl_path: generator.idl_path.clone(), keep_dummy_program },
            ),
            program_info_name: generator.program_info.name.clone(),
            all_content: generator.all_content.clone(),
            anchor_path: generator.generated_project_path.clone(),
            anchor_content,
        }
    }
}

impl ProgramAndIdlGenerator {
    /// The source path of the scaffold half, where one is configured.
    pub fn native_src_path(&self) -> (r: Option<&String>)
        ensures
            match r {
                Some(p) => self.program_generator matches Some(g) && g.native_src_path == *p,
                None => self.program_generator is None,
            },
    {
        match &self.program_generator {
            Some(g) => Some(&g.native_src_path),
            None => None,
        }
    }

    /// The schema half, where one is configured.
    pub fn idl_generator(&self) -> (r: Option<&IdlGenerator>)
        ensures
            match r {
                Some(g) => self.idl_generator matches Some(h) && h == *g,
                None => self.idl_generator is None,
            },
    {
        match &self.idl_generator {
            Some(g) => Some(g),
            None => None,
        }
    }
}

/// The error rows read from the lines of an error declaration body: a
/// message-marker line sets the pending message, a skipped line changes
/// nothing, and any other line of at least two characters whose text before
/// the first comma is nonempty declares one error under the pending
/// message, which is then cleared.
pub open spec fn spec_error_rows(lines: Seq<Seq<char>>, k: int, msg: Seq<char>) -> Seq<(Seq<
    char,
>, Seq<char>)>
    decreases lines.len() - k,
{
    if k < 0 || k >= lines.len() {
        Seq::empty()
    } else {
        let l = lines[k];
        if contains_sub(l, "#[error("@) {
            let msg2 = match crate::scan::spec_get_inside_item(l, '"') {
                Some(m) => m,
                None => msg,
            };
            spec_error_rows(lines, k + 1, msg2)
        } else if crate::resolve::is_skip_line(l) {
            spec_error_rows(lines, k + 1, msg)
        } else {
            let t = crate::text::spec_trim(l);
            if t.len() >= 2 {
                let comma = crate::text::first_char_or_len(t, ',');
                if 0 <= comma <= t.len() && t.subrange(0, comma).len() >= 1 {
                    seq![(t.subrange(0, comma), msg)] + spec_error_rows(lines, k + 1, ""@)
                } else {
                    spec_error_rows(lines, k + 1, msg)
                }
            } else {
                spec_error_rows(lines, k + 1, msg)
            }
        }
    }
}

/// The error rows of an error declaration: the body of its first tagged
/// union, walked line by line past the head.
pub open spec fn spec_error_list(content: Seq<char>) -> Seq<(Seq<char>, Seq<char>)> {
    match crate::text::spec_find_sub(content, "pub enum"@, 0) {
        Some(i) => spec_error_rows(
            crate::text::spec_lines(crate::scan::spec_get_item(content.skip(i), '{')),
            1,
            ""@,
        ),
        None => Seq::empty(),
    }
}

/// Renumbered error definitions read from an error declaration: exactly the
/// error rows of its first tagged union, coded as a zero-based sequence.
pub fn create_errors(error_content: &str) -> (r: Vec<ErrorDef>)
    ensures
        r@.len() == spec_error_list(error_content@).len(),
        forall|k: int|
            0 <= k < r@.len() ==> {
                let e = #[trigger] r@[k];
                &&& e.code == k
                &&& e.name@ == spec_error_list(error_content@)[k].0
                &&& e.message@ == spec_error_list(error_content@)[k].1
            },
{
    proof {
        reveal_strlit("pub enum");
        reveal_strlit("#[error(");
        reveal_strlit("");
    }
    let cv = str_to_chars(error_content);
    let pat = str_to_chars("pub enum");
    let start = match find_sub_from(cv.as_slice(), pat.as_slice(), 0) {
        Some(i) => i,
        None => {
            let r: Vec<ErrorDef> = Vec::new();
            return r;
        },
    };
    proof {
        lemma_find_sub_correct(cv@, "pub enum"@, 0);
    }
    let tail = sub_chars(cv.as_slice(), start, cv.len());
    let tail_str = chars_to_string(&tail);
    proof {
        assert(tail_str@ =~= error_content@.skip(start as int));
    }
    let body = crate::scan::get_item(tail_str.as_str(), '{');
    let body_chars = str_to_chars(body.as_str());
    let lines = crate::text::split_lines(body_chars.as_slice());
    let ghost dv = lines.deep_view();
    let ghost rows = spec_error_rows(dv, 1, ""@);
    let mut out: Vec<ErrorDef> = Vec::new();
    let ghost mut gdone: Seq<(Seq<char>, Seq<char>)> = Seq::empty();
    let mut message: String = lit_string("");
    let mut li: usize = 1;
    let marker = str_to_chars("#[error(");
    while li < lines.len()
        invariant
            dv == lines.deep_view(),
            dv.len() == lines@.len(),
            1 <= li <= lines@.len() || (lines@.len() == 0 && li == 1),
            marker@ == "#[error("@,
            marker@.len() >= 1,
            out@.len() == gdone.len(),
            out@.len() <= li,
            forall|k: int|
                0 <= k < gdone.len() ==> {
                    let e = #[trigger] out@[k];
                    &&& e.code == k
                    &&& e.name@ == gdone[k].0
                    &&& e.message@ == gdone[k].1
                },
            rows == gdone + spec_error_rows(dv, li as int, message@),
        decreases lines@.len() - li,
    {
        let l: &Vec<char> = &lines[li];
        proof {
            assert(dv[li as int] == lines@[li as int].deep_view());
            assert(lines@[li as int].deep_view() =~= l@);
        }
        if find_sub_from(l.as_slice(), marker.as_slice(), 0).is_some() {
            match crate::scan::get_inside_item_vec(l.as_slice(), '"') {
                Some(m) => {
                    message = chars_to_string(&m);
                },
                None => {},
            }
        } else if !crate::resolve::is_skip_line_exec_pub(l.as_slice()) {
            let t = trim_chars(l.as_slice());
            if t.len() >= 2 {
                let comma = match find_char_from(t.as_slice(), ',', 0) {
                    Some(c) => {
                        proof {
                            crate::text::lemma_first_char_at(t@, ',', c as int);
                        }
                        c
                    },
                    None => {
                        proof {
                            crate::text::lemma_first_char_none(t@, ',');
                        }
                        t.len()
                    },
                };
                let name_part = sub_chars(t.as_slice(), 0, comma);
                if name_part.len() >= 1 {
                    let name = chars_to_string(&name_part);
                    let n = lines.len();
                    proof {
                        assert(out@.len() < n);
                    }
                    let code = out.len() as u64;
                    let msg = message.clone();
                    let ghost mv = message@;
                    let ghost pre = out@;
                    out.push(ErrorDef { code, name, message: msg });
                    proof {
                        gdone = gdone.push((name_part@, mv));
                        assert(forall|k: int| 0 <= k < pre.len() ==> out@[k] == pre[k]);
                        assert(out@[pre.len() as int].code == pre.len());
                    }
                    message = lit_string("");
                }
            }
        }
        proof {
            assert(rows =~= gdone + spec_error_rows(dv, li + 1, message@));
        }
        li += 1;
    }
    proof {
        assert(spec_error_rows(dv, li as int, message@) =~= Seq::<(Seq<char>, Seq<
            char,
        >)>::empty());
        assert(gdone =~= rows);
        if lines@.len() == 0 {
            assert(spec_error_rows(dv, 1, ""@) =~= Seq::<(Seq<char>, Seq<char>)>::empty());
        }
    }
    out
}

/// Where the instruction union is declared: the first union declaration
/// whose head line names an instruction and opens a body.
pub open spec fn spec_union_start(content: Seq<char>, from: int) -> Option<int>
    decreases content.len() - from,
    when 0 <= from
    via spec_union_start_dec
{
    match crate::text::spec_find_sub(content, "pub enum"@, from) {
        None => None,
        Some(i) => {
            let fl = crate::scan::spec_first_line(content.skip(i));
            if contains_sub(fl, "Instruction"@) && contains_sub(fl, "{"@) {
                Some(i)
            } else {
                spec_union_start(content, i + "pub enum"@.len())
            }
        },
    }
}

#[via_fn]
proof fn spec_union_start_dec(content: Seq<char>, from: int) {
    reveal_strlit("pub enum");
    crate::text::lemma_find_sub_correct(content, "pub enum"@, from);
}

/// The variant rows of the instruction union of one root, or none when no
/// union is declared.
pub open spec fn spec_instruction_rows(content: Seq<char>) -> Seq<(int, Seq<char>, Seq<(Seq<
    char,
>, Seq<char>)>, Seq<char>)> {
    match spec_union_start(content, 0) {
        Some(i) => spec_variant_rows(
            crate::text::spec_lines(crate::scan::spec_get_item(content.skip(i), '{')),
            1,
            None,
        ),
        None => Seq::empty(),
    }
}

/// The rows whose snake-cased constructor is located in the instruction
/// source or the merged source.
pub open spec fn spec_kept_rows(
    rows: Seq<(int, Seq<char>, Seq<(Seq<char>, Seq<char>)>, Seq<char>)>,
    content: Seq<char>,
    all: Seq<char>,
) -> Seq<(int, Seq<char>, Seq<(Seq<char>, Seq<char>)>, Seq<char>)>
    decreases rows.len(),
{
    if rows.len() == 0 {
        Seq::empty()
    } else {
        spec_kept_rows(rows.drop_last(), content, all) + if spec_locate_function(
            content,
            all,
            spec_snake_from_pascal(rows.last().1),
        ) is Some {
            seq![rows.last()]
        } else {
            Seq::empty()
        }
    }
}

/// The arguments owed for one variant row: the referenced payload type's
/// field declarations (or one synthetic argument of that type), none for a
/// unit variant, and the named fields themselves.
pub open spec fn ix_args_match(
    row: (int, Seq<char>, Seq<(Seq<char>, Seq<char>)>, Seq<char>),
    args: Seq<FieldDef>,
    content: Seq<char>,
) -> bool {
    if row.0 == 0 {
        match spec_payload_body(row.3, content) {
            Some(body) => {
                let pairs = payload_line_fields(crate::text::spec_lines(body), 0);
                &&& args.len() == pairs.len()
                &&& forall|i: int|
                    0 <= i < pairs.len() ==> folded_field_matches(
                        #[trigger] args[i],
                        pairs[i],
                        content,
                    )
            },
            None => args.len() == 1 && args[0].name@ == "arg"@ && (args[0].ty matches
                TypeRef::Defined(d) && d@ == row.3),
        }
    } else if row.0 == 1 {
        args.len() == 0
    } else {
        &&& args.len() == row.2.len()
        &&& forall|i: int|
            0 <= i < row.2.len() ==> (#[trigger] args[i]).name@ == row.2[i].0
                && crate::instr::field_ty_matches(row.2[i].1, args[i].ty)
    }
}

/// One synthesized instruction carries one kept row: the variant name, its
/// snake-cased constructor name, the row's arguments, and the located
/// constructor's account list in call order.
pub open spec fn ix_matches_row(
    ix: InstructionDef,
    row: (int, Seq<char>, Seq<(Seq<char>, Seq<char>)>, Seq<char>),
    content: Seq<char>,
    all: Seq<char>,
) -> bool {
    &&& ix.name@ == row.1
    &&& ix.function_name@ == spec_snake_from_pascal(row.1)
    &&& ix_args_match(row, ix.args@, content)
    &&& spec_locate_function(content, all, ix.function_name@) matches Some(f) && {
        let sal = spec_account_list(f, all);
        &&& ix.accounts@.len() == sal.len()
        &&& forall|j: int| 0 <= j < sal.len() ==> ref_matches(#[trigger] ix.accounts@[j], sal[j])
    }
}

/// Synthesize the instruction list of one root: one instruction per
/// recognized variant row of the instruction union whose snake-cased
/// constructor is located, in declaration order, each carrying the row's
/// arguments and the constructor's account list in call order. A variant
/// whose constructor is found nowhere is skipped; without an instruction
/// union nothing is synthesized.
#[verifier::rlimit(100)]
pub fn create_instructions(instruction_content: &str, all_content: &str) -> (r: Vec<
    InstructionDef,
>)
    ensures
        ({
            let kept = spec_kept_rows(
                spec_instruction_rows(instruction_content@),
                instruction_content@,
                all_content@,
            );
            &&& r@.len() == kept.len()
            &&& forall|k: int|
                0 <= k < kept.len() ==> ix_matches_row(
                    #[trigger] r@[k],
                    kept[k],
                    instruction_content@,
                    all_content@,
                )
        }),
{
    proof {
        reveal_strlit("pub enum");
        reveal_strlit("Instruction");
        reveal_strlit("{");
    }
    let cv = str_to_chars(instruction_content);
    let pat = str_to_chars("pub enum");
    let ipat = str_to_chars("Instruction");
    let mut out: Vec<InstructionDef> = Vec::new();
    // locate the instruction union
    let mut from: usize = 0;
    let mut start: Option<usize> = None;
    proof {
        assert(out@ =~= Seq::<InstructionDef>::empty());
    }
    loop
        invariant_except_break
            start is None,
        invariant
            cv@ == instruction_content@,
            pat@ == "pub enum"@,
            ipat@ == "Instruction"@,
            pat@.len() >= 1,
            ipat@.len() >= 1,
            0 <= from <= cv@.len() + pat@.len(),
            spec_union_start(cv@, 0) == spec_union_start(cv@, from as int),
        ensures
            match start {
                Some(i) => i <= cv@.len() && spec_union_start(cv@, 0) == Some(i as int),
                None => spec_union_start(cv@, 0) is None,
            },
        decreases cv@.len() + pat@.len() - from,
    {
        match find_sub_from(cv.as_slice(), pat.as_slice(), from) {
            Some(i) => {
                proof {
                    lemma_find_sub_correct(cv@, pat@, from as int);
                }
                let tail = sub_chars(cv.as_slice(), i, cv.len());
                proof {
                    assert(tail@ =~= cv@.skip(i as int));
                }
                let fl = crate::scan::first_line_chars(tail.as_slice());
                let has_ix = find_sub_from(fl.as_slice(), ipat.as_slice(), 0).is_some();
                proof {
                    reveal_strlit("{");
                }
                let obr = str_to_chars("{");
                let has_brace = find_sub_from(fl.as_slice(), obr.as_slice(), 0).is_some();
                if has_ix && has_brace {
                    start = Some(i);
                    proof {
                        assert(spec_union_start(cv@, from as int) == Some(i as int));
                    }
                    break ;
                }
                proof {
                    assert(spec_union_start(cv@, from as int) == spec_union_start(
                        cv@,
                        i + pat@.len(),
                    ));
                }
                from = i + pat.len();
            },
            None => {
                break ;
            },
        }
    }
    let start = match start {
        Some(st) => st,
        None => {
            proof {
                assert(spec_kept_rows(
                    spec_instruction_rows(instruction_content@),
                    instruction_content@,
                    all_content@,
                ) =~= Seq::<(int, Seq<char>, Seq<(Seq<char>, Seq<char>)>, Seq<
                    char,
                >)>::empty());
            }
            return out;
        },
    };
    let tail = sub_chars(cv.as_slice(), start, cv.len());
    let tail_str = chars_to_string(&tail);
    proof {
        assert(tail_str@ =~= instruction_content@.skip(start as int));
    }
    let body = crate::scan::get_item(tail_str.as_str(), '{');
    let body_chars = str_to_chars(body.as_str());
    let lines = crate::text::split_lines(body_chars.as_slice());
    let ghost dv = lines.deep_view();
    let ghost rows = spec_instruction_rows(instruction_content@);
    proof {
        assert(rows == spec_variant_rows(dv, 1, None));
    }
    let mut li: usize = 1;
    let mut pending: Option<(String, Vec<FieldDef>)> = None;
    let ghost mut gpending: Option<(Seq<char>, Seq<(Seq<char>, Seq<char>)>)> = None;
    let ghost mut grows: Seq<(int, Seq<char>, Seq<(Seq<char>, Seq<char>)>, Seq<char>)> =
        Seq::empty();
    while li < lines.len()
        invariant
            cv@ == instruction_content@,
            dv == lines.deep_view(),
            dv.len() == lines@.len(),
            1 <= li <= lines@.len() || (lines@.len() <= 1 && li == 1),
            rows == grows + spec_variant_rows(dv, li as int, gpending),
            out@.len() == spec_kept_rows(grows, instruction_content@, all_content@).len(),
            forall|k: int|
                0 <= k < out@.len() ==> ix_matches_row(
                    #[trigger] out@[k],
                    spec_kept_rows(grows, instruction_content@, all_content@)[k],
                    instruction_content@,
                    all_content@,
                ),
            match (pending, gpending) {
                (Some(p), Some(g)) => p.0@ == g.0 && p.1@.len() == g.1.len() && forall|i: int|
                    0 <= i < g.1.len() ==> (#[trigger] p.1@[i]).name@ == g.1[i].0
                        && crate::instr::field_ty_matches(g.1[i].1, p.1@[i].ty),
                (None, None) => true,
                _ => false,
            },
        decreases lines@.len() - li,
    {
        proof {
            reveal_strlit("//");
        }
        let raw: &Vec<char> = &lines[li];
        proof {
            assert(dv[li as int] == lines@[li as int].deep_view());
            assert(lines@[li as int].deep_view() =~= raw@);
        }
        let cpat = str_to_chars("//");
        let cut = match find_sub_from(raw.as_slice(), cpat.as_slice(), 0) {
            Some(c) => c,
            None => raw.len(),
        };
        proof {
            lemma_find_sub_correct(raw@, "//"@, 0);
        }
        let uncommented = sub_chars(raw.as_slice(), 0, cut);
        let line = trim_chars(uncommented.as_slice());
        proof {
            assert(line@ == spec_clean_line(raw@));
        }
        if crate::resolve::is_skip_line_exec_pub(raw.as_slice()) {
            proof {
                assert(rows =~= grows + spec_variant_rows(dv, li + 1, gpending));
            }
            li += 1;
            continue ;
        }
        pending = match pending {
            Some((vname, mut fields)) => {
                if contains_char(line.as_slice(), '}') {
                    let ghost g = gpending->Some_0;
                    let ghost row = (2int, g.0, g.1, Seq::<char>::empty());
                    let ghost pre_out = out@;
                    push_instruction(
                        &mut out,
                        vname,
                        fields,
                        instruction_content,
                        all_content,
                        Ghost(row),
                    );
                    proof {
                        lemma_kept_step(
                            grows,
                            row,
                            instruction_content@,
                            all_content@,
                            pre_out,
                            out@,
                        );
                        grows = grows.push(row);
                        gpending = None;
                        assert(rows =~= grows + spec_variant_rows(dv, li + 1, gpending));
                    }
                    None
                } else {
                    match crate::instr::field_from_line(line.as_slice()) {
                        Some(f) => {
                            let ghost g = gpending->Some_0;
                            let ghost old_fields = fields@;
                            fields.push(f);
                            proof {
                                gpending = Some(
                                    (
                                        g.0,
                                        g.1.push(
                                            crate::instr::spec_field_line(line@)->Some_0,
                                        ),
                                    ),
                                );
                                assert(forall|i: int|
                                    0 <= i < old_fields.len() ==> fields@[i] == old_fields[i]);
                                assert(fields@[old_fields.len() as int] == f);
                                assert(rows =~= grows + spec_variant_rows(dv, li + 1, gpending));
                            }
                        },
                        None => {
                            proof {
                                assert(rows =~= grows + spec_variant_rows(dv, li + 1, gpending));
                            }
                        },
                    }
                    Some((vname, fields))
                }
            },
            None => {
                match crate::instr::parse_variant_line(line.as_slice()) {
                    Some(v) => match v {
                        crate::instr::VariantLine::Payload(vname, payload_name) => {
                            let ghost t = crate::instr::spec_variant_line(line@)->Some_0;
                            let ghost row = (
                                0int,
                                t.1,
                                Seq::<(Seq<char>, Seq<char>)>::empty(),
                                t.2,
                            );
                            let args = args_of_payload(
                                payload_name.as_str(),
                                instruction_content,
                            );
                            let ghost pre_out = out@;
                            push_instruction(
                                &mut out,
                                vname,
                                args,
                                instruction_content,
                                all_content,
                                Ghost(row),
                            );
                            proof {
                                lemma_kept_step(
                                    grows,
                                    row,
                                    instruction_content@,
                                    all_content@,
                                    pre_out,
                                    out@,
                                );
                                grows = grows.push(row);
                                assert(rows =~= grows + spec_variant_rows(dv, li + 1, gpending));
                            }
                            None
                        },
                        crate::instr::VariantLine::Unit(vname) => {
                            let ghost t = crate::instr::spec_variant_line(line@)->Some_0;
                            let ghost row = (
                                1int,
                                t.1,
                                Seq::<(Seq<char>, Seq<char>)>::empty(),
                                Seq::<char>::empty(),
                            );
                            let empty_args: Vec<FieldDef> = Vec::new();
                            proof {
                                assert(empty_args@ =~= Seq::<FieldDef>::empty());
                            }
                            let ghost pre_out = out@;
                            push_instruction(
                                &mut out,
                                vname,
                                empty_args,
                                instruction_content,
                                all_content,
                                Ghost(row),
                            );
                            proof {
                                lemma_kept_step(
                                    grows,
                                    row,
                                    instruction_content@,
                                    all_content@,
                                    pre_out,
                                    out@,
                                );
                                grows = grows.push(row);
                                assert(rows =~= grows + spec_variant_rows(dv, li + 1, gpending));
                            }
                            None
                        },
                        crate::instr::VariantLine::Inline(vname, fields) => {
                            let ghost t = crate::instr::spec_variant_line(line@)->Some_0;
                            let ghost row = (
                                2int,
                                t.1,
                                crate::instr::spec_line_fields(
                                    crate::instr::split_by(t.2, ","@),
                                    0,
                                ),
                                Seq::<char>::empty(),
                            );
                            let ghost pre_out = out@;
                            push_instruction(
                                &mut out,
                                vname,
                                fields,
                                instruction_content,
                                all_content,
                                Ghost(row),
                            );
                            proof {
                                lemma_kept_step(
                                    grows,
                                    row,
                                    instruction_content@,
                                    all_content@,
                                    pre_out,
                                    out@,
                                );
                                grows = grows.push(row);
                                assert(rows =~= grows + spec_variant_rows(dv, li + 1, gpending));
                            }
                            None
                        },
                        crate::instr::VariantLine::OpensBlock(vname) => {
                            let ghost t = crate::instr::spec_variant_line(line@)->Some_0;
                            proof {
                                gpending = Some(
                                    (t.1, Seq::<(Seq<char>, Seq<char>)>::empty()),
                                );
                                assert(rows =~= grows + spec_variant_rows(dv, li + 1, gpending));
                            }
                            Some((vname, Vec::new()))
                        },
                    },
                    None => {
                        proof {
                            assert(rows =~= grows + spec_variant_rows(dv, li + 1, gpending));
                        }
                        None
                    },
                }
            },
        };
        li += 1;
    }
    match pending {
        Some((vname, fields)) => {
            let ghost g = gpending->Some_0;
            let ghost row = (2int, g.0, g.1, Seq::<char>::empty());
            let ghost pre_out = out@;
            push_instruction(
                &mut out,
                vname,
                fields,
                instruction_content,
                all_content,
                Ghost(row),
            );
            proof {
                lemma_kept_step(
                    grows,
                    row,
                    instruction_content@,
                    all_content@,
                    pre_out,
                    out@,
                );
                grows = grows.push(row);
                assert(spec_variant_rows(dv, li as int, gpending) =~= seq![row]);
                assert(grows =~= rows);
            }
        },
        None => {
            proof {
                assert(spec_variant_rows(dv, li as int, gpending) =~= Seq::<(int, Seq<char>, Seq<
                    (Seq<char>, Seq<char>),
                >, Seq<char>)>::empty());
                assert(grows =~= rows);
            }
        },
    }
    out
}

fn contains_char(s: &[char], c: char) -> (r: bool)
    ensures
        r == (exists|k: int| 0 <= k < s@.len() && s@[k] == c),
{
    match find_char_from(s, c, 0) {
        Some(i) => {
            proof {
                assert(s@[i as int] == c);
            }
            true
        },
        None => false,
    }
}

/// A line of a payload record that declares no field: the head, a closing
/// line, or a comment.
pub open spec fn is_payload_skip_line(l: Seq<char>) -> bool {
    ||| contains_sub(l, "struct "@)
    ||| (exists|k: int| 0 <= k < l.len() && l[k] == '}')
    ||| contains_sub(l, "//"@)
}

/// The field declarations among the lines of a payload record body.
pub open spec fn payload_line_fields(lines: Seq<Seq<char>>, k: int) -> Seq<(Seq<char>, Seq<
    char,
>)>
    decreases lines.len() - k,
{
    if k < 0 || k >= lines.len() {
        Seq::empty()
    } else {
        (if is_payload_skip_line(lines[k]) {
            Seq::<(Seq<char>, Seq<char>)>::empty()
        } else {
            match crate::instr::spec_field_line(crate::text::spec_trim(lines[k])) {
                Some(p) => seq![p],
                None => Seq::empty(),
            }
        }) + payload_line_fields(lines, k + 1)
    }
}

/// Where the payload record is declared: the balanced span cut at its
/// declaration in the instruction source.
pub open spec fn spec_payload_body(name: Seq<char>, content: Seq<char>) -> Option<Seq<char>> {
    match crate::text::spec_find_sub(content, "pub struct "@ + name, 0) {
        Some(i) => Some(crate::scan::spec_get_item(content.skip(i), '{')),
        None => None,
    }
}

/// The arguments carried by a separately declared payload type: its fields
/// when the record is declared in the instruction source, a single
/// synthetic argument of the named type otherwise.
fn args_of_payload(payload_name: &str, instruction_content: &str) -> (r: Vec<FieldDef>)
    ensures
        match spec_payload_body(payload_name@, instruction_content@) {
            Some(body) => {
                let expected = payload_line_fields(crate::text::spec_lines(body), 0);
                &&& r@.len() == expected.len()
                &&& forall|j: int|
                    0 <= j < expected.len() ==> (#[trigger] r@[j]).name@ == expected[j].0 && (
                    crate::layout::spec_folded_type(expected[j].1, instruction_content@, r@[j].ty)
                        || (r@[j].ty matches TypeRef::Defined(d) && d@ == expected[j].1))
            },
            None => r@.len() == 1 && r@[0].name@ == "arg"@ && (r@[0].ty matches TypeRef::Defined(
                d,
            ) && d@ == payload_name@),
        },
{
    proof {
        reveal_strlit("pub struct ");
        reveal_strlit("struct ");
        reveal_strlit("//");
        reveal_strlit("arg");
    }
    let cv = str_to_chars(instruction_content);
    let mut pat = str_to_chars("pub struct ");
    let nv = str_to_chars(payload_name);
    push_all(&mut pat, nv.as_slice());
    match find_sub_from(cv.as_slice(), pat.as_slice(), 0) {
        Some(i) => {
            proof {
                lemma_find_sub_correct(cv@, pat@, 0);
            }
            let tail = sub_chars(cv.as_slice(), i, cv.len());
            let tail_str = chars_to_string(&tail);
            proof {
                assert(tail_str@ =~= instruction_content@.skip(i as int));
            }
            let body = crate::scan::get_item(tail_str.as_str(), '{');
            let body_chars = str_to_chars(body.as_str());
            let lines = crate::text::split_lines(body_chars.as_slice());
            let ghost dv = lines.deep_view();
            let ghost expected = payload_line_fields(dv, 0);
            let mut fields: Vec<FieldDef> = Vec::new();
            let ghost mut gexp: Seq<(Seq<char>, Seq<char>)> = Seq::empty();
            let mut li: usize = 0;
            let spat = str_to_chars("struct ");
            let cpat = str_to_chars("//");
            while li < lines.len()
                invariant
                    dv == lines.deep_view(),
                    spat@ == "struct "@,
                    cpat@ == "//"@,
                    spat@.len() >= 1,
                    cpat@.len() >= 1,
                    instruction_content@ == cv@,
                    0 <= li <= lines@.len(),
                    fields@.len() == gexp.len(),
                    forall|j: int|
                        0 <= j < gexp.len() ==> (#[trigger] fields@[j]).name@ == gexp[j].0 && (
                        crate::layout::spec_folded_type(gexp[j].1, cv@, fields@[j].ty) || (
                        fields@[j].ty matches TypeRef::Defined(d) && d@ == gexp[j].1)),
                    payload_line_fields(dv, 0) == gexp + payload_line_fields(dv, li as int),
                decreases lines@.len() - li,
            {
                let l: &Vec<char> = &lines[li];
                proof {
                    assert(dv[li as int] == lines@[li as int].deep_view());
                    assert(lines@[li as int].deep_view() =~= l@);
                }
                let ghost pre = gexp;
                let skip = find_sub_from(l.as_slice(), spat.as_slice(), 0).is_some()
                    || contains_char(l.as_slice(), '}') || find_sub_from(
                    l.as_slice(),
                    cpat.as_slice(),
                    0,
                ).is_some();
                if !skip {
                    let t = trim_chars(l.as_slice());
                    match field_with_folding(t.as_slice(), instruction_content) {
                        Some(f) => {
                            let ghost entry = crate::instr::spec_field_line(t@)->Some_0;
                            let ghost old_fields = fields@;
                            fields.push(f);
                            proof {
                                gexp = gexp.push(entry);
                                assert(forall|j: int|
                                    0 <= j < old_fields.len() ==> fields@[j] == old_fields[j]);
                                assert(fields@[old_fields.len() as int] == f);
                            }
                        },
                        None => {},
                    }
                }
                proof {
                    assert(payload_line_fields(dv, li as int) == (if is_payload_skip_line(
                        dv[li as int],
                    ) {
                        Seq::<(Seq<char>, Seq<char>)>::empty()
                    } else {
                        match crate::instr::spec_field_line(crate::text::spec_trim(dv[li as int])) {
                            Some(p2) => seq![p2],
                            None => Seq::empty(),
                        }
                    }) + payload_line_fields(dv, li + 1));
                    assert(gexp + payload_line_fields(dv, li + 1) =~= pre + payload_line_fields(
                        dv,
                        li as int,
                    ));
                    assert(payload_line_fields(dv, 0) =~= gexp + payload_line_fields(dv, li + 1));
                }
                li += 1;
            }
            proof {
                assert(payload_line_fields(dv, dv.len() as int) =~= Seq::<(Seq<char>, Seq<
                    char,
                >)>::empty());
                assert(gexp =~= payload_line_fields(dv, 0));
            }
            fields
        },
        None => {
            // the payload is a known alias or an external type: one
            // synthetic argument of that type
            let mut fields: Vec<FieldDef> = Vec::new();
            let name = lit_string("arg");
            fields.push(
                FieldDef { name, ty: TypeRef::Defined(lit_string(payload_name)) },
            );
            proof {
                assert(fields@[0].name@ == "arg"@);
            }
            fields
        },
    }
}

/// A comment-stripped, trimmed variant line.
pub open spec fn spec_clean_line(raw: Seq<char>) -> Seq<char> {
    let cut = match crate::text::spec_find_sub(raw, "//"@, 0) {
        Some(c) => c,
        None => raw.len() as int,
    };
    if 0 <= cut <= raw.len() {
        crate::text::spec_trim(raw.subrange(0, cut))
    } else {
        crate::text::spec_trim(raw)
    }
}

/// The variant rows of a tagged-union body, walked line by line with the
/// pending multi-line payload carried along: a reference one-liner, a unit
/// variant, inline named fields, or a block opened and filled until its
/// closing line; skipped lines contribute nothing, and an open block at the
/// end still closes its variant.
pub open spec fn spec_variant_rows(
    lines: Seq<Seq<char>>,
    k: int,
    pending: Option<(Seq<char>, Seq<(Seq<char>, Seq<char>)>)>,
) -> Seq<(int, Seq<char>, Seq<(Seq<char>, Seq<char>)>, Seq<char>)>
    decreases lines.len() - k,
{
    if k < 0 || k >= lines.len() {
        match pending {
            Some(p) => seq![(2int, p.0, p.1, Seq::<char>::empty())],
            None => Seq::empty(),
        }
    } else {
        let raw = lines[k];
        let line = spec_clean_line(raw);
        if crate::resolve::is_skip_line(raw) {
            spec_variant_rows(lines, k + 1, pending)
        } else {
            match pending {
                Some(p) => {
                    if exists|q: int| 0 <= q < line.len() && line[q] == '}' {
                        seq![(2int, p.0, p.1, Seq::<char>::empty())] + spec_variant_rows(
                            lines,
                            k + 1,
                            None,
                        )
                    } else {
                        let fs2 = match crate::instr::spec_field_line(line) {
                            Some(f) => p.1.push(f),
                            None => p.1,
                        };
                        spec_variant_rows(lines, k + 1, Some((p.0, fs2)))
                    }
                },
                None => match crate::instr::spec_variant_line(line) {
                    Some(t) => if t.0 == 0 {
                        seq![
                            (0int, t.1, Seq::<(Seq<char>, Seq<char>)>::empty(), t.2),
                        ] + spec_variant_rows(lines, k + 1, None)
                    } else if t.0 == 1 {
                        seq![
                            (1int, t.1, Seq::<(Seq<char>, Seq<char>)>::empty(), Seq::<
                                char,
                            >::empty()),
                        ] + spec_variant_rows(lines, k + 1, None)
                    } else if t.0 == 2 {
                        seq![
                            (
                                2int,
                                t.1,
                                crate::instr::spec_line_fields(
                                    crate::instr::split_by(t.2, ","@),
                                    0,
                                ),
                                Seq::<char>::empty(),
                            ),
                        ] + spec_variant_rows(lines, k + 1, None)
                    } else {
                        spec_variant_rows(
                            lines,
                            k + 1,
                            Some((t.1, Seq::<(Seq<char>, Seq<char>)>::empty())),
                        )
                    },
                    None => spec_variant_rows(lines, k + 1, None),
                },
            }
        }
    }
}

/// A built variant carries one row: the row's name, and a payload of the
/// row's shape — a one-element tuple read from the payload text, an empty
/// payload, or the named fields pairwise.
pub open spec fn variant_matches_row(
    v: crate::types::VariantDef,
    row: (int, Seq<char>, Seq<(Seq<char>, Seq<char>)>, Seq<char>),
    all: Seq<char>,
) -> bool {
    &&& v.name@ == row.1
    &&& if row.0 == 0 {
        v.payload matches crate::types::VariantPayload::Tuple(tys) && tys@.len() == 1 && (
        crate::layout::spec_folded_type(row.3, all, tys@[0]) || (tys@[0] matches
            TypeRef::Defined(d) && d@ == row.3))
    } else if row.0 == 1 {
        v.payload matches crate::types::VariantPayload::Empty
    } else {
        v.payload matches crate::types::VariantPayload::Named(fs) && fs@.len() == row.2.len()
            && forall|i: int|
            0 <= i < row.2.len() ==> (#[trigger] fs@[i]).name@ == row.2[i].0
                && crate::instr::field_ty_matches(row.2[i].1, fs@[i].ty)
    }
}

/// A built field carries one line-field pair, its type read through the
/// constant-folding reader with a defined-name fallback.
pub open spec fn folded_field_matches(
    f: FieldDef,
    pair: (Seq<char>, Seq<char>),
    all: Seq<char>,
) -> bool {
    &&& f.name@ == pair.0
    &&& (crate::layout::spec_folded_type(pair.1, all, f.ty) || (f.ty matches TypeRef::Defined(d)
        && d@ == pair.1))
}

/// One field parsed from a `name: type` line, a named array length folded
/// through the source-wide constant lookup; an unreadable type text is kept
/// as a defined name.
fn field_with_folding(line: &[char], all_content: &str) -> (r: Option<FieldDef>)
    ensures
        match r {
            Some(f) => crate::instr::spec_field_line(line@) matches Some(p) && {
                &&& f.name@ == p.0
                &&& (crate::layout::spec_folded_type(p.1, all_content@, f.ty) || (f.ty matches
                    TypeRef::Defined(d) && d@ == p.1))
            },
            None => crate::instr::spec_field_line(line@) is None,
        },
{
    let c = match find_char_from(line, ':', 0) {
        Some(c) => {
            proof {
                crate::text::lemma_first_char_at(line@, ':', c as int);
            }
            c
        },
        None => {
            proof {
                crate::text::lemma_first_char_none(line@, ':');
            }
            return None;
        },
    };
    let name_part0 = sub_chars(line, 0, c);
    let name_part = trim_chars(name_part0.as_slice());
    let name_clean = strip_leading_pub(name_part.as_slice());
    if name_clean.len() == 0 {
        return None;
    }
    let n = line.len();
    proof {
        assert(c < n);
    }
    let ty_part0 = sub_chars(line, c + 1, n);
    let ty_part = trim_chars(ty_part0.as_slice());
    let ty_text: Vec<char> = if ty_part.len() >= 1 && ty_part[ty_part.len() - 1] == ',' {
        let cut = sub_chars(ty_part.as_slice(), 0, ty_part.len() - 1);
        proof {
            assert(cut@ =~= ty_part@.drop_last());
        }
        cut
    } else {
        ty_part
    };
    let ty_str = chars_to_string(&ty_text);
    let ty = match crate::layout::fold_array_length(ty_str.as_str(), all_content) {
        Some(t) => t,
        None => TypeRef::Defined(ty_str),
    };
    Some(FieldDef { name: chars_to_string(&name_clean), ty })
}

fn strip_leading_pub(s: &[char]) -> (r: Vec<char>)
    ensures
        r@ == if s@.len() >= "pub "@.len() && s@.subrange(0, "pub "@.len() as int) == "pub "@ {
            s@.subrange("pub "@.len() as int, s@.len() as int)
        } else {
            s@
        },
{
    proof {
        reveal_strlit("pub ");
    }
    let pat = str_to_chars("pub ");
    if crate::text::starts_with(s, pat.as_slice()) {
        sub_chars(s, pat.len(), s.len())
    } else {
        let whole = sub_chars(s, 0, s.len());
        proof {
            assert(whole@ =~= s@);
        }
        whole
    }
}

fn str_eq2(a: &str, b: &str) -> (r: bool)
    ensures
        r == (a@ == b@),
{
    crate::text::str_eq(a, b)
}

/// A line of a record body that declares no field: a skipped line, the
/// head, or a closing line.
pub open spec fn record_skip_line(l: Seq<char>) -> bool {
    ||| crate::resolve::is_skip_line(l)
    ||| contains_sub(l, "struct "@)
    ||| exists|q: int| 0 <= q < l.len() && l[q] == '}'
}

/// The field declarations among the lines of a record body.
pub open spec fn spec_record_fields(lines: Seq<Seq<char>>, k: int) -> Seq<(Seq<char>, Seq<
    char,
>)>
    decreases lines.len() - k,
{
    if k < 0 || k >= lines.len() {
        Seq::empty()
    } else {
        (if record_skip_line(lines[k]) {
            Seq::<(Seq<char>, Seq<char>)>::empty()
        } else {
            match crate::instr::spec_field_line(crate::text::spec_trim(lines[k])) {
                Some(p) => seq![p],
                None => Seq::empty(),
            }
        }) + spec_record_fields(lines, k + 1)
    }
}

/// The head line of an item text names it and says its declaration form.
pub open spec fn spec_readable_item(text: Seq<char>) -> bool {
    &&& crate::scan::spec_item_info(text, 2) is Some
    &&& crate::scan::spec_item_info(text, 1) is Some
}

/// The built program type carries the item text: the head-line name, the
/// declaration form, and the field declarations or variant rows of the
/// lines.
pub open spec fn built_type_matches(
    pt: crate::types::ProgramType,
    text: Seq<char>,
    all: Seq<char>,
) -> bool {
    &&& crate::scan::spec_item_info(text, 2) == Some(pt.name@)
    &&& (crate::scan::spec_item_info(text, 1) == Some("enum"@)) == (pt.shape matches
        crate::types::TypeShape::TaggedUnion(_))
    &&& (pt.shape matches crate::types::TypeShape::TaggedUnion(vs) ==> {
        let rows = spec_variant_rows(crate::text::spec_lines(text), 1, None);
        &&& vs@.len() == rows.len()
        &&& forall|j: int|
            0 <= j < rows.len() ==> variant_matches_row(#[trigger] vs@[j], rows[j], all)
    })
    &&& (pt.shape matches crate::types::TypeShape::Record(fs) ==> {
        let fl = crate::scan::spec_first_line(text);
        if fl.len() >= 2 && fl.subrange(fl.len() - 2, fl.len() as int) == ");"@ {
            match crate::scan::spec_get_inside_item(fl, '(') {
                Some(inside) => fs@.len() == 1 && fs@[0].name@ == "0"@ && (
                crate::layout::spec_folded_type(inside, all, fs@[0].ty) || (fs@[0].ty matches
                    TypeRef::Defined(d) && d@ == inside)),
                None => fs@.len() == 0,
            }
        } else {
            let pairs = spec_record_fields(crate::text::spec_lines(text), 0);
            &&& fs@.len() == pairs.len()
            &&& forall|j: int|
                0 <= j < pairs.len() ==> folded_field_matches(#[trigger] fs@[j], pairs[j], all)
        }
    })
}

/// Build the structured program type of one extracted item text: something
/// is built exactly when the head line is readable; a record carries the
/// field declarations of its lines (one positional field for a one-line
/// wrapper), a tagged union the variant rows of its lines.
#[verifier::rlimit(100)]
pub fn item_to_program_type(text: &str, all_content: &str) -> (r: Option<
    crate::types::ProgramType,
>)
    ensures
        (r is Some) == spec_readable_item(text@),
        r matches Some(pt) ==> built_type_matches(pt, text@, all_content@),
{
    proof {
        reveal_strlit("enum");
        reveal_strlit(");");
        reveal_strlit("struct ");
    }
    let name = match crate::scan::get_item_name_from_full_item(text) {
        Some(n) => n,
        None => {
            return None;
        },
    };
    let kind = match crate::scan::get_item_type_from_full_item(text) {
        Some(k) => k,
        None => {
            return None;
        },
    };
    let is_union = str_eq2(kind.as_str(), "enum");
    let cv = str_to_chars(text);
    let lines = crate::text::split_lines(cv.as_slice());
    let ghost dv = lines.deep_view();
    if !is_union {
        // a one-line wrapper record carries a single positional field
        let fl = crate::scan::first_line_chars(cv.as_slice());
        let closer = str_to_chars(");");
        if crate::text::ends_with(fl.as_slice(), closer.as_slice()) {
            let mut fields: Vec<FieldDef> = Vec::new();
            match crate::scan::get_inside_item_vec(fl.as_slice(), '(') {
                Some(inside) => {
                    let inside_str = chars_to_string(&inside);
                    let ty = match crate::layout::fold_array_length(
                        inside_str.as_str(),
                        all_content,
                    ) {
                        Some(t) => t,
                        None => TypeRef::Defined(inside_str),
                    };
                    fields.push(FieldDef { name: lit_string("0"), ty });
                    proof {
                        assert(fields@.len() == 1);
                    }
                },
                None => {},
            }
            return Some(
                crate::types::ProgramType {
                    name,
                    shape: crate::types::TypeShape::Record(fields),
                },
            );
        }
        let spat = str_to_chars("struct ");
        let mut fields: Vec<FieldDef> = Vec::new();
        let ghost mut gdone: Seq<(Seq<char>, Seq<char>)> = Seq::empty();
        let mut li: usize = 0;
        proof {
            assert(spec_record_fields(dv, 0) =~= gdone + spec_record_fields(dv, 0));
        }
        while li < lines.len()
            invariant
                dv == lines.deep_view(),
                dv.len() == lines@.len(),
                0 <= li <= lines@.len(),
                spat@ == "struct "@,
                spat@.len() >= 1,
                fields@.len() == gdone.len(),
                forall|j: int|
                    0 <= j < gdone.len() ==> folded_field_matches(
                        #[trigger] fields@[j],
                        gdone[j],
                        all_content@,
                    ),
                spec_record_fields(dv, 0) == gdone + spec_record_fields(dv, li as int),
            decreases lines@.len() - li,
        {
            let l: &Vec<char> = &lines[li];
            proof {
                assert(dv[li as int] == lines@[li as int].deep_view());
                assert(lines@[li as int].deep_view() =~= l@);
            }
            let skip = crate::resolve::is_skip_line_exec_pub(l.as_slice()) || find_sub_from(
                l.as_slice(),
                spat.as_slice(),
                0,
            ).is_some() || contains_char(l.as_slice(), '}');
            if !skip {
                let t = trim_chars(l.as_slice());
                match field_with_folding(t.as_slice(), all_content) {
                    Some(f) => {
                        let ghost entry = crate::instr::spec_field_line(t@)->Some_0;
                        let ghost old_fields = fields@;
                        fields.push(f);
                        proof {
                            gdone = gdone.push(entry);
                            assert(forall|j: int|
                                0 <= j < old_fields.len() ==> fields@[j] == old_fields[j]);
                            assert(fields@[old_fields.len() as int] == f);
                        }
                    },
                    None => {},
                }
            }
            proof {
                assert(spec_record_fields(dv, 0) =~= gdone + spec_record_fields(dv, li + 1));
            }
            li += 1;
        }
        proof {
            assert(spec_record_fields(dv, dv.len() as int) =~= Seq::<(Seq<char>, Seq<
                char,
            >)>::empty());
            assert(gdone =~= spec_record_fields(dv, 0));
        }
        return Some(
            crate::types::ProgramType { name, shape: crate::types::TypeShape::Record(fields) },
        );
    }
    // a tagged union: classify each variant line, a multi-line payload
    // collected until its closing line
    let ghost rows = spec_variant_rows(dv, 1, None);
    let mut variants: Vec<crate::types::VariantDef> = Vec::new();
    let ghost mut grows: Seq<(int, Seq<char>, Seq<(Seq<char>, Seq<char>)>, Seq<char>)> =
        Seq::empty();
    let mut pending: Option<(String, Vec<FieldDef>)> = None;
    let ghost mut gpending: Option<(Seq<char>, Seq<(Seq<char>, Seq<char>)>)> = None;
    let mut li: usize = 1;
    while li < lines.len()
        invariant
            dv == lines.deep_view(),
            dv.len() == lines@.len(),
            1 <= li <= lines@.len() || (lines@.len() <= 1 && li == 1),
            variants@.len() == grows.len(),
            forall|j: int|
                0 <= j < grows.len() ==> variant_matches_row(
                    #[trigger] variants@[j],
                    grows[j],
                    all_content@,
                ),
            rows == grows + spec_variant_rows(dv, li as int, gpending),
            match (pending, gpending) {
                (Some(p), Some(g)) => p.0@ == g.0 && p.1@.len() == g.1.len() && forall|i: int|
                    0 <= i < g.1.len() ==> (#[trigger] p.1@[i]).name@ == g.1[i].0
                        && crate::instr::field_ty_matches(g.1[i].1, p.1@[i].ty),
                (None, None) => true,
                _ => false,
            },
        decreases lines@.len() - li,
    {
        proof {
            reveal_strlit("//");
        }
        let raw: &Vec<char> = &lines[li];
        proof {
            assert(dv[li as int] == lines@[li as int].deep_view());
            assert(lines@[li as int].deep_view() =~= raw@);
        }
        let cpat = str_to_chars("//");
        let cut = match find_sub_from(raw.as_slice(), cpat.as_slice(), 0) {
            Some(c) => c,
            None => raw.len(),
        };
        proof {
            lemma_find_sub_correct(raw@, "//"@, 0);
        }
        let uncommented = sub_chars(raw.as_slice(), 0, cut);
        let line = trim_chars(uncommented.as_slice());
        proof {
            assert(line@ == spec_clean_line(raw@));
        }
        if crate::resolve::is_skip_line_exec_pub(raw.as_slice()) {
            proof {
                assert(rows =~= grows + spec_variant_rows(dv, li + 1, gpending));
            }
            li += 1;
            continue ;
        }
        pending = match pending {
            Some((vname, mut fields)) => {
                if contains_char(line.as_slice(), '}') {
                    let ghost g = gpending->Some_0;
                    let ghost old_vars = variants@;
                    variants.push(
                        crate::types::VariantDef {
                            name: vname,
                            payload: crate::types::VariantPayload::Named(fields),
                        },
                    );
                    proof {
                        grows = grows.push((2int, g.0, g.1, Seq::<char>::empty()));
                        gpending = None;
                        assert(forall|j: int|
                            0 <= j < old_vars.len() ==> variants@[j] == old_vars[j]);
                        assert(variant_matches_row(
                            variants@[old_vars.len() as int],
                            grows[old_vars.len() as int],
                            all_content@,
                        ));
                        assert(rows =~= grows + spec_variant_rows(dv, li + 1, gpending));
                    }
                    None
                } else {
                    match crate::instr::field_from_line(line.as_slice()) {
                        Some(f) => {
                            let ghost g = gpending->Some_0;
                            let ghost old_fields = fields@;
                            fields.push(f);
                            proof {
                                gpending = Some(
                                    (
                                        g.0,
                                        g.1.push(
                                            crate::instr::spec_field_line(line@)->Some_0,
                                        ),
                                    ),
                                );
                                assert(forall|i: int|
                                    0 <= i < old_fields.len() ==> fields@[i] == old_fields[i]);
                                assert(fields@[old_fields.len() as int] == f);
                                assert(rows =~= grows + spec_variant_rows(dv, li + 1, gpending));
                            }
                        },
                        None => {
                            proof {
                                assert(rows =~= grows + spec_variant_rows(dv, li + 1, gpending));
                            }
                        },
                    }
                    Some((vname, fields))
                }
            },
            None => {
                match crate::instr::parse_variant_line(line.as_slice()) {
                    Some(v) => match v {
                        crate::instr::VariantLine::Payload(vname, payload_text) => {
                            let ghost t = crate::instr::spec_variant_line(line@)->Some_0;
                            let ty = match crate::layout::fold_array_length(
                                payload_text.as_str(),
                                all_content,
                            ) {
                                Some(t2) => t2,
                                None => TypeRef::Defined(payload_text),
                            };
                            let mut tys: Vec<TypeRef> = Vec::new();
                            tys.push(ty);
                            let ghost old_vars = variants@;
                            variants.push(
                                crate::types::VariantDef {
                                    name: vname,
                                    payload: crate::types::VariantPayload::Tuple(tys),
                                },
                            );
                            proof {
                                grows = grows.push(
                                    (0int, t.1, Seq::<(Seq<char>, Seq<char>)>::empty(), t.2),
                                );
                                assert(forall|j: int|
                                    0 <= j < old_vars.len() ==> variants@[j] == old_vars[j]);
                                assert(variant_matches_row(
                                    variants@[old_vars.len() as int],
                                    grows[old_vars.len() as int],
                                    all_content@,
                                ));
                                assert(rows =~= grows + spec_variant_rows(dv, li + 1, gpending));
                            }
                            None
                        },
                        crate::instr::VariantLine::Unit(vname) => {
                            let ghost t = crate::instr::spec_variant_line(line@)->Some_0;
                            let ghost old_vars = variants@;
                            variants.push(
                                crate::types::VariantDef {
                                    name: vname,
                                    payload: crate::types::VariantPayload::Empty,
                                },
                            );
                            proof {
                                grows = grows.push(
                                    (
                                        1int,
                                        t.1,
                                        Seq::<(Seq<char>, Seq<char>)>::empty(),
                                        Seq::<char>::empty(),
                                    ),
                                );
                                assert(forall|j: int|
                                    0 <= j < old_vars.len() ==> variants@[j] == old_vars[j]);
                                assert(variant_matches_row(
                                    variants@[old_vars.len() as int],
                                    grows[old_vars.len() as int],
                                    all_content@,
                                ));
                                assert(rows =~= grows + spec_variant_rows(dv, li + 1, gpending));
                            }
                            None
                        },
                        crate::instr::VariantLine::Inline(vname, fields) => {
                            let ghost t = crate::instr::spec_variant_line(line@)->Some_0;
                            let ghost old_vars = variants@;
                            variants.push(
                                crate::types::VariantDef {
                                    name: vname,
                                    payload: crate::types::VariantPayload::Named(fields),
                                },
                            );
                            proof {
                                grows = grows.push(
                                    (
                                        2int,
                                        t.1,
                                        crate::instr::spec_line_fields(
                                            crate::instr::split_by(t.2, ","@),
                                            0,
                                        ),
                                        Seq::<char>::empty(),
                                    ),
                                );
                                assert(forall|j: int|
                                    0 <= j < old_vars.len() ==> variants@[j] == old_vars[j]);
                                assert(variant_matches_row(
                                    variants@[old_vars.len() as int],
                                    grows[old_vars.len() as int],
                                    all_content@,
                                ));
                                assert(rows =~= grows + spec_variant_rows(dv, li + 1, gpending));
                            }
                            None
                        },
                        crate::instr::VariantLine::OpensBlock(vname) => {
                            let ghost t = crate::instr::spec_variant_line(line@)->Some_0;
                            proof {
                                gpending = Some(
                                    (t.1, Seq::<(Seq<char>, Seq<char>)>::empty()),
                                );
                                assert(rows =~= grows + spec_variant_rows(dv, li + 1, gpending));
                            }
                            Some((vname, Vec::new()))
                        },
                    },
                    None => {
                        proof {
                            assert(rows =~= grows + spec_variant_rows(dv, li + 1, gpending));
                        }
                        None
                    },
                }
            },
        };
        li += 1;
    }
    match pending {
        Some((vname, fields)) => {
            let ghost g = gpending->Some_0;
            let ghost old_vars = variants@;
            variants.push(
                crate::types::VariantDef {
                    name: vname,
                    payload: crate::types::VariantPayload::Named(fields),
                },
            );
            proof {
                grows = grows.push((2int, g.0, g.1, Seq::<char>::empty()));
                assert(forall|j: int| 0 <= j < old_vars.len() ==> variants@[j] == old_vars[j]);
                assert(variant_matches_row(
                    variants@[old_vars.len() as int],
                    grows[old_vars.len() as int],
                    all_content@,
                ));
                assert(spec_variant_rows(dv, li as int, gpending) =~= seq![
                    (2int, g.0, g.1, Seq::<char>::empty()),
                ]);
                assert(grows =~= rows);
            }
        },
        None => {
            proof {
                assert(spec_variant_rows(dv, li as int, gpending) =~= Seq::<(int, Seq<char>, Seq<
                    (Seq<char>, Seq<char>),
                >, Seq<char>)>::empty());
                assert(grows =~= rows);
            }
        },
    }
    Some(
        crate::types::ProgramType {
            name,
            shape: crate::types::TypeShape::TaggedUnion(variants),
        },
    )
}

/// The item texts whose head line is readable, in order.
pub open spec fn spec_readable_texts(texts: Seq<Seq<char>>, k: int) -> Seq<Seq<char>>
    decreases texts.len() - k,
{
    if k < 0 || k >= texts.len() {
        Seq::empty()
    } else {
        (if spec_readable_item(texts[k]) {
            seq![texts[k]]
        } else {
            Seq::<Seq<char>>::empty()
        }) + spec_readable_texts(texts, k + 1)
    }
}

/// Build the structured type table of one root from its collected item
/// texts: exactly one program type per readable item text, in
/// first-definition order, each carrying its text.
pub fn program_types_from_items(texts: &Vec<String>, all_content: &str) -> (r: Vec<
    crate::types::ProgramType,
>)
    ensures
        r@.len() == spec_readable_texts(texts.deep_view(), 0).len(),
        forall|j: int|
            0 <= j < r@.len() ==> built_type_matches(
                #[trigger] r@[j],
                spec_readable_texts(texts.deep_view(), 0)[j],
                all_content@,
            ),
{
    let ghost tdv = texts.deep_view();
    let ghost readable = spec_readable_texts(tdv, 0);
    let mut out: Vec<crate::types::ProgramType> = Vec::new();
    let ghost mut gdone: Seq<Seq<char>> = Seq::empty();
    let mut k: usize = 0;
    while k < texts.len()
        invariant
            tdv == texts.deep_view(),
            0 <= k <= texts@.len(),
            out@.len() == gdone.len(),
            forall|j: int|
                0 <= j < gdone.len() ==> built_type_matches(
                    #[trigger] out@[j],
                    gdone[j],
                    all_content@,
                ),
            readable == gdone + spec_readable_texts(tdv, k as int),
        decreases texts@.len() - k,
    {
        proof {
            assert(tdv[k as int] == texts@[k as int].deep_view());
        }
        match item_to_program_type(texts[k].as_str(), all_content) {
            Some(pt) => {
                let ghost old_out = out@;
                out.push(pt);
                proof {
                    gdone = gdone.push(tdv[k as int]);
                    assert(forall|j: int| 0 <= j < old_out.len() ==> out@[j] == old_out[j]);
                    assert(out@[old_out.len() as int] == pt);
                    assert(readable =~= gdone + spec_readable_texts(tdv, k + 1));
                }
            },
            None => {
                proof {
                    assert(readable =~= gdone + spec_readable_texts(tdv, k + 1));
                }
            },
        }
        k += 1;
    }
    proof {
        assert(spec_readable_texts(tdv, tdv.len() as int) =~= Seq::<Seq<char>>::empty());
        assert(gdone =~= readable);
    }
    out
}

/// The kept rows grow by the new row exactly when its constructor is
/// located, and the instruction list tracks them.
proof fn lemma_kept_step(
    grows_pre: Seq<(int, Seq<char>, Seq<(Seq<char>, Seq<char>)>, Seq<char>)>,
    row: (int, Seq<char>, Seq<(Seq<char>, Seq<char>)>, Seq<char>),
    content: Seq<char>,
    all: Seq<char>,
    out_pre: Seq<InstructionDef>,
    out_now: Seq<InstructionDef>,
)
    requires
        out_pre.len() == spec_kept_rows(grows_pre, content, all).len(),
        forall|k: int|
            0 <= k < out_pre.len() ==> ix_matches_row(
                #[trigger] out_pre[k],
                spec_kept_rows(grows_pre, content, all)[k],
                content,
                all,
            ),
        if spec_locate_function(content, all, spec_snake_from_pascal(row.1)) is Some {
            &&& out_now.len() == out_pre.len() + 1
            &&& (forall|k: int| 0 <= k < out_pre.len() ==> out_now[k] == out_pre[k])
            &&& ix_matches_row(out_now[out_pre.len() as int], row, content, all)
        } else {
            out_now == out_pre
        },
    ensures
        out_now.len() == spec_kept_rows(grows_pre.push(row), content, all).len(),
        forall|k: int|
            0 <= k < out_now.len() ==> ix_matches_row(
                #[trigger] out_now[k],
                spec_kept_rows(grows_pre.push(row), content, all)[k],
                content,
                all,
            ),
{
    let kept_pre = spec_kept_rows(grows_pre, content, all);
    let kept_now = spec_kept_rows(grows_pre.push(row), content, all);
    assert(grows_pre.push(row).drop_last() =~= grows_pre);
    assert(grows_pre.push(row).last() == row);
    if spec_locate_function(content, all, spec_snake_from_pascal(row.1)) is Some {
        assert(kept_now =~= kept_pre + seq![row]);
        assert(forall|k: int| 0 <= k < kept_pre.len() ==> kept_now[k] == kept_pre[k]);
        assert(kept_now[kept_pre.len() as int] == row);
    } else {
        assert(kept_now =~= kept_pre);
    }
}

/// Push one synthesized instruction exactly when its constructor can be
/// located; the pushed instruction carries the given row.
fn push_instruction(
    out: &mut Vec<InstructionDef>,
    vname: String,
    args: Vec<FieldDef>,
    instruction_content: &str,
    all_content: &str,
    row: Ghost<(int, Seq<char>, Seq<(Seq<char>, Seq<char>)>, Seq<char>)>,
)
    requires
        vname@ == row@.1,
        ix_args_match(row@, args@, instruction_content@),
    ensures
        if spec_locate_function(
            instruction_content@,
            all_content@,
            spec_snake_from_pascal(row@.1),
        ) is Some {
            &&& final(out)@.len() == old(out)@.len() + 1
            &&& (forall|k: int| 0 <= k < old(out)@.len() ==> final(out)@[k] == old(out)@[k])
            &&& ix_matches_row(
                final(out)@[old(out)@.len() as int],
                row@,
                instruction_content@,
                all_content@,
            )
        } else {
            final(out)@ == old(out)@
        },
{
    let function_name = snake_from_pascal(vname.as_str());
    match create_context(instruction_content, all_content, function_name.as_str()) {
        Some(accounts) => {
            let ghost pre = out@;
            out.push(InstructionDef { name: vname, function_name, args, accounts });
            proof {
                assert(forall|k: int| 0 <= k < pre.len() ==> out@[k] == pre[k]);
                assert(ix_matches_row(
                    out@[pre.len() as int],
                    row@,
                    instruction_content@,
                    all_content@,
                ));
            }
        },
        None => {},
    }
}


/// The defined name an instruction argument's type refers to, unwrapping
/// one wrapper level; a nullable-wrapped or borrowed payload names nothing.
pub open spec fn arg_defined_name(t: TypeRef) -> Option<Seq<char>> {
    match t {
        TypeRef::Defined(n) => Some(n@),
        TypeRef::Optional(inner) => match *inner {
            TypeRef::Defined(n) => Some(n@),
            _ => None,
        },
        TypeRef::Collection(inner) => match *inner {
            TypeRef::Defined(n) => Some(n@),
            _ => None,
        },
        TypeRef::Array(inner, _) => match *inner {
            TypeRef::Defined(n) => Some(n@),
            _ => None,
        },
        _ => None,
    }
}

fn arg_defined_name_exec(t: &TypeRef) -> (r: Option<&String>)
    ensures
        match r {
            Some(n) => arg_defined_name(*t) == Some(n@),
            None => arg_defined_name(*t) is None,
        },
{
    match t {
        TypeRef::Defined(n) => Some(n),
        TypeRef::Optional(inner) => match &**inner {
            TypeRef::Defined(n) => Some(n),
            _ => None,
        },
        TypeRef::Collection(inner) => match &**inner {
            TypeRef::Defined(n) => Some(n),
            _ => None,
        },
        TypeRef::Array(inner, _) => match &**inner {
            TypeRef::Defined(n) => Some(n),
            _ => None,
        },
        _ => None,
    }
}

/// A reported argument type: it resolves nowhere, or its definition has no
/// readable head.
pub open spec fn arg_missing_prop(n: Seq<char>, all: Seq<char>) -> bool {
    match crate::scan::spec_local_type(n, all) {
        Some(t) => !spec_readable_item(t),
        None => true,
    }
}

/// Make one argument type available: already in the table, freshly built
/// from its local definition under the argument's name, or reported.
fn ensure_arg_type(
    table: &mut Vec<crate::types::ProgramType>,
    missing: &mut Vec<String>,
    ty: &TypeRef,
    all_content: &str,
)
    ensures
        final(table)@.len() >= old(table)@.len(),
        forall|k: int| 0 <= k < old(table)@.len() ==> final(table)@[k] == old(table)@[k],
        forall|k: int|
            old(table)@.len() <= k < final(table)@.len()
                ==> crate::scan::spec_local_type(
                (#[trigger] final(table)@[k]).name@,
                all_content@,
            ) is Some,
        final(missing)@.len() >= old(missing)@.len(),
        forall|k: int|
            0 <= k < old(missing)@.len() ==> #[trigger] final(missing).deep_view()[k] == old(
                missing,
            ).deep_view()[k],
        forall|x: Seq<char>|
            old(missing).deep_view().contains(x) ==> final(missing).deep_view().contains(x),
        forall|k: int|
            old(missing)@.len() <= k < final(missing)@.len() ==> arg_missing_prop(
                #[trigger] final(missing).deep_view()[k],
                all_content@,
            ),
        match arg_defined_name(*ty) {
            Some(n) => crate::layout::spec_find_type(final(table)@, n) is Some
                || final(missing).deep_view().contains(n),
            None => true,
        },
{
    let name = match arg_defined_name_exec(ty) {
        Some(n) => n,
        None => {
            return ;
        },
    };
    let ghost nv = name@;
    match crate::layout::find_type_index_pub(table, name.as_str()) {
        Some(_) => {},
        None => {
            let resolved: Option<crate::types::TypeShape> = match crate::scan::get_local_type(
                name.as_str(),
                all_content,
            ) {
                Some(text) => match item_to_program_type(text.as_str(), all_content) {
                    Some(pt) => Some(pt.shape),
                    None => {
                        proof {
                            assert(arg_missing_prop(nv, all_content@));
                        }
                        None
                    },
                },
                None => {
                    proof {
                        assert(arg_missing_prop(nv, all_content@));
                    }
                    None
                },
            };
            match resolved {
                Some(shape) => {
                    let ghost pre = table@;
                    let entry = crate::types::ProgramType { name: name.clone(), shape };
                    table.push(entry);
                    proof {
                        assert(forall|k: int| 0 <= k < pre.len() ==> table@[k] == pre[k]);
                        assert(table@[pre.len() as int].name@ == nv);
                        crate::layout::lemma_find_type_extend(
                            pre,
                            seq![table@[pre.len() as int]],
                            nv,
                        );
                        assert(pre + seq![table@[pre.len() as int]] =~= table@);
                        assert(crate::layout::spec_find_type(
                            seq![table@[pre.len() as int]],
                            nv,
                        ) is Some);
                    }
                },
                None => {
                    let ghost pre = missing.deep_view();
                    let ghost pre_len = missing@.len();
                    crate::resolve::push_name(missing, name.clone());
                    proof {
                        assert(forall|q: int|
                            0 <= q < pre.len() ==> missing.deep_view()[q] == pre[q]);
                        assert(missing.deep_view()[pre.len() as int] == nv);
                        assert(forall|x: Seq<char>|
                            pre.contains(x) ==> missing.deep_view().contains(x)) by {
                            assert(forall|q: int|
                                0 <= q < pre.len() ==> missing.deep_view()[q] == pre[q]);
                        }
                        assert(arg_missing_prop(nv, all_content@));
                        assert(missing@.len() == pre_len + 1);
                        assert(missing.deep_view().len() == missing@.len());
                        assert(pre.len() == pre_len);
                    }
                },
            }
        },
    }
    proof {
        assert(missing@.len() >= old(missing)@.len());
        assert(forall|k: int|
            0 <= k < old(missing)@.len() ==> #[trigger] missing.deep_view()[k] == old(
                missing,
            ).deep_view()[k]);
    }
}

/// Top up the type table with the instruction arguments' defined types:
/// every argument whose type names a defined type is made resolvable in
/// the result, first definition winning, or reported as missing. Nothing
/// already in the table is touched or reordered.
pub fn resolve_instruction_arg_types(
    instructions: &Vec<InstructionDef>,
    table: Vec<crate::types::ProgramType>,
    all_content: &str,
) -> (r: (Vec<crate::types::ProgramType>, Vec<String>))
    ensures
        r.0@.len() >= table@.len(),
        forall|k: int| 0 <= k < table@.len() ==> r.0@[k] == table@[k],
        forall|k: int|
            table@.len() <= k < r.0@.len() ==> crate::scan::spec_local_type(
                (#[trigger] r.0@[k]).name@,
                all_content@,
            ) is Some,
        forall|k: int|
            0 <= k < r.1@.len() ==> arg_missing_prop(
                #[trigger] r.1.deep_view()[k],
                all_content@,
            ),
        forall|i: int, j: int|
            0 <= i < instructions@.len() && 0 <= j < (#[trigger] instructions@[i]).args@.len()
                ==> match arg_defined_name(#[trigger] instructions@[i].args@[j].ty) {
                Some(n) => crate::layout::spec_find_type(r.0@, n) is Some
                    || r.1.deep_view().contains(n),
                None => true,
            },
{
    let mut out = table;
    let mut missing: Vec<String> = Vec::new();
    let ghost base = out@;
    let mut i: usize = 0;
    proof {
        assert(missing.deep_view() =~= Seq::<Seq<char>>::empty());
    }
    while i < instructions.len()
        invariant
            0 <= i <= instructions@.len(),
            out@.len() >= base.len(),
            forall|k: int| 0 <= k < base.len() ==> out@[k] == base[k],
            forall|k: int|
                base.len() <= k < out@.len() ==> crate::scan::spec_local_type(
                    (#[trigger] out@[k]).name@,
                    all_content@,
                ) is Some,
            forall|k: int|
                0 <= k < missing@.len() ==> arg_missing_prop(
                    #[trigger] missing.deep_view()[k],
                    all_content@,
                ),
            forall|i2: int, j2: int|
                0 <= i2 < i && 0 <= j2 < (#[trigger] instructions@[i2]).args@.len()
                    ==> match arg_defined_name(#[trigger] instructions@[i2].args@[j2].ty) {
                    Some(n) => crate::layout::spec_find_type(out@, n) is Some
                        || missing.deep_view().contains(n),
                    None => true,
                },
        decreases instructions@.len() - i,
    {
        let args = &instructions[i].args;
        let mut j: usize = 0;
        while j < args.len()
            invariant
                0 <= i < instructions@.len(),
                args == &instructions@[i as int].args,
                0 <= j <= args@.len(),
                out@.len() >= base.len(),
                forall|k: int| 0 <= k < base.len() ==> out@[k] == base[k],
                forall|k: int|
                    base.len() <= k < out@.len() ==> crate::scan::spec_local_type(
                        (#[trigger] out@[k]).name@,
                        all_content@,
                    ) is Some,
                forall|k: int|
                    0 <= k < missing@.len() ==> arg_missing_prop(
                        #[trigger] missing.deep_view()[k],
                        all_content@,
                    ),
                forall|i2: int, j2: int|
                    0 <= i2 < i && 0 <= j2 < (#[trigger] instructions@[i2]).args@.len()
                        ==> match arg_defined_name(
                        #[trigger] instructions@[i2].args@[j2].ty,
                    ) {
                        Some(n) => crate::layout::spec_find_type(out@, n) is Some
                            || missing.deep_view().contains(n),
                        None => true,
                    },
                forall|j2: int|
                    0 <= j2 < j ==> match arg_defined_name(
                        (#[trigger] instructions@[i as int].args@[j2]).ty,
                    ) {
                        Some(n) => crate::layout::spec_find_type(out@, n) is Some
                            || missing.deep_view().contains(n),
                        None => true,
                    },
            decreases args@.len() - j,
        {
            let ghost pre_out = out@;
            let ghost pre_missing = missing.deep_view();
            ensure_arg_type(&mut out, &mut missing, &args[j].ty, all_content);
            proof {
                assert(pre_out.len() >= base.len());
                assert(forall|k: int| 0 <= k < base.len() ==> out@[k] == base[k]);
                assert forall|n: Seq<char>|
                    crate::layout::spec_find_type(pre_out, n) is Some implies
                    crate::layout::spec_find_type(out@, n) is Some by {
                    crate::layout::lemma_find_type_extend(
                        pre_out,
                        out@.skip(pre_out.len() as int),
                        n,
                    );
                    assert(pre_out + out@.skip(pre_out.len() as int) =~= out@);
                }
            }
            j += 1;
        }
        i += 1;
    }
    (out, missing)
}


/// Whether the snake-cased constructor of a variant can be located.
fn constructor_located(content: &str, all_content: &str, function_name: &str) -> (r: bool)
    ensures
        r == (spec_locate_function(content@, all_content@, function_name@) is Some),
{
    proof {
        reveal_strlit("pub fn ");
        reveal_strlit("(");
    }
    let cv = str_to_chars(content);
    let av = str_to_chars(all_content);
    let fv = str_to_chars(function_name);
    let mut pat = str_to_chars("pub fn ");
    crate::text::push_all(&mut pat, fv.as_slice());
    let op = str_to_chars("(");
    crate::text::push_all(&mut pat, op.as_slice());
    if find_sub_from(cv.as_slice(), pat.as_slice(), 0).is_some() {
        return true;
    }
    find_sub_from(av.as_slice(), pat.as_slice(), 0).is_some()
}

/// The variant names of the instruction union whose constructors are found
/// nowhere: what instruction synthesis skips, surfaced so a caller can log
/// each one. Every listed name's snake-cased constructor is provably
/// located nowhere.
pub fn skipped_variant_names(instruction_content: &str, all_content: &str) -> (r: Vec<String>)
    ensures
        forall|k: int|
            0 <= k < r@.len() ==> spec_locate_function(
                instruction_content@,
                all_content@,
                spec_snake_from_pascal((#[trigger] r.deep_view()[k])),
            ) is None,
{
    proof {
        reveal_strlit("pub enum");
        reveal_strlit("Instruction");
        reveal_strlit("{");
    }
    let cv = str_to_chars(instruction_content);
    let pat = str_to_chars("pub enum");
    let ipat = str_to_chars("Instruction");
    let mut out: Vec<String> = Vec::new();
    let mut from: usize = 0;
    let mut start: Option<usize> = None;
    proof {
        assert(out.deep_view() =~= Seq::<Seq<char>>::empty());
    }
    loop
        invariant_except_break
            start is None,
        invariant
            cv@ == instruction_content@,
            pat@ == "pub enum"@,
            ipat@ == "Instruction"@,
            pat@.len() >= 1,
            ipat@.len() >= 1,
            0 <= from <= cv@.len() + pat@.len(),
        ensures
            match start {
                Some(i) => i <= cv@.len(),
                None => true,
            },
        decreases cv@.len() + pat@.len() - from,
    {
        match find_sub_from(cv.as_slice(), pat.as_slice(), from) {
            Some(i) => {
                proof {
                    lemma_find_sub_correct(cv@, pat@, from as int);
                }
                let tail = sub_chars(cv.as_slice(), i, cv.len());
                let fl = crate::scan::first_line_chars(tail.as_slice());
                let has_ix = find_sub_from(fl.as_slice(), ipat.as_slice(), 0).is_some();
                proof {
                    reveal_strlit("{");
                }
                let obr = str_to_chars("{");
                let has_brace = find_sub_from(fl.as_slice(), obr.as_slice(), 0).is_some();
                if has_ix && has_brace {
                    proof {
                        assert(i <= cv@.len());
                    }
                    start = Some(i);
                    break ;
                }
                from = i + pat.len();
            },
            None => {
                break ;
            },
        }
    }
    let start = match start {
        Some(st) => st,
        None => {
            return out;
        },
    };
    let tail = sub_chars(cv.as_slice(), start, cv.len());
    let tail_str = chars_to_string(&tail);
    let body = crate::scan::get_item(tail_str.as_str(), '{');
    let body_chars = str_to_chars(body.as_str());
    let lines = crate::text::split_lines(body_chars.as_slice());
    let mut li: usize = 1;
    let mut pending: Option<String> = None;
    while li < lines.len()
        invariant
            cv@ == instruction_content@,
            forall|k: int|
                0 <= k < out@.len() ==> spec_locate_function(
                    instruction_content@,
                    all_content@,
                    spec_snake_from_pascal((#[trigger] out.deep_view()[k])),
                ) is None,
        decreases lines@.len() - li,
    {
        proof {
            reveal_strlit("//");
        }
        let raw: &Vec<char> = &lines[li];
        let cpat = str_to_chars("//");
        let cut = match find_sub_from(raw.as_slice(), cpat.as_slice(), 0) {
            Some(c) => c,
            None => raw.len(),
        };
        proof {
            lemma_find_sub_correct(raw@, "//"@, 0);
        }
        let uncommented = sub_chars(raw.as_slice(), 0, cut);
        let line = trim_chars(uncommented.as_slice());
        if crate::resolve::is_skip_line_exec_pub(raw.as_slice()) {
            li += 1;
            continue ;
        }
        pending = match pending {
            Some(vname) => {
                if contains_char(line.as_slice(), '}') {
                    report_if_skipped(&mut out, vname, instruction_content, all_content);
                    None
                } else {
                    Some(vname)
                }
            },
            None => {
                match crate::instr::parse_variant_line(line.as_slice()) {
                    Some(v) => match v {
                        crate::instr::VariantLine::Payload(vname, _) => {
                            report_if_skipped(
                                &mut out,
                                vname,
                                instruction_content,
                                all_content,
                            );
                            None
                        },
                        crate::instr::VariantLine::Unit(vname) => {
                            report_if_skipped(
                                &mut out,
                                vname,
                                instruction_content,
                                all_content,
                            );
                            None
                        },
                        crate::instr::VariantLine::Inline(vname, _) => {
                            report_if_skipped(
                                &mut out,
                                vname,
                                instruction_content,
                                all_content,
                            );
                            None
                        },
                        crate::instr::VariantLine::OpensBlock(vname) => Some(vname),
                    },
                    None => None,
                }
            },
        };
        li += 1;
    }
    match pending {
        Some(vname) => {
            report_if_skipped(&mut out, vname, instruction_content, all_content);
        },
        None => {},
    }
    out
}

fn report_if_skipped(
    out: &mut Vec<String>,
    vname: String,
    instruction_content: &str,
    all_content: &str,
)
    requires
        forall|k: int|
            0 <= k < old(out)@.len() ==> spec_locate_function(
                instruction_content@,
                all_content@,
                spec_snake_from_pascal((#[trigger] old(out).deep_view()[k])),
            ) is None,
    ensures
        forall|k: int|
            0 <= k < final(out)@.len() ==> spec_locate_function(
                instruction_content@,
                all_content@,
                spec_snake_from_pascal((#[trigger] final(out).deep_view()[k])),
            ) is None,
{
    let ghost vv = vname@;
    let function_name = snake_from_pascal(vname.as_str());
    if !constructor_located(instruction_content, all_content, function_name.as_str()) {
        let ghost pre = out.deep_view();
        proof {
            assert(pre == old(out).deep_view());
            assert(spec_locate_function(
                instruction_content@,
                all_content@,
                spec_snake_from_pascal(vv),
            ) is None);
        }
        crate::resolve::push_name(out, vname);
        proof {
            assert(forall|q: int| 0 <= q < pre.len() ==> out.deep_view()[q] == pre[q]);
            assert(out.deep_view()[pre.len() as int] == vv);
            assert(forall|q: int|
                0 <= q < pre.len() ==> out.deep_view()[q] == old(out).deep_view()[q]);
            assert(out.deep_view().len() == out@.len());
            assert(out.deep_view().len() == pre.len() + 1);
            assert forall|k: int|
                0 <= k < out@.len() implies spec_locate_function(
                instruction_content@,
                all_content@,
                spec_snake_from_pascal((#[trigger] out.deep_view()[k])),
            ) is None by {
                if k < pre.len() {
                    assert(out.deep_view()[k] == old(out).deep_view()[k]);
                    assert(spec_locate_function(
                        instruction_content@,
                        all_content@,
                        spec_snake_from_pascal(old(out).deep_view()[k]),
                    ) is None);
                } else {
                    assert(out.deep_view()[k] == vv);
                }
            }
        }
    }
}

} // verus!