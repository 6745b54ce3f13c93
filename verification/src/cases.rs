use vstd::prelude::*;

use crate::text::str_to_chars;
use crate::text::chars_to_string;

verus! {

// Identifier case conversions. Names in the scanned source are ASCII
// identifiers, so folding is defined on the ASCII letters and leaves every
// other character unchanged.

pub open spec fn is_ascii_upper(c: char) -> bool {
    'A' <= c && c <= 'Z'
}

pub open spec fn is_ascii_lower(c: char) -> bool {
    'a' <= c && c <= 'z'
}

/// The lower-case form of an ASCII letter; any other character unchanged.
pub open spec fn lower_char(c: char) -> char {
    if is_ascii_upper(c) {
        ((c as u32) + 32) as char
    } else {
        c
    }
}

/// The upper-case form of an ASCII letter; any other character unchanged.
pub open spec fn upper_char(c: char) -> char {
    if is_ascii_lower(c) {
        ((c as u32) - 32) as char
    } else {
        c
    }
}

pub fn lower_char_exec(c: char) -> (r: char)
    ensures
        r == lower_char(c),
{
    if 'A' <= c && c <= 'Z' {
        let b: u8 = c as u8;
        proof {
            assert(c as u32 <= 90);
        }
        (b + 32) as char
    } else {
        c
    }
}

pub fn upper_char_exec(c: char) -> (r: char)
    ensures
        r == upper_char(c),
{
    if 'a' <= c && c <= 'z' {
        let b: u8 = c as u8;
        proof {
            assert(c as u32 <= 122);
        }
        (b - 32) as char
    } else {
        c
    }
}

/// The snake_case form of a PascalCase name: each upper-case letter is
/// lowered, and preceded by `'_'` unless it opens the name.
pub open spec fn spec_snake_from_pascal(s: Seq<char>) -> Seq<char>
    decreases s.len(),
{
    if s.len() == 0 {
        Seq::empty()
    } else {
        let prefix = spec_snake_from_pascal(s.drop_last());
        let c = s.last();
        if is_ascii_upper(c) {
            if s.len() == 1 {
                prefix + seq![lower_char(c)]
            } else {
                prefix + seq!['_', lower_char(c)]
            }
        } else {
            prefix + seq![c]
        }
    }
}

fn snake_from_pascal_chars(s: &[char]) -> (r: Vec<char>)
    ensures
        r@ == spec_snake_from_pascal(s@),
{
    let mut r: Vec<char> = Vec::new();
    let mut i: usize = 0;
    proof {
        assert(s@.subrange(0, 0) =~= Seq::<char>::empty());
    }
    while i < s.len()
        invariant
            0 <= i <= s@.len(),
            r@ == spec_snake_from_pascal(s@.subrange(0, i as int)),
        decreases s@.len() - i,
    {
        proof {
            assert(s@.subrange(0, i + 1).drop_last() =~= s@.subrange(0, i as int));
            assert(s@.subrange(0, i + 1).last() == s@[i as int]);
        }
        let c = s[i];
        if 'A' <= c && c <= 'Z' {
            if i != 0 {
                r.push('_');
            }
            r.push(lower_char_exec(c));
        } else {
            r.push(c);
        }
        proof {
            assert(r@ =~= spec_snake_from_pascal(s@.subrange(0, i + 1)));
        }
        i += 1;
    }
    proof {
        assert(s@.subrange(0, s@.len() as int) =~= s@);
    }
    r
}

/// Convert a PascalCase name to snake_case.
pub fn snake_from_pascal(pascal_case: &str) -> (r: String)
    ensures
        r@ == spec_snake_from_pascal(pascal_case@),
{
    let v = str_to_chars(pascal_case);
    let out = snake_from_pascal_chars(&v);
    chars_to_string(&out)
}

/// Convert a PascalCase name to snake_case.
pub fn snake_case(pascal_case: &str) -> (r: String)
    ensures
        r@ == spec_snake_from_pascal(pascal_case@),
{
    snake_from_pascal(pascal_case)
}

/// kebab-case to snake_case: every `'-'` becomes `'_'`.
pub open spec fn spec_snake_from_kebab(s: Seq<char>) -> Seq<char> {
    s.map_values(
        |c: char|
            if c == '-' {
                '_'
            } else {
                c
            },
    )
}

/// Convert a kebab-case name to snake_case.
pub fn snake_from_kebab(kebab_case: &str) -> (r: String)
    ensures
        r@ == spec_snake_from_kebab(kebab_case@),
{
    let s = str_to_chars(kebab_case);
    let mut out: Vec<char> = Vec::new();
    let mut i: usize = 0;
    while i < s.len()
        invariant
            0 <= i <= s@.len(),
            s@ == kebab_case@,
            out@ =~= spec_snake_from_kebab(s@).subrange(0, i as int),
        decreases s@.len() - i,
    {
        let c = s[i];
        if c == '-' {
            out.push('_');
        } else {
            out.push(c);
        }
        proof {
            assert(out@ =~= spec_snake_from_kebab(s@).subrange(0, i + 1));
        }
        i += 1;
    }
    proof {
        assert(out@ =~= spec_snake_from_kebab(s@));
    }
    chars_to_string(&out)
}

/// One step of the snake_case to PascalCase walk: at the head of the name or
/// just after an underscore the next character is raised; an underscore is
/// dropped and raises what follows; everything else is copied.
pub open spec fn spec_pascal_step(s: Seq<char>, i: int, raise: bool) -> Seq<char>
    decreases s.len() - i,
{
    if i < 0 || i >= s.len() {
        Seq::empty()
    } else if i == 0 || raise {
        seq![upper_char(s[i])] + spec_pascal_step(s, i + 1, false)
    } else if s[i] == '_' {
        spec_pascal_step(s, i + 1, true)
    } else {
        seq![s[i]] + spec_pascal_step(s, i + 1, false)
    }
}

/// The PascalCase form of a snake_case name.
pub open spec fn spec_pascal_from_snake(s: Seq<char>) -> Seq<char> {
    spec_pascal_step(s, 0, false)
}

fn pascal_from_snake_chars(s: &[char]) -> (r: Vec<char>)
    ensures
        r@ == spec_pascal_from_snake(s@),
{
    let mut r: Vec<char> = Vec::new();
    let mut i: usize = 0;
    let mut raise: bool = false;
    while i < s.len()
        invariant
            0 <= i <= s@.len(),
            spec_pascal_from_snake(s@) == r@ + spec_pascal_step(s@, i as int, raise),
        decreases s@.len() - i,
    {
        let c = s[i];
        if i == 0 || raise {
            r.push(upper_char_exec(c));
            raise = false;
        } else if c == '_' {
            raise = true;
        } else {
            r.push(c);
        }
        proof {
            assert(spec_pascal_from_snake(s@) =~= r@ + spec_pascal_step(
                s@,
                i + 1,
                raise,
            ));
        }
        i += 1;
    }
    proof {
        assert(spec_pascal_step(s@, i as int, raise) =~= Seq::<char>::empty());
        assert(r@ =~= spec_pascal_from_snake(s@));
    }
    r
}

/// Convert a snake_case name to PascalCase.
pub fn pascal_from_snake(snake_case: &str) -> (r: String)
    ensures
        r@ == spec_pascal_from_snake(snake_case@),
{
    let v = str_to_chars(snake_case);
    let out = pascal_from_snake_chars(&v);
    chars_to_string(&out)
}

/// A camelCase name with its first character raised.
pub open spec fn spec_pascal_from_camel(s: Seq<char>) -> Seq<char> {
    seq![upper_char(s[0])] + s.skip(1)
}

/// Convert a camelCase name to PascalCase.
pub fn pascal_from_camel(camel_case: &str) -> (r: String)
    requires
        camel_case@.len() >= 1,
    ensures
        r@ == spec_pascal_from_camel(camel_case@),
{
    let v = str_to_chars(camel_case);
    let mut out: Vec<char> = Vec::new();
    out.push(upper_char_exec(v[0]));
    let mut i: usize = 1;
    while i < v.len()
        invariant
            1 <= i <= v@.len(),
            v@ == camel_case@,
            v@.len() >= 1,
            out@ =~= seq![upper_char(v@[0])] + v@.subrange(1, i as int),
        decreases v@.len() - i,
    {
        out.push(v[i]);
        proof {
            assert(out@ =~= seq![upper_char(v@[0])] + v@.subrange(1, i + 1));
        }
        i += 1;
    }
    proof {
        assert(out@ =~= spec_pascal_from_camel(camel_case@));
    }
    chars_to_string(&out)
}

/// A PascalCase name with its first character lowered.
pub open spec fn spec_camel_from_pascal(s: Seq<char>) -> Seq<char> {
    seq![lower_char(s[0])] + s.skip(1)
}

/// Convert a PascalCase name to camelCase.
pub fn camel_from_pascal(pascal_case: &str) -> (r: String)
    requires
        pascal_case@.len() >= 1,
    ensures
        r@ == spec_camel_from_pascal(pascal_case@),
{
    let v = str_to_chars(pascal_case);
    let mut out: Vec<char> = Vec::new();
    out.push(lower_char_exec(v[0]));
    let mut i: usize = 1;
    while i < v.len()
        invariant
            1 <= i <= v@.len(),
            v@ == pascal_case@,
            v@.len() >= 1,
            out@ =~= seq![lower_char(v@[0])] + v@.subrange(1, i as int),
        decreases v@.len() - i,
    {
        out.push(v[i]);
        proof {
            assert(out@ =~= seq![lower_char(v@[0])] + v@.subrange(1, i + 1));
        }
        i += 1;
    }
    proof {
        assert(out@ =~= spec_camel_from_pascal(pascal_case@));
    }
    chars_to_string(&out)
}

/// Convert a kebab-case name to PascalCase.
pub fn pascal_from_kebab(kebab_case: &str) -> (r: String)
    ensures
        r@ == spec_pascal_from_snake(spec_snake_from_kebab(kebab_case@)),
{
    let snake = snake_from_kebab(kebab_case);
    pascal_from_snake(snake.as_str())
}

/// A nonempty snake_case name converts to a nonempty PascalCase name.
pub proof fn lemma_pascal_from_snake_nonempty(s: Seq<char>)
    requires
        s.len() >= 1,
    ensures
        spec_pascal_from_snake(s).len() >= 1,
{
}

/// Convert a snake_case name to camelCase.
pub fn camel_from_snake(snake_case: &str) -> (r: String)
    requires
        snake_case@.len() >= 1,
    ensures
        r@ == spec_camel_from_pascal(spec_pascal_from_snake(snake_case@)),
{
    let pascal = pascal_from_snake(snake_case);
    proof {
        lemma_pascal_from_snake_nonempty(snake_case@);
    }
    camel_from_pascal(pascal.as_str())
}

} // verus!
