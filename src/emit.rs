//! The emitters: the enum declaration and the five trait implementations,
//! each written as text from a table of constants.

use vstd::prelude::*;
use crate::error::DeriveError;
use crate::symbol::{CEnum, Sym, sym, syms};
use crate::text::{
    decimal_text, digits_value, hex_text, lemma_nat_text, nat_text, push_char, push_decimal,
    push_hex, push_str,
};

verus! {

pub const ENUM_ATTRS: &'static str = "#[allow(dead_code, non_camel_case_types)]\n";
pub const DERIVE_OPEN: &'static str = "#[derive(";
pub const DERIVE_CLOSE: &'static str = ")]\n";
pub const ENUM_OPEN: &'static str = "pub enum ";
pub const BLOCK_OPEN: &'static str = " {\n";
pub const BLOCK_CLOSE: &'static str = "}\n";
pub const MEMBER_INDENT: &'static str = "    ";
pub const ARM_INDENT: &'static str = "            ";
pub const PATH_SEP: &'static str = "::";
pub const EQUALS: &'static str = " = ";
pub const HEX_PREFIX: &'static str = "0x";
pub const LINE_END: &'static str = ",\n";
pub const TO_SOME: &'static str = " => Some(";
pub const ARM_CLOSE: &'static str = "),\n";
pub const WRITE_OPEN: &'static str = " => write!(f, \"";
pub const WRITE_CLOSE: &'static str = "\"),\n";
pub const QUOTE: &'static str = "\"";
pub const TO_OK: &'static str = "\" => Ok(";
pub const FROM_PRIMITIVE_IMPL: &'static str = "impl ::num::traits::FromPrimitive for ";
pub const FROM_I64_OPEN: &'static str =
    " {\n    #[allow(dead_code)]\n    fn from_i64(n: i64) -> Option<Self> {\n        match n {\n";
pub const FROM_U64_OPEN: &'static str =
    "            _ => None\n        }\n    }\n    #[allow(dead_code)]\n    fn from_u64(n: u64) -> Option<Self> {\n        match n {\n";
pub const FROM_PRIMITIVE_CLOSE: &'static str = "            _ => None\n        }\n    }\n}\n";
pub const DISPLAY_IMPL: &'static str = "impl ::std::fmt::Display for ";
pub const DISPLAY_OPEN: &'static str =
    " {\n    #[allow(dead_code)]\n    fn fmt(&self, f: &mut ::std::fmt::Formatter) -> ::std::fmt::Result {\n        match *self {\n";
pub const DISPLAY_CLOSE: &'static str = "        }\n    }\n}\n";
pub const FROM_STR_IMPL: &'static str = "impl ::std::str::FromStr for ";
pub const FROM_STR_OPEN: &'static str =
    " {\n    type Err = ();\n    #[allow(dead_code)]\n    fn from_str(s: &str) -> Result<Self, Self::Err> {\n        match s {\n";
pub const FROM_STR_CLOSE: &'static str = "            _ => Err( () )\n        }\n    }\n}\n";
pub const DEFAULT_IMPL: &'static str = "impl Default for ";
pub const DEFAULT_OPEN: &'static str = " {\n    fn default() -> ";
pub const DEFAULT_BODY: &'static str = " {\n        ";
pub const DEFAULT_CLOSE: &'static str = "\n    }\n}\n";
pub const IMPL: &'static str = "impl ";
pub const PRETTY_OPEN: &'static str =
    " {\n    fn pretty_fmt(f: &mut ::std::fmt::Formatter, flags: u32) -> ::std::fmt::Result {\n        let mut shift: u32 = 0;\n        let mut result: u32 = 1<<shift;\n        let mut found = false;\n        while result <= ";
pub const PRETTY_LOOP: &'static str =
    " as u32 {\n            let tmp = result & flags;\n            if tmp > 0 {\n                if found {\n                    try!(write!(f, \"|\"));\n                }\n                let flag = ";
pub const PRETTY_CLOSE: &'static str =
    "::from_u32(tmp).unwrap();\n                try!(write!(f, \"{}\", flag));\n                found = true;\n            }\n            shift += 1;\n            result = 1<<shift;\n        }\n        write!(f, \"\")\n    }\n}\n";

/// A value as the generated code writes it: decimal, or a sign for a negative
/// value, `0x` and the magnitude in upper-case hexadecimal. Either way the
/// literal stands for the value itself.
pub open spec fn literal_text(v: i32, hex: bool) -> Seq<char> {
    if hex {
        (if v < 0 {
            seq!['-']
        } else {
            Seq::empty()
        }) + HEX_PREFIX@ + hex_text(v)
    } else {
        decimal_text(v)
    }
}

/// The number that a Rust integer literal stands for: an optional `-`, then
/// `0x` and hexadecimal digits, or decimal digits.
pub open spec fn literal_number(t: Seq<char>) -> int {
    let neg = t.len() > 0 && t[0] == '-';
    let u = if neg {
        t.skip(1)
    } else {
        t
    };
    let mag = if u.len() >= 2 && u[0] == '0' && u[1] == 'x' {
        digits_value(u.skip(2), 16)
    } else {
        digits_value(u, 10)
    };
    if neg {
        -mag
    } else {
        mag
    }
}

/// Every literal that the emitters write stands for the constant's value, in
/// decimal and in hexadecimal alike.
pub proof fn lemma_literal_text_value(v: i32, hex: bool)
    ensures
        literal_number(literal_text(v, hex)) == v,
{
    let m: nat = if v < 0 {
        (-v) as nat
    } else {
        v as nat
    };
    let base: nat = if hex {
        16
    } else {
        10
    };
    lemma_nat_text(m, base);
    let d = nat_text(m, base);
    assert(d[0] != '-' && d[0] != 'x');
    reveal_strlit("0x");
    let sign: Seq<char> = if v < 0 {
        seq!['-']
    } else {
        Seq::empty()
    };
    if hex {
        let t = sign + HEX_PREFIX@ + d;
        assert(HEX_PREFIX@ == seq!['0', 'x']);
        assert(t == literal_text(v, hex));
        let u = seq!['0', 'x'] + d;
        if v < 0 {
            assert(t.skip(1) =~= u);
        } else {
            assert(t =~= u);
        }
        assert(u.skip(2) =~= d);
    } else {
        let t = literal_text(v, hex);
        if v < 0 {
            assert(t.skip(1) =~= d);
        } else {
            assert(t == d);
        }
        if d.len() >= 2 {
            assert(d[1] != 'x');
        }
    }
}

/// The kinds of per-constant line that the emitters write.
#[derive(Clone, Copy, PartialEq, Eq, Debug)]
pub enum ArmKind {
    /// `    NAME = VALUE,` in the declaration.
    Member,
    /// `VALUE => Some(Type::NAME),` in `from_i64` and `from_u64`.
    FromNumber,
    /// `Type::NAME => write!(f, "NAME"),` in `fmt`.
    Display,
    /// `"NAME" => Ok(Type::NAME),` in `from_str`.
    FromStr,
}

/// The line written for constant `c` of a type named `name`.
pub open spec fn arm_text(kind: ArmKind, name: Seq<char>, hex: bool, c: Sym) -> Seq<char> {
    match kind {
        ArmKind::Member => MEMBER_INDENT@ + c.1 + EQUALS@ + literal_text(c.0, hex) + LINE_END@,
        ArmKind::FromNumber => ARM_INDENT@ + literal_text(c.0, hex) + TO_SOME@ + name + PATH_SEP@
            + c.1 + ARM_CLOSE@,
        ArmKind::Display => ARM_INDENT@ + name + PATH_SEP@ + c.1 + WRITE_OPEN@ + c.1
            + WRITE_CLOSE@,
        ArmKind::FromStr => ARM_INDENT@ + QUOTE@ + c.1 + TO_OK@ + name + PATH_SEP@ + c.1
            + ARM_CLOSE@,
    }
}

/// The lines of kind `kind` for every constant of `t`, in table order.
pub open spec fn arms(kind: ArmKind, name: Seq<char>, hex: bool, t: Seq<Sym>) -> Seq<char>
    decreases t.len(),
{
    if t.len() == 0 {
        Seq::empty()
    } else {
        arms(kind, name, hex, t.drop_last()) + arm_text(kind, name, hex, t.last())
    }
}

fn push_arm(out: &mut String, kind: ArmKind, name: &str, hex: bool, c: &CEnum)
    ensures
        final(out)@ == old(out)@ + arm_text(kind, name@, hex, sym(*c)),
{
    let ghost start = out@;
    match kind {
        ArmKind::Member => {
            push_str(out, MEMBER_INDENT);
            push_str(out, c.s.as_str());
            push_str(out, EQUALS);
            push_literal(out, c.i, hex);
            push_str(out, LINE_END);
        },
        ArmKind::FromNumber => {
            push_str(out, ARM_INDENT);
            push_literal(out, c.i, hex);
            push_str(out, TO_SOME);
            push_str(out, name);
            push_str(out, PATH_SEP);
            push_str(out, c.s.as_str());
            push_str(out, ARM_CLOSE);
        },
        ArmKind::Display => {
            push_str(out, ARM_INDENT);
            push_str(out, name);
            push_str(out, PATH_SEP);
            push_str(out, c.s.as_str());
            push_str(out, WRITE_OPEN);
            push_str(out, c.s.as_str());
            push_str(out, WRITE_CLOSE);
        },
        ArmKind::FromStr => {
            push_str(out, ARM_INDENT);
            push_str(out, QUOTE);
            push_str(out, c.s.as_str());
            push_str(out, TO_OK);
            push_str(out, name);
            push_str(out, PATH_SEP);
            push_str(out, c.s.as_str());
            push_str(out, ARM_CLOSE);
        },
    }
    assert(out@ =~= start + arm_text(kind, name@, hex, sym(*c)));
}

fn push_literal(out: &mut String, v: i32, hex: bool)
    ensures
        final(out)@ == old(out)@ + literal_text(v, hex),
{
    let ghost start = out@;
    if hex {
        if v < 0 {
            push_char(out, '-');
        }
        push_str(out, HEX_PREFIX);
        push_hex(out, v);
        assert(out@ =~= start + literal_text(v, hex));
    } else {
        push_decimal(out, v);
    }
}

fn push_arms(out: &mut String, kind: ArmKind, name: &str, hex: bool, t: &Vec<CEnum>)
    ensures
        final(out)@ == old(out)@ + arms(kind, name@, hex, syms(t@)),
{
    let ghost start = out@;
    let ghost m = syms(t@);
    let mut i: usize = 0;
    assert(m.subrange(0, 0) =~= Seq::<Sym>::empty());
    assert(out@ =~= start + arms(kind, name@, hex, m.subrange(0, 0)));
    while i < t.len()
        invariant
            i <= t.len(),
            m == syms(t@),
            out@ == start + arms(kind, name@, hex, m.subrange(0, i as int)),
        decreases t.len() - i,
    {
        push_arm(out, kind, name, hex, &t[i]);
        assert(m.subrange(0, i + 1).drop_last() =~= m.subrange(0, i as int));
        assert(m.subrange(0, i + 1).last() == sym(t@[i as int]));
        i = i + 1;
        assert(out@ =~= start + arms(kind, name@, hex, m.subrange(0, i as int)));
    }
    assert(m.subrange(0, t.len() as int) =~= m);
}

pub open spec fn derive_text(derive: Option<Seq<char>>) -> Seq<char> {
    match derive {
        Some(d) => DERIVE_OPEN@ + d + DERIVE_CLOSE@,
        None => Seq::empty(),
    }
}

/// The declaration: one member per constant, in table order.
pub open spec fn enum_text(name: Seq<char>, derive: Option<Seq<char>>, hex: bool, t: Seq<Sym>) -> Seq<
    char,
> {
    ENUM_ATTRS@ + derive_text(derive) + ENUM_OPEN@ + name + BLOCK_OPEN@ + arms(
        ArmKind::Member,
        name,
        hex,
        t,
    ) + BLOCK_CLOSE@
}

/// The capabilities that an emitter can add to the declared type.
#[derive(Clone, Copy, PartialEq, Eq, Debug)]
pub enum Capability {
    /// `FromStr`: each name, as text, to its member; any other text to an error.
    FromStr,
    /// `Default`: the member of smallest value.
    Default,
    /// `Display`: each member to its name.
    Display,
    /// `FromPrimitive`: each value, as `i64` and as `u64`, to its member.
    FromPrimitive,
    /// `pretty_fmt`: a bit mask as the `|`-joined names of its set bits.
    PrettyFmt,
}

/// The text of capability `cap` for the non-empty table `t`.
pub open spec fn capability_text(cap: Capability, name: Seq<char>, hex: bool, t: Seq<Sym>) -> Seq<
    char,
> {
    match cap {
        Capability::FromStr => FROM_STR_IMPL@ + name + FROM_STR_OPEN@ + arms(
            ArmKind::FromStr,
            name,
            hex,
            t,
        ) + FROM_STR_CLOSE@,
        Capability::Default => DEFAULT_IMPL@ + name + DEFAULT_OPEN@ + name + DEFAULT_BODY@ + name
            + PATH_SEP@ + t[0].1 + DEFAULT_CLOSE@,
        Capability::Display => DISPLAY_IMPL@ + name + DISPLAY_OPEN@ + arms(
            ArmKind::Display,
            name,
            hex,
            t,
        ) + DISPLAY_CLOSE@,
        Capability::FromPrimitive => FROM_PRIMITIVE_IMPL@ + name + FROM_I64_OPEN@ + arms(
            ArmKind::FromNumber,
            name,
            hex,
            t,
        ) + FROM_U64_OPEN@ + arms(ArmKind::FromNumber, name, hex, t) + FROM_PRIMITIVE_CLOSE@,
        Capability::PrettyFmt => IMPL@ + name + PRETTY_OPEN@ + name + PATH_SEP@ + t.last().1
            + PRETTY_LOOP@ + name + PRETTY_CLOSE@,
    }
}

pub(crate) fn push_enum(
    out: &mut String,
    name: &str,
    derive: Option<&str>,
    hex: bool,
    t: &Vec<CEnum>,
)
    ensures
        final(out)@ == old(out)@ + enum_text(
            name@,
            match derive {
                Some(d) => Some(d@),
                None => None,
            },
            hex,
            syms(t@),
        ),
{
    let ghost start = out@;
    push_str(out, ENUM_ATTRS);
    match derive {
        Some(d) => {
            push_str(out, DERIVE_OPEN);
            push_str(out, d);
            push_str(out, DERIVE_CLOSE);
        },
        None => {},
    }
    push_str(out, ENUM_OPEN);
    push_str(out, name);
    push_str(out, BLOCK_OPEN);
    push_arms(out, ArmKind::Member, name, hex, t);
    push_str(out, BLOCK_CLOSE);
    assert(out@ =~= start + enum_text(
        name@,
        match derive {
            Some(d) => Some(d@),
            None => None,
        },
        hex,
        syms(t@),
    ));
}

pub(crate) fn push_capability(
    out: &mut String,
    cap: Capability,
    name: &str,
    hex: bool,
    t: &Vec<CEnum>,
)
    requires
        t@.len() > 0,
    ensures
        final(out)@ == old(out)@ + capability_text(cap, name@, hex, syms(t@)),
{
    let ghost start = out@;
    match cap {
        Capability::FromStr => {
            push_str(out, FROM_STR_IMPL);
            push_str(out, name);
            push_str(out, FROM_STR_OPEN);
            push_arms(out, ArmKind::FromStr, name, hex, t);
            push_str(out, FROM_STR_CLOSE);
        },
        Capability::Default => {
            push_str(out, DEFAULT_IMPL);
            push_str(out, name);
            push_str(out, DEFAULT_OPEN);
            push_str(out, name);
            push_str(out, DEFAULT_BODY);
            push_str(out, name);
            push_str(out, PATH_SEP);
            push_str(out, t[0].s.as_str());
            push_str(out, DEFAULT_CLOSE);
        },
        Capability::Display => {
            push_str(out, DISPLAY_IMPL);
            push_str(out, name);
            push_str(out, DISPLAY_OPEN);
            push_arms(out, ArmKind::Display, name, hex, t);
            push_str(out, DISPLAY_CLOSE);
        },
        Capability::FromPrimitive => {
            push_str(out, FROM_PRIMITIVE_IMPL);
            push_str(out, name);
            push_str(out, FROM_I64_OPEN);
            push_arms(out, ArmKind::FromNumber, name, hex, t);
            push_str(out, FROM_U64_OPEN);
            push_arms(out, ArmKind::FromNumber, name, hex, t);
            push_str(out, FROM_PRIMITIVE_CLOSE);
        },
        Capability::PrettyFmt => {
            push_str(out, IMPL);
            push_str(out, name);
            push_str(out, PRETTY_OPEN);
            push_str(out, name);
            push_str(out, PATH_SEP);
            push_str(out, t[t.len() - 1].s.as_str());
            push_str(out, PRETTY_LOOP);
            push_str(out, name);
            push_str(out, PRETTY_CLOSE);
        },
    }
    assert(out@ =~= start + capability_text(cap, name@, hex, syms(t@)));
}

/// The declaration of an enum named `name` with a member for each constant of
/// the table `t`; `EmptyTable` when `t` is empty.
pub fn write_enum(name: &str, derive: Option<&str>, hex: bool, t: &Vec<CEnum>) -> (r: Result<
    String,
    DeriveError,
>)
    ensures
        t@.len() == 0 <==> r is Err,
        r is Err ==> r->Err_0 is EmptyTable,
        r is Ok ==> r->Ok_0@ == enum_text(
            name@,
            match derive {
                Some(d) => Some(d@),
                None => None,
            },
            hex,
            syms(t@),
        ),
{
    if t.len() == 0 {
        return Err(DeriveError::EmptyTable);
    }
    let mut out = String::new();
    push_enum(&mut out, name, derive, hex, t);
    Ok(out)
}

impl Capability {
    /// The implementation of this capability for the type `name` over the table
    /// `t`; `EmptyTable` when `t` is empty.
    pub fn write(&self, name: &str, hex: bool, t: &Vec<CEnum>) -> (r: Result<String, DeriveError>)
        ensures
            t@.len() == 0 <==> r is Err,
            r is Err ==> r->Err_0 is EmptyTable,
            r is Ok ==> r->Ok_0@ == capability_text(*self, name@, hex, syms(t@)),
    {
        if t.len() == 0 {
            return Err(DeriveError::EmptyTable);
        }
        let mut out = String::new();
        push_capability(&mut out, *self, name, hex, t);
        Ok(out)
    }
}

} // verus!
