use rust_enum_derive::{process, write_enum, CEnum, Capability, DeriveError, FileArgs};

fn table() -> Vec<CEnum> {
    vec![CEnum::new(0, "A"), CEnum::new(16, "B")]
}

fn lines(ls: &[&str]) -> String {
    let mut s = String::new();
    for l in ls {
        s.push_str(l);
        s.push('\n');
    }
    s
}

fn enum_block() -> String {
    lines(&[
        "#[allow(dead_code, non_camel_case_types)]",
        "pub enum Name {",
        "    A = 0,",
        "    B = 16,",
        "}",
    ])
}

fn from_str_block() -> String {
    lines(&[
        "impl ::std::str::FromStr for Name {",
        "    type Err = ();",
        "    #[allow(dead_code)]",
        "    fn from_str(s: &str) -> Result<Self, Self::Err> {",
        "        match s {",
        "            \"A\" => Ok(Name::A),",
        "            \"B\" => Ok(Name::B),",
        "            _ => Err( () )",
        "        }",
        "    }",
        "}",
    ])
}

fn default_block() -> String {
    lines(&[
        "impl Default for Name {",
        "    fn default() -> Name {",
        "        Name::A",
        "    }",
        "}",
    ])
}

fn display_block() -> String {
    lines(&[
        "impl ::std::fmt::Display for Name {",
        "    #[allow(dead_code)]",
        "    fn fmt(&self, f: &mut ::std::fmt::Formatter) -> ::std::fmt::Result {",
        "        match *self {",
        "            Name::A => write!(f, \"A\"),",
        "            Name::B => write!(f, \"B\"),",
        "        }",
        "    }",
        "}",
    ])
}

fn from_primitive_block(a: &str, b: &str) -> String {
    let arm_a = format!("            {} => Some(Name::A),", a);
    let arm_b = format!("            {} => Some(Name::B),", b);
    lines(&[
        "impl ::num::traits::FromPrimitive for Name {",
        "    #[allow(dead_code)]",
        "    fn from_i64(n: i64) -> Option<Self> {",
        "        match n {",
        &arm_a,
        &arm_b,
        "            _ => None",
        "        }",
        "    }",
        "    #[allow(dead_code)]",
        "    fn from_u64(n: u64) -> Option<Self> {",
        "        match n {",
        &arm_a,
        &arm_b,
        "            _ => None",
        "        }",
        "    }",
        "}",
    ])
}

fn pretty_block() -> String {
    lines(&[
        "impl Name {",
        "    fn pretty_fmt(f: &mut ::std::fmt::Formatter, flags: u32) -> ::std::fmt::Result {",
        "        let mut shift: u32 = 0;",
        "        let mut result: u32 = 1<<shift;",
        "        let mut found = false;",
        "        while result <= Name::B as u32 {",
        "            let tmp = result & flags;",
        "            if tmp > 0 {",
        "                if found {",
        "                    try!(write!(f, \"|\"));",
        "                }",
        "                let flag = Name::from_u32(tmp).unwrap();",
        "                try!(write!(f, \"{}\", flag));",
        "                found = true;",
        "            }",
        "            shift += 1;",
        "            result = 1<<shift;",
        "        }",
        "        write!(f, \"\")",
        "    }",
        "}",
    ])
}

#[test]
fn declaration_lists_members_in_table_order() {
    assert_eq!(write_enum("Name", None, false, &table()).unwrap(), enum_block());
}

#[test]
fn declaration_with_derive_and_hex() {
    let expected = lines(&[
        "#[allow(dead_code, non_camel_case_types)]",
        "#[derive(Debug, PartialEq)]",
        "pub enum Flags {",
        "    A = 0x0,",
        "    B = 0x10,",
        "}",
    ]);
    assert_eq!(write_enum("Flags", Some("Debug, PartialEq"), true, &table()).unwrap(), expected);
}

#[test]
fn negative_values_in_decimal_and_hex() {
    let t = vec![CEnum::new(i32::MIN, "LOW"), CEnum::new(-1, "M"), CEnum::new(255, "HI")];
    let dec = write_enum("N", None, false, &t).unwrap();
    assert!(dec.contains("    LOW = -2147483648,\n"));
    assert!(dec.contains("    M = -1,\n"));
    assert!(dec.contains("    HI = 255,\n"));
    let hex = write_enum("N", None, true, &t).unwrap();
    assert!(hex.contains("    LOW = -0x80000000,\n"));
    assert!(hex.contains("    M = -0x1,\n"));
    assert!(hex.contains("    HI = 0xFF,\n"));
}

#[test]
fn hex_arms_keep_the_sign_of_negative_values() {
    let t = vec![CEnum::new(-1, "M"), CEnum::new(2, "T")];
    let out = Capability::FromPrimitive.write("N", true, &t).unwrap();
    assert!(out.contains("            -0x1 => Some(N::M),\n"));
    assert!(out.contains("            0x2 => Some(N::T),\n"));
    assert!(!out.contains("FFFFFFFF"));
}

#[test]
fn each_capability_writes_its_block() {
    let t = table();
    assert_eq!(Capability::FromStr.write("Name", false, &t).unwrap(), from_str_block());
    assert_eq!(Capability::Default.write("Name", false, &t).unwrap(), default_block());
    assert_eq!(Capability::Display.write("Name", false, &t).unwrap(), display_block());
    assert_eq!(Capability::FromPrimitive.write("Name", false, &t).unwrap(), from_primitive_block("0", "16"));
    assert_eq!(Capability::FromPrimitive.write("Name", true, &t).unwrap(), from_primitive_block("0x0", "0x10"));
    assert_eq!(Capability::PrettyFmt.write("Name", false, &t).unwrap(), pretty_block());
}

#[test]
fn emitters_reject_an_empty_table() {
    let empty: Vec<CEnum> = Vec::new();
    assert!(matches!(write_enum("Name", None, false, &empty), Err(DeriveError::EmptyTable)));
    for cap in [
        Capability::FromStr,
        Capability::Default,
        Capability::Display,
        Capability::FromPrimitive,
        Capability::PrettyFmt,
    ] {
        assert!(matches!(cap.write("Name", false, &empty), Err(DeriveError::EmptyTable)));
    }
}

#[test]
fn process_writes_declaration_then_selected_capabilities() {
    let mut fa = FileArgs::default();
    fa.fromstr = true;
    fa.default = true;
    let out = process("B = 16,\nA = 0,\n", &fa).unwrap();
    assert_eq!(out, enum_block() + &from_str_block() + &default_block());
}

#[test]
fn pretty_fmt_brings_in_display_and_from_primitive() {
    let mut fa = FileArgs::default();
    fa.pretty_fmt = true;
    assert_eq!(
        fa.capabilities(),
        vec![Capability::Display, Capability::FromPrimitive, Capability::PrettyFmt]
    );
    let out = process("#define A 0\n#define B 16\n", &FileArgs { define: true, ..fa }).unwrap();
    assert_eq!(out, enum_block() + &display_block() + &from_primitive_block("0", "16") + &pretty_block());
}

#[test]
fn all_capabilities_in_order() {
    let mut fa = FileArgs::default();
    fa.enable_all();
    assert_eq!(
        fa.capabilities(),
        vec![
            Capability::FromStr,
            Capability::Default,
            Capability::Display,
            Capability::FromPrimitive,
            Capability::PrettyFmt,
        ]
    );
}

#[test]
fn process_uses_the_given_name() {
    let fa = FileArgs { name: Some(String::from("Kind")), ..FileArgs::default() };
    let out = process("X,\n", &fa).unwrap();
    assert_eq!(
        out,
        lines(&["#[allow(dead_code, non_camel_case_types)]", "pub enum Kind {", "    X = 0,", "}"])
    );
}

#[test]
fn process_reports_errors() {
    let fa = FileArgs::default();
    assert!(matches!(process("// nothing\n", &fa), Err(DeriveError::EmptyTable)));
    match process("A = 0xZZ,\n", &fa) {
        Err(DeriveError::MalformedLiteral(t)) => assert_eq!(t, "0xZZ"),
        other => panic!("unexpected {:?}", other),
    }
}
