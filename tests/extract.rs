use rust_enum_derive::{canonicalize, extract, parse_buff, sort_symbols, CEnum, DeriveError, Dialect};

fn pairs(v: &[CEnum]) -> Vec<(i32, String)> {
    v.iter().map(|c| (c.i, c.s.clone())).collect()
}

fn p(list: &[(i32, &str)]) -> Vec<(i32, String)> {
    list.iter().map(|(i, s)| (*i, s.to_string())).collect()
}

#[test]
fn enum_values_count_on_from_the_last_explicit_one() {
    let v = extract("X = 16,\nY,\nZ,", Dialect::EnumStyle).unwrap();
    assert_eq!(pairs(&v), p(&[(16, "X"), (17, "Y"), (18, "Z")]));
}

#[test]
fn first_enum_value_without_literal_is_zero() {
    let v = extract("  A,\n  B,\n", Dialect::EnumStyle).unwrap();
    assert_eq!(pairs(&v), p(&[(0, "A"), (1, "B")]));
}

#[test]
fn define_lines_give_a_table_in_value_order() {
    let text = "#define E 16\n#define C 3\n#define A 0\n#define D 4\n#define B 1\n";
    let raw = extract(text, Dialect::DefineStyle).unwrap();
    assert_eq!(pairs(&raw), p(&[(16, "E"), (3, "C"), (0, "A"), (4, "D"), (1, "B")]));
    let v = parse_buff(text, false).unwrap();
    assert_eq!(pairs(&v), p(&[(0, "A"), (1, "B"), (3, "C"), (4, "D"), (16, "E")]));
}

#[test]
fn extraction_is_deterministic() {
    let text = "A = 3,\nB,\nC = 0x1,\n";
    let a = extract(text, Dialect::EnumStyle).unwrap();
    let b = extract(text, Dialect::EnumStyle).unwrap();
    assert_eq!(pairs(&a), pairs(&b));
}

#[test]
fn equal_values_keep_their_input_order() {
    let v = parse_buff("A = 1,\nB = 0,\nC = 1,\nD = 0,", true).unwrap();
    assert_eq!(pairs(&v), p(&[(0, "B"), (0, "D"), (1, "A"), (1, "C")]));
}

#[test]
fn several_members_on_one_line_are_all_found() {
    let v = extract("A, B = 5, C,", Dialect::EnumStyle).unwrap();
    assert_eq!(pairs(&v), p(&[(0, "A"), (5, "B"), (6, "C")]));
}

#[test]
fn lines_that_do_not_match_are_skipped() {
    let text = "enum x {\n    // comment, with a comma\n    A = 2,\n\n    #define Q 1\n};\n";
    let v = extract(text, Dialect::EnumStyle).unwrap();
    assert_eq!(pairs(&v), p(&[(2, "A")]));
    let d = extract("# define A 1\n#defineB 2\n#define C\n#define D 3", Dialect::DefineStyle).unwrap();
    assert_eq!(pairs(&d), p(&[(3, "D")]));
}

#[test]
fn value_token_runs_to_the_last_comma() {
    match extract("A = 1,2,", Dialect::EnumStyle) {
        Err(DeriveError::MalformedLiteral(t)) => assert_eq!(t, "1,2"),
        other => panic!("unexpected {:?}", other),
    }
    let v = extract("A = 1 ,B = 2,", Dialect::EnumStyle).unwrap();
    assert_eq!(pairs(&v), p(&[(1, "A"), (2, "B")]));
}

#[test]
fn crlf_lines_are_read_like_lf_lines() {
    let v = extract("A = 1,\r\nB,\r\n", Dialect::EnumStyle).unwrap();
    assert_eq!(pairs(&v), p(&[(1, "A"), (2, "B")]));
    let d = extract("#define A 0x10\r\n", Dialect::DefineStyle).unwrap();
    assert_eq!(pairs(&d), p(&[(16, "A")]));
}

#[test]
fn counting_on_past_the_largest_value_fails() {
    assert_eq!(
        extract("A = 0x7FFFFFFF,\nB,", Dialect::EnumStyle).unwrap_err(),
        DeriveError::ValueOverflow(String::from("B"))
    );
    let v = extract("A = 0x7FFFFFFF,\nB = 3,", Dialect::EnumStyle).unwrap();
    assert_eq!(pairs(&v), p(&[(i32::MAX, "A"), (3, "B")]));
}

#[test]
fn shift_values_in_enum_input() {
    let v = extract("A = 1<<4,\nB,", Dialect::EnumStyle).unwrap();
    assert_eq!(pairs(&v), p(&[(16, "A"), (17, "B")]));
    // a value token has no spaces, so a spaced shift is no member at all
    let w = extract("A = 1 << 4,\nB,", Dialect::EnumStyle).unwrap();
    assert_eq!(pairs(&w), p(&[(0, "B")]));
}

#[test]
fn canonical_table_is_sorted_permutation() {
    let input = vec![CEnum::new(5, "E"), CEnum::new(-3, "N"), CEnum::new(5, "F"), CEnum::new(0, "Z")];
    let t = canonicalize(input).unwrap();
    assert_eq!(pairs(&t), p(&[(-3, "N"), (0, "Z"), (5, "E"), (5, "F")]));
}

#[test]
fn empty_table_is_rejected() {
    assert!(matches!(canonicalize(Vec::new()), Err(DeriveError::EmptyTable)));
    let v = extract("nothing here\n", Dialect::EnumStyle).unwrap();
    assert!(v.is_empty());
    assert!(matches!(canonicalize(v), Err(DeriveError::EmptyTable)));
}

#[test]
fn sorting_an_empty_list_gives_an_empty_list() {
    assert!(sort_symbols(Vec::new()).is_empty());
}
