use rust_enum_derive::semantics::{display_member, member_for_number, parse_member, pretty_format};
use rust_enum_derive::CEnum;

fn flags() -> Vec<CEnum> {
    vec![CEnum::new(1, "A"), CEnum::new(2, "B"), CEnum::new(4, "C")]
}

#[test]
fn pretty_format_joins_set_bits() {
    let t = flags();
    assert_eq!(pretty_format(&t, 5).unwrap(), "A|C");
    assert_eq!(pretty_format(&t, 7).unwrap(), "A|B|C");
    assert_eq!(pretty_format(&t, 2).unwrap(), "B");
    assert_eq!(pretty_format(&t, 0).unwrap(), "");
    assert_eq!(pretty_format(&t, 6).unwrap(), "B|C");
}

#[test]
fn pretty_format_ignores_bits_above_the_last_member() {
    assert_eq!(pretty_format(&flags(), 8 | 1).unwrap(), "A");
}

#[test]
fn pretty_format_fails_where_the_generated_code_panics() {
    let gap = vec![CEnum::new(1, "A"), CEnum::new(4, "C")];
    assert_eq!(pretty_format(&gap, 2), None);
    let high = vec![CEnum::new(1, "A"), CEnum::new(i32::MIN, "TOP")];
    assert_eq!(pretty_format(&high, 1), None);
    assert_eq!(pretty_format(&Vec::new(), 1), None);
}

#[test]
fn display_then_parse_gives_the_member_back() {
    let t = vec![CEnum::new(0, "ROUTE"), CEnum::new(3, "FIREWALL"), CEnum::new(16, "GENERIC")];
    for c in &t {
        let shown = display_member(&t, &c.s).unwrap();
        assert_eq!(shown, c.s);
        assert_eq!(parse_member(&t, &shown).unwrap(), c.s);
    }
    assert_eq!(parse_member(&t, "UNKNOWN"), None);
    assert_eq!(display_member(&t, "UNKNOWN"), None);
}

#[test]
fn numbers_map_to_their_members() {
    let t = vec![CEnum::new(-2, "NEG"), CEnum::new(0, "ZERO"), CEnum::new(16, "SIXTEEN")];
    for (j, c) in t.iter().enumerate() {
        assert_eq!(member_for_number(&t, c.i as i64), Some(j));
    }
    assert_eq!(member_for_number(&t, 5), None);
    assert_eq!(member_for_number(&t, 0xFFFF_FFFE), None);
}

#[test]
fn equal_values_map_to_the_first_member() {
    let t = vec![CEnum::new(1, "ONE"), CEnum::new(1, "UNO")];
    assert_eq!(member_for_number(&t, 1), Some(0));
}
