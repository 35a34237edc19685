use rust_enum_derive::{parse_buff, CEnum};

#[test]
#[allow(non_snake_case)]
fn test_CENum_order() {
    let a = CEnum::new(0, "");
    let b = CEnum::new(1, "");
    let c = CEnum::new(2, "");
    let d = CEnum::new(0, "");
    assert!(a < b);
    assert!(b < c);
    assert!(a < c);
    assert!(b > a);
    assert!(c > b);
    assert!(c > a);
    assert!(a == d);
}

#[test]
fn test_parse_buff() {
    let s = "#define NETLINK_ROUTE 0\n\
    #define NETLINK_UNUSED 1\n\
    #define NETLINK_FIREWALL 3\n\
    #define NETLINK_SOCK_DIAG 4\n\
    #define NETLINK_GENERIC 16";

    let v = parse_buff(s, false).unwrap();

    assert!(v[0].i == 0); assert!(v[0].s == "NETLINK_ROUTE");
    assert!(v[1].i == 1); assert!(v[1].s == "NETLINK_UNUSED");
    assert!(v[2].i == 3); assert!(v[2].s == "NETLINK_FIREWALL");
    assert!(v[3].i == 4); assert!(v[3].s == "NETLINK_SOCK_DIAG");
    assert!(v[4].i == 16); assert!(v[4].s == "NETLINK_GENERIC");
}

#[test]
fn test_parse_buff_enum() {
    let s = "RTM_NEWLINK    = 16,\n\
             #define RTM_NEWLINK    RTM_NEWLINK\n\
                 RTM_DELLINK,\n\
             #define RTM_DELLINK    RTM_DELLINK\n\
                 RTM_GETLINK,\n\
             #define RTM_GETLINK    RTM_GETLINK\n\
                 RTM_SETLINK,\n\
             #define RTM_SETLINK    RTM_SETLINK\n\n\
                 RTM_NEWADDR    = 20,\n\
             #define RTM_NEWADDR    RTM_NEWADDR\n\
                 RTM_DELADDR,";

    let v = parse_buff(s, true).unwrap();

    assert!(v[0].i == 16); assert!(v[0].s == "RTM_NEWLINK");
    assert!(v[1].i == 17); assert!(v[1].s == "RTM_DELLINK");
    assert!(v[2].i == 18); assert!(v[2].s == "RTM_GETLINK");
    assert!(v[3].i == 19); assert!(v[3].s == "RTM_SETLINK");
    assert!(v[4].i == 20); assert!(v[4].s == "RTM_NEWADDR");
    assert!(v[5].i == 21); assert!(v[5].s == "RTM_DELADDR");
}

#[test]
fn test_parse_buff_hex() {
    let s = "ten    = 0xa,\n\
    eleven = 0xb,\n\
    twelve = 12,";

    let v = parse_buff(s, true).unwrap();

    assert!(v[0].i == 10); assert!(v[0].s == "ten");
    assert!(v[1].i == 11); assert!(v[1].s == "eleven");
    assert!(v[2].i == 12); assert!(v[2].s == "twelve");
}

#[test]
#[should_panic]
fn test_parse_buff_not_hex() {
    let s = "ten    = 10,\n\
    eleven = 11,\n\
    twelve = 12abc,"; // <-- not valid for base 10

    let v = parse_buff(s, true).unwrap();

    assert!(v[0].i == 10); assert!(v[0].s == "ten");
    assert!(v[1].i == 11); assert!(v[1].s == "eleven");
    assert!(v[2].i == 12); assert!(v[2].s == "twelve");
}
