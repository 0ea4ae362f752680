use namib_core::models::{get_roles, Role, Thing};

fn role(id: i64, name: &str) -> Role {
    Role { id, name: name.to_string() }
}

#[test]
fn roles_pair_ids_with_names() {
    assert_eq!(get_roles("1,2", "admin,user"), vec![role(1, "admin"), role(2, "user")]);
    assert_eq!(get_roles("+7,-3", "a,b"), vec![role(7, "a"), role(-3, "b")]);
}

#[test]
fn roles_stop_at_first_bad_id_or_missing_name() {
    assert_eq!(get_roles("1,x,3", "a,b,c"), vec![role(1, "a")]);
    assert_eq!(get_roles("1,2,3", "a"), vec![role(1, "a")]);
    assert_eq!(get_roles("4", "a,b"), vec![role(4, "a")]);
    assert_eq!(get_roles("9223372036854775808", "a"), vec![]);
    assert_eq!(get_roles("", ""), vec![]);
    assert_eq!(get_roles("5,", "a,"), vec![role(5, "a")]);
}

#[test]
fn roles_keep_empty_names() {
    assert_eq!(get_roles("1,2", ",x"), vec![role(1, ""), role(2, "x")]);
}

#[test]
fn thing_holds_its_fields() {
    let t = Thing::new(
        "s".to_string(),
        "aa:bb:cc:dd:ee:ff".to_string(),
        "127.0.0.1".to_string(),
        "".to_string(),
        "host".to_string(),
    );
    assert_eq!(t.mac_addr, "aa:bb:cc:dd:ee:ff");
    assert_eq!(t.ipv4_addr, "127.0.0.1");
    assert_eq!(t.hostname, "host");
    assert_eq!(t.serial, "s");
    assert_eq!(t.ipv6_addr, "");
}
