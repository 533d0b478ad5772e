use chat_bridge::permission::{parse_permission, perm_level, Permission};

#[test]
fn parse_permission_admin() {
    assert_eq!(parse_permission("admin"), Permission::Admin);
}

#[test]
fn parse_permission_trusted() {
    assert_eq!(parse_permission("trusted"), Permission::Trusted);
}

#[test]
fn parse_permission_normal() {
    assert_eq!(parse_permission("normal"), Permission::Normal);
}

#[test]
fn parse_permission_unknown_defaults_to_normal() {
    assert_eq!(parse_permission("blocked"), Permission::Normal);
    assert_eq!(parse_permission(""), Permission::Normal);
    assert_eq!(parse_permission("ADMIN"), Permission::Normal); // case sensitive
    assert_eq!(parse_permission("superuser"), Permission::Normal);
}

#[test]
fn test_permission_display() {
    assert_eq!(Permission::Normal.as_str(), "normal");
    assert_eq!(Permission::Trusted.as_str(), "trusted");
    assert_eq!(Permission::Admin.as_str(), "admin");
}

#[test]
fn perm_level_total_order() {
    assert!(perm_level("blocked") < perm_level("normal"));
    assert!(perm_level("normal") < perm_level("trusted"));
    assert!(perm_level("trusted") < perm_level("admin"));
    assert_eq!(perm_level("something else"), 0);
}
