use rbac::AccessControl;
use rbac::right::Right;

fn init_acl() -> AccessControl {
    let mut acl = AccessControl::new();
    acl.grant("user", Right::read_own("post"));
    acl.grant("admin", Right::delete_any("post"));
    acl
}

#[test]
fn can_grant_rights() {
    let acl = init_acl();
    assert_eq!(acl.get_rights().len(), 2);
}

#[test]
fn can_grant_custom_rights() {
    let mut acl = AccessControl::new();
    acl.grant("team_lead", Right::new("publish", "team", "news"));
    assert_eq!(acl.can_role("team_lead").access("publish", "team", "news"), true);
}

#[test]
fn can_check_single_role_rights() {
    let acl = init_acl();
    assert_eq!(acl.can_role("user").read_own("post"), true);
    assert_eq!(acl.can_role("user").delete_any("post"), false);
}

#[test]
fn can_check_multiple_role_rights() {
    let acl = init_acl();
    assert_eq!(
        acl.can_roles(vec![String::from("user"), String::from("admin")]).read_own("post"),
        true
    );
    assert_eq!(
        acl.can_roles(vec![String::from("user"), String::from("admin")]).delete_any("post"),
        true
    );
}

#[test]
fn granting_twice_changes_nothing() {
    let mut once = AccessControl::new();
    once.grant("user", Right::read_own("post"));
    let mut twice = AccessControl::new();
    twice.grant("user", Right::read_own("post"));
    twice.grant("user", Right::read_own("post"));
    assert_eq!(once.get_rights().len(), twice.get_rights().len());
    assert_eq!(once.get_rights()[0].rights.len(), 1);
    assert_eq!(twice.get_rights()[0].rights.len(), 1);
    assert_eq!(once.can_role("user").read_own("post"), true);
    assert_eq!(twice.can_role("user").read_own("post"), true);
    assert_eq!(twice.can_role("user").read_any("post"), false);
}

#[test]
fn absent_role_gets_nothing() {
    let acl = init_acl();
    let query = acl.can_role("nobody");
    assert_eq!(query.read_own("post"), false);
    assert_eq!(query.delete_any("post"), false);
    assert_eq!(query.access("publish", "team", "news"), false);
}

#[test]
fn multi_role_union_is_exact() {
    let acl = init_acl();
    let both = acl.can_roles(vec![String::from("user"), String::from("admin")]);
    assert_eq!(both.read_own("post"), true);
    assert_eq!(both.delete_any("post"), true);
    let user_only = acl.can_role("user");
    assert_eq!(user_only.read_own("post"), true);
    assert_eq!(user_only.delete_any("post"), false);
}

#[test]
fn queries_are_snapshots() {
    let mut acl = AccessControl::new();
    acl.grant("user", Right::read_own("post"));
    let early = acl.can_role("user");
    acl.grant("user", Right::delete_any("post"));
    let late = acl.can_role("user");
    assert_eq!(early.read_own("post"), true);
    assert_eq!(early.delete_any("post"), false);
    assert_eq!(late.delete_any("post"), true);
}

#[test]
fn duplicate_roles_are_harmless() {
    let acl = init_acl();
    let query = acl.can_roles(vec![
        String::from("user"),
        String::from("user"),
        String::from("ghost"),
        String::from("admin"),
    ]);
    assert_eq!(query.read_own("post"), true);
    assert_eq!(query.delete_any("post"), true);
    assert_eq!(query.create_any("post"), false);
}

#[test]
fn one_role_can_hold_many_rights() {
    let mut acl = AccessControl::new();
    acl.grant("editor", Right::read_any("post"));
    acl.grant("editor", Right::update_own("post"));
    assert_eq!(acl.get_rights().len(), 1);
    let query = acl.can_role("editor");
    assert_eq!(query.read_any("post"), true);
    assert_eq!(query.update_own("post"), true);
    assert_eq!(query.update_any("post"), false);
}

#[test]
fn with_rights_adopts_a_table() {
    let mut seed = AccessControl::new();
    seed.grant("user", Right::read_own("post"));
    let mut table = Vec::new();
    for entry in seed.get_rights() {
        let mut rights = Vec::new();
        for right in &entry.rights {
            rights.push(right.clone());
        }
        table.push(rbac::RoleRights { role: entry.role.clone(), rights });
    }
    let acl = AccessControl::with_rights(table);
    assert_eq!(acl.can_role("user").read_own("post"), true);
    assert_eq!(acl.can_role("user").read_any("post"), false);
}
