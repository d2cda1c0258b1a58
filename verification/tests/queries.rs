use rbac::RoleRights;
use rbac::query::CheckRightsError;
use rbac::query::Query;
use rbac::right::Right;

fn init_query(right: Right) -> Query {
    let rights = vec![RoleRights { role: String::from("user"), rights: vec![right] }];
    Query::new(vec![String::from("user")], rights)
}

#[test]
fn can_check_custom_access() {
    let query = init_query(Right::new("publish", "team", "news"));
    assert_eq!(query.access("publish", "team", "news"), true);
}

#[test]
fn can_check_custom_access_by_right() {
    let query = init_query(Right::new("create", "any", "page"));
    assert_eq!(query.execute_right(Right::create_any("page")), true);
}

#[test]
fn can_check_create_own() {
    let query = init_query(Right::create_own("post"));
    assert_eq!(query.create_own("post"), true);
}

#[test]
fn can_check_create_any() {
    let query = init_query(Right::create_any("post"));
    assert_eq!(query.create_any("post"), true);
}

#[test]
fn can_check_create() {
    let query = init_query(Right::create_any("post"));
    assert_eq!(query.create("post"), true);
}

#[test]
fn can_check_read_own() {
    let query = init_query(Right::read_own("post"));
    assert_eq!(query.read_own("post"), true);
}

#[test]
fn can_check_read_any() {
    let query = init_query(Right::read_any("post"));
    assert_eq!(query.read_any("post"), true);
}

#[test]
fn can_check_read() {
    let query = init_query(Right::read_any("post"));
    assert_eq!(query.read("post"), true);
}

#[test]
fn can_check_update_own() {
    let query = init_query(Right::update_own("post"));
    assert_eq!(query.update_own("post"), true);
}

#[test]
fn can_check_update_any() {
    let query = init_query(Right::update_any("post"));
    assert_eq!(query.update_any("post"), true);
}

#[test]
fn can_check_update() {
    let query = init_query(Right::update_any("post"));
    assert_eq!(query.update("post"), true);
}

#[test]
fn can_check_delete_own() {
    let query = init_query(Right::delete_own("post"));
    assert_eq!(query.delete_own("post"), true);
}

#[test]
fn can_check_delete_any() {
    let query = init_query(Right::delete_any("post"));
    assert_eq!(query.delete_any("post"), true);
}

#[test]
fn can_check_delete() {
    let query = init_query(Right::delete_any("post"));
    assert_eq!(query.delete("post"), true);
}

#[test]
fn unqualified_checks_mean_any() {
    let own_only = init_query(Right::create_own("post"));
    assert_eq!(own_only.create("post"), own_only.create_any("post"));
    assert_eq!(own_only.create("post"), false);
    let any = init_query(Right::delete_any("post"));
    assert_eq!(any.delete("post"), any.delete_any("post"));
    assert_eq!(any.delete("post"), true);
    assert_eq!(any.read("post"), any.read_any("post"));
    assert_eq!(any.update("post"), any.update_any("post"));
}

#[test]
fn custom_tokens_match_exactly() {
    let query = init_query(Right::new("publish", "team", "news"));
    assert_eq!(query.access("publish", "team", "news"), true);
    assert_eq!(query.access("publish", "any", "news"), false);
    assert_eq!(query.access("publish", "team", "post"), false);
    assert_eq!(query.access("create", "team", "news"), false);
}

fn init_acl() -> rbac::AccessControl {
    let mut acl = rbac::AccessControl::new();
    acl.grant("user", Right::read_own("post"));
    acl.grant("admin", Right::delete_any("post"));
    acl
}

fn authorized() -> Result<&'static str, CheckRightsError> {
    let acl = init_acl();
    match acl.can_role("admin").check_rights(&vec![String::from("delete:any/post")]) {
        Ok(()) => Ok("Success"),
        Err(e) => Err(e),
    }
}

fn unauthorized() -> Result<&'static str, CheckRightsError> {
    let acl = init_acl();
    match acl.can_role("user").check_rights(&vec![String::from("delete:any/post")]) {
        Ok(()) => Ok("Success"),
        Err(e) => Err(e),
    }
}

#[test]
fn can_check_rights_via_macro() {
    assert_eq!(authorized(), Ok("Success"));
    assert_eq!(unauthorized(), Err(CheckRightsError::Unauthorized { checked: 0 }));
}

#[test]
fn bulk_check_stops_at_first_denial() {
    let acl = init_acl();
    let query = acl.can_roles(vec![String::from("user"), String::from("admin")]);
    let all_held = vec![String::from("read:own/post"), String::from("delete:any/post")];
    assert_eq!(query.check_rights(&all_held), Ok(()));
    let second_denied = vec![String::from("read:own/post"), String::from("create:any/post")];
    assert_eq!(
        query.check_rights(&second_denied),
        Err(CheckRightsError::Unauthorized { checked: 1 })
    );
}

#[test]
fn bulk_check_reports_malformed_patterns() {
    let acl = init_acl();
    let query = acl.can_role("admin");
    let broken = vec![String::from("delete:any/post"), String::from("not-a-pattern")];
    assert_eq!(query.check_rights(&broken), Err(CheckRightsError::Malformed { checked: 1 }));
}
