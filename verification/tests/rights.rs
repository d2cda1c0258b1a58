use rbac::Action;
use rbac::Possession;
use rbac::right::Right;

#[test]
fn can_create_right() {
    let right = Right::new("publish", "team", "news");
    assert_eq!(right.action, Action::Custom(String::from("publish")));
    assert_eq!(right.possession, Possession::Custom(String::from("team")));
    assert_eq!(right.resource, String::from("news"));
}

#[test]
fn can_make_create_own_right() {
    let right = Right::create_own("post");
    assert_eq!(right.action, Action::Create);
    assert_eq!(right.possession, Possession::Own);
    assert_eq!(right.resource, String::from("post"));
}

#[test]
fn can_make_right_from_pattern() {
    let right = Right::from_pattern("delete:own/profile").unwrap();
    assert_eq!(right.action, Action::Delete);
    assert_eq!(right.possession, Possession::Own);
    assert_eq!(right.resource, String::from("profile"));
}

#[test]
fn can_make_create_any_right() {
    let right = Right::create_any("post");
    assert_eq!(right.action, Action::Create);
    assert_eq!(right.possession, Possession::Any);
    assert_eq!(right.resource, String::from("post"));
}

#[test]
fn can_make_read_own_right() {
    let right = Right::read_own("post");
    assert_eq!(right.action, Action::Read);
    assert_eq!(right.possession, Possession::Own);
    assert_eq!(right.resource, String::from("post"));
}

#[test]
fn can_make_read_any_right() {
    let right = Right::read_any("post");
    assert_eq!(right.action, Action::Read);
    assert_eq!(right.possession, Possession::Any);
    assert_eq!(right.resource, String::from("post"));
}

#[test]
fn can_make_update_own_right() {
    let right = Right::update_own("post");
    assert_eq!(right.action, Action::Update);
    assert_eq!(right.possession, Possession::Own);
    assert_eq!(right.resource, String::from("post"));
}

#[test]
fn can_make_update_any_right() {
    let right = Right::update_any("post");
    assert_eq!(right.action, Action::Update);
    assert_eq!(right.possession, Possession::Any);
    assert_eq!(right.resource, String::from("post"));
}

#[test]
fn can_make_delete_own_right() {
    let right = Right::delete_own("post");
    assert_eq!(right.action, Action::Delete);
    assert_eq!(right.possession, Possession::Own);
    assert_eq!(right.resource, String::from("post"));
}

#[test]
fn can_make_delete_any_right() {
    let right = Right::delete_any("post");
    assert_eq!(right.action, Action::Delete);
    assert_eq!(right.possession, Possession::Any);
    assert_eq!(right.resource, String::from("post"));
}

#[test]
fn pattern_round_trips_through_new() {
    assert_eq!(Right::from_pattern("publish:team/news").unwrap(), Right::new("publish", "team", "news"));
    assert_eq!(Right::from_pattern("create:any/page_2").unwrap(), Right::new("create", "any", "page_2"));
    assert_eq!(Right::from_pattern("read:own/A9").unwrap(), Right::new("read", "own", "A9"));
}

#[test]
fn malformed_patterns_are_errors() {
    assert!(Right::from_pattern("not-a-pattern").is_err());
    assert!(Right::from_pattern("").is_err());
    assert!(Right::from_pattern("read:own").is_err());
    assert!(Right::from_pattern(":own/post").is_err());
    assert!(Right::from_pattern("read:/post").is_err());
    assert!(Right::from_pattern("read:own/").is_err());
    assert!(Right::from_pattern("read:own/post/extra").is_err());
    assert!(Right::from_pattern("read:own/post ").is_err());
    assert!(Right::from_pattern(" read:own/post").is_err());
    assert!(Right::from_pattern("read own/post").is_err());
    assert!(Right::from_pattern("read:own/po st").is_err());
}

#[test]
fn unrecognized_tokens_become_custom() {
    let right = Right::new("publish", "team", "news");
    assert_eq!(right.action, Action::Custom(String::from("publish")));
    assert_eq!(right.possession, Possession::Custom(String::from("team")));
    let closed = Right::new("delete", "any", "news");
    assert_eq!(closed.action, Action::Delete);
    assert_eq!(closed.possession, Possession::Any);
}
