use node_core::gateway::{
    ApiGateway, AuthMiddleware, CreateUserRequest, Method, Unauthorized, User, UserNotFound,
    UserService,
};
use node_core::value::Value;

fn new_user(username: &str, email: &str) -> CreateUserRequest {
    CreateUserRequest { username: username.to_string(), email: email.to_string() }
}

#[test]
fn new_service_has_no_users() {
    let service = UserService::new();
    assert_eq!(service.len(), 0);
    assert!(service.get_users().is_empty());
}

#[test]
fn created_user_can_be_fetched_by_its_id() {
    let mut service = UserService::new();
    let user = service.create_user(new_user("alice", "a@x"));
    assert_eq!(user.username, "alice");
    assert_eq!(user.email, "a@x");
    let fetched = service.get_user(user.id).expect("the user");
    assert_eq!(fetched.id, user.id);
    assert_eq!(fetched.username, "alice");
    assert_eq!(fetched.email, "a@x");
}

#[test]
fn created_user_gets_a_random_id() {
    let mut service = UserService::new();
    let a = service.create_user(new_user("a", "a@x"));
    let b = service.create_user(new_user("b", "b@x"));
    assert_ne!(a.id, b.id);
    assert_eq!((a.id >> 76) & 0xf, 4);
    assert_eq!((a.id >> 62) & 0x3, 2);
    assert_eq!(service.len(), 2);
}

#[test]
fn unknown_user_is_not_found() {
    let mut service = UserService::new();
    service.insert_user(7, new_user("a", "a@x"));
    assert_eq!(service.get_user(8).err(), Some(UserNotFound));
    assert_eq!(UserNotFound.message(), "User not found");
}

#[test]
fn insert_under_a_taken_id_replaces_the_user() {
    let mut service = UserService::new();
    service.insert_user(7, new_user("a", "a@x"));
    let second = service.insert_user(7, new_user("b", "b@x"));
    assert_eq!(second.id, 7);
    assert_eq!(service.len(), 1);
    assert_eq!(service.get_user(7).unwrap().username, "b");
}

#[test]
fn get_users_lists_each_user_once() {
    let mut service = UserService::new();
    for id in [3u128, 1, 2] {
        service.insert_user(id, new_user(&format!("u{}", id), "e"));
    }
    let mut users: Vec<User> = service.get_users();
    users.sort_by_key(|u| u.id);
    let names: Vec<&str> = users.iter().map(|u| u.username.as_str()).collect();
    assert_eq!(names, vec!["u1", "u2", "u3"]);
}

#[test]
fn request_with_a_bearer_token_may_pass() {
    let auth = AuthMiddleware::new();
    assert_eq!(auth.authorize(Some("Bearer abc123")), Ok("abc123".to_string()));
    assert_eq!(auth.authorize(Some("Bearer ")), Ok(String::new()));
    assert_eq!(auth.authorize(Some("Bearer Bearer x")), Ok("Bearer x".to_string()));
}

#[test]
fn request_without_a_bearer_token_is_refused() {
    let auth = AuthMiddleware::new();
    assert_eq!(auth.authorize(None), Err(Unauthorized));
    assert_eq!(auth.authorize(Some("")), Err(Unauthorized));
    assert_eq!(auth.authorize(Some("Bearer")), Err(Unauthorized));
    assert_eq!(auth.authorize(Some("bearer abc")), Err(Unauthorized));
    assert_eq!(auth.authorize(Some("Basic abc")), Err(Unauthorized));
    assert_eq!(auth.authorize(Some(" Bearer abc")), Err(Unauthorized));
    assert_eq!(Unauthorized.message(), "Unauthorized");
}

#[test]
fn gateway_listens_on_all_addresses() {
    let gateway = ApiGateway::new();
    assert_eq!(gateway.host(), "0.0.0.0");
    assert_eq!(gateway.port(), 8080);
}

#[test]
fn gateway_has_four_routes() {
    let routes = ApiGateway::new().routes();
    let rows: Vec<(Method, &str, &str, bool)> = routes
        .iter()
        .map(|r| (r.method, r.pattern.as_str(), r.operation.as_str(), r.protected))
        .collect();
    assert_eq!(
        rows,
        vec![
            (Method::Get, "/api/users", "get_users", false),
            (Method::Post, "/api/users", "create_user", false),
            (Method::Get, "/api/users/:id", "get_user", false),
            (Method::Get, "/api/profile", "get_profile", true),
        ]
    );
}

#[test]
fn routes_turn_into_calls_of_the_user_service() {
    let gateway = ApiGateway::new();
    let list = gateway.get_users();
    assert_eq!(list.service, "user_service");
    assert_eq!(list.operation, "get_users");
    assert_eq!(list.params, Value::mapping());

    let create = gateway.create_user(&new_user("alice", "a@x"));
    assert_eq!(create.service, "user_service");
    assert_eq!(create.operation, "create_user");
    let mut body = Value::mapping();
    body.set("username", Value::text("alice"));
    body.set("email", Value::text("a@x"));
    assert_eq!(create.params, Value::single("req", body));

    let get = gateway.get_user(0xa1a2a3a4b1b2c1c2d1d2d3d4d5d6d7d8);
    assert_eq!(get.operation, "get_user");
    assert_eq!(
        get.params,
        Value::single("id", Value::text("a1a2a3a4-b1b2-c1c2-d1d2-d3d4d5d6d7d8"))
    );

    let profile = gateway.get_profile(1);
    assert_eq!(profile.service, "user_service");
    assert_eq!(profile.operation, "get_user");
    assert_eq!(
        profile.params,
        Value::single("id", Value::text("00000000-0000-0000-0000-000000000001"))
    );
}
