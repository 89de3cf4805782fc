//! A user service behind an HTTP gateway: the store of users, the check
//! that the gateway's protected routes make, and the calls that its routes
//! turn into.

use crate::ids::{format_id, hyphenated, is_random_id, random_id};
use crate::text::chars_of;
use crate::value::{single, Value, ValueModel};
use std::collections::HashMap;
use vstd::prelude::*;
use vstd::std_specs::iter::IteratorSpec;

verus! {

/// A user.
#[derive(Debug)]
pub struct User {
    pub id: u128,
    pub username: String,
    pub email: String,
}

/// What a user is.
pub struct UserModel {
    pub id: u128,
    pub username: Seq<char>,
    pub email: Seq<char>,
}

impl View for User {
    type V = UserModel;

    open spec fn view(&self) -> UserModel {
        UserModel { id: self.id, username: self.username@, email: self.email@ }
    }
}

impl Clone for User {
    fn clone(&self) -> (r: User)
        ensures
            r@ == self@,
    {
        User { id: self.id, username: self.username.clone(), email: self.email.clone() }
    }
}

/// What a caller sends to have a user made.
#[derive(Debug)]
pub struct CreateUserRequest {
    pub username: String,
    pub email: String,
}

/// No user has the id that was asked for.
#[derive(Clone, Copy, Debug, PartialEq, Eq, Structural)]
pub struct UserNotFound;

impl UserNotFound {
    /// A message for a person to read.
    pub fn message(&self) -> (r: String)
        ensures
            r@ == "User not found"@,
    {
        "User not found".to_owned()
    }
}

/// The users, each under its id.
pub struct UserService {
    users: HashMap<u128, User>,
}

/// What the users of a map are, each under its id.
pub open spec fn user_models(users: Map<u128, User>) -> Map<u128, UserModel> {
    users.map_values(|u: User| u@)
}

impl View for UserService {
    type V = Map<u128, UserModel>;

    closed spec fn view(&self) -> Map<u128, UserModel> {
        user_models(self.users@)
    }
}

impl UserService {
    #[verifier::type_invariant]
    spec fn inv(&self) -> bool {
        forall|id: u128| self.users@.contains_key(id) ==> (#[trigger] self.users@[id]).id == id
    }

    /// A service without users.
    pub fn new() -> (r: UserService)
        ensures
            r@ == Map::<u128, UserModel>::empty(),
    {
        let r = UserService { users: HashMap::new() };
        assert(r@ =~= Map::<u128, UserModel>::empty());
        r
    }

    /// How many users there are.
    pub fn len(&self) -> (n: usize)
        ensures
            n == self@.len(),
            self@.dom().finite(),
    {
        assert(self@.dom() =~= self.users@.dom());
        self.users.len()
    }

    /// All users, in no particular order: each user once.
    pub fn get_users(&self) -> (r: Vec<User>)
        ensures
            self@.dom().finite(),
            r@.len() == self@.len(),
            forall|i: int|
                0 <= i < r@.len() ==> self@.contains_key((#[trigger] r@[i]).id) && self@[r@[i].id]
                    == r@[i]@,
            forall|i: int, j: int| 0 <= i < j < r@.len() ==> r@[i].id != r@[j].id,
            forall|id: u128|
                self@.contains_key(id) ==> exists|i: int| 0 <= i < r@.len() && r@[i].id == id,
    {
        proof {
            use_type_invariant(self);
            assert(self@.dom() =~= self.users@.dom());
        }
        let mut out: Vec<User> = Vec::new();
        let keys = self.users.keys();
        let ghost ids = keys.remaining().unref();
        for id in it: keys
            invariant
                it.seq().unref() == ids,
                ids.to_set() == self.users@.dom(),
                ids.no_duplicates(),
                ids.len() == self.users@.dom().len(),
                self@.dom() == self.users@.dom(),
                self@ == user_models(self.users@),
                forall|k: u128|
                    self.users@.contains_key(k) ==> (#[trigger] self.users@[k]).id == k,
                out@.len() == it.index(),
                forall|i: int| 0 <= i < out@.len() ==> (#[trigger] out@[i]).id == ids[i],
                forall|i: int|
                    0 <= i < out@.len() ==> self@.contains_key((#[trigger] out@[i]).id)
                        && self@[out@[i].id] == out@[i]@,
        {
            assert(ids.to_set().contains(*id)) by {
                assert(ids[it.index()] == *id);
            }
            match self.users.get(id) {
                Some(user) => {
                    out.push(user.clone());
                },
                None => {},
            }
        }
        proof {
            assert forall|id: u128| self@.contains_key(id) implies exists|i: int|
                0 <= i < out@.len() && out@[i].id == id by {
                assert(ids.to_set().contains(id));
                let i = choose|i: int| 0 <= i < ids.len() && ids[i] == id;
                assert(out@[i].id == id);
            }
        }
        out
    }

    /// The user with this id.
    pub fn get_user(&self, id: u128) -> (r: Result<User, UserNotFound>)
        ensures
            match r {
                Ok(user) => self@.contains_key(id) && self@[id] == user@,
                Err(_) => !self@.contains_key(id),
            },
    {
        proof {
            assert(self@.dom() =~= self.users@.dom());
        }
        match self.users.get(&id) {
            Some(user) => Ok(user.clone()),
            None => Err(UserNotFound),
        }
    }

    /// Puts a user with the id `id` and the name and address of `request`
    /// into the store, in the place of the user that had that id, if one
    /// had, and returns the new user.
    pub fn insert_user(&mut self, id: u128, request: CreateUserRequest) -> (r: User)
        ensures
            r@ == (UserModel { id, username: request.username@, email: request.email@ }),
            final(self)@ == old(self)@.insert(id, r@),
    {
        proof {
            use_type_invariant(&*self);
        }
        let user = User { id, username: request.username, email: request.email };
        let copy = user.clone();
        let ghost before = self.users@;
        let mut users: HashMap<u128, User> = HashMap::new();
        core::mem::swap(&mut self.users, &mut users);
        users.insert(id, user);
        proof {
            assert(user_models(users@) =~= user_models(before).insert(id, copy@));
        }
        self.users = users;
        copy
    }

    /// Makes a user with the name and address of `request` under a fresh
    /// random id, and returns it.
    pub fn create_user(&mut self, request: CreateUserRequest) -> (r: User)
        ensures
            is_random_id(r.id),
            r@ == (UserModel { id: r.id, username: request.username@, email: request.email@ }),
            final(self)@ == old(self)@.insert(r.id, r@),
    {
        let id = random_id();
        self.insert_user(id, request)
    }
}


/// A request came without the credentials that the route asks for.
#[derive(Clone, Copy, Debug, PartialEq, Eq, Structural)]
pub struct Unauthorized;

impl Unauthorized {
    /// A message for a person to read.
    pub fn message(&self) -> (r: String)
        ensures
            r@ == "Unauthorized"@,
    {
        "Unauthorized".to_owned()
    }
}

/// What an `Authorization` header starts with where it carries a token.
pub open spec fn bearer_scheme() -> Seq<char> {
    seq!['B', 'e', 'a', 'r', 'e', 'r', ' ']
}

/// The token that an `Authorization` header carries, if it carries one.
pub open spec fn bearer_token(header: Seq<char>) -> Option<Seq<char>> {
    if header.len() >= 7 && header.subrange(0, 7) == bearer_scheme() {
        Some(header.subrange(7, header.len() as int))
    } else {
        None
    }
}

/// The check that stands before the protected routes of the gateway.
#[derive(Clone, Copy, Debug, PartialEq, Eq, Structural)]
pub struct AuthMiddleware {}

impl AuthMiddleware {
    /// The check.
    pub fn new() -> (r: AuthMiddleware)
        ensures
            r == (AuthMiddleware {  }),
    {
        AuthMiddleware {  }
    }

    /// Decides whether a request may pass, by its `Authorization` header:
    /// it may where the header is there and carries a token, which is
    /// handed out. Whether the token is good is not looked at.
    pub fn authorize(&self, authorization: Option<&str>) -> (r: Result<String, Unauthorized>)
        ensures
            match authorization {
                Some(header) => match bearer_token(header@) {
                    Some(token) => r matches Ok(t) && t@ == token,
                    None => r is Err,
                },
                None => r is Err,
            },
    {
        let header = match authorization {
            Some(h) => h,
            None => {
                return Err(Unauthorized);
            },
        };
        let chars = chars_of(header);
        if chars.len() < 7 {
            return Err(Unauthorized);
        }
        if chars[0] == 'B' && chars[1] == 'e' && chars[2] == 'a' && chars[3] == 'r' && chars[4]
            == 'e' && chars[5] == 'r' && chars[6] == ' ' {
            assert(header@.subrange(0, 7) =~= bearer_scheme());
            Ok(header.substring_char(7, chars.len()).to_owned())
        } else {
            assert(header@.subrange(0, 7) != bearer_scheme()) by {
                let p = header@.subrange(0, 7);
                let q = bearer_scheme();
                if p == q {
                    assert(p[0] == q[0] && p[1] == q[1] && p[2] == q[2] && p[3] == q[3] && p[4]
                        == q[4] && p[5] == q[5] && p[6] == q[6]);
                }
            }
            Err(Unauthorized)
        }
    }
}

/// The method of an HTTP request.
#[derive(Clone, Copy, Debug, PartialEq, Eq, Structural)]
pub enum Method {
    Get,
    Post,
    Put,
    Delete,
}

/// One route of a gateway: a method and a path pattern, the operation that
/// serves it, and whether the route is behind the authorization check.
#[derive(Debug)]
pub struct Route {
    pub method: Method,
    pub pattern: String,
    pub operation: String,
    pub protected: bool,
}

/// What a route is.
pub struct RouteEntry {
    pub method: Method,
    pub pattern: Seq<char>,
    pub operation: Seq<char>,
    pub protected: bool,
}

impl View for Route {
    type V = RouteEntry;

    open spec fn view(&self) -> RouteEntry {
        RouteEntry {
            method: self.method,
            pattern: self.pattern@,
            operation: self.operation@,
            protected: self.protected,
        }
    }
}

/// The routes that a vector holds.
pub open spec fn route_entries(v: Seq<Route>) -> Seq<RouteEntry> {
    Seq::new(v.len(), |i: int| v[i]@)
}

/// The request to a service that a route of a gateway turns into.
#[derive(Debug)]
pub struct GatewayCall {
    pub service: String,
    pub operation: String,
    pub params: Value,
}

/// What a gateway call is.
pub struct CallModel {
    pub service: Seq<char>,
    pub operation: Seq<char>,
    pub params: ValueModel,
}

impl View for GatewayCall {
    type V = CallModel;

    open spec fn view(&self) -> CallModel {
        CallModel { service: self.service@, operation: self.operation@, params: self.params@ }
    }
}

/// A request to make a user, as a value.
pub open spec fn user_request_model(username: Seq<char>, email: Seq<char>) -> ValueModel {
    ValueModel::Mapping(
        seq![
            ("username"@, ValueModel::Text(username)),
            ("email"@, ValueModel::Text(email)),
        ],
    )
}

/// The gateway of the user service.
#[derive(Clone, Copy, Debug, PartialEq, Eq, Structural)]
pub struct ApiGateway {}

impl ApiGateway {
    /// The gateway.
    pub fn new() -> (r: ApiGateway)
        ensures
            r == (ApiGateway {  }),
    {
        ApiGateway {  }
    }

    /// The address that the gateway listens on.
    pub fn host(&self) -> (r: String)
        ensures
            r@ == "0.0.0.0"@,
    {
        "0.0.0.0".to_owned()
    }

    /// The port that the gateway listens on.
    pub fn port(&self) -> (r: u16)
        ensures
            r == 8080,
    {
        8080
    }

    /// The routes of the gateway, in the order in which they are tried.
    pub fn routes(&self) -> (r: Vec<Route>)
        ensures
            route_entries(r@) == seq![
                RouteEntry {
                    method: Method::Get,
                    pattern: "/api/users"@,
                    operation: "get_users"@,
                    protected: false,
                },
                RouteEntry {
                    method: Method::Post,
                    pattern: "/api/users"@,
                    operation: "create_user"@,
                    protected: false,
                },
                RouteEntry {
                    method: Method::Get,
                    pattern: "/api/users/:id"@,
                    operation: "get_user"@,
                    protected: false,
                },
                RouteEntry {
                    method: Method::Get,
                    pattern: "/api/profile"@,
                    operation: "get_profile"@,
                    protected: true,
                },
            ],
    {
        let mut r: Vec<Route> = Vec::new();
        r.push(
            Route {
                method: Method::Get,
                pattern: "/api/users".to_owned(),
                operation: "get_users".to_owned(),
                protected: false,
            },
        );
        r.push(
            Route {
                method: Method::Post,
                pattern: "/api/users".to_owned(),
                operation: "create_user".to_owned(),
                protected: false,
            },
        );
        r.push(
            Route {
                method: Method::Get,
                pattern: "/api/users/:id".to_owned(),
                operation: "get_user".to_owned(),
                protected: false,
            },
        );
        r.push(
            Route {
                method: Method::Get,
                pattern: "/api/profile".to_owned(),
                operation: "get_profile".to_owned(),
                protected: true,
            },
        );
        assert(route_entries(r@) =~= seq![r@[0]@, r@[1]@, r@[2]@, r@[3]@]);
        r
    }

    /// The call that lists the users.
    pub fn get_users(&self) -> (r: GatewayCall)
        ensures
            r@ == (CallModel {
                service: "user_service"@,
                operation: "get_users"@,
                params: ValueModel::Mapping(Seq::empty()),
            }),
    {
        GatewayCall {
            service: "user_service".to_owned(),
            operation: "get_users".to_owned(),
            params: Value::mapping(),
        }
    }

    /// The call that makes a user.
    pub fn create_user(&self, request: &CreateUserRequest) -> (r: GatewayCall)
        ensures
            r@ == (CallModel {
                service: "user_service"@,
                operation: "create_user"@,
                params: single(
                    "req"@,
                    user_request_model(request.username@, request.email@),
                ),
            }),
    {
        let mut fields: Vec<(String, Value)> = Vec::new();
        fields.push(("username".to_owned(), Value::String(request.username.clone())));
        fields.push(("email".to_owned(), Value::String(request.email.clone())));
        let body = Value::Mapping(fields);
        proof {
            let made = body@->Mapping_0;
            let asked = user_request_model(request.username@, request.email@)->Mapping_0;
            assert(fields@[0].1@ == ValueModel::Text(request.username@));
            assert(fields@[1].1@ == ValueModel::Text(request.email@));
            assert(made[0] == asked[0]);
            assert(made[1] == asked[1]);
            assert(made =~= asked);
        }
        GatewayCall {
            service: "user_service".to_owned(),
            operation: "create_user".to_owned(),
            params: Value::single("req", body),
        }
    }

    /// The call that fetches the user with this id.
    pub fn get_user(&self, id: u128) -> (r: GatewayCall)
        ensures
            r@ == (CallModel {
                service: "user_service"@,
                operation: "get_user"@,
                params: single("id"@, ValueModel::Text(hyphenated(id))),
            }),
    {
        GatewayCall {
            service: "user_service".to_owned(),
            operation: "get_user".to_owned(),
            params: Value::single("id", Value::String(format_id(id))),
        }
    }

    /// The call that fetches the profile of the user who sent the request.
    pub fn get_profile(&self, user_id: u128) -> (r: GatewayCall)
        ensures
            r@ == (CallModel {
                service: "user_service"@,
                operation: "get_user"@,
                params: single("id"@, ValueModel::Text(hyphenated(user_id))),
            }),
    {
        self.get_user(user_id)
    }
}

} // verus!
