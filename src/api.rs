//! The team API: its route table, its handlers, and the text of its responses.

use vstd::prelude::*;
use vstd::utf8::encode_utf8;
use crate::dataset::{
    delete_team, drivers_unique, field_views, has_driver, has_team, patch_driver, patched,
    post_team, put_team, team_position, Dataset, DatasetError, Field, FieldView, Team, TeamView,
};
use crate::document::document_json;
use crate::json::{is_json, json_accepts, json_quoted, json_string};
use crate::request::{Body, Request};
use crate::router::{param_views, RouteMatch, Router};
use crate::text::{decimal, decimal_text};

verus! {

/// What a route of the API does.
#[derive(Debug, Clone, Copy, PartialEq, Eq, Structural)]
pub enum Endpoint {
    ListTeams,
    CreateTeam,
    ReplaceTeam,
    DeleteTeam,
    PatchDriver,
}

/// A response before it is written: status, JSON body, the session token to set,
/// and whether the dataset changed and must be stored before the response is sent.
#[derive(Debug)]
pub struct Response {
    pub status: u16,
    pub body: String,
    pub session: Option<String>,
    pub persist: bool,
}

/// `{"error":<message as a JSON string>}`.
pub open spec fn error_json(message: Seq<char>) -> Seq<char> {
    "{\"error\":"@ + json_quoted(message) + seq!['}']
}

/// `{"message":<message as a JSON string>}`.
pub open spec fn message_json(message: Seq<char>) -> Seq<char> {
    "{\"message\":"@ + json_quoted(message) + seq!['}']
}

pub open spec fn duplicate_team_text(n: Seq<char>) -> Seq<char> {
    "team '"@ + n + "' already exists"@
}

pub open spec fn missing_team_text(n: Seq<char>) -> Seq<char> {
    "team '"@ + n + "' does not exist"@
}

pub open spec fn missing_driver_text(team: Seq<char>, driver: Seq<char>) -> Seq<char> {
    "driver '"@ + driver + "' does not exist in team '"@ + team + "'"@
}

pub open spec fn duplicate_driver_text(n: Seq<char>) -> Seq<char> {
    "team '"@ + n + "' lists a driver twice"@
}

/// The words of an error of the dataset, naming what it is about.
pub open spec fn error_text(e: DatasetError) -> Seq<char> {
    match e {
        DatasetError::DuplicateTeam(n) => duplicate_team_text(n@),
        DatasetError::TeamNotFound(n) => missing_team_text(n@),
        DatasetError::DriverNotFound { team, driver } => missing_driver_text(team@, driver@),
        DatasetError::DuplicateDriver(n) => duplicate_driver_text(n@),
    }
}

/// The status of an error of the dataset: 404 for what is missing, 400 otherwise.
pub open spec fn error_status(e: DatasetError) -> u16 {
    match e {
        DatasetError::TeamNotFound(_) => 404,
        DatasetError::DriverNotFound { .. } => 404,
        _ => 400,
    }
}

impl DatasetError {
    /// The words of the error.
    pub fn message(&self) -> (r: String)
        ensures
            r@ == error_text(*self),
    {
        match self {
            DatasetError::DuplicateTeam(n) => {
                let mut m = "team '".to_owned();
                m.append(n.as_str());
                m.append("' already exists");
                m
            },
            DatasetError::TeamNotFound(n) => {
                let mut m = "team '".to_owned();
                m.append(n.as_str());
                m.append("' does not exist");
                m
            },
            DatasetError::DriverNotFound { team, driver } => {
                let mut m = "driver '".to_owned();
                m.append(driver.as_str());
                m.append("' does not exist in team '");
                m.append(team.as_str());
                m.append("'");
                m
            },
            DatasetError::DuplicateDriver(n) => {
                let mut m = "team '".to_owned();
                m.append(n.as_str());
                m.append("' lists a driver twice");
                m
            },
        }
    }

    /// The status that answers the error.
    pub fn status(&self) -> (r: u16)
        ensures
            r == error_status(*self),
    {
        match self {
            DatasetError::TeamNotFound(_) => 404,
            DatasetError::DriverNotFound { .. } => 404,
            _ => 400,
        }
    }
}

fn error_body(message: &str) -> (r: String)
    ensures
        r@ == error_json(message@),
{
    let mut b = "{\"error\":".to_owned();
    b.append(json_string(message).as_str());
    b.append("}");
    proof {
        reveal_strlit("}");
    }
    assert(b@ =~= error_json(message@));
    b
}

fn message_body(message: &str) -> (r: String)
    ensures
        r@ == message_json(message@),
{
    let mut b = "{\"message\":".to_owned();
    b.append(json_string(message).as_str());
    b.append("}");
    proof {
        reveal_strlit("}");
    }
    assert(b@ =~= message_json(message@));
    b
}

/// The answer to a refused operation: its status and its message.
fn refusal(e: &DatasetError) -> (r: Response)
    ensures
        r.status == error_status(*e),
        r.body@ == error_json(error_text(*e)),
        r.session is None,
        !r.persist,
{
    let m = e.message();
    Response { status: e.status(), body: error_body(m.as_str()), session: None, persist: false }
}

/// The answer to a body that is missing or is not what the route takes.
pub fn invalid_body() -> (r: Response)
    ensures
        r.status == 400,
        r.body@ == error_json("Invalid JSON body"@),
        r.session is None,
        !r.persist,
{
    Response { status: 400, body: error_body("Invalid JSON body"), session: None, persist: false }
}

/// The answer to a request that no route takes.
pub fn not_found() -> (r: Response)
    ensures
        r.status == 404,
        r.body@ == error_json("Not Found"@),
        r.session is None,
        !r.persist,
{
    Response { status: 404, body: error_body("Not Found"), session: None, persist: false }
}

/// The answer where the dataset could not be stored.
pub fn internal_error(message: &str) -> (r: Response)
    ensures
        r.status == 500,
        r.body@ == error_json(message@),
        r.session is None,
        !r.persist,
{
    Response { status: 500, body: error_body(message), session: None, persist: false }
}

/// The answer where no session id is left to issue.
pub fn unavailable() -> (r: Response)
    ensures
        r.status == 503,
        r.body@ == error_json("No session can be issued"@),
        r.session is None,
        !r.persist,
{
    Response {
        status: 503,
        body: error_body("No session can be issued"),
        session: None,
        persist: false,
    }
}

/// GET: the whole dataset.
pub fn handle_get(data: &Dataset) -> (r: Response)
    ensures
        r.session is None,
        get_outcome(data@, r),
{
    Response { status: 200, body: data.to_json(), session: None, persist: false }
}

/// Every attribute value is JSON text.
pub open spec fn values_json(fs: Seq<FieldView>) -> bool {
    forall|i: int| 0 <= i < fs.len() ==> json_accepts(#[trigger] fs[i].1)
}

/// Every attribute value of every driver of the team is JSON text.
pub open spec fn team_values_json(t: TeamView) -> bool {
    forall|i: int| 0 <= i < t.1.len() ==> values_json(#[trigger] t.1[i].1)
}

/// A team body that the API takes: present, with JSON attribute values.
pub open spec fn usable_team(body: Option<Team>) -> bool {
    body is Some && team_values_json(body->0@)
}

/// A patch body that the API takes: present, with JSON values.
pub open spec fn usable_fields(body: Option<Vec<Field>>) -> bool {
    body is Some && values_json(field_views(body->0@))
}

/// A refusal: this status and error message, and the dataset as it was.
pub open spec fn refused(
    old_ts: Seq<TeamView>,
    new_ts: Seq<TeamView>,
    r: Response,
    status: u16,
    message: Seq<char>,
) -> bool {
    r.status == status && r.body@ == error_json(message) && !r.persist && new_ts == old_ts
}

/// A change that succeeded: this status and message, the new dataset, and a store
/// before the answer.
pub open spec fn changed(
    new_ts: Seq<TeamView>,
    r: Response,
    status: u16,
    message: Seq<char>,
    expected: Seq<TeamView>,
) -> bool {
    r.status == status && r.body@ == message_json(message) && r.persist && new_ts == expected
}

/// What GET answers.
pub open spec fn get_outcome(ts: Seq<TeamView>, r: Response) -> bool {
    r.status == 200 && r.body@ == document_json(ts) && !r.persist
}

/// What POST answers and does.
pub open spec fn post_outcome(
    old_ts: Seq<TeamView>,
    new_ts: Seq<TeamView>,
    body: Option<Team>,
    r: Response,
) -> bool {
    if !usable_team(body) {
        refused(old_ts, new_ts, r, 400, "Invalid JSON body"@)
    } else {
        let t = body->0@;
        if has_team(old_ts, t.0) {
            refused(old_ts, new_ts, r, 400, duplicate_team_text(t.0))
        } else if !drivers_unique(t.1) {
            refused(old_ts, new_ts, r, 400, duplicate_driver_text(t.0))
        } else {
            changed(new_ts, r, 201, "Team added"@, old_ts.push(t))
        }
    }
}

/// What PUT answers and does for the team named in the path.
pub open spec fn put_outcome(
    old_ts: Seq<TeamView>,
    new_ts: Seq<TeamView>,
    name: Seq<char>,
    body: Option<Team>,
    r: Response,
) -> bool {
    if !usable_team(body) {
        refused(old_ts, new_ts, r, 400, "Invalid JSON body"@)
    } else {
        let t = body->0@;
        if !has_team(old_ts, name) {
            refused(old_ts, new_ts, r, 404, missing_team_text(name))
        } else if t.0 != name && has_team(old_ts, t.0) {
            refused(old_ts, new_ts, r, 400, duplicate_team_text(t.0))
        } else if !drivers_unique(t.1) {
            refused(old_ts, new_ts, r, 400, duplicate_driver_text(t.0))
        } else {
            changed(new_ts, r, 200, "Team updated"@, old_ts.update(team_position(old_ts, name), t))
        }
    }
}

/// What DELETE answers and does for the team named in the path.
pub open spec fn delete_outcome(
    old_ts: Seq<TeamView>,
    new_ts: Seq<TeamView>,
    name: Seq<char>,
    r: Response,
) -> bool {
    if !has_team(old_ts, name) {
        refused(old_ts, new_ts, r, 404, missing_team_text(name))
    } else {
        changed(new_ts, r, 200, "Team deleted"@, old_ts.remove(team_position(old_ts, name)))
    }
}

/// What PATCH answers and does for the team and driver named in the path.
pub open spec fn patch_outcome(
    old_ts: Seq<TeamView>,
    new_ts: Seq<TeamView>,
    team: Seq<char>,
    driver: Seq<char>,
    body: Option<Vec<Field>>,
    r: Response,
) -> bool {
    if !usable_fields(body) {
        refused(old_ts, new_ts, r, 400, "Invalid JSON body"@)
    } else if !has_team(old_ts, team) {
        refused(old_ts, new_ts, r, 404, missing_team_text(team))
    } else if !has_driver(old_ts[team_position(old_ts, team)].1, driver) {
        refused(old_ts, new_ts, r, 404, missing_driver_text(team, driver))
    } else {
        changed(
            new_ts,
            r,
            200,
            "Driver updated"@,
            patched(old_ts, team, driver, field_views(body->0@)),
        )
    }
}

/// Whether every value is JSON text.
fn fields_are_json(fs: &Vec<Field>) -> (r: bool)
    ensures
        r == values_json(field_views(fs@)),
{
    let mut i: usize = 0;
    while i < fs.len()
        invariant
            i <= fs@.len(),
            forall|j: int| 0 <= j < i ==> json_accepts(#[trigger] field_views(fs@)[j].1),
        decreases fs@.len() - i,
    {
        assert(field_views(fs@)[i as int] == fs@[i as int]@);
        if !is_json(fs[i].value.as_str()) {
            assert(!json_accepts(field_views(fs@)[i as int].1));
            return false;
        }
        i += 1;
    }
    true
}

/// Whether every attribute value of the team is JSON text.
fn team_is_json(t: &Team) -> (r: bool)
    ensures
        r == team_values_json(t@),
{
    let mut i: usize = 0;
    while i < t.drivers.len()
        invariant
            i <= t.drivers@.len(),
            forall|j: int| 0 <= j < i ==> values_json(#[trigger] t@.1[j].1),
        decreases t.drivers@.len() - i,
    {
        assert(t@.1[i as int] == t.drivers@[i as int]@);
        if !fields_are_json(&t.drivers[i].fields) {
            assert(!values_json(t@.1[i as int].1));
            return false;
        }
        i += 1;
    }
    true
}

/// POST: adds the team of the body.
pub fn handle_post(data: &mut Dataset, body: Option<Team>) -> (r: Response)
    ensures
        r.session is None,
        post_outcome(old(data)@, final(data)@, body, r),
{
    match body {
        None => invalid_body(),
        Some(team) => {
            if !team_is_json(&team) {
                return invalid_body();
            }
            match post_team(team, data) {
                Ok(()) => Response {
                    status: 201,
                    body: message_body("Team added"),
                    session: None,
                    persist: true,
                },
                Err(e) => refusal(&e),
            }
        },
    }
}

/// PUT: replaces the team with the name of the path by the team of the body.
pub fn handle_put(data: &mut Dataset, name: &str, body: Option<Team>) -> (r: Response)
    ensures
        r.session is None,
        put_outcome(old(data)@, final(data)@, name@, body, r),
{
    match body {
        None => invalid_body(),
        Some(team) => {
            if !team_is_json(&team) {
                return invalid_body();
            }
            match put_team(name, team, data) {
                Ok(()) => Response {
                    status: 200,
                    body: message_body("Team updated"),
                    session: None,
                    persist: true,
                },
                Err(e) => refusal(&e),
            }
        },
    }
}

/// DELETE: removes the team with the name of the path.
pub fn handle_delete(data: &mut Dataset, name: &str) -> (r: Response)
    ensures
        r.session is None,
        delete_outcome(old(data)@, final(data)@, name@, r),
{
    match delete_team(name, data) {
        Ok(()) => Response {
            status: 200,
            body: message_body("Team deleted"),
            session: None,
            persist: true,
        },
        Err(e) => refusal(&e),
    }
}

/// PATCH: merges the fields of the body into one driver of one team.
pub fn handle_patch(data: &mut Dataset, team: &str, driver: &str, body: Option<Vec<Field>>) -> (r:
    Response)
    ensures
        r.session is None,
        patch_outcome(old(data)@, final(data)@, team@, driver@, body, r),
{
    match body {
        None => invalid_body(),
        Some(fields) => {
            if !fields_are_json(&fields) {
                return invalid_body();
            }
            match patch_driver(team, driver, fields, data) {
                Ok(()) => Response {
                    status: 200,
                    body: message_body("Driver updated"),
                    session: None,
                    persist: true,
                },
                Err(e) => refusal(&e),
            }
        },
    }
}

/// The routes of the API, in this order: list, create, replace and delete teams,
/// and patch a driver.
pub fn api_router() -> (r: Router<Endpoint>)
    ensures
        r.keys() == seq![
            ("GET"@, "/api/escuderias"@),
            ("POST"@, "/api/escuderias"@),
            ("PUT"@, "/api/escuderias/:name"@),
            ("DELETE"@, "/api/escuderias/:name"@),
            ("PATCH"@, "/api/escuderias/:team/pilotos/:driver"@),
        ],
        r.handlers() == seq![
            Endpoint::ListTeams,
            Endpoint::CreateTeam,
            Endpoint::ReplaceTeam,
            Endpoint::DeleteTeam,
            Endpoint::PatchDriver,
        ],
{
    proof {
        reveal_strlit("GET");
        reveal_strlit("POST");
        reveal_strlit("PUT");
        reveal_strlit("DELETE");
        reveal_strlit("PATCH");
        reveal_strlit("/api/escuderias");
        reveal_strlit("/api/escuderias/:name");
    }
    assert("GET"@.len() == 3 && "POST"@.len() == 4 && "PUT"@.len() == 3);
    assert("DELETE"@.len() == 6 && "PATCH"@.len() == 5);
    assert("/api/escuderias"@.len() == 15 && "/api/escuderias/:name"@.len() == 21);
    let mut r: Router<Endpoint> = Router::new();
    r.add_route("GET", "/api/escuderias", Endpoint::ListTeams);
    assert(r.keys() =~= seq![("GET"@, "/api/escuderias"@)]);
    assert(r.keys()[0] != ("POST"@, "/api/escuderias"@));
    r.add_route("POST", "/api/escuderias", Endpoint::CreateTeam);
    assert(r.keys() =~= seq![("GET"@, "/api/escuderias"@), ("POST"@, "/api/escuderias"@)]);
    assert(r.keys()[0] != ("PUT"@, "/api/escuderias/:name"@));
    assert(r.keys()[1] != ("PUT"@, "/api/escuderias/:name"@));
    r.add_route("PUT", "/api/escuderias/:name", Endpoint::ReplaceTeam);
    assert(r.keys().len() == 3);
    assert(r.keys()[0] != ("DELETE"@, "/api/escuderias/:name"@));
    assert(r.keys()[1] != ("DELETE"@, "/api/escuderias/:name"@));
    assert(r.keys()[2] != ("DELETE"@, "/api/escuderias/:name"@));
    r.add_route("DELETE", "/api/escuderias/:name", Endpoint::DeleteTeam);
    assert(r.keys().len() == 4);
    assert(r.keys()[0] != ("PATCH"@, "/api/escuderias/:team/pilotos/:driver"@));
    assert(r.keys()[1] != ("PATCH"@, "/api/escuderias/:team/pilotos/:driver"@));
    assert(r.keys()[2] != ("PATCH"@, "/api/escuderias/:team/pilotos/:driver"@));
    assert(r.keys()[3] != ("PATCH"@, "/api/escuderias/:team/pilotos/:driver"@));
    r.add_route("PATCH", "/api/escuderias/:team/pilotos/:driver", Endpoint::PatchDriver);
    assert(r.keys() =~= seq![
        ("GET"@, "/api/escuderias"@),
        ("POST"@, "/api/escuderias"@),
        ("PUT"@, "/api/escuderias/:name"@),
        ("DELETE"@, "/api/escuderias/:name"@),
        ("PATCH"@, "/api/escuderias/:team/pilotos/:driver"@),
    ]);
    assert(r.handlers() =~= seq![
        Endpoint::ListTeams,
        Endpoint::CreateTeam,
        Endpoint::ReplaceTeam,
        Endpoint::DeleteTeam,
        Endpoint::PatchDriver,
    ]);
    r
}

/// The value of the first parameter with this name.
pub open spec fn param_value(ps: Seq<(Seq<char>, Seq<char>)>, name: Seq<char>) -> Option<
    Seq<char>,
>
    decreases ps.len(),
{
    if ps.len() == 0 {
        None
    } else if ps[0].0 == name {
        Some(ps[0].1)
    } else {
        param_value(ps.skip(1), name)
    }
}

impl RouteMatch {
    /// The value that the path gave to the parameter with this name.
    pub fn param(&self, name: &str) -> (r: Option<String>)
        ensures
            r is None <==> param_value(param_views(self.params@), name@) is None,
            r matches Some(v) ==> param_value(param_views(self.params@), name@) == Some(v@),
    {
        let wanted = name.to_owned();
        let ghost ps = param_views(self.params@);
        assert(ps.skip(0) =~= ps);
        let mut i: usize = 0;
        while i < self.params.len()
            invariant
                ps == param_views(self.params@),
                wanted@ == name@,
                i <= ps.len(),
                param_value(ps, name@) == param_value(ps.skip(i as int), name@),
            decreases ps.len() - i,
        {
            assert(ps.skip(i as int)[0] == self.params@[i as int]@);
            assert(ps.skip(i as int).skip(1) =~= ps.skip(i as int + 1));
            if self.params[i].name == wanted {
                return Some(self.params[i].value.clone());
            }
            i += 1;
        }
        None
    }
}

/// The reason phrase of a status.
pub open spec fn reason_phrase(status: u16) -> Seq<char> {
    if status == 200 {
        "OK"@
    } else if status == 201 {
        "Created"@
    } else if status == 400 {
        "Bad Request"@
    } else if status == 404 {
        "Not Found"@
    } else if status == 500 {
        "Internal Server Error"@
    } else if status == 503 {
        "Service Unavailable"@
    } else {
        "Unknown"@
    }
}

fn reason(status: u16) -> (r: &'static str)
    ensures
        r@ == reason_phrase(status),
{
    if status == 200 {
        "OK"
    } else if status == 201 {
        "Created"
    } else if status == 400 {
        "Bad Request"
    } else if status == 404 {
        "Not Found"
    } else if status == 500 {
        "Internal Server Error"
    } else if status == 503 {
        "Service Unavailable"
    } else {
        "Unknown"
    }
}

/// The `Set-Cookie` header line for a session token, if there is one.
pub open spec fn cookie_line(session: Option<String>) -> Seq<char> {
    match session {
        Some(t) => "Set-Cookie: session="@ + t@ + "; Max-Age=60; HttpOnly\r\n"@,
        None => Seq::empty(),
    }
}

/// The bytes of a response as HTTP/1.1 text: status line, content type, the body's
/// length in bytes, the session cookie, an empty line, and the body.
pub open spec fn response_text(r: Response) -> Seq<char> {
    "HTTP/1.1 "@ + decimal(r.status as nat) + seq![' '] + reason_phrase(r.status) + "\r\n"@
        + "Content-Type: application/json\r\n"@ + "Content-Length: "@ + decimal(
        encode_utf8(r.body@).len(),
    ) + "\r\n"@ + cookie_line(r.session) + "\r\n"@ + r.body@
}

/// Writes a response as HTTP/1.1 text.
pub fn render_response(r: &Response) -> (text: String)
    ensures
        text@ == response_text(*r),
{
    let mut out = "HTTP/1.1 ".to_owned();
    out.append(decimal_text(r.status as u64).as_str());
    out.append(" ");
    out.append(reason(r.status));
    out.append("\r\n");
    out.append("Content-Type: application/json\r\n");
    out.append("Content-Length: ");
    let n = r.body.as_str().as_bytes().len();
    assert(n as nat == encode_utf8(r.body@).len());
    out.append(decimal_text(n as u64).as_str());
    let ghost head = out@;
    out.append("\r\n");
    match &r.session {
        Some(t) => {
            out.append("Set-Cookie: session=");
            out.append(t.as_str());
            out.append("; Max-Age=60; HttpOnly\r\n");
        },
        None => {},
    }
    assert(out@ == head + "\r\n"@ + cookie_line(r.session));
    out.append("\r\n");
    out.append(r.body.as_str());
    proof {
        reveal_strlit(" ");
    }
    assert(out@ =~= response_text(*r));
    out
}

/// The endpoint of the chosen route, if a route was chosen and it is in the table.
pub open spec fn endpoint_of(router: Router<Endpoint>, found: Option<RouteMatch>) -> Option<
    Endpoint,
> {
    match found {
        Some(m) => if m.route < router.handlers().len() {
            Some(router.handlers()[m.route as int])
        } else {
            None
        },
        None => None,
    }
}

/// The value that the chosen route bound to a parameter.
pub open spec fn bound(found: Option<RouteMatch>, name: Seq<char>) -> Option<Seq<char>> {
    match found {
        Some(m) => param_value(param_views(m.params@), name),
        None => None,
    }
}

/// A decoded body counts only where the request's body was JSON.
pub open spec fn given<T>(request: Request, decoded: Option<T>) -> Option<T> {
    if request.body matches Some(Body::Json(_)) {
        decoded
    } else {
        None
    }
}

/// The answer where a path parameter that the endpoint needs is missing.
pub open spec fn bad_path(old_ts: Seq<TeamView>, new_ts: Seq<TeamView>, r: Response) -> bool {
    refused(old_ts, new_ts, r, 400, "Invalid path"@)
}

/// What a request gets, and what it does to the dataset, given the route chosen for
/// it, its session token, and its body decoded as a team and as fields.
pub open spec fn response_for(
    router: Router<Endpoint>,
    request: Request,
    found: Option<RouteMatch>,
    session: Option<String>,
    team: Option<Team>,
    fields: Option<Vec<Field>>,
    old_ts: Seq<TeamView>,
    new_ts: Seq<TeamView>,
    r: Response,
) -> bool {
    match endpoint_of(router, found) {
        None => r.status == 404 && r.body@ == error_json("Not Found"@) && r.session is None
            && !r.persist && new_ts == old_ts,
        Some(e) => match session {
            None => r.status == 503 && r.body@ == error_json("No session can be issued"@)
                && r.session is None && !r.persist && new_ts == old_ts,
            Some(token) => r.session == Some(token) && match e {
                Endpoint::ListTeams => get_outcome(old_ts, r) && new_ts == old_ts,
                Endpoint::CreateTeam => post_outcome(old_ts, new_ts, given(request, team), r),
                Endpoint::ReplaceTeam => match bound(found, "name"@) {
                    Some(n) => put_outcome(old_ts, new_ts, n, given(request, team), r),
                    None => bad_path(old_ts, new_ts, r),
                },
                Endpoint::DeleteTeam => match bound(found, "name"@) {
                    Some(n) => delete_outcome(old_ts, new_ts, n, r),
                    None => bad_path(old_ts, new_ts, r),
                },
                Endpoint::PatchDriver => match (bound(found, "team"@), bound(found, "driver"@)) {
                    (Some(t), Some(d)) => patch_outcome(
                        old_ts,
                        new_ts,
                        t,
                        d,
                        given(request, fields),
                        r,
                    ),
                    _ => bad_path(old_ts, new_ts, r),
                },
            },
        },
    }
}

/// Requests that only read the dataset: unrouted ones and listings.
pub open spec fn only_reads(router: Router<Endpoint>, found: Option<RouteMatch>) -> bool {
    match endpoint_of(router, found) {
        None => true,
        Some(e) => e == Endpoint::ListTeams,
    }
}

/// The endpoint of the chosen route.
fn endpoint(router: &Router<Endpoint>, found: &Option<RouteMatch>) -> (r: Option<Endpoint>)
    ensures
        r == endpoint_of(*router, *found),
{
    match found {
        Some(m) => if m.route < router.len() {
            Some(*router.handler(m.route))
        } else {
            None
        },
        None => None,
    }
}

/// Whether the request only reads the dataset, so that a shared lock is enough.
pub fn reads_only(router: &Router<Endpoint>, found: &Option<RouteMatch>) -> (r: bool)
    ensures
        r == only_reads(*router, *found),
{
    match endpoint(router, found) {
        None => true,
        Some(e) => match e {
            Endpoint::ListTeams => true,
            _ => false,
        },
    }
}

fn invalid_path() -> (r: Response)
    ensures
        r.status == 400,
        r.body@ == error_json("Invalid path"@),
        r.session is None,
        !r.persist,
{
    Response { status: 400, body: error_body("Invalid path"), session: None, persist: false }
}

/// Answers a request that only reads: 404 where no route took it, else the listing.
pub fn respond_read(
    router: &Router<Endpoint>,
    found: Option<RouteMatch>,
    session: Option<String>,
    data: &Dataset,
) -> (r: Response)
    requires
        only_reads(*router, found),
    ensures
        forall|request: Request, team: Option<Team>, fields: Option<Vec<Field>>|
            #[trigger] response_for(*router, request, found, session, team, fields, data@, data@, r),
{
    match endpoint(router, &found) {
        None => not_found(),
        Some(_) => match session {
            None => unavailable(),
            Some(token) => {
                let mut r = handle_get(data);
                r.session = Some(token);
                r
            },
        },
    }
}

/// Answers any request: 404 where no route took it, 503 where it has no session,
/// else what the route's handler answers, with the session attached.
pub fn respond_write(
    router: &Router<Endpoint>,
    request: &Request,
    found: Option<RouteMatch>,
    session: Option<String>,
    data: &mut Dataset,
    team: Option<Team>,
    fields: Option<Vec<Field>>,
) -> (r: Response)
    ensures
        response_for(*router, *request, found, session, team, fields, old(data)@, final(data)@, r),
{
    let e = match endpoint(router, &found) {
        None => {
            return not_found();
        },
        Some(e) => e,
    };
    let token = match session {
        None => {
            return unavailable();
        },
        Some(t) => t,
    };
    let json = match &request.body {
        Some(Body::Json(_)) => true,
        _ => false,
    };
    let team = if json {
        team
    } else {
        None
    };
    let fields = if json {
        fields
    } else {
        None
    };
    let m = match found {
        Some(m) => m,
        None => {
            return not_found();
        },
    };
    let mut r = match e {
        Endpoint::ListTeams => handle_get(data),
        Endpoint::CreateTeam => handle_post(data, team),
        Endpoint::ReplaceTeam => match m.param("name") {
            Some(n) => handle_put(data, n.as_str(), team),
            None => invalid_path(),
        },
        Endpoint::DeleteTeam => match m.param("name") {
            Some(n) => handle_delete(data, n.as_str()),
            None => invalid_path(),
        },
        Endpoint::PatchDriver => match (m.param("team"), m.param("driver")) {
            (Some(t), Some(d)) => handle_patch(data, t.as_str(), d.as_str(), fields),
            _ => invalid_path(),
        },
    };
    r.session = Some(token);
    r
}

/// The answer where the changed dataset could not be stored: 500 with the
/// reason, the session kept.
pub fn failed_to_store(r: Response, message: &str) -> (out: Response)
    ensures
        out.status == 500,
        out.body@ == error_json(message@),
        out.session == r.session,
        !out.persist,
{
    let mut out = internal_error(message);
    out.session = r.session;
    out
}

} // verus!
