//! The capability surface: one request builder and one response decider
//! per device capability. A transport layer sends the built request and
//! hands the raw status and body text back to the matching decider.

use vstd::prelude::*;
use vstd::string::*;

use crate::codec::{
    decode_authorization,
    decode_on,
    decode_panel_info,
    decode_range,
    decode_state,
    decode_string,
    decode_string_list,
    encode_brightness,
    encode_json_string,
    encode_on,
    encode_set_range,
    json_str_rep,
    panel_info_like,
    plain_info,
    plain_str,
    plain_str_list,
    spec_auth_body,
    spec_enc_panel_info,
    spec_enc_state,
    spec_enc_str_list,
    spec_enc_brightness,
    spec_enc_on,
    spec_enc_range,
    spec_enc_set_range,
};
use crate::error::Error;
use crate::models::{Authorization, Brightness, On, PanelInfo, Range, SetRange};
use crate::models::State;

verus! {

/// Desired power state of the panels.
#[derive(Debug, Clone, Copy, PartialEq, Eq, Structural)]
pub enum NanoleafState {
    On,
    Off,
}

/// HTTP verb of a capability request. The delete capability really is a
/// DELETE on the wire.
#[derive(Debug, Clone, Copy, PartialEq, Eq, Structural)]
pub enum Method {
    Get,
    Post,
    Put,
    Delete,
}

/// One capability request, ready for a transport to send: the verb, the
/// path relative to the fixed `/api/v1/` base, and the JSON body, if any.
#[derive(Debug, Clone, PartialEq, Eq)]
pub struct Request {
    pub method: Method,
    pub path: String,
    pub body: Option<String>,
}

// ===== request bodies, at the specification level =====

pub open spec fn spec_on_body(o: On) -> Seq<char> {
    "{\"on\":"@ + spec_enc_on(o) + "}"@
}

pub open spec fn spec_brightness_body(b: Brightness) -> Seq<char> {
    "{\"brightness\":"@ + spec_enc_brightness(b) + "}"@
}

pub open spec fn spec_hue_body(v: SetRange) -> Seq<char> {
    "{\"hue\":"@ + spec_enc_set_range(v) + "}"@
}

pub open spec fn spec_sat_body(v: SetRange) -> Seq<char> {
    "{\"sat\":"@ + spec_enc_set_range(v) + "}"@
}

pub open spec fn spec_ct_body(v: SetRange) -> Seq<char> {
    "{\"ct\":"@ + spec_enc_set_range(v) + "}"@
}

pub open spec fn spec_select_body(effect: Seq<char>) -> Seq<char> {
    "{\"select\":"@ + json_str_rep(effect) + "}"@
}

// ===== request builders =====

/// Token issuance: POST `new` with no body.
pub fn add_user_request() -> (r: Request)
    ensures
        r.method == Method::Post,
        r.path@ == "new"@,
        r.body is None,
{
    Request { method: Method::Post, path: String::from_str("new"), body: None }
}

/// Token revocation: DELETE `{token}` with no body.
pub fn delete_user_request(token: &str) -> (r: Request)
    ensures
        r.method == Method::Delete,
        r.path@ == token@,
        r.body is None,
{
    Request { method: Method::Delete, path: String::from_str(token), body: None }
}

/// Full snapshot: GET `{token}`.
pub fn get_all_info_request(token: &str) -> (r: Request)
    ensures
        r.method == Method::Get,
        r.path@ == token@,
        r.body is None,
{
    Request { method: Method::Get, path: String::from_str(token), body: None }
}

/// Light state: GET `{token}/state`.
pub fn get_state_request(token: &str) -> (r: Request)
    ensures
        r.method == Method::Get,
        r.path@ == token@ + "/state"@,
        r.body is None,
{
    let path = String::from_str(token).concat("/state");
    Request { method: Method::Get, path, body: None }
}

/// Power flag: GET `{token}/state/on`.
pub fn get_on_request(token: &str) -> (r: Request)
    ensures
        r.method == Method::Get,
        r.path@ == token@ + "/state/on"@,
        r.body is None,
{
    let path = String::from_str(token).concat("/state/on");
    Request { method: Method::Get, path, body: None }
}

/// Power flag: PUT `{token}/state` with body `{"on":<flag>}`.
pub fn set_on_request(token: &str, on: On) -> (r: Request)
    ensures
        r.method == Method::Put,
        r.path@ == token@ + "/state"@,
        r.body matches Some(b) && b@ == spec_on_body(on),
{
    let path = String::from_str(token).concat("/state");
    let mut body = String::from_str("{\"on\":");
    let enc = encode_on(on);
    body.append(enc.as_str());
    body.append("}");
    assert(body@ =~= spec_on_body(on));
    Request { method: Method::Put, path, body: Some(body) }
}

/// Brightness: GET `{token}/state/brightness`.
pub fn get_brightness_request(token: &str) -> (r: Request)
    ensures
        r.method == Method::Get,
        r.path@ == token@ + "/state/brightness"@,
        r.body is None,
{
    let path = String::from_str(token).concat("/state/brightness");
    Request { method: Method::Get, path, body: None }
}

/// Brightness: PUT `{token}/state` with body `{"brightness":<write>}`.
pub fn set_brightness_request(token: &str, brightness: Brightness) -> (r: Request)
    ensures
        r.method == Method::Put,
        r.path@ == token@ + "/state"@,
        r.body matches Some(b) && b@ == spec_brightness_body(brightness),
{
    let path = String::from_str(token).concat("/state");
    let mut body = String::from_str("{\"brightness\":");
    let enc = encode_brightness(brightness);
    body.append(enc.as_str());
    body.append("}");
    assert(body@ =~= spec_brightness_body(brightness));
    Request { method: Method::Put, path, body: Some(body) }
}

/// Hue: GET `{token}/state/hue`.
pub fn get_hue_request(token: &str) -> (r: Request)
    ensures
        r.method == Method::Get,
        r.path@ == token@ + "/state/hue"@,
        r.body is None,
{
    let path = String::from_str(token).concat("/state/hue");
    Request { method: Method::Get, path, body: None }
}

/// Hue: PUT `{token}/state` with body `{"hue":<write>}`.
pub fn set_hue_request(token: &str, hue: SetRange) -> (r: Request)
    ensures
        r.method == Method::Put,
        r.path@ == token@ + "/state"@,
        r.body matches Some(b) && b@ == spec_hue_body(hue),
{
    let path = String::from_str(token).concat("/state");
    let mut body = String::from_str("{\"hue\":");
    let enc = encode_set_range(hue);
    body.append(enc.as_str());
    body.append("}");
    assert(body@ =~= spec_hue_body(hue));
    Request { method: Method::Put, path, body: Some(body) }
}

/// Saturation: GET `{token}/state/sat`.
pub fn get_saturation_request(token: &str) -> (r: Request)
    ensures
        r.method == Method::Get,
        r.path@ == token@ + "/state/sat"@,
        r.body is None,
{
    let path = String::from_str(token).concat("/state/sat");
    Request { method: Method::Get, path, body: None }
}

/// Saturation: PUT `{token}/state` with body `{"sat":<write>}`.
pub fn set_saturation_request(token: &str, sat: SetRange) -> (r: Request)
    ensures
        r.method == Method::Put,
        r.path@ == token@ + "/state"@,
        r.body matches Some(b) && b@ == spec_sat_body(sat),
{
    let path = String::from_str(token).concat("/state");
    let mut body = String::from_str("{\"sat\":");
    let enc = encode_set_range(sat);
    body.append(enc.as_str());
    body.append("}");
    assert(body@ =~= spec_sat_body(sat));
    Request { method: Method::Put, path, body: Some(body) }
}

/// Color temperature: GET `{token}/state/ct`.
pub fn get_ct_request(token: &str) -> (r: Request)
    ensures
        r.method == Method::Get,
        r.path@ == token@ + "/state/ct"@,
        r.body is None,
{
    let path = String::from_str(token).concat("/state/ct");
    Request { method: Method::Get, path, body: None }
}

/// Color temperature: PUT `{token}/state` with body `{"ct":<write>}`.
pub fn set_ct_request(token: &str, ct: SetRange) -> (r: Request)
    ensures
        r.method == Method::Put,
        r.path@ == token@ + "/state"@,
        r.body matches Some(b) && b@ == spec_ct_body(ct),
{
    let path = String::from_str(token).concat("/state");
    let mut body = String::from_str("{\"ct\":");
    let enc = encode_set_range(ct);
    body.append(enc.as_str());
    body.append("}");
    assert(body@ =~= spec_ct_body(ct));
    Request { method: Method::Put, path, body: Some(body) }
}

/// Color mode: GET `{token}/effects/select`.
pub fn get_color_mode_request(token: &str) -> (r: Request)
    ensures
        r.method == Method::Get,
        r.path@ == token@ + "/effects/select"@,
        r.body is None,
{
    let path = String::from_str(token).concat("/effects/select");
    Request { method: Method::Get, path, body: None }
}

/// Selected effect: GET `{token}/effects/select`.
pub fn get_effect_request(token: &str) -> (r: Request)
    ensures
        r.method == Method::Get,
        r.path@ == token@ + "/effects/select"@,
        r.body is None,
{
    let path = String::from_str(token).concat("/effects/select");
    Request { method: Method::Get, path, body: None }
}

/// Selected effect: PUT `{token}/effects/select` with body
/// `{"select":"<effect>"}`.
pub fn set_effect_request(token: &str, effect: &str) -> (r: Request)
    ensures
        r.method == Method::Put,
        r.path@ == token@ + "/effects/select"@,
        r.body matches Some(b) && b@ == spec_select_body(effect@),
{
    let path = String::from_str(token).concat("/effects/select");
    let mut body = String::from_str("{\"select\":");
    let enc = encode_json_string(effect);
    body.append(enc.as_str());
    body.append("}");
    assert(body@ =~= spec_select_body(effect@));
    Request { method: Method::Put, path, body: Some(body) }
}

/// Effect catalog: GET `{token}/effects/effectsList`.
pub fn get_all_effects_request(token: &str) -> (r: Request)
    ensures
        r.method == Method::Get,
        r.path@ == token@ + "/effects/effectsList"@,
        r.body is None,
{
    let path = String::from_str(token).concat("/effects/effectsList");
    Request { method: Method::Get, path, body: None }
}

/// External streaming: PUT `{token}/effects` with the literal command
/// object that switches the device into external control.
pub fn start_external_streaming_request(token: &str) -> (r: Request)
    ensures
        r.method == Method::Put,
        r.path@ == token@ + "/effects"@,
        r.body matches Some(b) && b@
            == "{\"write\":{\"command\":\"display\",\"animType\":\"extControl\",\"extControlVersion\":\"v2\"}}"@,
{
    let path = String::from_str(token).concat("/effects");
    let body = String::from_str(
        "{\"write\":{\"command\":\"display\",\"animType\":\"extControl\",\"extControlVersion\":\"v2\"}}",
    );
    Request { method: Method::Put, path, body: Some(body) }
}

// ===== response deciders =====

/// Success is any 2xx status.
pub open spec fn is_success(status: u16) -> bool {
    200 <= status < 300
}

/// Decide a response whose success carries no meaningful body (PUT and
/// DELETE): a success status is unit success with no body decoding at
/// all; any other status is the HTTP-status error, verbatim.
pub fn unit_response(status: u16, body: &str) -> (r: Result<(), Error>)
    ensures
        is_success(status) <==> r is Ok,
        !is_success(status) ==> (r matches Err(Error::HttpStatus(st, b)) && st == status && b@
            == body@),
{
    if 200 <= status && status < 300 {
        Ok(())
    } else {
        Err(Error::HttpStatus(status, body.to_owned()))
    }
}

/// Decide a power-flag read: error status verbatim, success decoded.
pub fn on_response(status: u16, body: &str) -> (r: Result<On, Error>)
    ensures
        !is_success(status) ==> (r matches Err(Error::HttpStatus(st, b)) && st == status && b@
            == body@),
        is_success(status) ==> forall|o: On| body@ == spec_enc_on(o) ==> r == Ok::<On, Error>(o),
        is_success(status) && r is Err ==> r == Err::<On, Error>(Error::Decode),
{
    if 200 <= status && status < 300 {
        decode_on(body)
    } else {
        Err(Error::HttpStatus(status, body.to_owned()))
    }
}

/// Decide a bounded-property read: error status verbatim, success decoded.
pub fn range_response(status: u16, body: &str) -> (r: Result<Range, Error>)
    ensures
        !is_success(status) ==> (r matches Err(Error::HttpStatus(st, b)) && st == status && b@
            == body@),
        is_success(status) ==> forall|rg: Range| body@ == spec_enc_range(rg) ==> r == Ok::<
            Range,
            Error,
        >(rg),
        is_success(status) && r is Err ==> r == Err::<Range, Error>(Error::Decode),
{
    if 200 <= status && status < 300 {
        decode_range(body)
    } else {
        Err(Error::HttpStatus(status, body.to_owned()))
    }
}

/// Decide a token-issuance response: error status verbatim, success
/// decoded as an authorization.
pub fn authorization_response(status: u16, body: &str) -> (r: Result<Authorization, Error>)
    ensures
        !is_success(status) ==> (r matches Err(Error::HttpStatus(st, b)) && st == status && b@
            == body@),
        is_success(status) ==> forall|t: Seq<char>|
            plain_str(t) && body@ == spec_auth_body(t) ==> (r matches Ok(a) && a.auth_token@
                == t),
        is_success(status) && r is Err ==> r == Err::<Authorization, Error>(Error::Decode),
{
    if 200 <= status && status < 300 {
        decode_authorization(body)
    } else {
        Err(Error::HttpStatus(status, body.to_owned()))
    }
}

/// Decide a light-state read: error status verbatim, success decoded.
pub fn state_response(status: u16, body: &str) -> (r: Result<State, Error>)
    ensures
        !is_success(status) ==> (r matches Err(Error::HttpStatus(st, b)) && st == status && b@
            == body@),
        is_success(status) ==> forall|st: State|
            plain_str(st.color_mode@) && body@ == spec_enc_state(st) ==> (r matches Ok(v)
                && v.color_mode@ == st.color_mode@ && v.brightness == st.brightness && v.ct
                == st.ct && v.hue == st.hue && v.sat == st.sat && v.on == st.on),
        is_success(status) && r is Err ==> r == Err::<State, Error>(Error::Decode),
{
    if 200 <= status && status < 300 {
        decode_state(body)
    } else {
        Err(Error::HttpStatus(status, body.to_owned()))
    }
}

/// Decide a full-snapshot read: error status verbatim, success decoded.
pub fn panel_info_response(status: u16, body: &str) -> (r: Result<PanelInfo, Error>)
    ensures
        !is_success(status) ==> (r matches Err(Error::HttpStatus(st, b)) && st == status && b@
            == body@),
        is_success(status) ==> forall|p: PanelInfo|
            plain_info(p) && body@ == spec_enc_panel_info(p) ==> (r matches Ok(v)
                && panel_info_like(v, p)),
        is_success(status) && r is Err ==> r == Err::<PanelInfo, Error>(Error::Decode),
{
    if 200 <= status && status < 300 {
        decode_panel_info(body)
    } else {
        Err(Error::HttpStatus(status, body.to_owned()))
    }
}

/// Decide a read whose body is one JSON string (color mode, selected
/// effect): error status verbatim, success decoded.
pub fn string_response(status: u16, body: &str) -> (r: Result<String, Error>)
    ensures
        !is_success(status) ==> (r matches Err(Error::HttpStatus(st, b)) && st == status && b@
            == body@),
        is_success(status) ==> forall|t: Seq<char>|
            plain_str(t) && body@ == json_str_rep(t) ==> (r matches Ok(v) && v@ == t),
        is_success(status) && r is Err ==> r == Err::<String, Error>(Error::Decode),
{
    if 200 <= status && status < 300 {
        decode_string(body)
    } else {
        Err(Error::HttpStatus(status, body.to_owned()))
    }
}

/// Decide an effect-catalog read: error status verbatim, success decoded
/// as a list of names.
pub fn string_list_response(status: u16, body: &str) -> (r: Result<Vec<String>, Error>)
    ensures
        !is_success(status) ==> (r matches Err(Error::HttpStatus(st, b)) && st == status && b@
            == body@),
        is_success(status) ==> forall|l: Seq<Seq<char>>|
            plain_str_list(l) && body@ == spec_enc_str_list(l) ==> (r matches Ok(v)
                && v.deep_view() == l),
        is_success(status) && r is Err ==> r == Err::<Vec<String>, Error>(Error::Decode),
{
    if 200 <= status && status < 300 {
        decode_string_list(body)
    } else {
        Err(Error::HttpStatus(status, body.to_owned()))
    }
}

} // verus!
