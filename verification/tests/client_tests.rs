use nanoleaf::client::{
    add_user_request, authorization_response, delete_user_request, get_all_effects_request,
    get_all_info_request, get_brightness_request, get_color_mode_request, get_ct_request,
    get_effect_request, get_hue_request, get_on_request, get_saturation_request,
    get_state_request, on_response, panel_info_response, range_response, set_brightness_request,
    set_ct_request, set_effect_request, set_hue_request, set_on_request, set_saturation_request,
    start_external_streaming_request, state_response, string_list_response, string_response,
    unit_response, Method,
};
use nanoleaf::error::Error;
use nanoleaf::models::{Brightness, On, Range, SetRange};

#[test]
fn add_user_is_post_to_new() {
    let r = add_user_request();
    assert_eq!(r.method, Method::Post);
    assert_eq!(r.path, "new");
    assert_eq!(r.body, None);
}

#[test]
fn delete_user_is_delete_to_token() {
    let r = delete_user_request("abc");
    assert_eq!(r.method, Method::Delete);
    assert_eq!(r.path, "abc");
    assert_eq!(r.body, None);
    // a 204 with an empty body is unit success
    assert_eq!(unit_response(204, ""), Ok(()));
}

#[test]
fn get_paths_follow_the_capability_table() {
    assert_eq!(get_all_info_request("t").path, "t");
    assert_eq!(get_state_request("t").path, "t/state");
    assert_eq!(get_on_request("t").path, "t/state/on");
    assert_eq!(get_brightness_request("t").path, "t/state/brightness");
    assert_eq!(get_hue_request("t").path, "t/state/hue");
    assert_eq!(get_saturation_request("t").path, "t/state/sat");
    assert_eq!(get_ct_request("t").path, "t/state/ct");
    assert_eq!(get_color_mode_request("t").path, "t/effects/select");
    assert_eq!(get_effect_request("t").path, "t/effects/select");
    assert_eq!(get_all_effects_request("t").path, "t/effects/effectsList");
    for r in [
        get_all_info_request("t"),
        get_state_request("t"),
        get_on_request("t"),
        get_brightness_request("t"),
        get_hue_request("t"),
        get_saturation_request("t"),
        get_ct_request("t"),
        get_color_mode_request("t"),
        get_effect_request("t"),
        get_all_effects_request("t"),
    ] {
        assert_eq!(r.method, Method::Get);
        assert_eq!(r.body, None);
    }
}

#[test]
fn set_requests_carry_the_keyed_bodies() {
    let r = set_on_request("t", On { value: true });
    assert_eq!(r.method, Method::Put);
    assert_eq!(r.path, "t/state");
    assert_eq!(r.body.as_deref(), Some("{\"on\":{\"value\":true}}"));

    let r = set_brightness_request("t", Brightness::Increment(-10));
    assert_eq!(r.path, "t/state");
    assert_eq!(r.body.as_deref(), Some("{\"brightness\":-10}"));

    let r = set_brightness_request(
        "t",
        Brightness::AssignWithDuration {
            value: 80,
            duration: 5,
        },
    );
    assert_eq!(
        r.body.as_deref(),
        Some("{\"brightness\":{\"value\":80,\"duration\":5}}")
    );

    let r = set_hue_request("t", SetRange::Assign { value: 240 });
    assert_eq!(r.body.as_deref(), Some("{\"hue\":{\"value\":240}}"));

    let r = set_saturation_request("t", SetRange::Increment(5));
    assert_eq!(r.body.as_deref(), Some("{\"sat\":5}"));

    let r = set_ct_request("t", SetRange::Assign { value: 4000 });
    assert_eq!(r.body.as_deref(), Some("{\"ct\":{\"value\":4000}}"));
}

#[test]
fn start_external_streaming_sends_the_command_object() {
    let r = start_external_streaming_request("t");
    assert_eq!(r.method, Method::Put);
    assert_eq!(r.path, "t/effects");
    assert_eq!(
        r.body.as_deref(),
        Some(
            "{\"write\":{\"command\":\"display\",\"animType\":\"extControl\",\"extControlVersion\":\"v2\"}}"
        )
    );
}

#[test]
fn set_effect_builds_select_body() {
    let r = set_effect_request("abc", "Nebula");
    assert_eq!(r.method, Method::Put);
    assert_eq!(r.path, "abc/effects/select");
    assert_eq!(r.body.as_deref(), Some("{\"select\":\"Nebula\"}"));
}

#[test]
fn add_user_then_set_effect_scenario() {
    // token issuance against a device answering 200 with a token body
    let r = add_user_request();
    assert_eq!((r.method, r.path.as_str(), r.body), (Method::Post, "new", None));
    let auth = authorization_response(200, "{\"auth_token\":\"abc\"}").unwrap();
    assert_eq!(auth.auth_token, "abc");

    // select an effect with the issued token; the device answers 204
    let r = set_effect_request(&auth.auth_token, "Nebula");
    assert_eq!(r.method, Method::Put);
    assert_eq!(r.path, "abc/effects/select");
    assert_eq!(r.body.as_deref(), Some("{\"select\":\"Nebula\"}"));
    assert_eq!(unit_response(204, ""), Ok(()));
}

#[test]
fn error_statuses_are_reported_verbatim_and_never_decoded() {
    // the body is a perfectly decodable range, yet a non-success status
    // must surface as the status error, not as a decoded value
    let body = "{\"min\":0,\"max\":100,\"value\":50}";
    for status in [101u16, 304, 400, 401, 403, 404, 500, 503] {
        assert_eq!(
            range_response(status, body),
            Err(Error::HttpStatus(status, body.to_string()))
        );
        assert_eq!(
            on_response(status, "{\"value\":true}"),
            Err(Error::HttpStatus(status, "{\"value\":true}".to_string()))
        );
        assert_eq!(
            unit_response(status, "nope"),
            Err(Error::HttpStatus(status, "nope".to_string()))
        );
        assert!(matches!(
            authorization_response(status, "{\"auth_token\":\"abc\"}"),
            Err(Error::HttpStatus(_, _))
        ));
    }
}

#[test]
fn success_statuses_decode_bodies() {
    assert_eq!(
        on_response(200, "{\"value\":true}"),
        Ok(On { value: true })
    );
    assert_eq!(
        range_response(200, "{\"min\":0,\"max\":100,\"value\":50}"),
        Ok(Range {
            max: 100,
            min: 0,
            value: 50
        })
    );
    assert_eq!(string_response(200, "\"effect\"").unwrap(), "effect");
    assert_eq!(
        string_list_response(200, "[\"Nebula\"]").unwrap(),
        vec!["Nebula"]
    );
    let state = state_response(
        200,
        "{\"colorMode\":\"hs\",\
         \"brightness\":{\"min\":0,\"max\":100,\"value\":10},\
         \"ct\":{\"min\":1200,\"max\":6500,\"value\":4000},\
         \"hue\":{\"min\":0,\"max\":360,\"value\":180},\
         \"sat\":{\"min\":0,\"max\":100,\"value\":90},\
         \"on\":{\"value\":true}}",
    )
    .unwrap();
    assert_eq!(state.hue.value, 180);
    // a success status with a malformed body is a decode error
    assert_eq!(on_response(200, "{\"value\":maybe}"), Err(Error::Decode));
    assert_eq!(
        panel_info_response(200, "not json"),
        Err(Error::Decode)
    );
}

#[test]
fn put_with_any_success_status_is_unit() {
    for status in [200u16, 201, 204, 299] {
        assert_eq!(unit_response(status, ""), Ok(()));
    }
}

#[test]
fn error_kinds_describe_themselves() {
    assert_eq!(Error::Decode.describe(), "response body failed to decode");
    assert_eq!(
        Error::Transport("connection refused".to_string()).describe(),
        "transport failure"
    );
    assert_eq!(
        Error::HttpStatus(404, "not found".to_string()).describe(),
        "device rejected the request"
    );
}
