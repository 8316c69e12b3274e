use nanoleaf::codec::{
    decode_authorization, decode_brightness, decode_effects, decode_on, decode_panel_info,
    decode_range, decode_set_range, decode_state, decode_string, decode_string_list,
    encode_brightness, encode_json_string, encode_on, encode_range, encode_set_range,
};
use nanoleaf::error::Error;
use nanoleaf::models::{shape_of_code, Brightness, On, Range, SetRange, ShapeType};

#[test]
fn on_true_round_trip() {
    let v = On { value: true };
    let text = encode_on(v);
    assert_eq!(text, "{\"value\":true}");
    assert_eq!(decode_on(&text), Ok(On { value: true }));
}

#[test]
fn on_false_round_trip() {
    let v = On { value: false };
    let text = encode_on(v);
    assert_eq!(text, "{\"value\":false}");
    assert_eq!(decode_on(&text), Ok(On { value: false }));
}

#[test]
fn range_encoding_is_documented_shape() {
    let r = Range {
        max: 100,
        min: 0,
        value: 50,
    };
    assert_eq!(encode_range(r), "{\"min\":0,\"max\":100,\"value\":50}");
}

#[test]
fn range_round_trip_combinations() {
    let samples = [
        (0u32, 100u32, 50u32),
        (0, 0, 0),
        (1, 360, 359),
        (1200, 6500, 4000),
        (u32::MAX, u32::MAX, u32::MAX),
    ];
    for (min, max, value) in samples {
        let r = Range { max, min, value };
        assert_eq!(decode_range(&encode_range(r)), Ok(r));
    }
}

#[test]
fn range_decodes_with_whitespace_and_reordering() {
    let body = " { \"value\" : 50 , \"min\" : 0 , \"max\" : 100 } ";
    assert_eq!(
        decode_range(body),
        Ok(Range {
            max: 100,
            min: 0,
            value: 50
        })
    );
}

#[test]
fn range_decodes_with_unknown_member() {
    let body = "{\"min\":0,\"extra\":{\"nested\":[1,2,3]},\"max\":100,\"value\":50}";
    assert_eq!(
        decode_range(body),
        Ok(Range {
            max: 100,
            min: 0,
            value: 50
        })
    );
}

#[test]
fn range_with_missing_member_is_decode_error() {
    assert_eq!(
        decode_range("{\"min\":0,\"max\":100}"),
        Err(Error::Decode)
    );
}

#[test]
fn brightness_increment_encodes_bare_integer() {
    assert_eq!(encode_brightness(Brightness::Increment(-10)), "-10");
}

#[test]
fn brightness_assign_encodes_value_object() {
    assert_eq!(
        encode_brightness(Brightness::Assign { value: 80 }),
        "{\"value\":80}"
    );
}

#[test]
fn brightness_assign_with_duration_encodes_both_members() {
    assert_eq!(
        encode_brightness(Brightness::AssignWithDuration {
            value: 80,
            duration: 5
        }),
        "{\"value\":80,\"duration\":5}"
    );
}

#[test]
fn brightness_literals_decode_to_matching_variants() {
    assert_eq!(decode_brightness("-10"), Ok(Brightness::Increment(-10)));
    assert_eq!(
        decode_brightness("{\"value\":80}"),
        Ok(Brightness::Assign { value: 80 })
    );
    assert_eq!(
        decode_brightness("{\"value\":80,\"duration\":5}"),
        Ok(Brightness::AssignWithDuration {
            value: 80,
            duration: 5
        })
    );
}

#[test]
fn brightness_round_trips() {
    let samples = [
        Brightness::Increment(-10),
        Brightness::Increment(0),
        Brightness::Increment(i32::MIN),
        Brightness::Increment(i32::MAX),
        Brightness::Assign { value: 80 },
        Brightness::Assign { value: u32::MAX },
        Brightness::AssignWithDuration {
            value: 80,
            duration: 5,
        },
    ];
    for b in samples {
        assert_eq!(decode_brightness(&encode_brightness(b)), Ok(b));
    }
}

#[test]
fn brightness_garbage_is_decode_error() {
    assert_eq!(decode_brightness(""), Err(Error::Decode));
    assert_eq!(decode_brightness("wibble"), Err(Error::Decode));
    assert_eq!(decode_brightness("{\"value\":}"), Err(Error::Decode));
    assert_eq!(decode_brightness("12,"), Err(Error::Decode));
}

#[test]
fn set_range_round_trips() {
    let samples = [
        SetRange::Increment(-45),
        SetRange::Increment(45),
        SetRange::Assign { value: 240 },
    ];
    for v in samples {
        assert_eq!(decode_set_range(&encode_set_range(v)), Ok(v));
    }
    assert_eq!(encode_set_range(SetRange::Increment(-45)), "-45");
    assert_eq!(
        encode_set_range(SetRange::Assign { value: 240 }),
        "{\"value\":240}"
    );
}

#[test]
fn set_range_has_no_duration_shape() {
    assert_eq!(
        decode_set_range("{\"value\":80,\"duration\":5}"),
        Err(Error::Decode)
    );
}

#[test]
fn unknown_shape_code_fails_decoding() {
    assert_eq!(shape_of_code(99), None);
    assert_eq!(shape_of_code(6), None);
    assert_eq!(shape_of_code(0), Some(ShapeType::Triangle));
    assert_eq!(shape_of_code(5), Some(ShapeType::PowerSupply));
}

#[test]
fn position_with_unknown_shape_code_fails_decoding() {
    let good = "{\"numPanels\":1,\"sideLength\":150,\"positionData\":[{\"panelId\":7,\"o\":60,\"x\":100,\"y\":-100,\"shapeType\":0}]}";
    let bad = "{\"numPanels\":1,\"sideLength\":150,\"positionData\":[{\"panelId\":7,\"o\":60,\"x\":100,\"y\":-100,\"shapeType\":99}]}";
    let good_info = panel_info_body(good);
    let bad_info = panel_info_body(bad);
    assert!(decode_panel_info(&good_info).is_ok());
    assert_eq!(decode_panel_info(&bad_info), Err(Error::Decode));
}

fn panel_info_body(layout: &str) -> String {
    format!(
        "{{\"name\":\"Light Panels\",\"manufacturer\":\"Nanoleaf\",\"model\":\"NL22\",\
         \"firmwareVersion\":\"3.1.0\",\"serialNo\":\"S18\",\
         \"state\":{{\"colorMode\":\"effect\",\
         \"brightness\":{{\"min\":0,\"max\":100,\"value\":50}},\
         \"ct\":{{\"min\":1200,\"max\":6500,\"value\":4000}},\
         \"hue\":{{\"min\":0,\"max\":360,\"value\":120}},\
         \"sat\":{{\"min\":0,\"max\":100,\"value\":70}},\
         \"on\":{{\"value\":true}}}},\
         \"effects\":{{\"effectsList\":[\"Nebula\",\"Snowfall\"],\"select\":\"Nebula\"}},\
         \"panelLayout\":{{\"globalOrientation\":{{\"min\":0,\"max\":360,\"value\":0}},\
         \"layout\":{}}},\
         \"rhythm\":{{\"rhythmConnected\":false,\"auxAvailable\":null}}}}",
        layout
    )
}

#[test]
fn panel_info_decodes_with_unknown_rhythm_member() {
    let layout = "{\"numPanels\":2,\"sideLength\":150,\"positionData\":[{\"panelId\":1,\"o\":0,\"x\":0,\"y\":0,\"shapeType\":2},{\"panelId\":2,\"o\":180,\"x\":150,\"y\":0,\"shapeType\":3}]}";
    let info = decode_panel_info(&panel_info_body(layout)).unwrap();
    assert_eq!(info.name, "Light Panels");
    assert_eq!(info.manufacturer, "Nanoleaf");
    assert_eq!(info.model, "NL22");
    assert_eq!(info.firmware_version, "3.1.0");
    assert_eq!(info.serial_number, "S18");
    assert_eq!(info.state.on, On { value: true });
    assert_eq!(info.state.color_mode, "effect");
    assert_eq!(info.state.brightness.value, 50);
    assert_eq!(info.effects.effects_list, vec!["Nebula", "Snowfall"]);
    assert_eq!(info.effects.select, "Nebula");
    assert_eq!(info.panel_layout.layout.num_panels, 2);
    assert_eq!(info.panel_layout.layout.position_data.len(), 2);
    assert_eq!(info.panel_layout.layout.position_data[1].o, 180);
    assert_eq!(
        info.panel_layout.layout.position_data[1].shape_type,
        ShapeType::ControlSquarePrimary
    );
}

#[test]
fn state_decodes() {
    let body = "{\"colorMode\":\"ct\",\
                \"brightness\":{\"min\":0,\"max\":100,\"value\":25},\
                \"ct\":{\"min\":1200,\"max\":6500,\"value\":2700},\
                \"hue\":{\"min\":0,\"max\":360,\"value\":0},\
                \"sat\":{\"min\":0,\"max\":100,\"value\":0},\
                \"on\":{\"value\":false}}";
    let state = decode_state(body).unwrap();
    assert_eq!(state.color_mode, "ct");
    assert_eq!(state.ct.value, 2700);
    assert_eq!(state.on, On { value: false });
}

#[test]
fn authorization_decodes() {
    assert_eq!(
        decode_authorization("{\"auth_token\":\"abc\"}")
            .unwrap()
            .auth_token,
        "abc"
    );
    assert_eq!(decode_authorization("{}"), Err(Error::Decode));
    assert_eq!(decode_authorization("null"), Err(Error::Decode));
}

#[test]
fn effects_decode() {
    let e = decode_effects("{\"effectsList\":[],\"select\":\"*Solid*\"}").unwrap();
    assert!(e.effects_list.is_empty());
    assert_eq!(e.select, "*Solid*");
}

#[test]
fn string_bodies_decode() {
    assert_eq!(decode_string("\"effect\"").unwrap(), "effect");
    assert_eq!(
        decode_string_list("[\"Nebula\", \"Snowfall\"]").unwrap(),
        vec!["Nebula", "Snowfall"]
    );
    assert_eq!(decode_string("effect"), Err(Error::Decode));
}

#[test]
fn string_escapes_decode() {
    assert_eq!(decode_string("\"a\\\"b\\\\c\\nd\"").unwrap(), "a\"b\\c\nd");
    // the control range round-trips through its \u00XX form, either case
    assert_eq!(decode_string("\"\\u0001\"").unwrap(), "\u{1}");
    assert_eq!(decode_string("\"\\u001F\"").unwrap(), "\u{1f}");
    // \uXXXX escapes above the control range are outside the accepted subset
    assert_eq!(decode_string("\"a\\u0041\""), Err(Error::Decode));
}

#[test]
fn json_string_encoding_escapes() {
    assert_eq!(encode_json_string("Nebula"), "\"Nebula\"");
    assert_eq!(encode_json_string("a\"b"), "\"a\\\"b\"");
    assert_eq!(encode_json_string("a\\b"), "\"a\\\\b\"");
    assert_eq!(encode_json_string("a\nb"), "\"a\\nb\"");
    assert_eq!(encode_json_string("\u{1}"), "\"\\u0001\"");
    assert_eq!(encode_json_string("\u{1f}"), "\"\\u001f\"");
}

#[test]
fn encoded_strings_decode_back() {
    for s in ["Nebula", "a\"b", "a\\b", "tab\there", "new\nline", "bell\u{7}", "esc\u{1b}[0m"] {
        let enc = encode_json_string(s);
        assert_eq!(decode_string(&enc).unwrap(), s);
    }
}

#[test]
fn canonical_snapshot_decodes() {
    // the compact canonical member order, no extra members
    let body = "{\"name\":\"Light Panels\",\"manufacturer\":\"Nanoleaf\",\"model\":\"NL22\",\
                \"firmwareVersion\":\"3.1.0\",\"serialNo\":\"S18\",\
                \"state\":{\"colorMode\":\"effect\",\
                \"brightness\":{\"min\":0,\"max\":100,\"value\":50},\
                \"ct\":{\"min\":1200,\"max\":6500,\"value\":4000},\
                \"hue\":{\"min\":0,\"max\":360,\"value\":120},\
                \"sat\":{\"min\":0,\"max\":100,\"value\":70},\
                \"on\":{\"value\":true}},\
                \"effects\":{\"effectsList\":[\"Nebula\",\"Snowfall\"],\"select\":\"Nebula\"},\
                \"panelLayout\":{\"globalOrientation\":{\"min\":0,\"max\":360,\"value\":0},\
                \"layout\":{\"numPanels\":1,\"sideLength\":150,\
                \"positionData\":[{\"panelId\":7,\"o\":60,\"x\":100,\"y\":-100,\"shapeType\":2}]}}}";
    let info = decode_panel_info(body).unwrap();
    assert_eq!(info.name, "Light Panels");
    assert_eq!(info.serial_number, "S18");
    assert_eq!(info.state.hue.value, 120);
    assert_eq!(info.effects.effects_list, vec!["Nebula", "Snowfall"]);
    assert_eq!(info.panel_layout.layout.position_data[0].y, -100);
    assert_eq!(
        info.panel_layout.layout.position_data[0].shape_type,
        ShapeType::Square
    );
}
