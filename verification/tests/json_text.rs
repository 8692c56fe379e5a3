use btf2json::v_types::TypeDescr;

fn named(kind: &str, name: &str) -> String {
    format!("{{\"kind\":\"{}\",\"name\":\"{}\"}}", kind, name)
}

#[test]
fn descriptors_that_name_a_type() {
    assert_eq!(TypeDescr::from_json_text(&named("base", "int")), Some(TypeDescr::Base { name: "int".to_string() }));
    assert_eq!(TypeDescr::from_json_text(&named("enum", "e")), Some(TypeDescr::Enum { name: "e".to_string() }));
    assert_eq!(TypeDescr::from_json_text(&named("struct", "s")), Some(TypeDescr::Struct { name: "s".to_string() }));
    assert_eq!(TypeDescr::from_json_text(&named("union", "u")), Some(TypeDescr::Union { name: "u".to_string() }));
    assert_eq!(
        TypeDescr::from_json_text(" { \"name\" : \"long unsigned int\", \"kind\" : \"base\", \"more\" : [1, 2] } "),
        Some(TypeDescr::Base { name: "long unsigned int".to_string() })
    );
    assert_eq!(TypeDescr::from_json_text("{\"kind\":\"function\"}"), Some(TypeDescr::Function));
}

#[test]
fn descriptors_that_wrap_another() {
    let text = "{\"kind\":\"array\",\"count\":3,\"subtype\":{\"kind\":\"pointer\",\"subtype\":{\"kind\":\"bitfield\",\"bit_position\":7,\"bit_length\":255,\"type\":{\"kind\":\"base\",\"name\":\"char\"}}}}";
    assert_eq!(
        TypeDescr::from_json_text(text),
        Some(TypeDescr::Array {
            count: 3,
            subtype: Box::new(TypeDescr::Pointer {
                subtype: Box::new(TypeDescr::Bitfield {
                    bit_position: 7,
                    bit_length: 255,
                    type_: Box::new(TypeDescr::Base { name: "char".to_string() })
                })
            })
        })
    );
    let big = "{\"kind\":\"array\",\"count\":18446744073709551615,\"subtype\":{\"kind\":\"function\"}}";
    assert_eq!(
        TypeDescr::from_json_text(big),
        Some(TypeDescr::Array { count: u64::MAX, subtype: Box::new(TypeDescr::Function) })
    );
}

#[test]
fn texts_that_are_no_descriptor() {
    for text in [
        "",
        "{",
        "null",
        "[]",
        "\"base\"",
        "{}",
        "{\"name\":\"int\"}",
        "{\"kind\":\"blob\",\"name\":\"int\"}",
        "{\"kind\":7}",
        "{\"kind\":\"base\"}",
        "{\"kind\":\"base\",\"name\":7}",
        "{\"kind\":\"pointer\"}",
        "{\"kind\":\"pointer\",\"subtype\":\"int\"}",
        "{\"kind\":\"pointer\",\"subtype\":{\"kind\":\"base\"}}",
        "{\"kind\":\"array\",\"subtype\":{\"kind\":\"function\"}}",
        "{\"kind\":\"array\",\"count\":-1,\"subtype\":{\"kind\":\"function\"}}",
        "{\"kind\":\"array\",\"count\":1.5,\"subtype\":{\"kind\":\"function\"}}",
        "{\"kind\":\"array\",\"count\":18446744073709551616,\"subtype\":{\"kind\":\"function\"}}",
        "{\"kind\":\"bitfield\",\"bit_position\":256,\"bit_length\":1,\"type\":{\"kind\":\"function\"}}",
        "{\"kind\":\"bitfield\",\"bit_position\":1,\"bit_length\":1,\"subtype\":{\"kind\":\"function\"}}",
        "{\"kind\":\"bitfield\",\"bit_position\":1,\"type\":{\"kind\":\"function\"}}",
    ] {
        assert_eq!(TypeDescr::from_json_text(text), None, "{}", text);
    }
}

#[test]
fn a_descriptor_from_a_parsed_value() {
    let v: serde_json::Value = serde_json::from_str("{\"kind\":\"pointer\",\"subtype\":{\"kind\":\"enum\",\"name\":\"e\"}}").unwrap();
    assert_eq!(
        TypeDescr::from_json(&v),
        Some(TypeDescr::Pointer { subtype: Box::new(TypeDescr::Enum { name: "e".to_string() }) })
    );
    assert_eq!(TypeDescr::from_json(&serde_json::Value::Null), None);
    assert_eq!(TypeDescr::from_json(&serde_json::Value::String("function".to_string())), None);
}
