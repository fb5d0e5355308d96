use linesmith_core::plugins::output::{parse_hex_color, validate_return, PluginError};
use linesmith_core::plugins::script::ScriptValue;
use linesmith_core::segments::{RenderedSegment, Separator};
use linesmith_core::theme::{Color, Role, Style};
use linesmith_core::value::Table;
use rhai::{Array, Dynamic, Engine};

fn script_value(value: Dynamic) -> ScriptValue {
    if value.is_unit() {
        return ScriptValue::Unit;
    }
    if let Ok(b) = value.as_bool() {
        return ScriptValue::Boolean(b);
    }
    if let Ok(i) = value.as_int() {
        return ScriptValue::Integer(i);
    }
    if let Ok(f) = value.as_float() {
        return ScriptValue::Float(f.to_bits());
    }
    if value.is_string() {
        return ScriptValue::Text(value.into_string().expect("string"));
    }
    if value.is_array() {
        let items = value.cast::<Array>();
        return ScriptValue::Array(items.into_iter().map(script_value).collect());
    }
    if value.is_map() {
        let mut table = Table::new();
        for (key, item) in value.cast::<rhai::Map>() {
            table = table.insert(key.to_string(), script_value(item));
        }
        return ScriptValue::Table(table);
    }
    ScriptValue::Other
}

fn eval_and_validate(script: &str, id: &str) -> Result<Option<RenderedSegment>, PluginError> {
    let engine = Engine::new();
    let value: Dynamic = engine.eval(script).expect("rhai eval ok");
    validate_return(&script_value(value), id)
}

#[test]
fn unit_return_hides_segment() {
    assert_eq!(eval_and_validate("()", "t"), Ok(None));
}

#[test]
fn single_run_text_only() {
    let rendered = eval_and_validate(r#"#{ runs: [#{ text: "hello" }] }"#, "t")
        .unwrap()
        .expect("rendered");
    assert_eq!(rendered.text(), "hello");
    assert_eq!(rendered.style(), &Style::default());
}

#[test]
fn single_run_with_role() {
    let rendered = eval_and_validate(r#"#{ runs: [#{ text: "ok", role: "success" }] }"#, "t")
        .unwrap()
        .expect("rendered");
    assert_eq!(rendered.style().role, Some(Role::Success));
}

#[test]
fn single_run_with_decorations() {
    let rendered = eval_and_validate(
        r#"#{ runs: [#{ text: "x", bold: true, italic: true, underline: true, dim: true }] }"#,
        "t",
    )
    .unwrap()
    .expect("rendered");
    let s = rendered.style();
    assert!(s.bold);
    assert!(s.italic);
    assert!(s.underline);
    assert!(s.dim);
}

#[test]
fn single_run_with_hex_fg() {
    let rendered = eval_and_validate(r##"#{ runs: [#{ text: "x", fg: "#ff8040" }] }"##, "t")
        .unwrap()
        .expect("rendered");
    assert_eq!(
        rendered.style().fg,
        Some(Color::TrueColor {
            r: 0xff,
            g: 0x80,
            b: 0x40
        })
    );
}

#[test]
fn right_separator_space() {
    let rendered = eval_and_validate(
        r#"#{ runs: [#{ text: "x" }], right_separator: "space" }"#,
        "t",
    )
    .unwrap()
    .expect("rendered");
    assert_eq!(rendered.right_separator(), Some(&Separator::Space));
}

#[test]
fn right_separator_literal_preserves_user_string() {
    let rendered = eval_and_validate(
        r#"#{ runs: [#{ text: "x" }], right_separator: " | " }"#,
        "t",
    )
    .unwrap()
    .expect("rendered");
    match rendered.right_separator() {
        Some(Separator::Literal(s)) => assert_eq!(s, " | "),
        other => panic!("expected literal separator, got {other:?}"),
    }
}

#[test]
fn right_separator_empty_string_is_literal() {
    let rendered =
        eval_and_validate(r#"#{ runs: [#{ text: "x" }], right_separator: "" }"#, "t")
            .unwrap()
            .expect("rendered");
    match rendered.right_separator() {
        Some(Separator::Literal(s)) => assert_eq!(s, ""),
        other => panic!("expected literal separator, got {other:?}"),
    }
}

#[test]
fn non_map_non_unit_return_rejected() {
    let err = eval_and_validate(r#""just a string""#, "t").unwrap_err();
    assert!(matches!(err, PluginError::MalformedReturn { .. }));
}

#[test]
fn missing_runs_key_rejected() {
    let err = eval_and_validate(r#"#{ width: 5 }"#, "t").unwrap_err();
    let PluginError::MalformedReturn { message, .. } = err;
    assert!(message.contains("runs"), "message: {message}");
}

#[test]
fn empty_runs_rejected() {
    let err = eval_and_validate(r#"#{ runs: [] }"#, "t").unwrap_err();
    let PluginError::MalformedReturn { message, .. } = err;
    assert!(message.contains("empty"));
}

#[test]
fn multi_run_rejected_with_deferred_note() {
    let err =
        eval_and_validate(r#"#{ runs: [#{ text: "a" }, #{ text: "b" }] }"#, "t").unwrap_err();
    let PluginError::MalformedReturn { message, .. } = err;
    assert!(
        message.contains("one") || message.contains("multi-run"),
        "message should flag the single-run restriction: {message}"
    );
}

#[test]
fn run_without_text_rejected() {
    let err = eval_and_validate(r#"#{ runs: [#{ role: "primary" }] }"#, "t").unwrap_err();
    assert!(matches!(err, PluginError::MalformedReturn { .. }));
}

#[test]
fn run_text_wrong_type_rejected() {
    let err = eval_and_validate(r#"#{ runs: [#{ text: 42 }] }"#, "t").unwrap_err();
    let PluginError::MalformedReturn { message, .. } = err;
    assert!(message.contains("text"));
}

#[test]
fn unknown_role_rejected() {
    let err =
        eval_and_validate(r#"#{ runs: [#{ text: "x", role: "mystery" }] }"#, "t").unwrap_err();
    let PluginError::MalformedReturn { message, .. } = err;
    assert!(message.contains("mystery"));
}

#[test]
fn hex_color_missing_hash_rejected() {
    let err =
        eval_and_validate(r#"#{ runs: [#{ text: "x", fg: "ff0000" }] }"#, "t").unwrap_err();
    let PluginError::MalformedReturn { message, .. } = err;
    assert!(message.contains("start with"), "message: {message}");
}

#[test]
fn hex_color_wrong_length_rejected() {
    let err =
        eval_and_validate(r##"#{ runs: [#{ text: "x", fg: "#abc" }] }"##, "t").unwrap_err();
    let PluginError::MalformedReturn { message, .. } = err;
    assert!(message.contains("6 hex digits"), "message: {message}");
}

#[test]
fn hex_color_alpha_form_rejected() {
    let err = eval_and_validate(r##"#{ runs: [#{ text: "x", fg: "#ff804080" }] }"##, "t")
        .unwrap_err();
    let PluginError::MalformedReturn { message, .. } = err;
    assert!(message.contains("6 hex digits"), "message: {message}");
}

#[test]
fn hex_color_empty_body_rejected() {
    let err = eval_and_validate(r##"#{ runs: [#{ text: "x", fg: "#" }] }"##, "t").unwrap_err();
    let PluginError::MalformedReturn { message, .. } = err;
    assert!(message.contains("6 hex digits"), "message: {message}");
}

#[test]
fn hex_color_uppercase_accepted() {
    let rendered = eval_and_validate(r##"#{ runs: [#{ text: "x", fg: "#FF8040" }] }"##, "t")
        .unwrap()
        .expect("rendered");
    assert_eq!(
        rendered.style().fg,
        Some(Color::TrueColor {
            r: 0xff,
            g: 0x80,
            b: 0x40
        })
    );
}

#[test]
fn hex_color_non_hex_digits_rejected() {
    let err =
        eval_and_validate(r##"#{ runs: [#{ text: "x", fg: "#zzzzzz" }] }"##, "t").unwrap_err();
    let PluginError::MalformedReturn { message, .. } = err;
    assert!(message.contains("invalid hex"), "message: {message}");
}

#[test]
fn decoration_wrong_type_rejected() {
    let err =
        eval_and_validate(r#"#{ runs: [#{ text: "x", bold: "yes" }] }"#, "t").unwrap_err();
    let PluginError::MalformedReturn { message, .. } = err;
    assert!(message.contains("bold"));
}

#[test]
fn all_16_roles_parse_via_snake_case_token() {
    let cases: &[(&str, Role)] = &[
        ("foreground", Role::Foreground),
        ("background", Role::Background),
        ("muted", Role::Muted),
        ("primary", Role::Primary),
        ("accent", Role::Accent),
        ("success", Role::Success),
        ("warning", Role::Warning),
        ("error", Role::Error),
        ("info", Role::Info),
        ("success_dim", Role::SuccessDim),
        ("warning_dim", Role::WarningDim),
        ("error_dim", Role::ErrorDim),
        ("primary_dim", Role::PrimaryDim),
        ("accent_dim", Role::AccentDim),
        ("surface", Role::Surface),
        ("border", Role::Border),
    ];
    for (token, expected) in cases {
        let script = format!(r#"#{{ runs: [#{{ text: "x", role: "{token}" }}] }}"#);
        let rendered = eval_and_validate(&script, "t")
            .unwrap_or_else(|e| panic!("role `{token}` failed: {e:?}"))
            .expect("rendered");
        assert_eq!(
            rendered.style().role,
            Some(*expected),
            "role token `{token}` should parse to {expected:?}"
        );
    }
}

#[test]
fn all_separator_strings_map_correctly() {
    let cases: &[(&str, Separator)] = &[
        ("space", Separator::Space),
        ("theme", Separator::Theme),
        ("none", Separator::Empty),
    ];
    for (token, expected) in cases {
        let script = format!(r#"#{{ runs: [#{{ text: "x" }}], right_separator: "{token}" }}"#);
        let rendered = eval_and_validate(&script, "t")
            .unwrap_or_else(|e| panic!("separator `{token}` failed: {e:?}"))
            .expect("rendered");
        assert_eq!(rendered.right_separator(), Some(expected));
    }
}

#[test]
fn control_chars_in_plugin_text_are_stripped() {
    let rendered = eval_and_validate(r#"#{ runs: [#{ text: "evil\u001B[2Jafter" }] }"#, "t")
        .unwrap()
        .expect("rendered");
    assert!(!rendered.text().contains('\x1b'), "ESC must be stripped");
    assert!(rendered.text().contains("evil"));
    assert!(rendered.text().contains("after"));
}

#[test]
fn control_chars_in_plugin_separator_are_stripped() {
    let rendered = eval_and_validate(
        r#"#{ runs: [#{ text: "x" }], right_separator: "\u001B[2J|" }"#,
        "t",
    )
    .unwrap()
    .expect("rendered");
    match rendered.right_separator() {
        Some(Separator::Literal(s)) => {
            assert!(!s.contains('\x1b'), "ESC must be stripped, got {s:?}");
            assert!(s.contains('|'), "surviving printable bytes kept: {s:?}");
        }
        other => panic!("expected literal separator, got {other:?}"),
    }
}

#[test]
fn runs_field_non_array_rejected() {
    let err = eval_and_validate(r#"#{ runs: "not an array" }"#, "t").unwrap_err();
    let PluginError::MalformedReturn { message, .. } = err;
    assert!(message.contains("runs"), "message: {message}");
    assert!(message.to_lowercase().contains("array"));
}

#[test]
fn runs_element_non_map_rejected() {
    let err = eval_and_validate(r#"#{ runs: [42] }"#, "t").unwrap_err();
    let PluginError::MalformedReturn { message, .. } = err;
    assert!(message.to_lowercase().contains("map"));
}

#[test]
fn right_separator_non_string_rejected() {
    let err = eval_and_validate(r#"#{ runs: [#{ text: "x" }], right_separator: 42 }"#, "t")
        .unwrap_err();
    let PluginError::MalformedReturn { message, .. } = err;
    assert!(message.contains("right_separator") || message.contains("string"));
}

#[test]
fn unsupported_bg_field_silently_ignored() {
    let rendered = eval_and_validate(r##"#{ runs: [#{ text: "x", bg: "#000000" }] }"##, "t")
        .unwrap()
        .expect("rendered");
    assert_eq!(rendered.text(), "x");
}

#[test]
fn hyperlink_field_threads_to_style() {
    let rendered = eval_and_validate(
        r#"#{ runs: [#{ text: "x", hyperlink: "https://example.com" }] }"#,
        "t",
    )
    .unwrap()
    .expect("rendered");
    assert_eq!(rendered.text(), "x");
    assert_eq!(
        rendered.style().hyperlink.as_deref(),
        Some("https://example.com")
    );
}

#[test]
fn empty_hyperlink_string_does_not_set_link() {
    let rendered = eval_and_validate(r#"#{ runs: [#{ text: "x", hyperlink: "" }] }"#, "t")
        .unwrap()
        .expect("rendered");
    assert_eq!(rendered.style().hyperlink, None);
}

#[test]
fn non_string_hyperlink_rejected() {
    let err =
        eval_and_validate(r#"#{ runs: [#{ text: "x", hyperlink: 42 }] }"#, "t").unwrap_err();
    let PluginError::MalformedReturn { message, .. } = err;
    assert!(message.contains("hyperlink"), "got: {message}");
}

#[test]
fn malformed_return_names_the_plugin() {
    let err = eval_and_validate("42", "my_plugin").unwrap_err();
    let PluginError::MalformedReturn { id, .. } = err;
    assert_eq!(id, "my_plugin");
}

#[test]
fn fg_wins_its_own_slot_beside_a_role() {
    let rendered = eval_and_validate(
        r##"#{ runs: [#{ text: "x", role: "accent", fg: "#010203" }] }"##,
        "t",
    )
    .unwrap()
    .expect("rendered");
    assert_eq!(rendered.style().role, Some(Role::Accent));
    assert_eq!(rendered.style().fg, Some(Color::TrueColor { r: 1, g: 2, b: 3 }));
}

#[test]
fn hex_color_parses_digits_of_both_cases() {
    assert_eq!(
        parse_hex_color("#aBcDeF"),
        Ok(Color::TrueColor {
            r: 0xab,
            g: 0xcd,
            b: 0xef
        })
    );
    assert_eq!(
        parse_hex_color("abcdef"),
        Err("hex color must start with `#`, got `abcdef`".to_string())
    );
}

#[test]
fn hex_color_takes_hexadecimal_digits_alone() {
    for hex in ["#+1+2+3", "#-1-2-3", "# 1 2 3", "#0x1234", "#gggggg"] {
        assert_eq!(
            parse_hex_color(hex),
            Err(format!("invalid hex color `{hex}`")),
            "{hex}"
        );
    }
    // Six bytes that are not six characters.
    assert_eq!(
        parse_hex_color("#ééé"),
        Err("invalid hex color `#ééé`".to_string())
    );
}

#[test]
fn script_values_of_other_types_are_malformed() {
    let err = validate_return(&ScriptValue::Other, "t").unwrap_err();
    assert!(matches!(err, PluginError::MalformedReturn { .. }));
    let err = validate_return(&ScriptValue::Float(1.5f64.to_bits()), "t").unwrap_err();
    assert!(matches!(err, PluginError::MalformedReturn { .. }));
}
