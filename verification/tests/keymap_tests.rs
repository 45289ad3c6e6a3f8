use keymap_loader::load;
use keymap_loader::no_op_name;
use keymap_loader::parse_json_with_comments;
use keymap_loader::schema_for_binding_file;
use keymap_loader::CommandPayload;
use keymap_loader::JsonValue;
use keymap_loader::KeymapCx;
use keymap_loader::KeymapFile;
use keymap_loader::LoadError;
use keymap_loader::PayloadShape;
use keymap_loader::Registry;
use keymap_loader::ResolveError;
use keymap_loader::ResolvedCommand;
use keymap_loader::ResultExt;
use keymap_loader::SchemaError;
use keymap_loader::SchemaNode;

fn test_registry() -> Registry {
    let mut r = Registry::new();
    r.register("quit".to_string(), PayloadShape::NoPayload);
    r.register(
        "select_range".to_string(),
        PayloadShape::IntRecord(vec!["from".to_string(), "to".to_string()]),
    );
    r.register("paste".to_string(), PayloadShape::AnyPayload);
    r
}

#[test]
fn single_zero_payload_binding() {
    let mut cx = KeymapCx::new(test_registry());
    let r = load(r#"[{"bindings": {"ctrl-q": "quit"}}]"#, &mut cx);
    assert!(r.is_ok());
    assert_eq!(cx.bindings().len(), 1);
    assert_eq!(cx.skipped().len(), 0);
    let b = &cx.bindings()[0];
    assert_eq!(b.keystroke, "ctrl-q");
    assert_eq!(b.context, None);
    assert_eq!(b.action.name(), "quit");
    assert_eq!(
        b.action,
        ResolvedCommand::Act { name: "quit".to_string(), payload: CommandPayload::Empty }
    );
}

#[test]
fn context_block_with_int_payload() {
    let mut cx = KeymapCx::new(test_registry());
    let text = r#"[{"context":"editor","bindings":{"cmd-a":["select_range",{"from":0,"to":5}]}}]"#;
    let r = load(text, &mut cx);
    assert!(r.is_ok());
    assert_eq!(cx.bindings().len(), 1);
    let b = &cx.bindings()[0];
    assert_eq!(b.keystroke, "cmd-a");
    assert_eq!(b.context, Some("editor".to_string()));
    assert_eq!(
        b.action,
        ResolvedCommand::Act {
            name: "select_range".to_string(),
            payload: CommandPayload::Ints(vec![("from".to_string(), 0), ("to".to_string(), 5)]),
        }
    );
}

#[test]
fn null_descriptor_is_no_op() {
    let mut cx = KeymapCx::new(test_registry());
    let r = load(r#"[{"bindings":{"esc": null}}]"#, &mut cx);
    assert!(r.is_ok());
    assert_eq!(cx.bindings().len(), 1);
    let b = &cx.bindings()[0];
    assert_eq!(b.keystroke, "esc");
    assert!(b.action.is_no_op());
    assert_eq!(b.action.name(), no_op_name());
}

#[test]
fn broken_fragment_fails_parse_and_keeps_table() {
    let mut cx = KeymapCx::new(test_registry());
    assert!(load(r#"[{"bindings": {"ctrl-q": "quit"}}]"#, &mut cx).is_ok());
    assert_eq!(cx.bindings().len(), 1);
    let r = load(r#"[{"bindings": {"ctrl-q""#, &mut cx);
    match &r {
        Err(e) => assert!(e.is_fatal()),
        Ok(()) => panic!("a broken fragment must not load"),
    }
    assert!(matches!(r, Err(LoadError::Parse(_))));
    assert_eq!(cx.bindings().len(), 1);
    assert_eq!(cx.bindings()[0].keystroke, "ctrl-q");
}

#[test]
fn unexpected_payload_is_entry_local() {
    let mut cx = KeymapCx::new(test_registry());
    let text = r#"[{"bindings": {"a": ["quit", {"a": 1}], "b": "quit"}}]"#;
    let r = load(text, &mut cx);
    assert!(r.is_ok());
    assert_eq!(cx.bindings().len(), 1);
    assert_eq!(cx.bindings()[0].keystroke, "b");
    assert_eq!(cx.skipped().len(), 1);
    let s = &cx.skipped()[0];
    assert_eq!(s.keystroke, "a");
    assert_eq!(s.error, LoadError::Resolve(ResolveError::PayloadMismatch));
    assert!(!s.error.is_fatal());
}

#[test]
fn malformed_descriptor_shapes() {
    let mut cx = KeymapCx::new(test_registry());
    let text = r#"[{"bindings": {
        "k1": ["quit", 1, 2],
        "k2": ["quit"],
        "k3": 7,
        "k4": true
    }}]"#;
    let r = load(text, &mut cx);
    assert!(r.is_ok());
    assert_eq!(cx.bindings().len(), 0);
    assert_eq!(cx.skipped().len(), 4);
    for s in cx.skipped() {
        assert_eq!(s.error, LoadError::MalformedDescriptor);
    }
}

#[test]
fn cardinality_counts_only_resolvable() {
    let mut cx = KeymapCx::new(test_registry());
    let text = r#"[
        {"bindings": {"a": "quit", "b": "nope", "c": null}},
        {"context": "editor", "bindings": {"d": 3, "e": ["select_range", {"from": 1, "to": 2}]}}
    ]"#;
    let r = load(text, &mut cx);
    assert!(r.is_ok());
    assert_eq!(cx.bindings().len(), 3);
    assert_eq!(cx.skipped().len(), 2);
    let keys: Vec<&str> = cx.bindings().iter().map(|b| b.keystroke.as_str()).collect();
    assert_eq!(keys, vec!["a", "c", "e"]);
}

#[test]
fn loading_twice_gives_equal_tables() {
    let text = r#"[
        {"bindings": {"a": "quit", "b": ["select_range", {"from": 2, "to": 9}], "c": "nope"}},
        {"context": "pane", "bindings": {"d": null}}
    ]"#;
    let mut cx1 = KeymapCx::new(test_registry());
    let mut cx2 = KeymapCx::new(test_registry());
    assert!(load(text, &mut cx1).is_ok());
    assert!(load(text, &mut cx2).is_ok());
    assert_eq!(cx1.bindings(), cx2.bindings());
    assert_eq!(cx1.skipped(), cx2.skipped());
    // loading again into the first context replaces, not extends
    assert!(load(text, &mut cx1).is_ok());
    assert_eq!(cx1.bindings(), cx2.bindings());
}

#[test]
fn zero_payload_round_trip() {
    let mut r = Registry::new();
    r.register("alpha".to_string(), PayloadShape::NoPayload);
    r.register("beta".to_string(), PayloadShape::NoPayload);
    let mut cx = KeymapCx::new(r);
    let text = r#"[{"bindings": {"k1": "alpha", "k2": "beta", "k3": "no_op"}}]"#;
    assert!(load(text, &mut cx).is_ok());
    assert_eq!(cx.bindings().len(), 3);
    let names: Vec<&str> = cx.bindings().iter().map(|b| b.action.name()).collect();
    assert_eq!(names, vec!["alpha", "beta", "no_op"]);
}

#[test]
fn comments_and_trailing_commas_tolerated() {
    let v = parse_json_with_comments(
        "// a comment\n[1, 2, /* inline */ \"x\",] // trailing comma above",
    )
    .unwrap();
    assert_eq!(
        v,
        JsonValue::Array(vec![
            JsonValue::Int(1),
            JsonValue::Int(2),
            JsonValue::Str("x".to_string()),
        ])
    );
}

#[test]
fn unknown_command_is_recorded() {
    let mut cx = KeymapCx::new(test_registry());
    assert!(load(r#"[{"bindings": {"x": "nope"}}]"#, &mut cx).is_ok());
    assert_eq!(cx.bindings().len(), 0);
    assert_eq!(
        cx.skipped()[0].error,
        LoadError::Resolve(ResolveError::UnknownCommand("nope".to_string()))
    );
}

#[test]
fn no_op_sentinel_resolves_without_registry() {
    let empty = Registry::new();
    let r = empty.resolve("no_op", None);
    assert_eq!(r, Ok(ResolvedCommand::NoOp));
    // with a payload the sentinel goes through the registry like any name
    let r2 = empty.resolve("no_op", Some(JsonValue::Int(1)));
    assert_eq!(r2, Err(ResolveError::UnknownCommand("no_op".to_string())));
}

#[test]
fn payload_required_and_shape_checked() {
    let reg = test_registry();
    assert_eq!(reg.resolve("select_range", None), Err(ResolveError::PayloadMismatch));
    let missing_field = JsonValue::Object(vec![("from".to_string(), JsonValue::Int(0))]);
    assert_eq!(reg.resolve("select_range", Some(missing_field)), Err(ResolveError::PayloadMismatch));
    let extra_field = JsonValue::Object(vec![
        ("from".to_string(), JsonValue::Int(0)),
        ("to".to_string(), JsonValue::Int(5)),
        ("x".to_string(), JsonValue::Int(1)),
    ]);
    assert_eq!(reg.resolve("select_range", Some(extra_field)), Err(ResolveError::PayloadMismatch));
    let not_an_object = JsonValue::Str("0..5".to_string());
    assert_eq!(reg.resolve("select_range", Some(not_an_object)), Err(ResolveError::PayloadMismatch));
    let wrong_type = JsonValue::Object(vec![
        ("from".to_string(), JsonValue::Str("0".to_string())),
        ("to".to_string(), JsonValue::Int(5)),
    ]);
    assert_eq!(reg.resolve("select_range", Some(wrong_type)), Err(ResolveError::PayloadMismatch));
    let good = JsonValue::Object(vec![
        ("to".to_string(), JsonValue::Int(5)),
        ("from".to_string(), JsonValue::Int(0)),
    ]);
    assert_eq!(
        reg.resolve("select_range", Some(good)),
        Ok(ResolvedCommand::Act {
            name: "select_range".to_string(),
            payload: CommandPayload::Ints(vec![("from".to_string(), 0), ("to".to_string(), 5)]),
        })
    );
}

#[test]
fn any_payload_kind_keeps_value() {
    let reg = test_registry();
    let r = reg.resolve("paste", Some(JsonValue::Str("clip".to_string())));
    assert_eq!(
        r,
        Ok(ResolvedCommand::Act {
            name: "paste".to_string(),
            payload: CommandPayload::Dynamic(JsonValue::Str("clip".to_string())),
        })
    );
    assert_eq!(reg.resolve("paste", None), Err(ResolveError::PayloadMismatch));
}

#[test]
fn structural_errors_fail_the_load() {
    let mut cx = KeymapCx::new(test_registry());
    assert_eq!(
        load(r#"{"bindings": {}}"#, &mut cx),
        Err(LoadError::Schema(SchemaError::TopLevelNotSequence))
    );
    assert_eq!(load(r#"[3]"#, &mut cx), Err(LoadError::Schema(SchemaError::BlockNotObject)));
    assert_eq!(load(r#"[{}]"#, &mut cx), Err(LoadError::Schema(SchemaError::BindingsNotMap)));
    assert_eq!(
        load(r#"[{"bindings": 4}]"#, &mut cx),
        Err(LoadError::Schema(SchemaError::BindingsNotMap))
    );
    assert_eq!(
        load(r#"[{"context": 3, "bindings": {}}]"#, &mut cx),
        Err(LoadError::Schema(SchemaError::ContextNotString))
    );
    assert_eq!(cx.bindings().len(), 0);
}

#[test]
fn duplicate_binding_is_structural() {
    let v = JsonValue::Array(vec![JsonValue::Object(vec![(
        "bindings".to_string(),
        JsonValue::Object(vec![
            ("k".to_string(), JsonValue::Null),
            ("k".to_string(), JsonValue::Str("quit".to_string())),
        ]),
    )])]);
    assert!(matches!(KeymapFile::from_value(v), Err(SchemaError::DuplicateBinding)));
}

#[test]
fn null_context_means_absent() {
    let mut cx = KeymapCx::new(test_registry());
    assert!(load(r#"[{"context": null, "bindings": {"a": "quit"}}]"#, &mut cx).is_ok());
    assert_eq!(cx.bindings()[0].context, None);
}

#[test]
fn parse_exposes_blocks() {
    let f = KeymapFile::parse(r#"[{"context": "editor", "bindings": {"a": "quit"}}]"#).unwrap();
    assert_eq!(f.blocks().len(), 1);
    let b = &f.blocks()[0];
    assert_eq!(b.context(), &Some("editor".to_string()));
    assert_eq!(b.bindings().len(), 1);
    assert_eq!(b.bindings()[0].0, "a");
    assert_eq!(b.bindings()[0].1 .0, JsonValue::Str("quit".to_string()));
}

#[test]
fn schema_document_shape() {
    let s = schema_for_binding_file();
    match s {
        SchemaNode::SequenceOf(block) => match *block {
            SchemaNode::Record(fields) => {
                assert_eq!(fields.len(), 2);
                assert_eq!(fields[0].name, "context");
                assert!(!fields[0].required);
                assert!(matches!(fields[0].schema, SchemaNode::Text));
                assert_eq!(fields[1].name, "bindings");
                assert!(fields[1].required);
                match &fields[1].schema {
                    SchemaNode::MapOf(inner) => {
                        assert!(matches!(**inner, SchemaNode::Anything));
                    },
                    other => panic!("bindings schema is not a mapping: {other:?}"),
                }
            },
            other => panic!("block schema is not a record: {other:?}"),
        },
        other => panic!("file schema is not a sequence: {other:?}"),
    }
}

#[test]
fn result_ext_passes_values_through() {
    let ok: Result<u32, String> = Ok(4);
    let err: Result<u32, String> = Err("gone".to_string());
    assert_eq!(ok.log_err(), Some(4));
    assert_eq!(err.log_err(), None);
    let ok2: Result<u32, String> = Ok(5);
    let err2: Result<u32, String> = Err("gone".to_string());
    assert_eq!(ok2.warn_on_err(), Some(5));
    assert_eq!(err2.warn_on_err(), None);
    let ok3: Result<u32, String> = Ok(6);
    assert_eq!(ok3.debug_assert_ok("always fine"), Ok(6));
}

#[test]
fn numbers_outside_i64_keep_their_text() {
    let v = parse_json_with_comments("[1.5, 18446744073709551615]").unwrap();
    match v {
        JsonValue::Array(items) => {
            assert!(matches!(&items[0], JsonValue::Num(_)));
            assert!(matches!(&items[1], JsonValue::Num(_)));
        },
        other => panic!("not an array: {other:?}"),
    }
}
