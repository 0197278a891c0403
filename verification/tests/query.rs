use influxrs::{FloatText, GroupMode, OnEmpty, Query, Selection, Stage, TypeValue};

fn strings(items: &[&str]) -> Vec<String> {
    items.iter().map(|s| s.to_string()).collect()
}

#[test]
fn empty_query_is_empty_text() {
    assert_eq!(Query::empty().to_string(), "");
}

#[test]
fn three_appended_stages() {
    let q = Query::empty()
        .append(Stage::From { bucket: "server".to_string() })
        .append(Stage::Range { start: 100, stop: Some(200) })
        .append(Stage::Filter { predicate: "X".to_string(), on_empty: Some(OnEmpty::Drop) });
    assert_eq!(
        q.to_string(),
        "from(bucket: \"server\")\n |> range(start: 100, stop: 200)\n |> filter(fn: X, onEmpty: \"drop\")"
    );
}

#[test]
fn new_and_then() {
    let q = Query::new(r#"from(bucket: "example_bucket")"#)
        .then(r#"filter(fn: (r) => r["_measurement"] == "example_measurement")"#);
    assert_eq!(
        q.to_string(),
        "from(bucket: \"example_bucket\")\n |> filter(fn: (r) => r[\"_measurement\"] == \"example_measurement\")"
    );
}

#[test]
fn raw_strips_leading_pipe_and_trims() {
    let q = Query::raw("from(bucket: \"server\")\n|> range(start: 1)\r\n|>keys()  \n");
    assert_eq!(q, Query::new("from(bucket: \"server\")").then("range(start: 1)").then("keys()"));
    assert_eq!(q.to_string(), "from(bucket: \"server\")\n |> range(start: 1)\n |> keys()");
}

#[test]
fn raw_keeps_a_pipe_behind_white_space() {
    let q = Query::raw("a\n   |> b");
    assert_eq!(q, Query::new("a").then("|> b"));
}

#[test]
fn raw_edge_cases() {
    assert_eq!(Query::raw(""), Query::empty());
    assert_eq!(Query::raw("\n"), Query::new(""));
    assert_eq!(Query::raw("a\n\nb"), Query::new("a").then("").then("b"));
    assert_eq!(Query::raw("\u{3000}a\u{a0}"), Query::new("a"));
    assert_eq!(Query::raw("|"), Query::new("|"));
    assert_eq!(Query::raw("|>"), Query::new(""));
}

#[test]
fn stage_forms() {
    let text = |s: Stage| s.to_string();
    assert_eq!(text(Stage::From { bucket: "B".into() }), "from(bucket: \"B\")");
    assert_eq!(text(Stage::Range { start: -5, stop: None }), "range(start: -5)");
    assert_eq!(text(Stage::Range { start: 1, stop: Some(2) }), "range(start: 1, stop: 2)");
    assert_eq!(text(Stage::Filter { predicate: "(r) => true".into(), on_empty: None }), "filter(fn: (r) => true)");
    assert_eq!(
        text(Stage::Filter { predicate: "E".into(), on_empty: Some(OnEmpty::Keep) }),
        "filter(fn: E, onEmpty: \"keep\")"
    );
    assert_eq!(
        text(Stage::Group { columns: strings(&["a", "b"]), mode: None }),
        "group(columns: [\"a\", \"b\"])"
    );
    assert_eq!(
        text(Stage::Group { columns: strings(&["a"]), mode: Some(GroupMode::By) }),
        "group(columns: [\"a\"], mode: \"by\")"
    );
    assert_eq!(
        text(Stage::Group { columns: strings(&[]), mode: Some(GroupMode::Except) }),
        "group(columns: [], mode: \"except\")"
    );
    assert_eq!(text(Stage::Yield { name: "N".into() }), "yield(name: \"N\")");
    assert_eq!(text(Stage::Keep(Selection::Columns(strings(&["x", "y"])))), "keep(columns: [\"x\", \"y\"])");
    assert_eq!(text(Stage::Keep(Selection::Predicate("p".into()))), "keep(fn: \"p\")");
    assert_eq!(text(Stage::Drop(Selection::Columns(strings(&["x"])))), "drop(columns: [\"x\"])");
    assert_eq!(text(Stage::Drop(Selection::Predicate("p".into()))), "drop(fn: \"p\")");
    assert_eq!(text(Stage::Tail { n: 10, offset: None }), "tail(n: 10)");
    assert_eq!(text(Stage::Tail { n: 10, offset: Some(3) }), "tail(n: 10, offset: 3)");
    assert_eq!(text(Stage::Distinct { column: "C".into() }), "distinct(column: \"C\")");
    assert_eq!(text(Stage::Max), "max()");
    assert_eq!(text(Stage::Min), "min()");
    assert_eq!(text(Stage::Limit { n: 0, offset: None }), "limit(n: 0)");
    assert_eq!(text(Stage::Limit { n: 7, offset: Some(18446744073709551615) }), "limit(n: 7, offset: 18446744073709551615)");
    assert_eq!(text(Stage::SetValue { key: "K".into(), value: "V".into() }), "set(key: \"K\", value: \"V\")");
    assert_eq!(text(Stage::Sort { columns: None, desc: None }), "sort()");
    assert_eq!(text(Stage::Sort { columns: Some(strings(&["a"])), desc: None }), "sort(columns: [\"a\"])");
    assert_eq!(text(Stage::Sort { columns: None, desc: Some(true) }), "sort(desc: true)");
    assert_eq!(
        text(Stage::Sort { columns: Some(strings(&["a", "b"])), desc: Some(false) }),
        "sort(columns: [\"a\", \"b\"], desc: false)"
    );
    assert_eq!(text(Stage::Count { column: None }), "count()");
    assert_eq!(text(Stage::Count { column: Some("C".into()) }), "count(column: \"C\")");
    assert_eq!(text(Stage::Buckets), "buckets()");
    assert_eq!(
        text(Stage::Integral { unit: "10s".into(), column: None, time_column: None }),
        "integral(unit: 10s)"
    );
    assert_eq!(
        text(Stage::Integral { unit: "1m".into(), column: Some("C".into()), time_column: Some("T".into()) }),
        "integral(unit: 1m, column: \"C\", timeColumn: \"T\")"
    );
    assert_eq!(
        text(Stage::Integral { unit: "1m".into(), column: None, time_column: Some("T".into()) }),
        "integral(unit: 1m, timeColumn: \"T\")"
    );
    assert_eq!(
        text(Stage::Duplicate { column: "C".into(), as_name: "A".into() }),
        "duplicate(column: \"C\", as: \"A\")"
    );
    assert_eq!(text(Stage::Keys { column: None }), "keys()");
    assert_eq!(text(Stage::Keys { column: Some("C".into()) }), "keys(column: \"C\")");
    assert_eq!(
        text(Stage::Pivot {
            row_key: strings(&["_time"]),
            column_key: strings(&["_field", "tag"]),
            value_column: "_value".into()
        }),
        "pivot(rowKey: [\"_time\"], columnKey: [\"_field\", \"tag\"], valueColumn: \"_value\")"
    );
}

#[test]
fn contains_forms() {
    let s = Stage::Contains {
        value: TypeValue::Integer(-3),
        set: vec![TypeValue::Integer(1), TypeValue::Integer(-3), TypeValue::Integer(5)],
    };
    assert_eq!(s.to_string(), "contains(value: -3, set: [1, -3, 5])");
    let s = Stage::Contains {
        value: TypeValue::String("a".into()),
        set: vec![TypeValue::String("a".into()), TypeValue::String("b".into())],
    };
    assert_eq!(s.to_string(), "contains(value: \"a\", set: [\"a\", \"b\"])");
    let s = Stage::Contains { value: TypeValue::Bool(true), set: vec![] };
    assert_eq!(s.to_string(), "contains(value: true, set: [])");
}

#[test]
fn scalar_forms() {
    assert_eq!(TypeValue::Bool(false).to_string(), "false");
    assert_eq!(TypeValue::Integer(i128::MIN).to_string(), format!("{}", i128::MIN));
    assert_eq!(TypeValue::UInteger(u128::MAX).to_string(), format!("{}", u128::MAX));
    assert_eq!(TypeValue::Float(FloatText::parse("2.5").unwrap()).to_string(), "2.5");
    assert_eq!(TypeValue::String("x y".into()).to_string(), "\"x y\"");
    assert_eq!(TypeValue::Time(1613052000).to_string(), "1613052000");
    assert_eq!(TypeValue::Time(-1).to_string(), "-1");
}

#[test]
fn keep_and_drop_from_one_of_two() {
    assert_eq!(
        Stage::keep(Some(strings(&["a"])), None),
        Stage::Keep(Selection::Columns(strings(&["a"])))
    );
    assert_eq!(Stage::keep(None, Some("p".into())), Stage::Keep(Selection::Predicate("p".into())));
    assert_eq!(
        Stage::drop(Some(strings(&["a"])), None),
        Stage::Drop(Selection::Columns(strings(&["a"])))
    );
    assert_eq!(Stage::drop(None, Some("p".into())), Stage::Drop(Selection::Predicate("p".into())));
}

#[test]
fn append_adds_pipe_and_stage() {
    let a = Stage::Max;
    let b = Stage::Count { column: None };
    let qa = Query::empty().append(a.clone());
    let qab = Query::empty().append(a).append(b.clone());
    assert_eq!(qab.to_string(), format!("{}\n |> {}", qa.to_string(), b.to_string()));
}

#[test]
fn stages_from_owned_strings() {
    let bucket = "b";
    let q = Query::new(format!("from(bucket: \"{}\")", bucket)).then(String::from("keys()"));
    assert_eq!(q.to_string(), "from(bucket: \"b\")\n |> keys()");
    assert_eq!(Query::raw(String::from("a\n|> b")).to_string(), "a\n |> b");
}
