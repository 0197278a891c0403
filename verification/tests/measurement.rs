use influxrs::{Entries, Field, FloatText, Measurement, MeasurementBuilderError, TagValue};

fn float(v: f64) -> Field {
    Field::Float(FloatText::parse(&format!("{}", v)).unwrap())
}

#[test]
fn field_from() {
    assert_eq!(Field::from(1_i8), Field::Integer(1));
    assert_eq!(Field::from(2_i16), Field::Integer(2));
    assert_eq!(Field::from(3_i32), Field::Integer(3));
    assert_eq!(Field::from(4_i64), Field::Integer(4));
    assert_eq!(Field::from(5_i128), Field::Integer(5));

    assert_eq!(Field::from(1_u8), Field::UInteger(1));
    assert_eq!(Field::from(2_u16), Field::UInteger(2));
    assert_eq!(Field::from(3_u32), Field::UInteger(3));
    assert_eq!(Field::from(4_u64), Field::UInteger(4));
    assert_eq!(Field::from(5_u128), Field::UInteger(5));

    assert_eq!(float(1.5_f32 as f64), Field::Float(FloatText::parse("1.5").unwrap()));
    assert_eq!(float(2.5_f64), Field::Float(FloatText::parse("2.5").unwrap()));

    assert_eq!(Field::from(true), Field::Bool(true));
    assert_eq!(Field::from(false), Field::Bool(false));

    assert_eq!(Field::from("s".to_string()), Field::String("s".to_string()));
}

#[test]
fn measurement() {
    let m = Measurement::builder("example_measurement")
        .tag("tag_1", "tag_value_1")
        .tag("tag_2", "tag_value_2")
        .field("bool_field", true)
        .field("uinteger_field", 100_u16)
        .field("integer_field", -100)
        .field("float_field", float(10.123))
        .field("string_field", "string_value")
        .timestamp_ms(1602321877560)
        .build()
        .unwrap();

    println!("{:?}", m);

    assert_eq!(
        m,
        Measurement::new(
            "example_measurement".to_string(),
            1602321877560,
            Entries::from_pairs(
                vec![("tag_1", "tag_value_1"), ("tag_2", "tag_value_2")]
                    .into_iter()
                    .map(|(name, value)| (name.to_string(), TagValue::new(value.to_string())))
                    .collect()
            ),
            Entries::from_pairs(
                vec![
                    ("bool_field", Field::Bool(true)),
                    ("uinteger_field", Field::UInteger(100)),
                    ("integer_field", Field::Integer(-100)),
                    ("float_field", float(10.123)),
                    ("string_field", Field::String("string_value".to_string()))
                ]
                .into_iter()
                .map(|(name, value)| (name.to_string(), value))
                .collect()
            ),
        )
        .unwrap()
    );
}

#[test]
fn measurement_escaping() {
    let m = Measurement::builder("example_measurement")
        .tag("agent", "KHTML, like Gecko")
        .field("count", float(1.0))
        .timestamp_ms(1602321877560)
        .build()
        .unwrap();

    assert_eq!(
        m.to_line_protocol(),
        r#"example_measurement,agent=KHTML\,\ like\ Gecko count=1 1602321877560"#,
    );
}

#[test]
fn line_of_one_tag_and_one_bool_field() {
    let m = Measurement::builder("m1")
        .tag("tag1", "v1")
        .field("f1", Field::Bool(true))
        .timestamp_ms(1000)
        .build()
        .unwrap();
    assert_eq!(m.to_line_protocol(), "m1,tag1=v1 f1=true 1000");
}

#[test]
fn build_without_fields_fails() {
    let r = Measurement::builder("m").tag("a", "b").timestamp_ms(5).build();
    assert!(matches!(r, Err(MeasurementBuilderError::EmptyFields)));
    let r = Measurement::builder("m").build();
    assert!(matches!(r, Err(MeasurementBuilderError::EmptyFields)));
}

#[test]
fn line_holds_tags_and_fields_in_order_of_their_names() {
    let m = Measurement::builder("example_measurement")
        .tag("tag_2", "tag_value_2")
        .tag("tag_1", "tag_value_1")
        .field("bool_field", true)
        .field("uinteger_field", 100_u16)
        .field("integer_field", -100)
        .field("float_field", float(10.123))
        .field("string_field", "string_value")
        .timestamp_ms(1602321877560)
        .build()
        .unwrap();
    assert_eq!(
        m.to_line_protocol(),
        "example_measurement,tag_1=tag_value_1,tag_2=tag_value_2 bool_field=true,float_field=10.123,integer_field=-100i,string_field=\"string_value\",uinteger_field=100u 1602321877560"
    );
}

#[test]
fn line_without_tags() {
    let m = Measurement::builder("m").field("f", 7_u64).timestamp_ms(0).build().unwrap();
    assert_eq!(m.to_line_protocol(), "m f=7u 0");
}

#[test]
fn line_holds_no_line_feed() {
    let m = Measurement::builder("cpu")
        .tag("host", "a b,c=d")
        .field("load", float(0.25))
        .field("note", "x,y z")
        .timestamp_ms(u128::MAX)
        .build()
        .unwrap();
    let line = m.to_line_protocol();
    assert!(!line.contains('\n'));
    assert_eq!(
        line,
        format!("cpu,host=a\\ b\\,c\\=d load=0.25,note=\"x,y z\" {}", u128::MAX)
    );
}

#[test]
fn a_name_given_twice_keeps_its_last_value() {
    let m = Measurement::builder("m")
        .tag("t", "first")
        .tag("t", "second")
        .field("f", 1_i32)
        .field("f", 2_i32)
        .timestamp_ms(3)
        .build()
        .unwrap();
    assert_eq!(m.to_line_protocol(), "m,t=second f=2i 3");
}

#[test]
fn add_tag_and_add_field() {
    let mut m = Measurement::builder("m").field("b", true).timestamp_ms(9).build().unwrap();
    m.add_field("a", 5_u8);
    m.add_tag("k", "v w");
    m.add_field("b", false);
    assert_eq!(m.to_line_protocol(), "m,k=v\\ w a=5u,b=false 9");
}

#[test]
fn same_parts_in_another_order_are_the_same_measurement() {
    let a = Measurement::builder("m")
        .tag("x", "1")
        .tag("y", "2")
        .field("p", 1_u8)
        .field("q", 2_u8)
        .timestamp_ms(1)
        .build()
        .unwrap();
    let b = Measurement::builder("m")
        .field("q", 2_u8)
        .tag("y", "2")
        .field("p", 1_u8)
        .tag("x", "1")
        .timestamp_ms(1)
        .build()
        .unwrap();
    assert_eq!(a, b);
    assert_eq!(a.to_line_protocol(), b.to_line_protocol());
}

#[test]
fn new_without_fields_fails() {
    let r = Measurement::new("m".to_string(), 1, Entries::new(), Entries::new());
    assert!(matches!(r, Err(MeasurementBuilderError::EmptyFields)));
}

#[test]
fn build_at_takes_the_time_given_unless_one_was_set() {
    let m = Measurement::builder("m").field("f", true).build_at(42).unwrap();
    assert_eq!(m.to_line_protocol(), "m f=true 42");
    let m = Measurement::builder("m").field("f", true).timestamp_ms(7).build_at(42).unwrap();
    assert_eq!(m.to_line_protocol(), "m f=true 7");
    let r = Measurement::builder("m").build_at(42);
    assert!(matches!(r, Err(MeasurementBuilderError::EmptyFields)));
}

#[test]
fn build_without_timestamp_reads_the_clock() {
    let m = Measurement::builder("m").field("f", true).build().unwrap();
    let line = m.to_line_protocol();
    let stamp: u128 = line.rsplit(' ').next().unwrap().parse().unwrap();
    // Later than the first day of 2020.
    assert!(stamp > 1_577_836_800_000);
}

#[test]
fn error_in_words() {
    assert_eq!(MeasurementBuilderError::EmptyFields.to_string(), "fields cannot be empty");
}

#[test]
fn field_texts() {
    assert_eq!(Field::Integer(-100).to_string(), "-100i");
    assert_eq!(Field::UInteger(100).to_string(), "100u");
    assert_eq!(Field::Bool(true).to_string(), "true");
    assert_eq!(Field::Bool(false).to_string(), "false");
    assert_eq!(Field::String("x".to_string()).to_string(), "\"x\"");
    assert_eq!(Field::String("a\"b".to_string()).to_string(), "\"a\"b\"");
    assert_eq!(float(10.123).to_string(), "10.123");
    assert_eq!(Field::Integer(0).to_string(), "0i");
    assert_eq!(Field::UInteger(0).to_string(), "0u");
    assert_eq!(Field::Integer(i128::MIN).to_string(), format!("{}i", i128::MIN));
    assert_eq!(Field::Integer(i128::MAX).to_string(), format!("{}i", i128::MAX));
    assert_eq!(Field::UInteger(u128::MAX).to_string(), format!("{}u", u128::MAX));
    assert_eq!(Field::UInteger(10).to_string(), "10u");
    assert_eq!(Field::UInteger(9).to_string(), "9u");
    assert_eq!(Field::from("text").to_string(), "\"text\"");
    assert_eq!(Field::from(FloatText::parse("-0.5").unwrap()).to_string(), "-0.5");
}

#[test]
fn float_texts() {
    for good in ["0", "1", "10.123", "-1.5", "-0", "NaN", "inf", "-inf", "0.0000001", "007"] {
        assert_eq!(FloatText::parse(good).map(|t| t.as_str().to_string()), Some(good.to_string()));
    }
    for bad in ["", "-", "1.", ".5", "1e5", "--1", "1.2.3", "+1", "abc", "nan", "1 ", " 1", "-.5", "1..2", "-inf ", "1\n"] {
        assert_eq!(FloatText::parse(bad), None);
    }
    for v in [0.0, -0.0, 1.0, 1.5, f64::MAX, f64::MIN, f64::MIN_POSITIVE, f64::EPSILON, 1e21, 1e-7, f64::NAN, f64::INFINITY, f64::NEG_INFINITY] {
        let text = format!("{}", v);
        assert_eq!(FloatText::parse(&text).map(|t| t.as_str().to_string()), Some(text));
    }
}

#[test]
fn tag_values_are_escaped() {
    assert_eq!(TagValue::new("KHTML, like Gecko".to_string()).as_str(), "KHTML\\,\\ like\\ Gecko");
    assert_eq!(TagValue::new("plain_value-1".to_string()).as_str(), "plain_value-1");
    assert_eq!(TagValue::new("a=b".to_string()).as_str(), "a\\=b");
    assert_eq!(TagValue::new("".to_string()).as_str(), "");
    assert_eq!(TagValue::new(", =".to_string()).as_str(), "\\,\\ \\=");
    assert_eq!(TagValue::new("back\\slash".to_string()).as_str(), "back\\slash");
    let raw = "x, y=z w";
    assert_eq!(
        TagValue::new(raw.to_string()).as_str(),
        raw.replace(',', "\\,").replace('=', "\\=").replace(' ', "\\ ")
    );
}

#[test]
fn names_from_owned_strings() {
    let mut m = Measurement::builder(String::from("m"))
        .tag(String::from("t"), String::from("a b"))
        .field(String::from("f"), String::from("text"))
        .timestamp_ms(1)
        .build()
        .unwrap();
    m.add_tag(String::from("u"), "v");
    m.add_field(String::from("g"), 2_u32);
    assert_eq!(m.to_line_protocol(), "m,t=a\\ b,u=v f=\"text\",g=2u 1");
}
