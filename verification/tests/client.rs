use influxrs::client::{authorization, query_url, write_payload, write_url};
use influxrs::response::{decode, is_success, query_response, records_of, split_tables, ResponseError};
use influxrs::{Entries, Field, Measurement};

#[test]
fn addresses() {
    assert_eq!(
        write_url("http://localhost:8086", "my org", "server"),
        "http://localhost:8086/api/v2/write?org=my org&bucket=server&precision=ms"
    );
    assert_eq!(query_url("http://h", "o"), "http://h/api/v2/query?org=o");
    assert_eq!(authorization("k3y"), "Token k3y");
}

#[test]
fn payload_joins_lines_with_line_feeds() {
    let a = Measurement::builder("a").field("x", 1_u8).timestamp_ms(1).build().unwrap();
    let b = Measurement::builder("b").field("y", -2_i8).timestamp_ms(2).build().unwrap();
    assert_eq!(write_payload(&[]), "");
    assert_eq!(write_payload(&[a.clone()]), "a x=1u 1");
    assert_eq!(write_payload(&[a, b]), "a x=1u 1\nb y=-2i 2");
}

#[test]
fn success_is_two_hundred_to_two_ninety_nine() {
    assert!(!is_success(199));
    assert!(is_success(200));
    assert!(is_success(204));
    assert!(is_success(299));
    assert!(!is_success(300));
    assert!(!is_success(404));
}

#[test]
fn tables_are_runs_of_trimmed_lines() {
    assert_eq!(split_tables(""), Vec::<String>::new());
    assert_eq!(split_tables("\n\n  \n"), Vec::<String>::new());
    assert_eq!(split_tables("a,b\r\n1,2\r\n\r\nc\r\n3\r\n"), vec!["a,b\n1,2".to_string(), "c\n3".to_string()]);
    assert_eq!(split_tables("  a  \n\n\n\n b"), vec!["a".to_string(), "b".to_string()]);
    assert_eq!(split_tables("\nx\ny"), vec!["x\ny".to_string()]);
}

#[test]
fn records_drop_the_column_without_header() {
    let rows = vec![vec![
        ("".to_string(), "".to_string()),
        ("result".to_string(), "_result".to_string()),
        ("table".to_string(), "0".to_string()),
    ]];
    let records = records_of(rows);
    assert_eq!(records.len(), 1);
    assert_eq!(records[0].len(), 2);
    assert_eq!(records[0].get(""), None);
    assert_eq!(records[0].get("result"), Some(&"_result".to_string()));
    assert_eq!(records[0].get("table"), Some(&"0".to_string()));
}

#[test]
fn decode_reads_each_table() {
    let body = ",result,table,_value\r\n,_result,0,1.5\r\n,_result,0,\"2,5\"\r\n\r\n,result,table,name\r\n,_result,1,abc\r\n\r\n";
    let records = decode(body).unwrap();
    assert_eq!(records.len(), 3);
    assert_eq!(records[0].get("_value"), Some(&"1.5".to_string()));
    assert_eq!(records[0].get("table"), Some(&"0".to_string()));
    assert_eq!(records[0].get(""), None);
    assert_eq!(records[0].len(), 3);
    assert_eq!(records[1].get("_value"), Some(&"2,5".to_string()));
    assert_eq!(records[2].get("name"), Some(&"abc".to_string()));
    assert_eq!(records[2].get("_value"), None);
    assert_eq!(records[2].name(0), "name");
    assert_eq!(records[2].name(1), "result");
    assert_eq!(records[2].name(2), "table");
}

#[test]
fn decode_of_nothing_is_no_record() {
    assert_eq!(decode("").unwrap().len(), 0);
    assert_eq!(decode("a,b\n").unwrap().len(), 0);
}

#[test]
fn decode_fails_on_a_record_of_another_length() {
    let r = decode("a,b\n1,2\n3\n");
    assert!(matches!(r, Err(ResponseError::CsvError(_))));
}

#[test]
fn query_response_by_status() {
    let r = query_response(404, "not found");
    match r {
        Err(ResponseError::NonSuccessResponse(status, body)) => {
            assert_eq!(status, 404);
            assert_eq!(body, "not found");
        }
        _ => panic!("expected a non-success response"),
    }
    let records = query_response(200, "a,b\n1,2\n").unwrap();
    assert_eq!(records.len(), 1);
    assert_eq!(records[0].get("a"), Some(&"1".to_string()));
    assert_eq!(records[0].get("b"), Some(&"2".to_string()));
}

#[test]
fn entries_keep_names_in_order_and_once() {
    let mut e: Entries<Field> = Entries::new();
    assert!(e.is_empty());
    e.insert("b".to_string(), Field::Bool(true));
    e.insert("a".to_string(), Field::Integer(1));
    e.insert("c".to_string(), Field::UInteger(2));
    e.insert("b".to_string(), Field::Bool(false));
    e.insert("ab".to_string(), Field::Integer(3));
    assert_eq!(e.len(), 4);
    assert_eq!(e.name(0), "a");
    assert_eq!(e.name(1), "ab");
    assert_eq!(e.name(2), "b");
    assert_eq!(e.name(3), "c");
    assert_eq!(e.value(2), &Field::Bool(false));
    assert_eq!(e.get("ab"), Some(&Field::Integer(3)));
    assert_eq!(e.get("d"), None);
    e.remove("a");
    e.remove("zz");
    assert_eq!(e.len(), 3);
    assert_eq!(e.name(0), "ab");
    let copy = e.clone();
    assert_eq!(copy, e);
}
