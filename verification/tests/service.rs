use csv_to_json::convert::convert;
use csv_to_json::http::{handle, internal_error, not_found, route, status_of};
use csv_to_json::json::to_json;
use csv_to_json::records::{ConversionFailure, MalformedKind};

fn v(s: &str) -> Vec<u8> {
    s.as_bytes().to_vec()
}

#[test]
fn check_csv_parser() {
    let csv = bytes::Bytes::from(
        &b"city,country,pop\nBoston,United States,4628910\nAustin,United States,964254"[..],
    );
    let rs = convert(&csv.to_vec()).unwrap();
    let json: serde_json::Value = serde_json::from_slice(&to_json(&rs)).unwrap();
    assert_eq!(
        json,
        serde_json::from_str::<serde_json::value::Value>(
            "[
            {\"city\":\"Boston\",\"country\":\"United States\",\"pop\":\"4628910\"},
            {\"city\":\"Austin\",\"country\":\"United States\",\"pop\":\"964254\"}
        ]"
        )
        .unwrap()
    );
}

#[test]
fn header_and_rows_in_order() {
    let rs = convert(&v("a,b\n1,2\n3,4\n5,6")).unwrap();
    assert_eq!(rs.columns, vec![v("a"), v("b")]);
    assert_eq!(rs.len(), 3);
    assert_eq!(rs.records.len(), 3);
    assert_eq!(rs.records[0].values, vec![v("1"), v("2")]);
    assert_eq!(rs.records[1].values, vec![v("3"), v("4")]);
    assert_eq!(rs.records[2].values, vec![v("5"), v("6")]);
    for rec in &rs.records {
        assert_eq!(rec.columns, rs.columns);
    }
}

#[test]
fn header_only_yields_empty_set() {
    let rs = convert(&v("a,b,c")).unwrap();
    assert_eq!(rs.columns, vec![v("a"), v("b"), v("c")]);
    assert_eq!(rs.records.len(), 0);
    assert_eq!(to_json(&rs), v("[]"));
}

#[test]
fn empty_input_yields_empty_array() {
    let resp = handle(&v(""));
    assert_eq!(resp.status, 200);
    assert_eq!(resp.body, v("[]"));
}

#[test]
fn schema_mismatch_reports_first_bad_row() {
    let err = convert(&v("a,b\n1,2,3")).unwrap_err();
    assert_eq!(
        err,
        ConversionFailure::SchemaMismatch { row: 1, found: 3, expected: 2 }
    );
    assert_eq!(err.message(), v("record 1 has 3 fields, expected 2"));
    let err = convert(&v("a,b\n1,2\n1\n1,2,3")).unwrap_err();
    assert_eq!(
        err,
        ConversionFailure::SchemaMismatch { row: 2, found: 1, expected: 2 }
    );
}

#[test]
fn mismatch_maps_to_bad_request() {
    let resp = handle(&v("a,b\n1,2,3"));
    assert_eq!(resp.status, 400);
    let body: serde_json::Value = serde_json::from_slice(&resp.body).unwrap();
    assert_eq!(body["code"], serde_json::Value::from(400u16));
    assert_eq!(
        body["message"],
        serde_json::Value::from("record 1 has 3 fields, expected 2")
    );
}

#[test]
fn round_trip_preserves_records() {
    let input = v("name,note\n\"with \"\"quote\"\"\",\"a,b\nc\\d\"\nplain,caf\u{e9}");
    let rs = convert(&input).unwrap();
    let json: serde_json::Value = serde_json::from_slice(&to_json(&rs)).unwrap();
    let arr = json.as_array().unwrap();
    assert_eq!(arr.len(), 2);
    assert_eq!(arr[0]["name"], serde_json::Value::from("with \"quote\""));
    assert_eq!(arr[0]["note"], serde_json::Value::from("a,b\nc\\d"));
    assert_eq!(arr[1]["name"], serde_json::Value::from("plain"));
    assert_eq!(arr[1]["note"], serde_json::Value::from("caf\u{e9}"));
    for (i, rec) in rs.records.iter().enumerate() {
        let obj = arr[i].as_object().unwrap();
        assert_eq!(obj.len(), rec.columns.len());
        for (c, val) in rec.columns.iter().zip(rec.values.iter()) {
            let key = String::from_utf8(c.clone()).unwrap();
            let want = String::from_utf8(val.clone()).unwrap();
            assert_eq!(obj[&key], serde_json::Value::from(want));
        }
    }
}

#[test]
fn convert_twice_same_result() {
    let input = v("a,b\n1,2\n3,4");
    let first = convert(&input).unwrap();
    let second = convert(&input).unwrap();
    assert_eq!(to_json(&first), to_json(&second));
    let bad = v("a,b\n1");
    assert_eq!(convert(&bad).unwrap_err(), convert(&bad).unwrap_err());
}

#[test]
fn scenario_two_city_rows() {
    let resp = handle(&v(
        "city,country,pop\nBoston,United States,4628910\nAustin,United States,964254",
    ));
    assert_eq!(resp.status, 200);
    let got: serde_json::Value = serde_json::from_slice(&resp.body).unwrap();
    let want: serde_json::Value = serde_json::from_str(
        "[{\"city\":\"Boston\",\"country\":\"United States\",\"pop\":\"4628910\"},{\"city\":\"Austin\",\"country\":\"United States\",\"pop\":\"964254\"}]",
    )
    .unwrap();
    assert_eq!(got, want);
}

#[test]
fn scenario_wrong_method_not_found() {
    let resp = route(&v("GET"), &v("/csv_to_json"), &v(""));
    assert_eq!(resp.status, 404);
    assert_eq!(resp.body, v("{\"code\":404,\"message\":\"NOT_FOUND\"}"));
}

#[test]
fn route_dispatches_post() {
    let resp = route(&v("POST"), &v("/csv_to_json"), &v("a\n1"));
    assert_eq!(resp.status, 200);
    assert_eq!(resp.body, v("[{\"a\":\"1\"}]"));
    let resp = route(&v("POST"), &v("/other"), &v("a\n1"));
    assert_eq!(resp.status, 404);
}

#[test]
fn not_found_and_internal_envelopes() {
    let resp = not_found();
    assert_eq!(resp.status, 404);
    assert_eq!(resp.body, v("{\"code\":404,\"message\":\"NOT_FOUND\"}"));
    let resp = internal_error();
    assert_eq!(resp.status, 500);
    assert_eq!(resp.body, v("{\"code\":500,\"message\":\"UNHANDLED_REJECTION\"}"));
}

#[test]
fn unterminated_quote_fails() {
    let err = convert(&v("a,b\n\"x,y")).unwrap_err();
    assert_eq!(
        err,
        ConversionFailure::MalformedInput { kind: MalformedKind::UnterminatedQuote }
    );
    assert_eq!(err.message(), v("unterminated quoted field"));
}

#[test]
fn byte_after_closing_quote_fails() {
    let err = convert(&v("a\n\"x\"y")).unwrap_err();
    assert_eq!(
        err,
        ConversionFailure::MalformedInput { kind: MalformedKind::UnexpectedQuote }
    );
    assert_eq!(err.message(), v("invalid data after closing quote"));
}

#[test]
fn invalid_utf8_fails() {
    let mut input = v("a\n");
    input.push(0xFF);
    let err = convert(&input).unwrap_err();
    assert_eq!(
        err,
        ConversionFailure::MalformedInput { kind: MalformedKind::InvalidEncoding }
    );
    assert_eq!(err.message(), v("input is not valid UTF-8"));
    let overlong = vec![b'a', b'\n', 0xC0, 0x80];
    assert_eq!(
        convert(&overlong).unwrap_err(),
        ConversionFailure::MalformedInput { kind: MalformedKind::InvalidEncoding }
    );
}

#[test]
fn duplicate_column_fails() {
    let err = convert(&v("a,b,a\n1,2,3")).unwrap_err();
    assert_eq!(
        err,
        ConversionFailure::MalformedInput { kind: MalformedKind::DuplicateColumn }
    );
    assert_eq!(err.message(), v("duplicate column name in header"));
}

#[test]
fn quoted_fields_decode() {
    let rs = convert(&v("a,b\n\"x,\"\"y\"\"\nz\",w")).unwrap();
    assert_eq!(rs.records.len(), 1);
    assert_eq!(rs.records[0].values[0], v("x,\"y\"\nz"));
    assert_eq!(rs.records[0].values[1], v("w"));
}

#[test]
fn crlf_and_empty_lines_skipped() {
    let rs = convert(&v("a,b\r\n1,2\r\n\r\n3,4\r\n")).unwrap();
    assert_eq!(rs.records.len(), 2);
    assert_eq!(rs.records[0].values, vec![v("1"), v("2")]);
    assert_eq!(rs.records[1].values, vec![v("3"), v("4")]);
}

#[test]
fn trailing_newline_adds_no_row() {
    let rs = convert(&v("a\n1\n")).unwrap();
    assert_eq!(rs.records.len(), 1);
    assert_eq!(rs.records[0].values, vec![v("1")]);
}

#[test]
fn empty_fields_kept() {
    let rs = convert(&v("a,b\n,")).unwrap();
    assert_eq!(rs.records.len(), 1);
    assert_eq!(rs.records[0].values, vec![v(""), v("")]);
    assert_eq!(to_json(&rs), v("[{\"a\":\"\",\"b\":\"\"}]"));
}

#[test]
fn control_bytes_escaped_exactly() {
    let rs = convert(&v("a\n\"x\ny\"")).unwrap();
    assert_eq!(to_json(&rs), v("[{\"a\":\"x\\u000ay\"}]"));
}

#[test]
fn record_lookup_by_column() {
    let rs = convert(&v("a,b\n1,2")).unwrap();
    let rec = &rs.records[0];
    assert_eq!(rec.get(&v("a")), Some(&v("1")));
    assert_eq!(rec.get(&v("b")), Some(&v("2")));
    assert_eq!(rec.get(&v("c")), None);
}

#[test]
fn status_codes_by_failure() {
    assert_eq!(
        status_of(&ConversionFailure::MalformedInput { kind: MalformedKind::InvalidEncoding }),
        400
    );
    assert_eq!(
        status_of(&ConversionFailure::SchemaMismatch { row: 1, found: 2, expected: 3 }),
        400
    );
    assert_eq!(status_of(&ConversionFailure::InternalFailure), 500);
}

#[test]
fn mismatch_message_formats_counts() {
    let f = ConversionFailure::SchemaMismatch { row: 12045, found: 0, expected: 310 };
    assert_eq!(f.message(), v("record 12045 has 0 fields, expected 310"));
}
