//! The wire codec: parsing, printing, and the round trip through the
//! envelope schema.

use gossip_glomers::json::{json_to_string, Json};
use gossip_glomers::parse::parse_json;
use gossip_glomers::proto::{decode_msg, from_line, msg_to_json, to_line, Op, Payload};

#[test]
fn parse_then_print_canonical_object() {
    let j = parse_json("  {\"a\" : [1, 2,3 ] , \"b\": null }  ").expect("parse");
    assert_eq!(json_to_string(&j), "{\"a\":[1,2,3],\"b\":null}");
}

#[test]
fn parse_handles_escapes() {
    let j = parse_json("\"a\\n\\t\\\\\\\"\\u0041b\"").expect("parse");
    match j {
        Json::Str(s) => assert_eq!(s, "a\n\t\\\"Ab"),
        _ => panic!("expected a string"),
    }
}

#[test]
fn printer_escapes_control_characters() {
    let j = Json::Str(String::from("x\ny\t\"z\\w\u{1}"));
    let s = json_to_string(&j);
    assert_eq!(s, "\"x\\ny\\t\\\"z\\\\w\\u0001\"");
    assert!(!s.contains('\n'));
    // And the parser reads the printed text back to the same value.
    match parse_json(&s).expect("reparse") {
        Json::Str(t) => assert_eq!(t, "x\ny\t\"z\\w\u{1}"),
        _ => panic!("expected a string"),
    }
}

#[test]
fn parse_rejects_malformed_text() {
    assert!(parse_json("").is_none());
    assert!(parse_json("{").is_none());
    assert!(parse_json("[1,]").is_none());
    assert!(parse_json("tru").is_none());
    assert!(parse_json("-1").is_none());
    assert!(parse_json("1.5").is_none());
    assert!(parse_json("18446744073709551616").is_none());
    assert!(parse_json("{\"a\":1} trailing").is_none());
}

#[test]
fn number_bounds() {
    match parse_json("18446744073709551615").expect("parse") {
        Json::Num(n) => assert_eq!(n, u64::MAX),
        _ => panic!("expected a number"),
    }
}

#[test]
fn decode_failures_are_decode_errors() {
    assert!(from_line("not json at all").is_err());
    assert!(from_line("{\"src\":\"a\",\"dest\":\"b\"}").is_err());
    assert!(from_line("{\"src\":\"a\",\"dest\":\"b\",\"body\":{\"type\":\"no_such_kind\"}}").is_err());
    assert!(from_line("{\"src\":\"a\",\"dest\":\"b\",\"body\":{\"type\":\"echo\"}}").is_err());
    // A broadcast carrying both a value and a batch is forbidden.
    assert!(from_line(
        "{\"src\":\"a\",\"dest\":\"b\",\"body\":{\"type\":\"broadcast\",\"message\":1,\"batch\":[2]}}"
    )
    .is_err());
}

#[test]
fn reencode_round_trip() {
    // An envelope with reordered fields, whitespace, an explicit null
    // and an unknown extra field decodes; re-encoding yields the
    // canonical object, which decodes to the same envelope.
    let line = "{\"body\":{\"in_reply_to\":null,\"type\":\"send\",\"msg\":9,\"key\":\"k1\",\"extra\":true,\"msg_id\":4},\"dest\":\"n1\",\"src\":\"c9\"}";
    let m = from_line(line).expect("decode");
    let canonical = to_line(&m);
    assert_eq!(
        canonical,
        "{\"src\":\"c9\",\"dest\":\"n1\",\"body\":{\"msg_id\":4,\"type\":\"send\",\"key\":\"k1\",\"msg\":9}}"
    );
    let again = from_line(&canonical).expect("re-decode");
    assert_eq!(again.src, m.src);
    assert_eq!(again.dst, m.dst);
    assert_eq!(again.body.id, m.body.id);
    assert_eq!(again.body.in_reply_to, m.body.in_reply_to);
    match (&again.body.payload, &m.body.payload) {
        (
            Payload::Send { key: k1, msg: m1, forwarded_for: f1 },
            Payload::Send { key: k2, msg: m2, forwarded_for: f2 },
        ) => {
            assert_eq!(k1, k2);
            assert_eq!(m1, m2);
            assert_eq!(f1, f2);
        },
        _ => panic!("expected send payloads"),
    }
}

#[test]
fn txn_ops_encode_as_triples() {
    let m = from_line(
        "{\"src\":\"c1\",\"dest\":\"n1\",\"body\":{\"type\":\"txn\",\"msg_id\":3,\"txn\":[[\"w\",1,5],[\"r\",1,null],[\"r\",2,null]]}}",
    )
    .expect("decode");
    match &m.body.payload {
        Payload::Txn { txn } => {
            assert_eq!(txn.len(), 3);
            assert_eq!(txn[0], Op::Write { key: 1, value: 5 });
            assert_eq!(txn[1], Op::Read { key: 1, value: None });
            assert_eq!(txn[2], Op::Read { key: 2, value: None });
        },
        _ => panic!("expected txn"),
    }
    assert_eq!(
        to_line(&m),
        "{\"src\":\"c1\",\"dest\":\"n1\",\"body\":{\"msg_id\":3,\"type\":\"txn\",\"txn\":[[\"w\",1,5],[\"r\",1,null],[\"r\",2,null]]}}"
    );
}

#[test]
fn forwarded_for_is_elided_when_absent() {
    let m = from_line(
        "{\"src\":\"c1\",\"dest\":\"n1\",\"body\":{\"type\":\"send_ok\",\"msg_id\":1,\"in_reply_to\":2,\"offset\":0}}",
    )
    .expect("decode");
    let s = to_line(&m);
    assert!(!s.contains("forwarded_for"));
    let m2 = from_line(
        "{\"src\":\"c1\",\"dest\":\"n1\",\"body\":{\"type\":\"send_ok\",\"msg_id\":1,\"in_reply_to\":2,\"offset\":0,\"forwarded_for\":[\"c7\",12]}}",
    )
    .expect("decode");
    match &m2.body.payload {
        Payload::SendOk { offset, forwarded_for } => {
            assert_eq!(*offset, 0);
            assert_eq!(forwarded_for.as_ref().expect("tuple").0, "c7");
            assert_eq!(forwarded_for.as_ref().expect("tuple").1, 12);
        },
        _ => panic!("expected send_ok"),
    }
    assert!(to_line(&m2).contains("\"forwarded_for\":[\"c7\",12]"));
}

#[test]
fn output_lines_never_hold_newlines() {
    let m = from_line(
        "{\"src\":\"c1\",\"dest\":\"n1\",\"body\":{\"type\":\"echo\",\"msg_id\":1,\"echo\":\"line\\nbreak\"}}",
    )
    .expect("decode");
    let s = to_line(&m);
    assert!(!s.contains('\n'));
    let again = from_line(&s).expect("re-decode");
    match &again.body.payload {
        Payload::Echo { echo } => assert_eq!(echo, "line\nbreak"),
        _ => panic!("expected echo"),
    }
}

#[test]
fn msg_to_json_matches_to_line() {
    let m = from_line(
        "{\"src\":\"c1\",\"dest\":\"n1\",\"body\":{\"type\":\"read\",\"msg_id\":5}}",
    )
    .expect("decode");
    let j = msg_to_json(&m);
    assert_eq!(json_to_string(&j), to_line(&m));
    assert!(decode_msg(&j).is_ok());
}

#[test]
fn whitespace_and_field_order_are_insignificant() {
    let m = from_line(
        " { \"dest\" : \"n1\" ,\t\"src\" : \"c1\" , \"body\" : { \"echo\" : \"hi\" , \"type\" : \"echo\" , \"msg_id\" : 2 } } ",
    )
    .expect("decode");
    assert_eq!(m.src, "c1");
    assert_eq!(m.dst, "n1");
    assert_eq!(m.body.id, Some(2));
    match &m.body.payload {
        Payload::Echo { echo } => assert_eq!(echo, "hi"),
        _ => panic!("expected echo"),
    }
}
