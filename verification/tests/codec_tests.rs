//! Tests of the JSON wire codec: query encoding, response decoding, and
//! the JSON value layer they share.

use archive_client::client::decode_response;
use archive_client::codec::encode_query_text;
use archive_client::json::{parse_json_text, render_json, Json};
use archive_client::model::{Error, FieldsQuery, Query, TxFields, TxQuery};

fn full_query() -> Query {
    Query {
        from_block: 5,
        to_block: Some(9),
        fields: Some(FieldsQuery { transaction: Some(TxFields { hash: true }) }),
        transactions: vec![TxQuery {
            from: vec![],
            to: vec!["0xabc".to_string()],
            sighash: vec![],
            logs: false,
            traces: true,
            state_diffs: false,
        }],
    }
}

#[test]
fn encode_full_query_text() {
    let text = encode_query_text(&full_query());
    assert_eq!(
        text,
        "{\"fromBlock\":5,\"toBlock\":9,\
         \"fields\":{\"transaction\":{\"hash\":true}},\
         \"transactions\":[{\"to\":[\"0xabc\"],\"logs\":false,\"traces\":true,\"stateDiffs\":false}]}"
    );
}

#[test]
fn encode_minimal_query_omits_optionals() {
    let q = Query { from_block: 0, to_block: None, fields: None, transactions: vec![] };
    let text = encode_query_text(&q);
    assert_eq!(text, "{\"fromBlock\":0}");
    assert!(!text.contains("null"));
    assert!(!text.contains("toBlock"));
    assert!(!text.contains("fields"));
    assert!(!text.contains("transactions"));
}

#[test]
fn encoded_query_parses_back() {
    let text = encode_query_text(&full_query());
    let parsed = parse_json_text(&text).expect("encoded query must parse");
    match parsed {
        Json::Obj(ms) => {
            assert_eq!(ms.len(), 4);
            assert_eq!(ms[0].0, "fromBlock");
            assert!(matches!(ms[0].1, Json::Num(5)));
            assert_eq!(ms[1].0, "toBlock");
            assert!(matches!(ms[1].1, Json::Num(9)));
            assert_eq!(ms[2].0, "fields");
            assert_eq!(ms[3].0, "transactions");
        },
        other => panic!("expected an object, got {:?}", other),
    }
}

#[test]
fn render_and_parse_json_round_trip() {
    let j = Json::Arr(vec![
        Json::Null,
        Json::Bool(true),
        Json::Num(18446744073709551615),
        Json::Str("a \"quoted\" \\ string".to_string()),
        Json::Obj(vec![("k".to_string(), Json::Arr(vec![]))]),
    ]);
    let text = render_json(&j);
    let back = parse_json_text(&text).expect("rendered text must parse");
    let again = render_json(&back);
    assert_eq!(text, again);
}

#[test]
fn parse_accepts_whitespace_between_tokens() {
    let r = parse_json_text(" [ 1 , {\"a\" : null} , \"x\" ] ").expect("must parse");
    match r {
        Json::Arr(es) => assert_eq!(es.len(), 3),
        other => panic!("expected an array, got {:?}", other),
    }
}

#[test]
fn parse_rejects_malformed_bodies() {
    assert!(parse_json_text("").is_none());
    assert!(parse_json_text("[1,]").is_none());
    assert!(parse_json_text("{\"a\":}").is_none());
    assert!(parse_json_text("nul").is_none());
    assert!(parse_json_text("18446744073709551616").is_none());
    assert!(parse_json_text("[1] trailing").is_none());
}

#[test]
fn decode_batch_shape() {
    let body = "[{\"header\":{\"number\":7,\"hash\":\"0xh\",\"parentHash\":\"0xp\"},\
                 \"transactions\":[{\"hash\":\"0xt\",\"transactionIndex\":3}]}]";
    let batch = decode_response(body).expect("array body is the batch variant");
    assert_eq!(batch.len(), 1);
    assert_eq!(batch[0].header.number, 7);
    assert_eq!(batch[0].header.hash, "0xh");
    assert_eq!(batch[0].header.parent_hash, "0xp");
    assert_eq!(batch[0].transactions.len(), 1);
    assert_eq!(batch[0].transactions[0].hash, "0xt");
    assert_eq!(batch[0].transactions[0].index, 3);
}

#[test]
fn decode_empty_batch() {
    let batch = decode_response("[]").expect("an empty array is an empty batch");
    assert!(batch.is_empty());
}

#[test]
fn decode_entry_without_transactions_defaults_to_empty() {
    let body = "[{\"header\":{\"number\":1,\"hash\":\"a\",\"parentHash\":\"b\"}}]";
    let batch = decode_response(body).expect("entry without transactions decodes");
    assert_eq!(batch.len(), 1);
    assert!(batch[0].transactions.is_empty());
}

#[test]
fn decode_failure_string_shape() {
    match decode_response("\"rate limited\"") {
        Err(Error::Message(m)) => assert_eq!(m, "rate limited"),
        other => panic!("expected a server message error, got {:?}", other),
    }
}

#[test]
fn decode_rejects_other_shapes() {
    assert!(matches!(decode_response("42"), Err(Error::Json(_))));
    assert!(matches!(decode_response("{\"a\":1}"), Err(Error::Json(_))));
    assert!(matches!(decode_response("not json"), Err(Error::Json(_))));
    assert!(matches!(decode_response("[{\"header\":{}}]"), Err(Error::Json(_))));
}

#[test]
fn encode_largest_from_block() {
    let q = Query {
        from_block: u64::MAX,
        to_block: None,
        fields: None,
        transactions: vec![],
    };
    assert_eq!(encode_query_text(&q), "{\"fromBlock\":18446744073709551615}");
}
