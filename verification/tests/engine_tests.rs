//! Tests of the stream engine's cursor and of the coordinator-facing
//! helpers: URL building, height parsing, worker acceptance and the
//! effective query.

use archive_client::client::{
    accept_base_url, accept_worker, effective_query, height_url, parse_height, worker_url,
};
use archive_client::engine::StreamState;
use archive_client::model::{Entry, Error, FieldsQuery, Header, Query, TxFields, TxQuery};

fn entry(number: u64) -> Entry {
    Entry {
        header: Header {
            number,
            hash: format!("0x{number}"),
            parent_hash: format!("0x{}", number.wrapping_sub(1)),
        },
        transactions: vec![],
    }
}

fn plain_query(from_block: u64) -> Query {
    Query { from_block, to_block: None, fields: None, transactions: vec![] }
}

#[test]
fn effective_query_overrides_from_block() {
    let q = Query {
        from_block: 12345,
        to_block: Some(100),
        fields: Some(FieldsQuery { transaction: Some(TxFields { hash: true }) }),
        transactions: vec![TxQuery {
            from: vec![],
            to: vec!["0xabc".to_string()],
            sighash: vec![],
            logs: false,
            traces: false,
            state_diffs: false,
        }],
    };
    let e = effective_query(99000, &q);
    assert_eq!(e.from_block, 99000);
    assert_eq!(e.to_block, Some(100));
    assert!(e.fields.is_some());
    assert_eq!(e.transactions.len(), 1);
    assert_eq!(e.transactions[0].to, vec!["0xabc".to_string()]);
}

#[test]
fn url_building() {
    assert_eq!(height_url("http://coordinator"), "http://coordinator/height");
    assert_eq!(worker_url("http://coordinator", 99000), "http://coordinator/99000/worker");
    assert_eq!(worker_url("http://c", 0), "http://c/0/worker");
}

#[test]
fn parse_height_accepts_decimal_u64() {
    assert_eq!(parse_height("100000").unwrap(), 100000);
    assert_eq!(parse_height("0").unwrap(), 0);
    assert_eq!(parse_height("+7").unwrap(), 7);
    assert_eq!(parse_height("18446744073709551615").unwrap(), u64::MAX);
}

#[test]
fn parse_height_rejects_non_numeric_text() {
    match parse_height("abc") {
        Err(Error::Height(t)) => assert_eq!(t, "abc"),
        other => panic!("expected a height parse error, got {:?}", other),
    }
    assert!(parse_height("").is_err());
    assert!(parse_height("12x").is_err());
    assert!(parse_height("-1").is_err());
    assert!(parse_height("18446744073709551616").is_err());
}

#[test]
fn worker_acceptance_checks_the_url() {
    let w = accept_worker("http://worker-7.example:8000".to_string()).unwrap();
    assert_eq!(w.url, "http://worker-7.example:8000");
    match accept_worker("not a url".to_string()) {
        Err(Error::Worker(t)) => assert_eq!(t, "not a url"),
        other => panic!("expected an invalid worker URL error, got {:?}", other),
    }
}

#[test]
fn base_url_acceptance() {
    assert_eq!(accept_base_url("http://coordinator.example").unwrap(), "http://coordinator.example");
    match accept_base_url("::nope::") {
        Err(Error::Message(m)) => assert_eq!(m, "Invalid URL: ::nope::"),
        other => panic!("expected a constructor failure, got {:?}", other),
    }
}

#[test]
fn stream_start_surfaces_initial_fetch_error() {
    let r = StreamState::start(plain_query(3), 3, Err(Error::Message("down".to_string())));
    match r {
        Err(Error::Message(m)) => assert_eq!(m, "down"),
        other => panic!("expected the fetch error back, got {:?}", other.map(|_| ())),
    }
}

#[test]
fn three_entries_then_plus_one_refill() {
    let h: u64 = 500;
    let batch = vec![entry(h), entry(h + 1), entry(h + 2)];
    let mut st = StreamState::start(plain_query(h), h, Ok(batch)).unwrap();
    let mut got = vec![];
    while !st.needs_refill() {
        got.push(st.advance().header.number);
    }
    assert_eq!(got, vec![h, h + 1, h + 2]);
    assert_eq!(st.refill_height(), h + 3);
    let ended = st.apply_refill(h + 3, Ok(vec![]));
    assert!(ended.is_none());
    assert!(st.needs_refill());
}

#[test]
fn refill_height_never_regresses_on_stale_batches() {
    let st = StreamState::start(plain_query(100), 100, Ok(vec![entry(40), entry(41)])).unwrap();
    assert_eq!(st.refill_height(), 101);
    let st2 = StreamState::start(plain_query(100), 100, Ok(vec![])).unwrap();
    assert_eq!(st2.refill_height(), 101);
}

#[test]
fn refill_with_new_batch_emits_its_first_entry() {
    let mut st = StreamState::start(plain_query(1), 1, Ok(vec![entry(1)])).unwrap();
    let _ = st.advance();
    assert!(st.needs_refill());
    let h = st.refill_height();
    assert_eq!(h, 2);
    let e = st.apply_refill(h, Ok(vec![entry(2), entry(3)])).unwrap();
    assert_eq!(e.header.number, 2);
    assert_eq!(st.height, 2);
    assert_eq!(st.current_index, 1);
    let next = st.advance();
    assert_eq!(next.header.number, 3);
}

#[test]
fn refill_error_ends_the_stream_quietly() {
    let mut st = StreamState::start(plain_query(1), 1, Ok(vec![entry(1)])).unwrap();
    let _ = st.advance();
    let ended = st.apply_refill(2, Err(Error::Transport("timeout".to_string())));
    assert!(ended.is_none());
    assert_eq!(st.height, 1);
    assert_eq!(st.current_batch.len(), 1);
}

#[test]
fn fetch_pipeline_for_resolved_worker() {
    // The coordinator reports a frontier of 100000; a fetch at 99000 is
    // resolved against the worker for 99000 and sends fromBlock=99000.
    assert_eq!(parse_height("100000").unwrap(), 100000);
    let q = Query {
        from_block: 0,
        to_block: None,
        fields: Some(FieldsQuery { transaction: Some(TxFields { hash: true }) }),
        transactions: vec![TxQuery {
            from: vec![],
            to: vec!["0xabc".to_string()],
            sighash: vec![],
            logs: false,
            traces: false,
            state_diffs: false,
        }],
    };
    assert_eq!(
        worker_url("http://coordinator", 99000),
        "http://coordinator/99000/worker"
    );
    let sent = archive_client::codec::encode_query_text(&effective_query(99000, &q));
    assert!(sent.starts_with("{\"fromBlock\":99000,"));
    let body = "[{\"header\":{\"number\":99000,\"hash\":\"h\",\"parentHash\":\"p\"},\
                 \"transactions\":[]}]";
    let batch = archive_client::client::decode_response(body).unwrap();
    assert_eq!(batch.len(), 1);
    assert_eq!(batch[0].header.number, 99000);
}
