//! The wire shapes of the service: how a query is written as JSON and how
//! entries and responses are read back, stated over [`JVal`] and proved of
//! the exec encoders and decoders.
//!
//! Field names are wire-exact.  On encoding, `toBlock` and `fields` are
//! omitted when absent, address lists and the `transactions` filter list are
//! omitted when empty, and booleans are always written.  On decoding,
//! missing optional fields take their defaults and unknown fields are
//! ignored.

use vstd::prelude::*;
use crate::json::{
    JVal, Json, jvals_of, jmembers_of, lemma_jvals_of, lemma_jmembers_of,
};
use crate::json::jval_of;
use crate::model::{
    Query, QueryV, FieldsQuery, TxFields, TxQuery, TxQueryV, Header, HeaderV, Tx, TxV, Entry,
    EntryV, strings_view, entries_view, txs_view,
};

verus! {

// ---------------------------------------------------------------------------
// Encoding a query, spec level.
// ---------------------------------------------------------------------------

/// A JSON array of strings.
pub open spec fn strs_jval(v: Seq<Seq<char>>) -> JVal {
    JVal::Arr(Seq::new(v.len(), |i: int| JVal::Str(v[i])))
}

/// The wire shape of one transaction filter.
pub open spec fn txq_jval(t: TxQueryV) -> JVal {
    JVal::Obj(
        (if t.from.len() > 0 {
            seq![("from"@, strs_jval(t.from))]
        } else {
            Seq::empty()
        }) + (if t.to.len() > 0 {
            seq![("to"@, strs_jval(t.to))]
        } else {
            Seq::empty()
        }) + (if t.sighash.len() > 0 {
            seq![("sighash"@, strs_jval(t.sighash))]
        } else {
            Seq::empty()
        }) + seq![
            ("logs"@, JVal::Bool(t.logs)),
            ("traces"@, JVal::Bool(t.traces)),
            ("stateDiffs"@, JVal::Bool(t.state_diffs)),
        ],
    )
}

/// The wire shape of the transaction field selection.
pub open spec fn txfields_jval(f: TxFields) -> JVal {
    JVal::Obj(seq![("hash"@, JVal::Bool(f.hash))])
}

/// The wire shape of the field selection.
pub open spec fn fields_jval(f: FieldsQuery) -> JVal {
    JVal::Obj(
        match f.transaction {
            Some(t) => seq![("transaction"@, txfields_jval(t))],
            None => Seq::empty(),
        },
    )
}

/// The wire shape of a whole query.
pub open spec fn query_jval(q: QueryV) -> JVal {
    JVal::Obj(
        seq![("fromBlock"@, JVal::Num(q.from_block))] + (match q.to_block {
            Some(n) => seq![("toBlock"@, JVal::Num(n))],
            None => Seq::empty(),
        }) + (match q.fields {
            Some(f) => seq![("fields"@, fields_jval(f))],
            None => Seq::empty(),
        }) + (if q.transactions.len() > 0 {
            seq![
                ("transactions"@, JVal::Arr(
                    Seq::new(q.transactions.len(), |i: int| txq_jval(q.transactions[i])),
                )),
            ]
        } else {
            Seq::empty()
        }),
    )
}

// ---------------------------------------------------------------------------
// Encoding a query, exec level.
// ---------------------------------------------------------------------------

fn strs_to_json(v: &Vec<String>) -> (r: Json)
    ensures
        r@ == strs_jval(strings_view(v@)),
{
    let mut arr: Vec<Json> = Vec::new();
    let mut i: usize = 0;
    while i < v.len()
        invariant
            i <= v@.len(),
            arr@.len() == i,
            forall|k: int| 0 <= k < i ==> #[trigger] jvals_of(arr@)[k] == JVal::Str(v@[k]@),
            jvals_of(arr@).len() == i,
        decreases v@.len() - i,
    {
        let ghost old_arr = arr@;
        arr.push(Json::Str(v[i].clone()));
        proof {
            assert(arr@.drop_last() =~= old_arr);
            lemma_jvals_of(arr@);
            lemma_jvals_of(old_arr);
        }
        i += 1;
    }
    let r = Json::Arr(arr);
    proof {
        lemma_jvals_of(arr@);
        assert(jvals_of(arr@) =~= Seq::new(strings_view(v@).len(), |i: int| JVal::Str(
            strings_view(v@)[i],
        )));
    }
    r
}

fn txfields_to_json(f: &TxFields) -> (r: Json)
    ensures
        r@ == txfields_jval(*f),
{
    let mut ms: Vec<(String, Json)> = Vec::new();
    ms.push((String::from_str("hash"), Json::Bool(f.hash)));
    let r = Json::Obj(ms);
    proof {
        lemma_jmembers_of(ms@);
        assert(jmembers_of(ms@) =~= seq![("hash"@, JVal::Bool(f.hash))]);
    }
    r
}

fn fields_to_json(f: &FieldsQuery) -> (r: Json)
    ensures
        r@ == fields_jval(*f),
{
    let mut ms: Vec<(String, Json)> = Vec::new();
    match f.transaction {
        Some(t) => {
            ms.push((String::from_str("transaction"), txfields_to_json(&t)));
        },
        None => {},
    }
    let r = Json::Obj(ms);
    proof {
        lemma_jmembers_of(ms@);
        match f.transaction {
            Some(t) => {
                assert(jmembers_of(ms@) =~= seq![("transaction"@, txfields_jval(t))]);
            },
            None => {
                assert(jmembers_of(ms@) =~= Seq::<(Seq<char>, JVal)>::empty());
            },
        }
    }
    r
}

fn txq_to_json(t: &TxQuery) -> (r: Json)
    ensures
        r@ == txq_jval(t@),
{
    let mut ms: Vec<(String, Json)> = Vec::new();
    if t.from.len() > 0 {
        ms.push((String::from_str("from"), strs_to_json(&t.from)));
    }
    if t.to.len() > 0 {
        ms.push((String::from_str("to"), strs_to_json(&t.to)));
    }
    if t.sighash.len() > 0 {
        ms.push((String::from_str("sighash"), strs_to_json(&t.sighash)));
    }
    ms.push((String::from_str("logs"), Json::Bool(t.logs)));
    ms.push((String::from_str("traces"), Json::Bool(t.traces)));
    ms.push((String::from_str("stateDiffs"), Json::Bool(t.state_diffs)));
    let r = Json::Obj(ms);
    proof {
        lemma_jmembers_of(ms@);
        let spec_ms = (if t@.from.len() > 0 {
            seq![("from"@, strs_jval(t@.from))]
        } else {
            Seq::empty()
        }) + (if t@.to.len() > 0 {
            seq![("to"@, strs_jval(t@.to))]
        } else {
            Seq::empty()
        }) + (if t@.sighash.len() > 0 {
            seq![("sighash"@, strs_jval(t@.sighash))]
        } else {
            Seq::empty()
        }) + seq![
            ("logs"@, JVal::Bool(t@.logs)),
            ("traces"@, JVal::Bool(t@.traces)),
            ("stateDiffs"@, JVal::Bool(t@.state_diffs)),
        ];
        assert(t@.from.len() == t.from@.len());
        assert(t@.to.len() == t.to@.len());
        assert(t@.sighash.len() == t.sighash@.len());
        assert(jmembers_of(ms@) =~= spec_ms);
    }
    r
}

/// Writes `*q` in its wire shape.
pub fn query_to_json(q: &Query) -> (r: Json)
    ensures
        r@ == query_jval(q@),
{
    let mut ms: Vec<(String, Json)> = Vec::new();
    ms.push((String::from_str("fromBlock"), Json::Num(q.from_block)));
    match q.to_block {
        Some(n) => {
            ms.push((String::from_str("toBlock"), Json::Num(n)));
        },
        None => {},
    }
    match &q.fields {
        Some(f) => {
            ms.push((String::from_str("fields"), fields_to_json(f)));
        },
        None => {},
    }
    if q.transactions.len() > 0 {
        let mut arr: Vec<Json> = Vec::new();
        let mut i: usize = 0;
        while i < q.transactions.len()
            invariant
                i <= q.transactions@.len(),
                arr@.len() == i,
                jvals_of(arr@).len() == i,
                forall|k: int|
                    0 <= k < i ==> #[trigger] jvals_of(arr@)[k] == txq_jval(
                        q.transactions@[k]@,
                    ),
            decreases q.transactions@.len() - i,
        {
            let ghost old_arr = arr@;
            arr.push(txq_to_json(&q.transactions[i]));
            proof {
                assert(arr@.drop_last() =~= old_arr);
                lemma_jvals_of(arr@);
                lemma_jvals_of(old_arr);
            }
            i += 1;
        }
        proof {
            lemma_jvals_of(arr@);
            assert(jvals_of(arr@) =~= Seq::new(q@.transactions.len(), |i: int| txq_jval(
                q@.transactions[i],
            )));
        }
        ms.push((String::from_str("transactions"), Json::Arr(arr)));
    }
    let r = Json::Obj(ms);
    proof {
        lemma_jmembers_of(ms@);
        let spec_ms = seq![("fromBlock"@, JVal::Num(q@.from_block))] + (match q@.to_block {
            Some(n) => seq![("toBlock"@, JVal::Num(n))],
            None => Seq::empty(),
        }) + (match q@.fields {
            Some(f) => seq![("fields"@, fields_jval(f))],
            None => Seq::empty(),
        }) + (if q@.transactions.len() > 0 {
            seq![
                ("transactions"@, JVal::Arr(
                    Seq::new(q@.transactions.len(), |i: int| txq_jval(q@.transactions[i])),
                )),
            ]
        } else {
            Seq::empty()
        });
        assert(q@.transactions.len() == q.transactions@.len());
        assert(jmembers_of(ms@) =~= spec_ms);
    }
    r
}

/// Writes `*q` as JSON text: the body POSTed to a worker.
pub fn encode_query_text(q: &Query) -> (r: String)
    ensures
        r@ == crate::json::text_of(query_jval(q@)),
{
    let j = query_to_json(q);
    crate::json::render_json(&j)
}


// ---------------------------------------------------------------------------
// Decoding, spec level.
// ---------------------------------------------------------------------------

/// First member of `ms` named `key`, if any: how object lookup reads.
pub open spec fn obj_get(ms: Seq<(Seq<char>, JVal)>, key: Seq<char>) -> Option<JVal>
    decreases ms.len(),
{
    if ms.len() == 0 {
        None
    } else if ms[0].0 == key {
        Some(ms[0].1)
    } else {
        obj_get(ms.drop_first(), key)
    }
}

pub proof fn lemma_obj_get_found(ms: Seq<(Seq<char>, JVal)>, key: Seq<char>, k: int)
    requires
        0 <= k < ms.len(),
        ms[k].0 == key,
        forall|t: int| 0 <= t < k ==> ms[t].0 != key,
    ensures
        obj_get(ms, key) == Some(ms[k].1),
    decreases k,
{
    if k > 0 {
        assert(ms.drop_first()[k - 1] == ms[k]);
        assert forall|t: int| 0 <= t < k - 1 implies ms.drop_first()[t].0 != key by {
            assert(ms.drop_first()[t] == ms[t + 1]);
        }
        lemma_obj_get_found(ms.drop_first(), key, k - 1);
    }
}

pub proof fn lemma_obj_get_missing(ms: Seq<(Seq<char>, JVal)>, key: Seq<char>)
    requires
        forall|t: int| 0 <= t < ms.len() ==> ms[t].0 != key,
    ensures
        obj_get(ms, key) is None,
    decreases ms.len(),
{
    if ms.len() > 0 {
        assert forall|t: int| 0 <= t < ms.drop_first().len() implies ms.drop_first()[t].0 != key by {
            assert(ms.drop_first()[t] == ms[t + 1]);
        }
        lemma_obj_get_missing(ms.drop_first(), key);
    }
}

/// A required `u64` member.
pub open spec fn field_num(ms: Seq<(Seq<char>, JVal)>, key: Seq<char>) -> Option<u64> {
    match obj_get(ms, key) {
        Some(JVal::Num(n)) => Some(n),
        _ => None,
    }
}

/// A required string member.
pub open spec fn field_str(ms: Seq<(Seq<char>, JVal)>, key: Seq<char>) -> Option<Seq<char>> {
    match obj_get(ms, key) {
        Some(JVal::Str(s)) => Some(s),
        _ => None,
    }
}

/// A boolean member, `false` when missing.
pub open spec fn field_bool(ms: Seq<(Seq<char>, JVal)>, key: Seq<char>) -> Option<bool> {
    match obj_get(ms, key) {
        None => Some(false),
        Some(JVal::Bool(b)) => Some(b),
        Some(_) => None,
    }
}

/// An optional `u64` member: missing or `null` means absent.
pub open spec fn field_opt_num(ms: Seq<(Seq<char>, JVal)>, key: Seq<char>) -> Option<Option<u64>> {
    match obj_get(ms, key) {
        None => Some(None),
        Some(JVal::Null) => Some(None),
        Some(JVal::Num(n)) => Some(Some(n)),
        Some(_) => None,
    }
}

/// A string-array member, empty when missing.
pub open spec fn jval_strs(j: JVal) -> Option<Seq<Seq<char>>> {
    match j {
        JVal::Arr(es) => if forall|i: int| 0 <= i < es.len() ==> es[i] is Str {
            Some(Seq::new(es.len(), |i: int| es[i]->Str_0))
        } else {
            None
        },
        _ => None,
    }
}

pub open spec fn field_strs(ms: Seq<(Seq<char>, JVal)>, key: Seq<char>) -> Option<
    Seq<Seq<char>>,
> {
    match obj_get(ms, key) {
        None => Some(Seq::empty()),
        Some(j) => jval_strs(j),
    }
}

/// How one transaction filter reads back.
pub open spec fn jval_txq(j: JVal) -> Option<TxQueryV> {
    match j {
        JVal::Obj(ms) => {
            let from = field_strs(ms, "from"@);
            let to = field_strs(ms, "to"@);
            let sighash = field_strs(ms, "sighash"@);
            let logs = field_bool(ms, "logs"@);
            let traces = field_bool(ms, "traces"@);
            let state_diffs = field_bool(ms, "stateDiffs"@);
            if from is Some && to is Some && sighash is Some && logs is Some && traces is Some
                && state_diffs is Some {
                Some(
                    TxQueryV {
                        from: from->Some_0,
                        to: to->Some_0,
                        sighash: sighash->Some_0,
                        logs: logs->Some_0,
                        traces: traces->Some_0,
                        state_diffs: state_diffs->Some_0,
                    },
                )
            } else {
                None
            }
        },
        _ => None,
    }
}

/// How the transaction field selection reads back.
pub open spec fn jval_txfields(j: JVal) -> Option<TxFields> {
    match j {
        JVal::Obj(ms) => match field_bool(ms, "hash"@) {
            Some(h) => Some(TxFields { hash: h }),
            None => None,
        },
        _ => None,
    }
}

/// How the field selection reads back.
pub open spec fn jval_fields(j: JVal) -> Option<FieldsQuery> {
    match j {
        JVal::Obj(ms) => match obj_get(ms, "transaction"@) {
            None => Some(FieldsQuery { transaction: None }),
            Some(JVal::Null) => Some(FieldsQuery { transaction: None }),
            Some(t) => match jval_txfields(t) {
                Some(tf) => Some(FieldsQuery { transaction: Some(tf) }),
                None => None,
            },
        },
        _ => None,
    }
}

pub open spec fn jval_txqs(es: Seq<JVal>) -> Option<Seq<TxQueryV>> {
    if forall|i: int| 0 <= i < es.len() ==> jval_txq(es[i]) is Some {
        Some(Seq::new(es.len(), |i: int| jval_txq(es[i])->Some_0))
    } else {
        None
    }
}

/// How a whole query reads back.
pub open spec fn jval_query(j: JVal) -> Option<QueryV> {
    match j {
        JVal::Obj(ms) => {
            let fb = field_num(ms, "fromBlock"@);
            let tb = field_opt_num(ms, "toBlock"@);
            let fs = match obj_get(ms, "fields"@) {
                None => Some(None),
                Some(JVal::Null) => Some(None),
                Some(f) => match jval_fields(f) {
                    Some(x) => Some(Some(x)),
                    None => None,
                },
            };
            let txs = match obj_get(ms, "transactions"@) {
                None => Some(Seq::<TxQueryV>::empty()),
                Some(JVal::Arr(es)) => jval_txqs(es),
                Some(_) => None,
            };
            if fb is Some && tb is Some && fs is Some && txs is Some {
                Some(
                    QueryV {
                        from_block: fb->Some_0,
                        to_block: tb->Some_0,
                        fields: fs->Some_0,
                        transactions: txs->Some_0,
                    },
                )
            } else {
                None
            }
        },
        _ => None,
    }
}

/// How a block header reads back: all three fields are required.
pub open spec fn jval_header(j: JVal) -> Option<HeaderV> {
    match j {
        JVal::Obj(ms) => {
            let n = field_num(ms, "number"@);
            let h = field_str(ms, "hash"@);
            let p = field_str(ms, "parentHash"@);
            if n is Some && h is Some && p is Some {
                Some(HeaderV { number: n->Some_0, hash: h->Some_0, parent_hash: p->Some_0 })
            } else {
                None
            }
        },
        _ => None,
    }
}

/// How one transaction reads back.
pub open spec fn jval_tx(j: JVal) -> Option<TxV> {
    match j {
        JVal::Obj(ms) => {
            let h = field_str(ms, "hash"@);
            let ix = field_num(ms, "transactionIndex"@);
            if h is Some && ix is Some {
                Some(TxV { hash: h->Some_0, index: ix->Some_0 })
            } else {
                None
            }
        },
        _ => None,
    }
}

pub open spec fn jval_txs(es: Seq<JVal>) -> Option<Seq<TxV>> {
    if forall|i: int| 0 <= i < es.len() ==> jval_tx(es[i]) is Some {
        Some(Seq::new(es.len(), |i: int| jval_tx(es[i])->Some_0))
    } else {
        None
    }
}

/// How an entry reads back: `header` is required, `transactions` defaults
/// to the empty sequence when missing.
pub open spec fn jval_entry(j: JVal) -> Option<EntryV> {
    match j {
        JVal::Obj(ms) => {
            let h = match obj_get(ms, "header"@) {
                Some(x) => jval_header(x),
                None => None,
            };
            let t = match obj_get(ms, "transactions"@) {
                None => Some(Seq::<TxV>::empty()),
                Some(JVal::Arr(es)) => jval_txs(es),
                Some(_) => None,
            };
            if h is Some && t is Some {
                Some(EntryV { header: h->Some_0, transactions: t->Some_0 })
            } else {
                None
            }
        },
        _ => None,
    }
}

pub open spec fn jval_entries(es: Seq<JVal>) -> Option<Seq<EntryV>> {
    if forall|i: int| 0 <= i < es.len() ==> jval_entry(es[i]) is Some {
        Some(Seq::new(es.len(), |i: int| jval_entry(es[i])->Some_0))
    } else {
        None
    }
}


// ---------------------------------------------------------------------------
// Decoding entries, exec level.
// ---------------------------------------------------------------------------

/// Index of the first member named `*key`, mirroring [`obj_get`].
fn obj_find(ms: &Vec<(String, Json)>, key: &String) -> (r: Option<usize>)
    ensures
        match r {
            Some(k) => k < ms@.len() && ms@[k as int].0@ == key@ && (forall|t: int|
                0 <= t < k ==> ms@[t].0@ != key@) && obj_get(jmembers_of(ms@), key@)
                == Some(jval_of(ms@[k as int].1)),
            None => obj_get(jmembers_of(ms@), key@) is None,
        },
{
    let mut k: usize = 0;
    while k < ms.len()
        invariant
            k <= ms@.len(),
            forall|t: int| 0 <= t < k ==> ms@[t].0@ != key@,
        decreases ms@.len() - k,
    {
        if ms[k].0 == *key {
            proof {
                lemma_jmembers_of(ms@);
                lemma_obj_get_found(jmembers_of(ms@), key@, k as int);
            }
            return Some(k);
        }
        k += 1;
    }
    proof {
        lemma_jmembers_of(ms@);
        lemma_obj_get_missing(jmembers_of(ms@), key@);
    }
    None
}

/// Reads a block header, exactly as [`jval_header`] says.
fn jq_header(j: &Json) -> (r: Option<Header>)
    ensures
        match r {
            Some(h) => jval_header(j@) == Some(h@),
            None => jval_header(j@) is None,
        },
{
    let ms = match j {
        Json::Obj(ms) => ms,
        _ => {
            return None;
        },
    };
    let number = match obj_find(ms, &String::from_str("number")) {
        Some(k) => match &ms[k].1 {
            Json::Num(n) => *n,
            _ => {
                return None;
            },
        },
        None => {
            return None;
        },
    };
    let hash = match obj_find(ms, &String::from_str("hash")) {
        Some(k) => match &ms[k].1 {
            Json::Str(s) => s.clone(),
            _ => {
                return None;
            },
        },
        None => {
            return None;
        },
    };
    let parent_hash = match obj_find(ms, &String::from_str("parentHash")) {
        Some(k) => match &ms[k].1 {
            Json::Str(s) => s.clone(),
            _ => {
                return None;
            },
        },
        None => {
            return None;
        },
    };
    Some(Header { number, hash, parent_hash })
}

/// Reads one transaction, exactly as [`jval_tx`] says.
fn jq_tx(j: &Json) -> (r: Option<Tx>)
    ensures
        match r {
            Some(t) => jval_tx(j@) == Some(t@),
            None => jval_tx(j@) is None,
        },
{
    let ms = match j {
        Json::Obj(ms) => ms,
        _ => {
            return None;
        },
    };
    let hash = match obj_find(ms, &String::from_str("hash")) {
        Some(k) => match &ms[k].1 {
            Json::Str(s) => s.clone(),
            _ => {
                return None;
            },
        },
        None => {
            return None;
        },
    };
    let index = match obj_find(ms, &String::from_str("transactionIndex")) {
        Some(k) => match &ms[k].1 {
            Json::Num(n) => *n,
            _ => {
                return None;
            },
        },
        None => {
            return None;
        },
    };
    Some(Tx { hash, index })
}

/// Reads a transaction array, exactly as [`jval_txs`] says.
fn jq_txs(es: &Vec<Json>) -> (r: Option<Vec<Tx>>)
    ensures
        match r {
            Some(v) => jval_txs(jvals_of(es@)) == Some(txs_view(v@)),
            None => jval_txs(jvals_of(es@)) is None,
        },
{
    proof {
        lemma_jvals_of(es@);
    }
    let mut out: Vec<Tx> = Vec::new();
    let mut i: usize = 0;
    while i < es.len()
        invariant
            i <= es@.len(),
            out@.len() == i,
            jvals_of(es@).len() == es@.len(),
            forall|k: int| 0 <= k < es@.len() ==> jvals_of(es@)[k] == jval_of(es@[k]),
            forall|k: int| 0 <= k < i ==> jval_tx(jvals_of(es@)[k]) == Some(out@[k]@),
        decreases es@.len() - i,
    {
        match jq_tx(&es[i]) {
            Some(t) => {
                out.push(t);
            },
            None => {
                proof {
                    assert(jval_tx(jvals_of(es@)[i as int]) is None);
                    assert(!(forall|k: int|
                        0 <= k < jvals_of(es@).len() ==> jval_tx(jvals_of(es@)[k]) is Some));
                }
                return None;
            },
        }
        i += 1;
    }
    proof {
        assert(forall|k: int| 0 <= k < es@.len() ==> jval_tx(jvals_of(es@)[k]) is Some);
        assert(txs_view(out@) =~= Seq::new(jvals_of(es@).len(), |i: int| jval_tx(
            jvals_of(es@)[i],
        )->Some_0));
    }
    Some(out)
}

/// Reads one entry, exactly as [`jval_entry`] says: a missing
/// `transactions` member yields an empty transaction list.
pub fn jq_entry(j: &Json) -> (r: Option<Entry>)
    ensures
        match r {
            Some(e) => jval_entry(j@) == Some(e@),
            None => jval_entry(j@) is None,
        },
{
    let ms = match j {
        Json::Obj(ms) => ms,
        _ => {
            return None;
        },
    };
    let header = match obj_find(ms, &String::from_str("header")) {
        Some(k) => match jq_header(&ms[k].1) {
            Some(h) => h,
            None => {
                return None;
            },
        },
        None => {
            return None;
        },
    };
    let transactions: Vec<Tx> = match obj_find(ms, &String::from_str("transactions")) {
        None => Vec::new(),
        Some(k) => match &ms[k].1 {
            Json::Arr(es) => match jq_txs(es) {
                Some(t) => t,
                None => {
                    return None;
                },
            },
            _ => {
                return None;
            },
        },
    };
    let e = Entry { header, transactions };
    proof {
        assert(e@.transactions =~= txs_view(e.transactions@));
        assert(jval_entry(j@) == Some(e@));
    }
    Some(e)
}

/// Reads a batch, exactly as [`jval_entries`] says.
pub fn jq_entries(es: &Vec<Json>) -> (r: Option<Vec<Entry>>)
    ensures
        match r {
            Some(v) => jval_entries(jvals_of(es@)) == Some(entries_view(v@)),
            None => jval_entries(jvals_of(es@)) is None,
        },
{
    proof {
        lemma_jvals_of(es@);
    }
    let mut out: Vec<Entry> = Vec::new();
    let mut i: usize = 0;
    while i < es.len()
        invariant
            i <= es@.len(),
            out@.len() == i,
            jvals_of(es@).len() == es@.len(),
            forall|k: int| 0 <= k < es@.len() ==> jvals_of(es@)[k] == jval_of(es@[k]),
            forall|k: int| 0 <= k < i ==> jval_entry(jvals_of(es@)[k]) == Some(out@[k]@),
        decreases es@.len() - i,
    {
        match jq_entry(&es[i]) {
            Some(e) => {
                out.push(e);
            },
            None => {
                proof {
                    assert(jval_entry(jvals_of(es@)[i as int]) is None);
                    assert(!(forall|k: int|
                        0 <= k < jvals_of(es@).len() ==> jval_entry(jvals_of(es@)[k]) is Some));
                }
                return None;
            },
        }
        i += 1;
    }
    proof {
        assert(forall|k: int| 0 <= k < es@.len() ==> jval_entry(jvals_of(es@)[k]) is Some);
        assert(entries_view(out@) =~= Seq::new(jvals_of(es@).len(), |i: int| jval_entry(
            jvals_of(es@)[i],
        )->Some_0));
    }
    Some(out)
}


// ---------------------------------------------------------------------------
// Laws of the codec.
// ---------------------------------------------------------------------------

/// A rendered string array reads back unchanged.
pub proof fn lemma_strs_round_trip(v: Seq<Seq<char>>)
    ensures
        jval_strs(strs_jval(v)) == Some(v),
{
    let es = Seq::new(v.len(), |i: int| JVal::Str(v[i]));
    assert(forall|i: int| 0 <= i < es.len() ==> es[i] is Str);
    assert(Seq::new(es.len(), |i: int| es[i]->Str_0) =~= v);
}

/// A written transaction field selection reads back unchanged.
pub proof fn lemma_txfields_round_trip(f: TxFields)
    ensures
        jval_txfields(txfields_jval(f)) == Some(f),
{
    reveal_strlit("hash");
    let ms = seq![("hash"@, JVal::Bool(f.hash))];
    lemma_obj_get_found(ms, "hash"@, 0);
}

/// A written field selection reads back unchanged.
pub proof fn lemma_fields_round_trip(f: FieldsQuery)
    ensures
        jval_fields(fields_jval(f)) == Some(f),
{
    reveal_strlit("transaction");
    match f.transaction {
        Some(t) => {
            let ms = seq![("transaction"@, txfields_jval(t))];
            lemma_obj_get_found(ms, "transaction"@, 0);
            lemma_txfields_round_trip(t);
            assert(!(txfields_jval(t) is Null));
        },
        None => {
            let ms = Seq::<(Seq<char>, JVal)>::empty();
            lemma_obj_get_missing(ms, "transaction"@);
        },
    }
}

/// A written transaction filter reads back unchanged.
#[verifier::rlimit(50)]
pub proof fn lemma_txq_round_trip(t: TxQueryV)
    ensures
        jval_txq(txq_jval(t)) == Some(t),
{
    reveal_strlit("from");
    reveal_strlit("to");
    reveal_strlit("sighash");
    reveal_strlit("logs");
    reveal_strlit("traces");
    reveal_strlit("stateDiffs");
    assert(("from"@).len() == 4);
    assert(("to"@).len() == 2);
    assert(("sighash"@).len() == 7);
    assert(("logs"@).len() == 4);
    assert(("traces"@).len() == 6);
    assert(("stateDiffs"@).len() == 10);
    assert(("from"@)[0] == 'f');
    assert(("logs"@)[0] == 'l');
    lemma_strs_round_trip(t.from);
    lemma_strs_round_trip(t.to);
    lemma_strs_round_trip(t.sighash);
    let sf = if t.from.len() > 0 {
        seq![("from"@, strs_jval(t.from))]
    } else {
        Seq::<(Seq<char>, JVal)>::empty()
    };
    let st = if t.to.len() > 0 {
        seq![("to"@, strs_jval(t.to))]
    } else {
        Seq::<(Seq<char>, JVal)>::empty()
    };
    let ss = if t.sighash.len() > 0 {
        seq![("sighash"@, strs_jval(t.sighash))]
    } else {
        Seq::<(Seq<char>, JVal)>::empty()
    };
    let tail = seq![
        ("logs"@, JVal::Bool(t.logs)),
        ("traces"@, JVal::Bool(t.traces)),
        ("stateDiffs"@, JVal::Bool(t.state_diffs)),
    ];
    let ms = sf + st + ss + tail;
    assert(txq_jval(t) == JVal::Obj(ms));
    let a = sf.len() as int;
    let b = st.len() as int;
    let c = ss.len() as int;
    assert(ms.len() == a + b + c + 3);
    assert forall|k: int| a + b + c <= k < ms.len() implies ms[k] == tail[k - a - b - c] by {}
    if t.from.len() > 0 {
        assert(ms[0] == ("from"@, strs_jval(t.from)));
        lemma_obj_get_found(ms, "from"@, 0);
        assert(field_strs(ms, "from"@) == Some(t.from));
    } else {
        assert forall|k: int| 0 <= k < ms.len() implies ms[k].0 != "from"@ by {}
        lemma_obj_get_missing(ms, "from"@);
        assert(field_strs(ms, "from"@) == Some(Seq::<Seq<char>>::empty()));
        assert(t.from =~= Seq::<Seq<char>>::empty());
    }
    if t.to.len() > 0 {
        assert(ms[a] == ("to"@, strs_jval(t.to)));
        assert(forall|k: int| 0 <= k < a ==> ms[k].0 != "to"@);
        lemma_obj_get_found(ms, "to"@, a);
        assert(field_strs(ms, "to"@) == Some(t.to));
    } else {
        assert forall|k: int| 0 <= k < ms.len() implies ms[k].0 != "to"@ by {}
        lemma_obj_get_missing(ms, "to"@);
        assert(field_strs(ms, "to"@) == Some(Seq::<Seq<char>>::empty()));
        assert(t.to =~= Seq::<Seq<char>>::empty());
    }
    if t.sighash.len() > 0 {
        assert(ms[a + b] == ("sighash"@, strs_jval(t.sighash)));
        assert(forall|k: int| 0 <= k < a + b ==> ms[k].0 != "sighash"@);
        lemma_obj_get_found(ms, "sighash"@, a + b);
        assert(field_strs(ms, "sighash"@) == Some(t.sighash));
    } else {
        assert forall|k: int| 0 <= k < ms.len() implies ms[k].0 != "sighash"@ by {}
        lemma_obj_get_missing(ms, "sighash"@);
        assert(field_strs(ms, "sighash"@) == Some(Seq::<Seq<char>>::empty()));
        assert(t.sighash =~= Seq::<Seq<char>>::empty());
    }
    assert(ms[a + b + c] == ("logs"@, JVal::Bool(t.logs)));
    assert(forall|k: int| 0 <= k < a + b + c ==> ms[k].0 != "logs"@);
    lemma_obj_get_found(ms, "logs"@, a + b + c);
    assert(field_bool(ms, "logs"@) == Some(t.logs));
    assert(ms[a + b + c + 1] == ("traces"@, JVal::Bool(t.traces)));
    assert(forall|k: int| 0 <= k < a + b + c + 1 ==> ms[k].0 != "traces"@);
    lemma_obj_get_found(ms, "traces"@, a + b + c + 1);
    assert(field_bool(ms, "traces"@) == Some(t.traces));
    assert(ms[a + b + c + 2] == ("stateDiffs"@, JVal::Bool(t.state_diffs)));
    assert(forall|k: int| 0 <= k < a + b + c + 2 ==> ms[k].0 != "stateDiffs"@);
    lemma_obj_get_found(ms, "stateDiffs"@, a + b + c + 2);
    assert(field_bool(ms, "stateDiffs"@) == Some(t.state_diffs));
    assert(jval_txq(JVal::Obj(ms))->Some_0 =~= t);
}

/// Writing a query and reading it back yields the same query: populated
/// fields are kept, omitted optional fields come back as their defaults.
#[verifier::rlimit(50)]
pub proof fn lemma_query_round_trip(q: QueryV)
    ensures
        jval_query(query_jval(q)) == Some(q),
{
    reveal_strlit("fromBlock");
    reveal_strlit("toBlock");
    reveal_strlit("fields");
    reveal_strlit("transactions");
    assert(("fromBlock"@).len() == 9);
    assert(("toBlock"@).len() == 7);
    assert(("fields"@).len() == 6);
    assert(("transactions"@).len() == 12);
    let sb = seq![("fromBlock"@, JVal::Num(q.from_block))];
    let stb = match q.to_block {
        Some(n) => seq![("toBlock"@, JVal::Num(n))],
        None => Seq::<(Seq<char>, JVal)>::empty(),
    };
    let sfs = match q.fields {
        Some(f) => seq![("fields"@, fields_jval(f))],
        None => Seq::<(Seq<char>, JVal)>::empty(),
    };
    let txa = Seq::new(q.transactions.len(), |i: int| txq_jval(q.transactions[i]));
    let stx = if q.transactions.len() > 0 {
        seq![("transactions"@, JVal::Arr(txa))]
    } else {
        Seq::<(Seq<char>, JVal)>::empty()
    };
    let ms = sb + stb + sfs + stx;
    assert(query_jval(q) == JVal::Obj(ms));
    let b = stb.len() as int;
    let c = sfs.len() as int;
    assert(ms[0] == ("fromBlock"@, JVal::Num(q.from_block)));
    lemma_obj_get_found(ms, "fromBlock"@, 0);
    assert(field_num(ms, "fromBlock"@) == Some(q.from_block));
    match q.to_block {
        Some(n) => {
            assert(ms[1] == ("toBlock"@, JVal::Num(n)));
            assert(forall|k: int| 0 <= k < 1 ==> ms[k].0 != "toBlock"@);
            lemma_obj_get_found(ms, "toBlock"@, 1);
            assert(field_opt_num(ms, "toBlock"@) == Some(q.to_block));
        },
        None => {
            assert forall|k: int| 0 <= k < ms.len() implies ms[k].0 != "toBlock"@ by {}
            lemma_obj_get_missing(ms, "toBlock"@);
            assert(field_opt_num(ms, "toBlock"@) == Some(q.to_block));
        },
    }
    match q.fields {
        Some(f) => {
            assert(ms[1 + b] == ("fields"@, fields_jval(f)));
            assert(forall|k: int| 0 <= k < 1 + b ==> ms[k].0 != "fields"@);
            lemma_obj_get_found(ms, "fields"@, 1 + b);
            lemma_fields_round_trip(f);
            assert(!(fields_jval(f) is Null));
        },
        None => {
            assert forall|k: int| 0 <= k < ms.len() implies ms[k].0 != "fields"@ by {}
            lemma_obj_get_missing(ms, "fields"@);
        },
    }
    if q.transactions.len() > 0 {
        assert(ms[1 + b + c] == ("transactions"@, JVal::Arr(txa)));
        assert(forall|k: int| 0 <= k < 1 + b + c ==> ms[k].0 != "transactions"@);
        lemma_obj_get_found(ms, "transactions"@, 1 + b + c);
        assert forall|i: int| 0 <= i < txa.len() implies jval_txq(txa[i]) is Some by {
            lemma_txq_round_trip(q.transactions[i]);
        }
        assert(Seq::new(txa.len(), |i: int| jval_txq(txa[i])->Some_0) =~= q.transactions) by {
            assert forall|i: int| 0 <= i < txa.len() implies jval_txq(txa[i])->Some_0
                == q.transactions[i] by {
                lemma_txq_round_trip(q.transactions[i]);
            }
        }
        assert(jval_txqs(txa) == Some(q.transactions));
    } else {
        assert forall|k: int| 0 <= k < ms.len() implies ms[k].0 != "transactions"@ by {}
        lemma_obj_get_missing(ms, "transactions"@);
        assert(q.transactions =~= Seq::<TxQueryV>::empty());
    }
    assert(jval_query(JVal::Obj(ms))->Some_0 =~= q);
}

/// No value a query writes for a member is an explicit `null`: absent
/// optional fields are omitted altogether.
pub open spec fn no_null_members(j: JVal) -> bool {
    match j {
        JVal::Obj(ms) => forall|i: int| 0 <= i < ms.len() ==> !((#[trigger] ms[i].1) is Null),
        _ => false,
    }
}

/// The encoding of a query never writes a `null` member, at any level.
pub proof fn lemma_query_encoding_no_nulls(q: QueryV)
    ensures
        no_null_members(query_jval(q)),
        q.fields matches Some(f) ==> no_null_members(fields_jval(f)),
        q.fields matches Some(f) ==> (f.transaction matches Some(tf) ==> no_null_members(
            txfields_jval(tf),
        )),
        forall|i: int|
            0 <= i < q.transactions.len() ==> no_null_members(
                txq_jval(#[trigger] q.transactions[i]),
            ),
{
    assert forall|t: TxQueryV| true implies no_null_members(txq_jval(t)) by {
        let j = txq_jval(t);
        let ms = j->Obj_0;
        assert forall|i: int| 0 <= i < ms.len() implies !((#[trigger] ms[i].1) is Null) by {}
    }
    let j = query_jval(q);
    let ms = j->Obj_0;
    assert forall|i: int| 0 <= i < ms.len() implies !((#[trigger] ms[i].1) is Null) by {}
    match q.fields {
        Some(f) => {
            let fms = fields_jval(f)->Obj_0;
            assert forall|i: int| 0 <= i < fms.len() implies !((#[trigger] fms[i].1) is Null)
                by {}
            match f.transaction {
                Some(tf) => {
                    let tms = txfields_jval(tf)->Obj_0;
                    assert forall|i: int|
                        0 <= i < tms.len() implies !((#[trigger] tms[i].1) is Null) by {}
                },
                None => {},
            }
        },
        None => {},
    }
}

/// Reading an entry object without a `transactions` member yields an entry
/// whose transaction sequence is empty.
pub proof fn lemma_entry_default_transactions(ms: Seq<(Seq<char>, JVal)>, h: HeaderV)
    requires
        obj_get(ms, "transactions"@) is None,
        obj_get(ms, "header"@) matches Some(hj) && jval_header(hj) == Some(h),
    ensures
        jval_entry(JVal::Obj(ms)) == Some(EntryV { header: h, transactions: Seq::empty() }),
{
}



/// The wire round trip of a query: rendering its JSON and parsing the text
/// back yields the same JSON value, and reading that value back yields a
/// query semantically equal to the original.
pub proof fn lemma_query_wire_round_trip(q: QueryV)
    ensures
        crate::json::sp_text(crate::json::text_of(query_jval(q))) == Some(query_jval(q)),
        jval_query(query_jval(q)) == Some(q),
{
    crate::json::lemma_parse_of_rendered(query_jval(q));
    lemma_query_round_trip(q);
}

} // verus!
