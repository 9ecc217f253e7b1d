//! Value objects of the archive service: errors, blocks, transactions,
//! entries, and the declarative query shape, together with their ghost
//! mirrors (deep views) used by every contract in the crate.

use vstd::prelude::*;

verus! {

/// Failure of one client operation.  Every operation surfaces its first
/// failure immediately; nothing is retried or cached.
#[derive(Debug)]
pub enum Error {
    /// Network or HTTP failure reported by the transport.
    Transport(String),
    /// Worker resolution returned text that is not a valid URL.
    Worker(String),
    /// The coordinator's height endpoint returned text that is not a
    /// decimal unsigned 64-bit integer.
    Height(String),
    /// A response body was not JSON of either expected shape.
    Json(String),
    /// The server itself reported a textual failure for a query.
    Message(String),
}

/// A worker resolved for one height; valid only for the fetch it was
/// resolved for and never cached.
#[derive(Debug)]
pub struct Worker {
    pub url: String,
}

/// Identifies one block.  Immutable once received.
#[derive(Debug)]
pub struct Header {
    pub number: u64,
    pub hash: String,
    pub parent_hash: String,
}

/// One transaction of an entry.
#[derive(Debug)]
pub struct Tx {
    pub hash: String,
    pub index: u64,
}

/// The atomic unit of data returned by the service: a block header and its
/// (possibly empty) ordered transactions.
#[derive(Debug)]
pub struct Entry {
    pub header: Header,
    pub transactions: Vec<Tx>,
}

/// Which transaction fields the server should return.
#[derive(Clone, Copy, Debug)]
pub struct TxFields {
    pub hash: bool,
}

/// Which fields the server should return, per record kind.
#[derive(Clone, Copy, Debug)]
pub struct FieldsQuery {
    pub transaction: Option<TxFields>,
}

/// One transaction filter: address and sighash lists (empty means
/// unfiltered) and related-record flags.
#[derive(Debug)]
pub struct TxQuery {
    pub from: Vec<String>,
    pub to: Vec<String>,
    pub sighash: Vec<String>,
    pub logs: bool,
    pub traces: bool,
    pub state_diffs: bool,
}

/// A declarative fetch: height range, field projection and transaction
/// filters.  `from_block` is overwritten with the cursor height before
/// every request, whatever the caller supplied.
#[derive(Debug)]
pub struct Query {
    pub from_block: u64,
    pub to_block: Option<u64>,
    pub fields: Option<FieldsQuery>,
    pub transactions: Vec<TxQuery>,
}

// ---------------------------------------------------------------------------
// Ghost mirrors: the mathematical values the contracts speak of.
// ---------------------------------------------------------------------------

#[verifier::ext_equal]
pub struct HeaderV {
    pub number: u64,
    pub hash: Seq<char>,
    pub parent_hash: Seq<char>,
}

#[verifier::ext_equal]
pub struct TxV {
    pub hash: Seq<char>,
    pub index: u64,
}

#[verifier::ext_equal]
pub struct EntryV {
    pub header: HeaderV,
    pub transactions: Seq<TxV>,
}

#[verifier::ext_equal]
pub struct TxQueryV {
    pub from: Seq<Seq<char>>,
    pub to: Seq<Seq<char>>,
    pub sighash: Seq<Seq<char>>,
    pub logs: bool,
    pub traces: bool,
    pub state_diffs: bool,
}

#[verifier::ext_equal]
pub struct QueryV {
    pub from_block: u64,
    pub to_block: Option<u64>,
    pub fields: Option<FieldsQuery>,
    pub transactions: Seq<TxQueryV>,
}

/// Deep view of a sequence of strings.
pub open spec fn strings_view(v: Seq<String>) -> Seq<Seq<char>> {
    Seq::new(v.len(), |i: int| v[i]@)
}

/// Deep view of a batch of entries.
pub open spec fn entries_view(v: Seq<Entry>) -> Seq<EntryV> {
    Seq::new(v.len(), |i: int| v[i]@)
}

/// Deep view of the transactions of one entry.
pub open spec fn txs_view(v: Seq<Tx>) -> Seq<TxV> {
    Seq::new(v.len(), |i: int| v[i]@)
}

impl View for Header {
    type V = HeaderV;

    open spec fn view(&self) -> HeaderV {
        HeaderV { number: self.number, hash: self.hash@, parent_hash: self.parent_hash@ }
    }
}

impl View for Tx {
    type V = TxV;

    open spec fn view(&self) -> TxV {
        TxV { hash: self.hash@, index: self.index }
    }
}

impl View for Entry {
    type V = EntryV;

    open spec fn view(&self) -> EntryV {
        EntryV {
            header: self.header@,
            transactions: Seq::new(self.transactions@.len(), |i: int| self.transactions@[i]@),
        }
    }
}

impl View for TxQuery {
    type V = TxQueryV;

    open spec fn view(&self) -> TxQueryV {
        TxQueryV {
            from: strings_view(self.from@),
            to: strings_view(self.to@),
            sighash: strings_view(self.sighash@),
            logs: self.logs,
            traces: self.traces,
            state_diffs: self.state_diffs,
        }
    }
}

impl View for Query {
    type V = QueryV;

    open spec fn view(&self) -> QueryV {
        QueryV {
            from_block: self.from_block,
            to_block: self.to_block,
            fields: self.fields,
            transactions: Seq::new(self.transactions@.len(), |i: int| self.transactions@[i]@),
        }
    }
}

// ---------------------------------------------------------------------------
// Cloning, with the deep view preserved.
// ---------------------------------------------------------------------------

/// Clones a vector of strings, preserving its deep view.
pub fn clone_strings(v: &Vec<String>) -> (r: Vec<String>)
    ensures
        strings_view(r@) == strings_view(v@),
{
    let mut r: Vec<String> = Vec::new();
    let mut i: usize = 0;
    while i < v.len()
        invariant
            i <= v.len(),
            r@.len() == i,
            forall|k: int| 0 <= k < i ==> r@[k]@ == v@[k]@,
        decreases v.len() - i,
    {
        r.push(v[i].clone());
        i += 1;
    }
    proof {
        assert(strings_view(r@) =~= strings_view(v@));
    }
    r
}

impl Clone for Header {
    fn clone(&self) -> (r: Self)
        ensures
            r@ == self@,
    {
        Header {
            number: self.number,
            hash: self.hash.clone(),
            parent_hash: self.parent_hash.clone(),
        }
    }
}

impl Clone for Tx {
    fn clone(&self) -> (r: Self)
        ensures
            r@ == self@,
    {
        Tx { hash: self.hash.clone(), index: self.index }
    }
}

impl Clone for Entry {
    fn clone(&self) -> (r: Self)
        ensures
            r@ == self@,
    {
        let mut txs: Vec<Tx> = Vec::new();
        let mut i: usize = 0;
        while i < self.transactions.len()
            invariant
                i <= self.transactions.len(),
                txs@.len() == i,
                forall|k: int| 0 <= k < i ==> txs@[k]@ == self.transactions@[k]@,
            decreases self.transactions.len() - i,
        {
            txs.push(self.transactions[i].clone());
            i += 1;
        }
        let r = Entry { header: self.header.clone(), transactions: txs };
        proof {
            assert(r@ =~= self@);
        }
        r
    }
}

impl Clone for TxQuery {
    fn clone(&self) -> (r: Self)
        ensures
            r@ == self@,
    {
        let r = TxQuery {
            from: clone_strings(&self.from),
            to: clone_strings(&self.to),
            sighash: clone_strings(&self.sighash),
            logs: self.logs,
            traces: self.traces,
            state_diffs: self.state_diffs,
        };
        proof {
            assert(r@ =~= self@);
        }
        r
    }
}

impl Clone for Query {
    fn clone(&self) -> (r: Self)
        ensures
            r@ == self@,
    {
        let mut txqs: Vec<TxQuery> = Vec::new();
        let mut i: usize = 0;
        while i < self.transactions.len()
            invariant
                i <= self.transactions.len(),
                txqs@.len() == i,
                forall|k: int| 0 <= k < i ==> txqs@[k]@ == self.transactions@[k]@,
            decreases self.transactions.len() - i,
        {
            txqs.push(self.transactions[i].clone());
            i += 1;
        }
        let r = Query {
            from_block: self.from_block,
            to_block: self.to_block,
            fields: self.fields,
            transactions: txqs,
        };
        proof {
            assert(r@ =~= self@);
        }
        r
    }
}

} // verus!
