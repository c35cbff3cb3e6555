//! Reading the documents posted for local storage: the index, id and source
//! that Elasticsearch and Kafka are given.
//!
//! A posted document is a JSON value; `Document` holds, as JSON text, the
//! members `_index`, `_id` and `_source` of it when it is an object that has
//! them.
use vstd::prelude::*;

use crate::common::error::Error;
use crate::common::text::{remove_char, without_char};

verus! {

/// The members of a posted JSON document that storage reads, each as the
/// JSON text of its value; `None` for a member that is missing (all are
/// `None` when the document is not an object).
#[derive(Debug, Clone)]
pub struct Document {
    pub index: Option<String>,
    pub id: Option<String>,
    pub source: Option<String>,
    /// `Some(has)` when `_source` is a JSON object, `has` telling whether it has a
    /// `table` member; `None` otherwise.
    pub source_has_table: Option<bool>,
}

/// A member's text, or the error named after it.
pub open spec fn member_or(m: Option<String>, missing: Seq<char>) -> Result<Seq<char>, Seq<char>> {
    match m {
        Some(t) => Ok(t@),
        None => Err(missing),
    }
}

/// The outcome of a read as texts: the member's text, or the error's message.
pub open spec fn outcome(r: Result<String, Error>) -> Result<Seq<char>, Seq<char>> {
    match r {
        Ok(t) => Ok(t@),
        Err(e) => Err(e.text()),
    }
}

/// A name with its quotes and backslashes taken out, as Elasticsearch gets it.
pub open spec fn bare_name(s: Seq<char>) -> Seq<char> {
    without_char(without_char(s, '"'), '\\')
}

fn member(m: &Option<String>, missing: &str) -> (r: Result<String, Error>)
    ensures
        outcome(r) == member_or(*m, missing@),
{
    match m {
        Some(t) => Ok(t.clone()),
        None => Err(Error::from_text(missing)),
    }
}

impl Document {
    /// The `_source` member, or the error "no body".
    pub fn get_source(&self) -> (r: Result<String, Error>)
        ensures
            outcome(r) == member_or(self.source, "no body"@),
    {
        member(&self.source, "no body")
    }

    /// The `_index` member, or the error "no index".
    pub fn get_index(&self) -> (r: Result<String, Error>)
        ensures
            outcome(r) == member_or(self.index, "no index"@),
    {
        member(&self.index, "no index")
    }

    /// The `_id` member, or the error "no id".
    pub fn get_id(&self) -> (r: Result<String, Error>)
        ensures
            outcome(r) == member_or(self.id, "no id"@),
    {
        member(&self.id, "no id")
    }
}

/// What Elasticsearch is asked to store: the document `body` under `index` and `id`.
#[derive(Debug, Clone)]
pub struct EsIndexRequest {
    pub index: String,
    pub id: String,
    pub body: String,
}

/// The request to store a document in Elasticsearch: index and id with
/// quotes and backslashes taken out, and the source as body. The first
/// member missing, in the order index, id, source, gives the error.
pub fn es_index_request(doc: &Document) -> (r: Result<EsIndexRequest, Error>)
    ensures
        match r {
            Ok(q) => {
                &&& doc.index matches Some(i) && q.index@ == bare_name(i@)
                &&& doc.id matches Some(d) && q.id@ == bare_name(d@)
                &&& doc.source matches Some(s) && q.body@ == s@
            },
            Err(e) => if doc.index is None {
                e.text() == "no index"@
            } else if doc.id is None {
                e.text() == "no id"@
            } else {
                doc.source is None && e.text() == "no body"@
            },
        },
{
    let index = match doc.get_index() {
        Ok(i) => i,
        Err(e) => return Err(e),
    };
    let index = remove_char(remove_char(index.as_str(), '"').as_str(), '\\');
    let id = match doc.get_id() {
        Ok(i) => i,
        Err(e) => return Err(e),
    };
    let id = remove_char(remove_char(id.as_str(), '"').as_str(), '\\');
    let body = match doc.get_source() {
        Ok(b) => b,
        Err(e) => return Err(e),
    };
    Ok(EsIndexRequest { index, id, body })
}

/// The record sent to Kafka: the source, for a document that has an index.
/// The first member missing, in the order index, source, gives the error.
///
/// The record is the source as it came. A document whose index and source are
/// both there and whose source is an object without a `table` member is outside
/// the `requires`: the storage handler stops on such a document.
pub fn kafka_source(doc: &Document) -> (r: Result<String, Error>)
    requires
        !(doc.index is Some && doc.source is Some && doc.source_has_table == Some(false)),
    ensures
        outcome(r) == match doc.index {
            None => Err("no index"@),
            Some(_) => member_or(doc.source, "no body"@),
        },
{
    match doc.get_index() {
        Ok(_) => doc.get_source(),
        Err(e) => Err(e),
    }
}

} // verus!
