//! The networked coordinator, as decisions: which exchange each operation
//! makes with the coordinating service, and what each reply means. Making the
//! exchange itself is left to the caller, who hands the reply back as a
//! [`Reply`]. Each operation is one exchange; nothing here batches or retries.
use vstd::prelude::*;
use vstd::string::StringExecFns;

use crate::chain::{first_break, fits_chain, head_view, items_view, validate_chain, ChainHead, Item};
use crate::error::ChcError;
use crate::local::{transactions_view, Transaction};
use crate::wire::{
    decode_error, decode_head, decode_transactions, enc_add_request, enc_u64, encode_add_request,
    encode_txn_id, enc_transaction_list, lemma_transaction_list_round_trip, parse_error, parse_head,
    parse_transaction_list, transactions_sized, whole,
};
use crate::local::TransactionView;

verus! {

/// `url::Url`, an address that the caller sends exchanges to; carried
/// through unopened.
#[verifier::external_type_specification]
#[verifier::external_body]
pub struct ExUrl(url::Url);

/// Whether `url::Url::parse` accepts the text.
pub uninterp spec fn url_parses(s: Seq<char>) -> bool;

/// Relies on `url::Url::parse`: whether it accepts a text depends on the text
/// alone.
#[verifier::external_body]
fn parse_url(s: &str) -> (r: Option<url::Url>)
    ensures
        (r is Some) == url_parses(s@),
{
    url::Url::parse(s).ok()
}

/// The three operations that the service offers, each under its own path.
#[derive(Debug, Clone, Copy, PartialEq, Eq, Structural)]
pub enum Endpoint {
    /// `GET /head`: the current head, if any.
    Head,
    /// `POST /add_transaction`: append a batch under a transaction id.
    AddTransaction,
    /// `POST /transactions_since`: the transactions from an id on.
    TransactionsSince,
}

/// How an exchange is sent.
#[derive(Debug, Clone, Copy, PartialEq, Eq, Structural)]
pub enum Method {
    Get,
    Post,
}

pub open spec fn endpoint_path(e: Endpoint) -> Seq<char> {
    match e {
        Endpoint::Head => "/head"@,
        Endpoint::AddTransaction => "/add_transaction"@,
        Endpoint::TransactionsSince => "/transactions_since"@,
    }
}

pub open spec fn endpoint_method(e: Endpoint) -> Method {
    match e {
        Endpoint::Head => Method::Get,
        _ => Method::Post,
    }
}

impl Endpoint {
    /// The path of the endpoint under the chain's base address.
    pub fn path(&self) -> (r: &'static str)
        ensures
            r@ == endpoint_path(*self),
    {
        match self {
            Endpoint::Head => "/head",
            Endpoint::AddTransaction => "/add_transaction",
            Endpoint::TransactionsSince => "/transactions_since",
        }
    }

    /// `GET` for the query of the head, `POST` for the others.
    pub fn method(&self) -> (r: Method)
        ensures
            r == endpoint_method(*self),
    {
        match self {
            Endpoint::Head => Method::Get,
            _ => Method::Post,
        }
    }
}

/// One exchange to make: where to send it, and the body to send.
pub struct Request {
    pub endpoint: Endpoint,
    pub body: Vec<u8>,
}

/// What came back from one exchange.
pub enum Reply {
    /// Nothing: the connection failed or timed out.
    NoAnswer,
    /// An answer, with its status code and its body.
    Answer(u16, Vec<u8>),
}

/// The body of a successful answer, or the error that the reply stands for:
/// no answer, or a failure status with an error of the schema in its body, or
/// a failure status with anything else.
pub open spec fn reply_body(reply: Reply) -> Result<Seq<u8>, ChcError> {
    match reply {
        Reply::NoAnswer => Err(ChcError::ServiceUnreachable(None)),
        Reply::Answer(status, body) => if 200 <= status < 300 {
            Ok(body@)
        } else {
            match whole(parse_error(body@), body@.len() as int) {
                Some(e) => Err(e),
                None => Err(ChcError::ServiceUnreachable(Some(status))),
            }
        },
    }
}

/// The value read from the body of a successful answer.
pub open spec fn read_reply<T>(reply: Reply, parse: spec_fn(Seq<u8>) -> Option<(T, int)>) -> Result<T, ChcError> {
    match reply_body(reply) {
        Ok(body) => match whole(parse(body), body.len() as int) {
            Some(v) => Ok(v),
            None => Err(ChcError::DeserializationError),
        },
        Err(e) => Err(e),
    }
}

fn body_of(reply: Reply) -> (r: Result<Vec<u8>, ChcError>)
    ensures
        match reply_body(reply) {
            Ok(b) => r matches Ok(v) && v@ == b,
            Err(e) => r == Err::<Vec<u8>, ChcError>(e),
        },
{
    match reply {
        Reply::NoAnswer => Err(ChcError::ServiceUnreachable(None)),
        Reply::Answer(status, body) => {
            if 200 <= status && status < 300 {
                Ok(body)
            } else {
                match decode_error(body.as_slice()) {
                    Some(e) => Err(e),
                    None => Err(ChcError::ServiceUnreachable(Some(status))),
                }
            }
        },
    }
}

/// The query of the head.
pub fn head_request() -> (r: Request)
    ensures
        r.endpoint == Endpoint::Head,
        r.body@ == Seq::<u8>::empty(),
{
    Request { endpoint: Endpoint::Head, body: Vec::new() }
}

/// The append of `items` as transaction `txn_id`.
pub fn add_transaction_request(txn_id: u64, items: &[Item]) -> (r: Request)
    ensures
        r.endpoint == Endpoint::AddTransaction,
        r.body@ == enc_add_request(txn_id, items_view(items@)),
{
    Request { endpoint: Endpoint::AddTransaction, body: encode_add_request(txn_id, items) }
}

/// The query of the transactions from `txn_id` on.
pub fn transactions_since_request(txn_id: u64) -> (r: Request)
    ensures
        r.endpoint == Endpoint::TransactionsSince,
        r.body@ == enc_u64(txn_id),
{
    Request { endpoint: Endpoint::TransactionsSince, body: encode_txn_id(txn_id) }
}

/// The query behind the next transaction id: every transaction from id 0 on.
pub fn next_transaction_id_request() -> (r: Request)
    ensures
        r.endpoint == Endpoint::TransactionsSince,
        r.body@ == enc_u64(0),
{
    transactions_since_request(0)
}

/// The head that a reply to [`head_request`] reports.
pub fn head_from_reply(reply: Reply) -> (r: Result<Option<ChainHead>, ChcError>)
    ensures
        match read_reply(reply, |s: Seq<u8>| parse_head(s)) {
            Ok(h) => r matches Ok(v) && head_view(v) == h,
            Err(e) => r == Err::<Option<ChainHead>, ChcError>(e),
        },
{
    let body = match body_of(reply) {
        Ok(b) => b,
        Err(e) => return Err(e),
    };
    decode_head(body.as_slice())
}

/// The per-item check that a client makes before a strict append: the batch
/// must not be empty, and [`validate_chain`] must accept it on `head`, the
/// head that the service last reported. The service itself checks the
/// transaction boundary again when the append arrives.
pub fn check_strict(items: &[Item], head: &Option<ChainHead>) -> (r: Result<(), ChcError>)
    ensures
        items@.len() == 0 ==> r == Err::<(), ChcError>(ChcError::InvalidChain(0)),
        items@.len() > 0 ==> match r {
            Ok(()) => fits_chain(items_view(items@), head_view(*head)),
            Err(ChcError::InvalidChain(i)) => first_break(items_view(items@), head_view(*head), i as int),
            Err(_) => false,
        },
{
    if items.len() == 0 {
        return Err(ChcError::InvalidChain(0));
    }
    validate_chain(items, head)
}

/// A successful answer whose body encodes a sequence of transactions reads
/// back as exactly that sequence.
pub proof fn lemma_transactions_reply_round_trip(status: u16, body: Vec<u8>, ts: Seq<TransactionView>)
    requires
        200 <= status < 300,
        transactions_sized(ts),
        body@ == enc_transaction_list(ts),
    ensures
        read_reply(Reply::Answer(status, body), |s: Seq<u8>| parse_transaction_list(s)) == Ok::<Seq<TransactionView>, ChcError>(ts),
{
    lemma_transaction_list_round_trip(ts);
}

/// The outcome that a reply to [`add_transaction_request`] reports: success
/// for a successful status, whatever its body.
pub fn add_transaction_from_reply(reply: Reply) -> (r: Result<(), ChcError>)
    ensures
        match reply_body(reply) {
            Ok(_) => r is Ok,
            Err(e) => r == Err::<(), ChcError>(e),
        },
{
    match body_of(reply) {
        Ok(_) => Ok(()),
        Err(e) => Err(e),
    }
}

/// The transactions that a reply to [`transactions_since_request`] reports.
pub fn transactions_from_reply(reply: Reply) -> (r: Result<Vec<Transaction>, ChcError>)
    ensures
        match read_reply(reply, |s: Seq<u8>| parse_transaction_list(s)) {
            Ok(ts) => r matches Ok(v) && transactions_view(v@) == ts,
            Err(e) => r == Err::<Vec<Transaction>, ChcError>(e),
        },
{
    let body = match body_of(reply) {
        Ok(b) => b,
        Err(e) => return Err(e),
    };
    decode_transactions(body.as_slice())
}

/// The next transaction id that a reply to [`next_transaction_id_request`]
/// reports: the number of transactions it lists.
pub fn next_transaction_id_from_reply(reply: Reply) -> (r: Result<u64, ChcError>)
    ensures
        match read_reply(reply, |s: Seq<u8>| parse_transaction_list(s)) {
            Ok(ts) => r == Ok::<u64, ChcError>(ts.len() as u64),
            Err(e) => r == Err::<u64, ChcError>(e),
        },
{
    match transactions_from_reply(reply) {
        Ok(ts) => Ok(ts.len() as u64),
        Err(e) => Err(e),
    }
}

/// A client of the coordinating service of one chain, reached under a base
/// address.
pub struct ChcRemote {
    base_url: String,
}

impl ChcRemote {
    /// A client of the service under `base_url`, which has no trailing `/`.
    pub fn new(base_url: String) -> (r: ChcRemote)
        ensures
            r.base_url() == base_url@,
    {
        ChcRemote { base_url }
    }

    pub closed spec fn base_url(&self) -> Seq<char> {
        self.base_url@
    }

    /// The address of `endpoint`: the base address followed by its path. An
    /// address that does not parse leaves the service out of reach.
    pub fn endpoint_url(&self, endpoint: Endpoint) -> (r: Result<url::Url, ChcError>)
        ensures
            (r is Ok) == url_parses(self.base_url() + endpoint_path(endpoint)),
            r is Err ==> r == Err::<url::Url, ChcError>(ChcError::ServiceUnreachable(None)),
    {
        let text = self.base_url.clone().concat(endpoint.path());
        match parse_url(text.as_str()) {
            Some(u) => Ok(u),
            None => Err(ChcError::ServiceUnreachable(None)),
        }
    }
}

} // verus!
