//! The client of a remote store that is reached over pairs of message channels.
//!
//! A channel sends requests on one path and receives the replies on another. It does not
//! send or receive anything itself: it says which bytes to send and what the bytes that came
//! back mean, and keeps the counter from which requests get their identifiers. Whoever
//! drives a channel sends the request, waits for exactly one reply and hands it back before
//! the channel is asked for the next request, so that a channel never has two requests
//! under way.

use crate::envelope::{envelope_bytes, envelope_parse, EnvelopeView, ValueEnvelope};
use crate::error::KvsError;
use crate::reqresp::{
    decode_response, encode_request, request_bytes, response_parse, tuple_views, KeyTuple,
    KeyTupleView, RequestView, LATTICE_LWW, NO_ERROR, OP_GET, OP_PUT,
};
use crate::task::Existence;
use crate::text::{decimal, decimal_string, push_decimal, text_of};
use vstd::prelude::*;
use vstd::string::*;
use vstd::utf8::*;

verus! {

/// What came of sending a request and waiting for its reply.
#[derive(Debug, Clone, PartialEq, Eq)]
pub enum Exchange {
    /// The one reply that arrived.
    Reply(Vec<u8>),
    /// Sending or receiving failed.
    Failed,
}

/// One channel to the remote store.
#[derive(Debug)]
pub struct CrisperKVSClient {
    client_id: usize,
    rid: u64,
    reply_address: String,
}

/// What a channel holds.
pub struct ClientView {
    /// The index that the channel was made for.
    pub client_id: usize,
    /// The identifier of the next request.
    pub rid: u64,
    /// The address that replies are to be sent to.
    pub reply_address: Seq<char>,
}

impl View for CrisperKVSClient {
    type V = ClientView;

    closed spec fn view(&self) -> ClientView {
        ClientView {
            client_id: self.client_id,
            rid: self.rid,
            reply_address: self.reply_address@,
        }
    }
}

/// The tuple of a write: the key as text, and the value in an envelope with the given
/// timestamp.
pub open spec fn put_tuple(key: Seq<u8>, timestamp: u64, value: Seq<u8>) -> KeyTupleView {
    KeyTupleView {
        key: decode_utf8(key),
        lattice_type: LATTICE_LWW,
        error: NO_ERROR,
        payload: envelope_bytes(EnvelopeView { timestamp, value }),
        address_cache_size: 0,
        invalidate: false,
    }
}

/// The tuple of a read: the key as text, and no payload.
pub open spec fn get_tuple(key: Seq<u8>) -> KeyTupleView {
    KeyTupleView {
        key: decode_utf8(key),
        lattice_type: LATTICE_LWW,
        error: NO_ERROR,
        payload: Seq::empty(),
        address_cache_size: 0,
        invalidate: false,
    }
}

/// The request with which the channel `c` writes `value` under `key`: its counter is both
/// the request's identifier, in decimal, and the timestamp of the value.
pub open spec fn put_request(c: ClientView, key: Seq<u8>, value: Seq<u8>) -> RequestView {
    RequestView {
        op_type: OP_PUT,
        tuples: seq![put_tuple(key, c.rid, value)],
        reply_address: c.reply_address,
        request_id: decimal(c.rid as nat),
    }
}

/// The request with which the channel `c` reads `key`.
pub open spec fn get_request(c: ClientView, key: Seq<u8>) -> RequestView {
    RequestView {
        op_type: OP_GET,
        tuples: seq![get_tuple(key)],
        reply_address: c.reply_address,
        request_id: decimal(c.rid as nat),
    }
}

/// Whether the channel has an identifier left for a request.
pub open spec fn can_issue(c: ClientView) -> bool {
    c.rid < u64::MAX
}

/// The channel after it was asked for a request: the identifier is used up, whether or not
/// a request came of it.
pub open spec fn after_issue(c: ClientView) -> ClientView {
    if can_issue(c) {
        ClientView { rid: (c.rid + 1) as u64, ..c }
    } else {
        c
    }
}

/// What a channel answers when it is asked to write: the bytes to send, or why there are
/// none.
pub open spec fn issue_put(c: ClientView, key: Seq<u8>, value: Seq<u8>) -> Result<
    Seq<u8>,
    KvsError,
> {
    if !can_issue(c) {
        Err(KvsError::ProtocolLimitation)
    } else if !valid_utf8(key) {
        Err(KvsError::CodecError)
    } else {
        Ok(request_bytes(put_request(c, key, value)))
    }
}

/// What a channel answers when it is asked to read: the bytes to send, or why there are
/// none.
pub open spec fn issue_get(c: ClientView, key: Seq<u8>) -> Result<Seq<u8>, KvsError> {
    if !can_issue(c) {
        Err(KvsError::ProtocolLimitation)
    } else if !valid_utf8(key) {
        Err(KvsError::CodecError)
    } else {
        Ok(request_bytes(get_request(c, key)))
    }
}

/// The bytes of a frame, or the error in its place.
pub open spec fn frame_view(r: Result<Vec<u8>, KvsError>) -> Result<Seq<u8>, KvsError> {
    match r {
        Ok(frame) => Ok(frame@),
        Err(e) => Err(e),
    }
}

/// What a write reports, given what came of the exchange: any well-formed response
/// confirms the write, and then the key counts as present.
pub open spec fn put_outcome(exchange: Exchange) -> Result<Existence, KvsError> {
    match exchange {
        Exchange::Failed => Err(KvsError::ConnectionError),
        Exchange::Reply(reply) => match response_parse(reply@) {
            None => Err(KvsError::CodecError),
            Some(_) => Ok(Existence::Present),
        },
    }
}

/// What a read reports, given what came of the exchange: nothing if the response has no
/// tuples, else the value in the envelope that is the first tuple's payload.
pub open spec fn get_outcome(exchange: Exchange) -> Result<Option<Seq<u8>>, KvsError> {
    match exchange {
        Exchange::Failed => Err(KvsError::ConnectionError),
        Exchange::Reply(reply) => match response_parse(reply@) {
            None => Err(KvsError::CodecError),
            Some(response) => if response.tuples.len() == 0 {
                Ok(None)
            } else {
                match envelope_parse(response.tuples[0].payload) {
                    None => Err(KvsError::CodecError),
                    Some(envelope) => Ok(Some(envelope.value)),
                }
            },
        },
    }
}

/// The bytes of a value that was read, or what stands in their place.
pub open spec fn value_view(r: Result<Option<Vec<u8>>, KvsError>) -> Result<
    Option<Seq<u8>>,
    KvsError,
> {
    match r {
        Ok(Some(value)) => Ok(Some(value@)),
        Ok(None) => Ok(None),
        Err(e) => Err(e),
    }
}

impl CrisperKVSClient {
    /// A channel for the given index, which has sent nothing yet and asks for replies at
    /// `reply_address`.
    pub fn new(id: usize, reply_address: String) -> (r: Result<Self, KvsError>)
        ensures
            r matches Ok(client) && client@ == (ClientView {
                client_id: id,
                rid: 0,
                reply_address: reply_address@,
            }),
    {
        Ok(CrisperKVSClient { client_id: id, rid: 0, reply_address })
    }

    /// The index that the channel was made for.
    pub fn client_id(&self) -> (id: usize)
        ensures
            id == self@.client_id,
    {
        self.client_id
    }

    /// The identifier that the next request gets.
    pub fn next_request_id(&self) -> (id: u64)
        ensures
            id == self@.rid,
    {
        self.rid
    }

    /// The address that the channel asks for replies at.
    pub fn reply_address(&self) -> (address: &str)
        ensures
            address@ == self@.reply_address,
    {
        self.reply_address.as_str()
    }

    /// Starts a write: takes the next identifier and returns the request to send. The key has
    /// to be UTF-8 text. The identifier is used up even if it is not.
    pub fn begin_put(&mut self, key: &[u8], value: &[u8]) -> (r: Result<Vec<u8>, KvsError>)
        ensures
            final(self)@ == after_issue(old(self)@),
            frame_view(r) == issue_put(old(self)@, key@, value@),
    {
        if self.rid == u64::MAX {
            return Err(KvsError::ProtocolLimitation);
        }
        let id = self.rid;
        self.rid = id + 1;
        let key_text = match text_of(key) {
            Some(text) => text,
            None => {
                return Err(KvsError::CodecError);
            },
        };
        let envelope = ValueEnvelope { timestamp: id, value: vstd::slice::slice_to_vec(value) };
        let tuple = KeyTuple {
            key: key_text,
            lattice_type: LATTICE_LWW,
            error: NO_ERROR,
            payload: envelope.encode(),
            address_cache_size: 0,
            invalidate: false,
        };
        let mut tuples: Vec<KeyTuple> = Vec::new();
        tuples.push(tuple);
        let request_id = decimal_string(id);
        let frame = encode_request(
            OP_PUT,
            tuples.as_slice(),
            self.reply_address.as_str(),
            request_id.as_str(),
        );
        assert(tuple_views(tuples@) =~= seq![put_tuple(key@, id, value@)]);
        Ok(frame)
    }

    /// Starts a read: takes the next identifier and returns the request to send. The key has
    /// to be UTF-8 text. The identifier is used up even if it is not.
    pub fn begin_get(&mut self, key: &[u8]) -> (r: Result<Vec<u8>, KvsError>)
        ensures
            final(self)@ == after_issue(old(self)@),
            frame_view(r) == issue_get(old(self)@, key@),
    {
        if self.rid == u64::MAX {
            return Err(KvsError::ProtocolLimitation);
        }
        let id = self.rid;
        self.rid = id + 1;
        let key_text = match text_of(key) {
            Some(text) => text,
            None => {
                return Err(KvsError::CodecError);
            },
        };
        let tuple = KeyTuple {
            key: key_text,
            lattice_type: LATTICE_LWW,
            error: NO_ERROR,
            payload: Vec::new(),
            address_cache_size: 0,
            invalidate: false,
        };
        let mut tuples: Vec<KeyTuple> = Vec::new();
        tuples.push(tuple);
        let request_id = decimal_string(id);
        let frame = encode_request(
            OP_GET,
            tuples.as_slice(),
            self.reply_address.as_str(),
            request_id.as_str(),
        );
        assert(tuple_views(tuples@) =~= seq![get_tuple(key@)]);
        Ok(frame)
    }

    /// Ends a write, given what came of the exchange.
    pub fn finish_put(exchange: &Exchange) -> (r: Result<Existence, KvsError>)
        ensures
            r == put_outcome(*exchange),
    {
        match exchange {
            Exchange::Failed => Err(KvsError::ConnectionError),
            Exchange::Reply(reply) => match decode_response(reply.as_slice()) {
                Ok(_) => Ok(Existence::new(true)),
                Err(_) => Err(KvsError::CodecError),
            },
        }
    }

    /// Ends a read, given what came of the exchange.
    pub fn finish_get(exchange: &Exchange) -> (r: Result<Option<Vec<u8>>, KvsError>)
        ensures
            value_view(r) == get_outcome(*exchange),
    {
        match exchange {
            Exchange::Failed => Err(KvsError::ConnectionError),
            Exchange::Reply(reply) => match decode_response(reply.as_slice()) {
                Ok(response) => {
                    if response.tuples.len() == 0 {
                        Ok(None)
                    } else {
                        match ValueEnvelope::decode(response.tuples[0].payload.as_slice()) {
                            Ok(envelope) => Ok(Some(envelope.value)),
                            Err(_) => Err(KvsError::CodecError),
                        }
                    }
                },
                Err(_) => Err(KvsError::CodecError),
            },
        }
    }

    /// The remote store cannot remove keys: nothing is sent, no identifier is used, and
    /// whether the key existed stays unknown.
    pub fn delete(&mut self, _key: &[u8]) -> (r: Result<Existence, KvsError>)
        ensures
            final(self)@ == old(self)@,
            r == Ok::<Existence, KvsError>(Existence::Unknown),
    {
        Ok(Existence::unknown())
    }
}

/// The port of the channel with index 0; the channel with index `i` has the port `i` above.
pub const BASE_PORT: u64 = 7000;

/// The highest port there is.
pub const MAX_PORT: u64 = 65535;

/// Whether there is a port for the channel with the given index.
pub open spec fn has_port(index: nat) -> bool {
    BASE_PORT + index <= MAX_PORT
}

/// The address at which the channel with the given index waits for replies.
pub open spec fn bind_address_text(index: nat) -> Seq<char> {
    "tcp://*:"@ + decimal(BASE_PORT as nat + index)
}

/// The address that the channel with the given index asks for replies at.
pub open spec fn reply_address_text(index: nat) -> Seq<char> {
    "tcp://localhost:"@ + decimal(BASE_PORT as nat + index)
}

/// The channel with the given index before its first request.
pub open spec fn fresh_client(index: nat) -> ClientView {
    ClientView { client_id: index as usize, rid: 0, reply_address: reply_address_text(index) }
}

/// The channels of a pool after construction, where `built[i]` says whether the channel
/// with index `i` could be set up: those that could, in the order of their indices. A
/// channel without a port cannot be set up.
pub open spec fn built_clients(built: Seq<bool>) -> Seq<ClientView>
    decreases built.len(),
{
    if built.len() == 0 {
        Seq::empty()
    } else {
        let front = built_clients(built.drop_last());
        let index = (built.len() - 1) as nat;
        if built.last() && has_port(index) {
            front.push(fresh_client(index))
        } else {
            front
        }
    }
}

/// The address at which the channel with the given index waits for replies, if there is a
/// port for it.
pub fn bind_address(index: usize) -> (address: Option<String>)
    ensures
        address is Some <==> has_port(index as nat),
        address matches Some(text) ==> text@ == bind_address_text(index as nat),
{
    if index as u64 > MAX_PORT - BASE_PORT {
        None
    } else {
        let mut text = "tcp://*:".to_owned();
        push_decimal(BASE_PORT + index as u64, &mut text);
        Some(text)
    }
}

/// The address that the channel with the given index asks for replies at, if there is a
/// port for it.
pub fn reply_address(index: usize) -> (address: Option<String>)
    ensures
        address is Some <==> has_port(index as nat),
        address matches Some(text) ==> text@ == reply_address_text(index as nat),
{
    if index as u64 > MAX_PORT - BASE_PORT {
        None
    } else {
        let mut text = "tcp://localhost:".to_owned();
        push_decimal(BASE_PORT + index as u64, &mut text);
        Some(text)
    }
}

/// A request to send, and the channel to send it on.
#[derive(Debug, Clone, PartialEq, Eq)]
pub struct Dispatch {
    /// The position of the channel among the live channels.
    pub channel: usize,
    /// The bytes to send as one frame.
    pub frame: Vec<u8>,
}

/// The channels of a remote store, used in turn.
#[derive(Debug)]
pub struct CrisperClientPool {
    clients: Vec<CrisperKVSClient>,
    curr_client: usize,
}

/// What a pool holds.
pub struct PoolView {
    /// The live channels, in the order of their indices.
    pub clients: Seq<ClientView>,
    /// The position of the channel that the next operation goes to.
    pub cursor: nat,
}

/// What each channel of a sequence holds.
pub open spec fn client_views(clients: Seq<CrisperKVSClient>) -> Seq<ClientView> {
    Seq::new(clients.len(), |i: int| clients[i]@)
}

impl View for CrisperClientPool {
    type V = PoolView;

    closed spec fn view(&self) -> PoolView {
        PoolView { clients: client_views(self.clients@), cursor: self.curr_client as nat }
    }
}

/// The cursor points at a live channel, or is zero where there is none.
pub open spec fn well_formed(p: PoolView) -> bool {
    if p.clients.len() == 0 {
        p.cursor == 0
    } else {
        p.cursor < p.clients.len()
    }
}

/// The cursor after an operation was dispatched: one further, and back at the first
/// channel after the last.
pub open spec fn next_cursor(cursor: nat, live: nat) -> nat {
    if live == 0 {
        0
    } else {
        (cursor + 1) % live
    }
}

/// The pool after it was asked to dispatch an operation: the channel under the cursor was
/// asked for a request, and the cursor has moved on. A pool without channels stays as it is.
pub open spec fn after_dispatch(p: PoolView) -> PoolView {
    if p.clients.len() == 0 {
        p
    } else {
        PoolView {
            clients: p.clients.update(p.cursor as int, after_issue(p.clients[p.cursor as int])),
            cursor: next_cursor(p.cursor, p.clients.len()),
        }
    }
}

/// What a pool answers when it is asked to write: the channel under the cursor and the
/// bytes to send on it, or why there are none.
pub open spec fn dispatch_put(p: PoolView, key: Seq<u8>, value: Seq<u8>) -> Result<
    (nat, Seq<u8>),
    KvsError,
> {
    if p.clients.len() == 0 {
        Err(KvsError::PoolExhausted)
    } else {
        match issue_put(p.clients[p.cursor as int], key, value) {
            Ok(frame) => Ok((p.cursor, frame)),
            Err(e) => Err(e),
        }
    }
}

/// What a pool answers when it is asked to read: the channel under the cursor and the bytes
/// to send on it, or why there are none.
pub open spec fn dispatch_get(p: PoolView, key: Seq<u8>) -> Result<(nat, Seq<u8>), KvsError> {
    if p.clients.len() == 0 {
        Err(KvsError::PoolExhausted)
    } else {
        match issue_get(p.clients[p.cursor as int], key) {
            Ok(frame) => Ok((p.cursor, frame)),
            Err(e) => Err(e),
        }
    }
}

/// The channel and the bytes of a dispatch, or the error in its place.
pub open spec fn dispatch_view(r: Result<Dispatch, KvsError>) -> Result<(nat, Seq<u8>), KvsError> {
    match r {
        Ok(dispatch) => Ok((dispatch.channel as nat, dispatch.frame@)),
        Err(e) => Err(e),
    }
}

/// A pool has at most as many live channels as were tried.
pub proof fn lemma_built_clients_len(built: Seq<bool>)
    ensures
        built_clients(built).len() <= built.len(),
    decreases built.len(),
{
    if built.len() > 0 {
        lemma_built_clients_len(built.drop_last());
    }
}

impl CrisperClientPool {
    #[verifier::type_invariant]
    spec fn cursor_in_range(self) -> bool {
        if self.clients@.len() == 0 {
            self.curr_client == 0
        } else {
            self.curr_client < self.clients@.len()
        }
    }

    /// The pool of the channels that could be set up: `built[i]` says whether the channel
    /// with index `i` could. The first operation goes to the first live channel. A pool
    /// without live channels is made like any other.
    pub fn new(built: &[bool]) -> (r: Result<Self, KvsError>)
        ensures
            r matches Ok(pool) && pool@ == (PoolView { clients: built_clients(built@), cursor: 0 }),
            r matches Ok(pool) && well_formed(pool@) && pool@.clients.len() <= built@.len(),
    {
        let mut clients: Vec<CrisperKVSClient> = Vec::new();
        let mut i: usize = 0;
        assert(built@.take(0) =~= Seq::<bool>::empty());
        assert(client_views(clients@) =~= built_clients(built@.take(0)));
        while i < built.len()
            invariant
                i <= built.len(),
                client_views(clients@) == built_clients(built@.take(i as int)),
            decreases built.len() - i,
        {
            let ghost before = client_views(clients@);
            if built[i] {
                match reply_address(i) {
                    Some(address) => {
                        let client = CrisperKVSClient {
                            client_id: i,
                            rid: 0,
                            reply_address: address,
                        };
                        clients.push(client);
                        assert(client_views(clients@) =~= before.push(fresh_client(i as nat)));
                    },
                    None => {},
                }
            }
            proof {
                let upto = built@.take(i + 1);
                assert(upto.drop_last() =~= built@.take(i as int));
                assert(upto.last() == built@[i as int]);
            }
            i = i + 1;
        }
        assert(built@.take(built.len() as int) =~= built@);
        proof {
            lemma_built_clients_len(built@);
        }
        Ok(CrisperClientPool { clients, curr_client: 0 })
    }

    /// The number of live channels.
    pub fn live_count(&self) -> (count: usize)
        ensures
            count == self@.clients.len(),
            well_formed(self@),
    {
        proof {
            use_type_invariant(self);
        }
        self.clients.len()
    }

    /// The live channel at the given position, if there is one.
    pub fn client(&self, channel: usize) -> (client: Option<&CrisperKVSClient>)
        ensures
            client is Some <==> channel < self@.clients.len(),
            client matches Some(c) ==> c@ == self@.clients[channel as int],
    {
        if channel < self.clients.len() {
            Some(&self.clients[channel])
        } else {
            None
        }
    }

    /// Chooses the channel for the next operation: the one under the cursor, which moves on
    /// by one and, after the last channel, back to the first. No channel is chosen from a
    /// pool without live channels, which stays as it is.
    fn get_client(&mut self) -> (chosen: Option<usize>)
        ensures
            final(self).clients == old(self).clients,
            well_formed(old(self)@),
            final(self)@.cursor == next_cursor(old(self)@.cursor, old(self)@.clients.len()),
            chosen == if old(self)@.clients.len() == 0 {
                None
            } else {
                Some(old(self).curr_client)
            },
    {
        proof {
            use_type_invariant(&*self);
        }
        let live = self.clients.len();
        if live == 0 {
            None
        } else {
            let channel = self.curr_client;
            self.curr_client = (channel + 1) % live;
            Some(channel)
        }
    }

    /// Starts a write on the channel under the cursor and moves the cursor on. Fails on a
    /// pool without live channels, which stays as it is.
    pub fn begin_put(&mut self, key: &[u8], value: &[u8]) -> (r: Result<Dispatch, KvsError>)
        ensures
            final(self)@ == after_dispatch(old(self)@),
            dispatch_view(r) == dispatch_put(old(self)@, key@, value@),
            well_formed(old(self)@),
            well_formed(final(self)@),
    {
        let channel = match self.get_client() {
            Some(channel) => channel,
            None => {
                return Err(KvsError::PoolExhausted);
            },
        };
        let ghost before = client_views(self.clients@);
        let issued = self.clients[channel].begin_put(key, value);
        assert(client_views(self.clients@) =~= before.update(
            channel as int,
            after_issue(before[channel as int]),
        ));
        proof {
            use_type_invariant(&*self);
        }
        match issued {
            Ok(frame) => Ok(Dispatch { channel, frame }),
            Err(e) => Err(e),
        }
    }

    /// Starts a read on the channel under the cursor and moves the cursor on. Fails on a
    /// pool without live channels, which stays as it is.
    pub fn begin_get(&mut self, key: &[u8]) -> (r: Result<Dispatch, KvsError>)
        ensures
            final(self)@ == after_dispatch(old(self)@),
            dispatch_view(r) == dispatch_get(old(self)@, key@),
            well_formed(old(self)@),
            well_formed(final(self)@),
    {
        let channel = match self.get_client() {
            Some(channel) => channel,
            None => {
                return Err(KvsError::PoolExhausted);
            },
        };
        let ghost before = client_views(self.clients@);
        let issued = self.clients[channel].begin_get(key);
        assert(client_views(self.clients@) =~= before.update(
            channel as int,
            after_issue(before[channel as int]),
        ));
        proof {
            use_type_invariant(&*self);
        }
        match issued {
            Ok(frame) => Ok(Dispatch { channel, frame }),
            Err(e) => Err(e),
        }
    }

    /// Ends a write, given what came of the exchange on the channel it was dispatched to.
    pub fn finish_put(exchange: &Exchange) -> (r: Result<Existence, KvsError>)
        ensures
            r == put_outcome(*exchange),
    {
        CrisperKVSClient::finish_put(exchange)
    }

    /// Ends a read, given what came of the exchange on the channel it was dispatched to.
    pub fn finish_get(exchange: &Exchange) -> (r: Result<Option<Vec<u8>>, KvsError>)
        ensures
            value_view(r) == get_outcome(*exchange),
    {
        CrisperKVSClient::finish_get(exchange)
    }

    /// The remote store cannot remove keys. No channel is chosen, nothing is sent, and
    /// whether the key existed stays unknown, whatever the pool holds.
    pub fn delete(&mut self, _key: &[u8]) -> (r: Result<Existence, KvsError>)
        ensures
            final(self)@ == old(self)@,
            r == Ok::<Existence, KvsError>(Existence::Unknown),
    {
        Ok(Existence::unknown())
    }
}

} // verus!
