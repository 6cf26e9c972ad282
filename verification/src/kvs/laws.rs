//! What holds of a pool and of a channel over any number of operations: which channel each
//! operation goes to, how many operations each channel gets, which identifiers a channel
//! gives to its requests, and what a remote store that keeps what it is sent makes of a
//! write and of the read that follows.

use crate::error::KvsError;
use crate::envelope::{lemma_envelope_round_trip, EnvelopeView};
use crate::kvs::crisper::{
    after_dispatch, after_issue, bind_address_text, built_clients, can_issue, dispatch_get,
    dispatch_put, get_outcome, issue_put, put_outcome, put_request, reply_address_text,
    well_formed, ClientView, Exchange, PoolView, BASE_PORT,
};
use crate::reqresp::{
    empty_response, lemma_request_round_trip, lemma_response_round_trip, request_fits,
    request_parse, response_bytes, response_parse, ResponseView,
};
use crate::task::Existence;
use crate::text::{decimal, lemma_decimal_injective};
use vstd::arithmetic::div_mod::{
    lemma_fundamental_div_mod, lemma_fundamental_div_mod_converse, lemma_mod_bound,
    lemma_mod_self_0, lemma_small_mod,
};
use vstd::prelude::*;

verus! {

/// The pool after `count` operations were dispatched, one after the other.
pub open spec fn after_dispatches(p: PoolView, count: nat) -> PoolView
    decreases count,
{
    if count == 0 {
        p
    } else {
        after_dispatch(after_dispatches(p, (count - 1) as nat))
    }
}

/// The channel that operation number `index` goes to, counted from zero.
pub open spec fn selected(p: PoolView, index: nat) -> nat {
    after_dispatches(p, index).cursor
}

/// How many of the first `count` operations go to the given channel.
pub open spec fn share(p: PoolView, count: nat, channel: nat) -> nat
    decreases count,
{
    if count == 0 {
        0
    } else {
        share(p, (count - 1) as nat, channel) + if selected(p, (count - 1) as nat) == channel {
            1nat
        } else {
            0nat
        }
    }
}

/// The channel after it was asked for `count` requests, one after the other.
pub open spec fn after_issues(c: ClientView, count: nat) -> ClientView
    decreases count,
{
    if count == 0 {
        c
    } else {
        after_issue(after_issues(c, (count - 1) as nat))
    }
}

/// The identifier of request number `index` of the channel, counted from zero.
pub open spec fn nth_identifier(c: ClientView, index: nat) -> u64 {
    after_issues(c, index).rid
}

/// The remainder and the quotient of a number's successor.
pub proof fn lemma_successor_div_mod(x: int, k: int)
    requires
        x >= 0,
        k > 0,
    ensures
        0 <= x % k < k,
        (x % k + 1) % k == (x + 1) % k,
        x % k + 1 < k ==> (x + 1) % k == x % k + 1 && (x + 1) / k == x / k,
        x % k + 1 == k ==> (x + 1) % k == 0 && (x + 1) / k == x / k + 1,
{
    let q = x / k;
    let r = x % k;
    lemma_fundamental_div_mod(x, k);
    lemma_mod_bound(x, k);
    assert(k * q == q * k) by (nonlinear_arith);
    if r + 1 < k {
        lemma_fundamental_div_mod_converse(x + 1, k, q, r + 1);
        lemma_small_mod((r + 1) as nat, k as nat);
    } else {
        assert((q + 1) * k == q * k + k) by (nonlinear_arith);
        lemma_fundamental_div_mod_converse(x + 1, k, q + 1, 0);
        lemma_mod_self_0(k);
    }
}

/// Dispatching keeps the number of channels and a cursor that points at one of them, and
/// moves the cursor by one for each operation, around the channels.
pub proof fn lemma_cursor_after_dispatches(p: PoolView, count: nat)
    requires
        well_formed(p),
        p.clients.len() > 0,
    ensures
        after_dispatches(p, count).clients.len() == p.clients.len(),
        well_formed(after_dispatches(p, count)),
        after_dispatches(p, count).cursor == (p.cursor + count) % p.clients.len(),
    decreases count,
{
    let live = p.clients.len() as int;
    if count == 0 {
        lemma_small_mod(p.cursor, p.clients.len());
    } else {
        lemma_cursor_after_dispatches(p, (count - 1) as nat);
        lemma_successor_div_mod(p.cursor + count - 1, live);
        lemma_mod_bound((p.cursor + count) as int, live);
    }
}

/// The channels are used in turn: from a pool whose cursor is at the first of `k` live
/// channels, operation number `index` goes to channel `index % k`, so that the channels
/// repeat with period `k`.
pub proof fn lemma_round_robin_period(p: PoolView, index: nat)
    requires
        p.cursor == 0,
        p.clients.len() > 0,
    ensures
        selected(p, index) == index % p.clients.len(),
        selected(p, index + p.clients.len()) == selected(p, index),
{
    let live = p.clients.len() as int;
    lemma_cursor_after_dispatches(p, index);
    lemma_cursor_after_dispatches(p, index + p.clients.len());
    lemma_fundamental_div_mod(index as int, live);
    lemma_mod_bound(index as int, live);
    let q = index as int / live;
    assert((q + 1) * live == q * live + live) by (nonlinear_arith);
    assert(live * q == q * live) by (nonlinear_arith);
    lemma_fundamental_div_mod_converse(index as int + live, live, q + 1, index as int % live);
}

/// Of the first `count` operations on a pool whose cursor is at the first of `k` live
/// channels, each channel gets `count / k`, and the first `count % k` channels one more.
pub proof fn lemma_round_robin_share(p: PoolView, count: nat, channel: nat)
    requires
        p.cursor == 0,
        p.clients.len() > 0,
        channel < p.clients.len(),
    ensures
        share(p, count, channel) == count / p.clients.len() + if channel < count % p.clients.len() {
            1nat
        } else {
            0nat
        },
    decreases count,
{
    let live = p.clients.len();
    if count == 0 {
        lemma_small_mod(0, live);
        lemma_fundamental_div_mod_converse(0, live as int, 0, 0);
    } else {
        let before = (count - 1) as nat;
        lemma_round_robin_share(p, before, channel);
        lemma_round_robin_period(p, before);
        lemma_successor_div_mod(before as int, live as int);
    }
}

/// Round robin is fair: of `count` operations on a pool whose cursor is at the first of `k`
/// live channels, each channel gets `count / k` rounded down or rounded up.
pub proof fn lemma_round_robin_fair(p: PoolView, count: nat, channel: nat)
    requires
        p.cursor == 0,
        p.clients.len() > 0,
        channel < p.clients.len(),
    ensures
        share(p, count, channel) == count / p.clients.len() || share(p, count, channel) == (count
            + p.clients.len() - 1) / (p.clients.len() as int),
{
    let d = p.clients.len() as int;
    let q = count as int / d;
    let r = count as int % d;
    lemma_round_robin_share(p, count, channel);
    lemma_fundamental_div_mod(count as int, d);
    lemma_mod_bound(count as int, d);
    assert(d * q == q * d) by (nonlinear_arith);
    if r > 0 {
        assert((q + 1) * d == q * d + d) by (nonlinear_arith);
        lemma_fundamental_div_mod_converse(count as int + d - 1, d, q + 1, r - 1);
    }
}

/// A channel that has identifiers left for `count` more requests counts up by one for each.
pub proof fn lemma_identifier_after_issues(c: ClientView, count: nat)
    requires
        c.rid + count <= u64::MAX,
    ensures
        after_issues(c, count) == (ClientView { rid: (c.rid + count) as u64, ..c }),
    decreases count,
{
    if count > 0 {
        lemma_identifier_after_issues(c, (count - 1) as nat);
    }
}

/// The identifiers of a channel's requests grow strictly, whatever the operations are, and
/// no two requests have the same identifier on the wire: for requests number `earlier` and
/// `later` of a channel that has an identifier left for the later.
pub proof fn lemma_identifiers_increase(c: ClientView, earlier: nat, later: nat)
    requires
        earlier < later,
        can_issue(after_issues(c, later)),
    ensures
        nth_identifier(c, earlier) < nth_identifier(c, later),
        decimal(nth_identifier(c, earlier) as nat) != decimal(nth_identifier(c, later) as nat),
{
    lemma_issues_left(c, later);
    lemma_identifier_after_issues(c, later);
    lemma_identifier_after_issues(c, earlier);
    if decimal(nth_identifier(c, earlier) as nat) == decimal(nth_identifier(c, later) as nat) {
        lemma_decimal_injective(
            nth_identifier(c, earlier) as nat,
            nth_identifier(c, later) as nat,
        );
    }
}

/// A channel that still has an identifier left after `count` requests had one for each of
/// them.
pub proof fn lemma_issues_left(c: ClientView, count: nat)
    requires
        can_issue(after_issues(c, count)),
    ensures
        c.rid + count < u64::MAX,
    decreases count,
{
    if count > 0 {
        let before = after_issues(c, (count - 1) as nat);
        if can_issue(before) {
            lemma_issues_left(c, (count - 1) as nat);
            lemma_identifier_after_issues(c, (count - 1) as nat);
        }
    }
}

/// Channels with different indices have different addresses, both to wait at and to ask for
/// replies at.
pub proof fn lemma_addresses_distinct(i: nat, j: nat)
    requires
        i != j,
    ensures
        bind_address_text(i) != bind_address_text(j),
        reply_address_text(i) != reply_address_text(j),
{
    let a = BASE_PORT as nat + i;
    let b = BASE_PORT as nat + j;
    if decimal(a) == decimal(b) {
        lemma_decimal_injective(a, b);
    }
    let bind = "tcp://*:"@;
    let reply = "tcp://localhost:"@;
    assert((bind + decimal(a)).skip(bind.len() as int) =~= decimal(a));
    assert((bind + decimal(b)).skip(bind.len() as int) =~= decimal(b));
    assert((reply + decimal(a)).skip(reply.len() as int) =~= decimal(a));
    assert((reply + decimal(b)).skip(reply.len() as int) =~= decimal(b));
}

/// Where no channel could be set up, the pool has no live channel.
pub proof fn lemma_none_built(built: Seq<bool>)
    requires
        forall|i: int| 0 <= i < built.len() ==> !built[i],
    ensures
        built_clients(built) == Seq::<ClientView>::empty(),
    decreases built.len(),
{
    if built.len() > 0 {
        lemma_none_built(built.drop_last());
    }
}

/// A pool for which no channel could be set up has no live channel, and answers every
/// write and every read with `PoolExhausted`, staying as it is.
pub proof fn lemma_degenerate_pool(built: Seq<bool>, key: Seq<u8>, value: Seq<u8>)
    requires
        forall|i: int| 0 <= i < built.len() ==> !built[i],
    ensures
        ({
            let p = PoolView { clients: built_clients(built), cursor: 0 };
            &&& p.clients.len() == 0
            &&& dispatch_put(p, key, value) == Err::<(nat, Seq<u8>), KvsError>(
                KvsError::PoolExhausted,
            )
            &&& dispatch_get(p, key) == Err::<(nat, Seq<u8>), KvsError>(KvsError::PoolExhausted)
            &&& after_dispatch(p) == p
        }),
{
    lemma_none_built(built);
}

/// A read whose response carries no tuples finds nothing: the wire form of the response
/// without tuples, as the reply of the exchange, gives `None`.
pub proof fn lemma_get_miss(reply: Vec<u8>)
    requires
        reply@ == response_bytes(empty_response()),
    ensures
        response_parse(reply@) == Some(empty_response()),
        get_outcome(Exchange::Reply(reply)) == Ok::<Option<Seq<u8>>, KvsError>(None),
{
}

/// What a channel sends for a write reads back, at the remote end, as the request of that
/// write: the key, the value in its envelope, the channel's reply address and identifier.
pub proof fn lemma_put_request_reads_back(c: ClientView, key: Seq<u8>, value: Seq<u8>)
    requires
        can_issue(c),
        vstd::utf8::valid_utf8(key),
        request_fits(put_request(c, key, value)),
    ensures
        issue_put(c, key, value) matches Ok(frame) && request_parse(frame) == Some(
            put_request(c, key, value),
        ),
{
    lemma_request_round_trip(put_request(c, key, value));
}

/// A remote store that answers a write with the tuples it was sent confirms the write, and
/// when it answers a later read with those tuples, the read returns the value that was
/// written.
pub proof fn lemma_get_reads_what_put_wrote(
    c: ClientView,
    key: Seq<u8>,
    value: Seq<u8>,
    reply: Vec<u8>,
)
    requires
        request_fits(put_request(c, key, value)),
        value.len() <= u64::MAX,
        reply@ == response_bytes(ResponseView { tuples: put_request(c, key, value).tuples }),
    ensures
        put_outcome(Exchange::Reply(reply)) == Ok::<Existence, KvsError>(Existence::Present),
        get_outcome(Exchange::Reply(reply)) == Ok::<Option<Seq<u8>>, KvsError>(Some(value)),
{
    let request = put_request(c, key, value);
    lemma_response_round_trip(ResponseView { tuples: request.tuples });
    lemma_envelope_round_trip(EnvelopeView { timestamp: c.rid, value });
}

} // verus!
