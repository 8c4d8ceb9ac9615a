use vstd::prelude::*;

use vstd::utf8::encode_utf8;

use crate::error::ContractError;
use crate::msg::{
    AbciQueryRequest, ArithmeticTwapToNowRequest, CosmosQuery, InterchainQueryPacketData,
    ProtoCoin, QueryBalanceMsg, QueryTwapMsg, Timestamp,
};
use crate::state::{
    chan_has, get_next_sequence_send, kv_insert, IcqState, PendingQuery, PendingQueryV,
};
use crate::wire::{
    encode_balance_request, encode_cosmos_query, encode_twap_request, spec_balance_request,
    spec_cosmos_query, spec_single_query_envelope, spec_twap_request,
};

verus! {

/// Fixed window between a packet's send time and its timeout, in seconds.
pub const PACKET_LIFETIME_SECONDS: u64 = 120;

/// Fixed distance between a price query's start time and the send time, in
/// seconds.
pub const TWAP_WINDOW_SECONDS: u64 = 14400;

/// The routing path of the account-balance query handler.
pub open spec fn spec_balance_query_path() -> Seq<char> {
    "/cosmos.bank.v1beta1.Query/Balance"@
}

/// The routing path of the account-balance query handler.
pub fn balance_query_path() -> (s: &'static str)
    ensures
        s@ == spec_balance_query_path(),
{
    "/cosmos.bank.v1beta1.Query/Balance"
}

/// The routing path of the time-weighted-average-price query handler.
pub open spec fn spec_twap_query_path() -> Seq<char> {
    "/osmosis.twap.v1beta1.Query/ArithmeticTwapToNow"@
}

/// The routing path of the time-weighted-average-price query handler.
pub fn twap_query_path() -> (s: &'static str)
    ensures
        s@ == spec_twap_query_path(),
{
    "/osmosis.twap.v1beta1.Query/ArithmeticTwapToNow"
}

/// The free-text memo carried by every outbound packet.
pub open spec fn spec_packet_memo() -> Seq<char> {
    "test icq request"@
}

/// The free-text memo carried by every outbound packet.
pub fn packet_memo() -> (s: &'static str)
    ensures
        s@ == spec_packet_memo(),
{
    "test icq request"
}

/// The one outbound channel message a send emits: which channel, the typed
/// packet payload, the allocated sequence number, and the absolute timeout.
#[derive(Clone, Debug, PartialEq, Eq)]
pub struct IbcSendPacket {
    pub channel_id: String,
    pub data: InterchainQueryPacketData,
    pub sequence: u64,
    pub timeout_seconds: u64,
}

/// Send an account-balance query: fails with `NoSuchChannel` unless the
/// channel is registered; otherwise allocates the next sequence number,
/// records the pending request under it, and returns the packet to emit,
/// carrying the protobuf-encoded balance query routed to the balance path,
/// with a timeout a fixed window after `now_seconds`.
pub fn send_query_balance(state: &mut IcqState, now_seconds: u64, msg: QueryBalanceMsg) -> (r:
    Result<IbcSendPacket, ContractError>)
    requires
        old(state).wf(),
        old(state).next_sequence_send < u64::MAX,
        now_seconds <= u64::MAX - PACKET_LIFETIME_SECONDS,
    ensures
        final(state).wf(),
        (r is Err) <==> !old(state).channels_map().contains_key(msg.channel@),
        r matches Err(e) ==> e matches ContractError::NoSuchChannel { id } && id@ == msg.channel@
            && *final(state) == *old(state),
        r matches Ok(p) ==> {
            &&& p.channel_id@ == msg.channel@
            &&& p.sequence == old(state).next_sequence_send + 1
            &&& p.timeout_seconds == now_seconds + PACKET_LIFETIME_SECONDS
            &&& p.data.memo@ == spec_packet_memo()
            &&& p.data.data@ == spec_single_query_envelope(
                spec_balance_request(encode_utf8(msg.address@), encode_utf8(msg.denom@)),
                encode_utf8(spec_balance_query_path()),
            )
            &&& final(state).next_sequence_send == p.sequence
            &&& final(state).pending_map() == old(state).pending_map().insert(
                p.sequence,
                PendingQueryV::Balance(msg@),
            )
            &&& *final(state) == (IcqState {
                next_sequence_send: p.sequence,
                pending_requests: final(state).pending_requests,
                ..*old(state)
            })
        },
{
    if !chan_has(&state.channels, &msg.channel) {
        return Err(ContractError::NoSuchChannel { id: msg.channel });
    }

    let body = encode_balance_request(&msg.address, &msg.denom);
    let req = AbciQueryRequest {
        data: body,
        path: balance_query_path().to_owned(),
        height: 0,
        prove: false,
    };
    let mut requests: Vec<AbciQueryRequest> = Vec::new();
    requests.push(req);
    let query = CosmosQuery { requests };
    let data = encode_cosmos_query(&query);
    proof {
        assert(query.requests@.len() == 1);
        assert(query.requests@.drop_last() =~= Seq::<AbciQueryRequest>::empty());
        assert(spec_cosmos_query(query.requests@.drop_last()) =~= Seq::<u8>::empty());
        assert(spec_cosmos_query(query.requests@) =~= spec_single_query_envelope(
            spec_balance_request(encode_utf8(msg.address@), encode_utf8(msg.denom@)),
            encode_utf8(spec_balance_query_path()),
        ));
    }

    let packet_data = InterchainQueryPacketData { data, memo: packet_memo().to_owned() };
    let timeout_seconds = now_seconds + PACKET_LIFETIME_SECONDS;
    let channel_id = msg.channel.clone();

    let sequence = get_next_sequence_send(state);
    kv_insert(&mut state.pending_requests, sequence, PendingQuery::Balance(msg));

    Ok(IbcSendPacket { channel_id, data: packet_data, sequence, timeout_seconds })
}

/// Send a time-weighted-average-price query: fails with `NoSuchChannel`
/// unless the channel is registered; otherwise allocates the next sequence
/// number, records the pending request under it, and returns the packet to
/// emit, carrying the protobuf-encoded price query — its start time a fixed
/// window before `now_seconds` — routed to the price path.
pub fn send_query_twap(state: &mut IcqState, now_seconds: u64, msg: QueryTwapMsg) -> (r: Result<
    IbcSendPacket,
    ContractError,
>)
    requires
        old(state).wf(),
        old(state).next_sequence_send < u64::MAX,
        now_seconds <= u64::MAX - PACKET_LIFETIME_SECONDS,
        now_seconds >= TWAP_WINDOW_SECONDS,
        now_seconds - TWAP_WINDOW_SECONDS <= i64::MAX,
    ensures
        final(state).wf(),
        (r is Err) <==> !old(state).channels_map().contains_key(msg.channel@),
        r matches Err(e) ==> e matches ContractError::NoSuchChannel { id } && id@ == msg.channel@
            && *final(state) == *old(state),
        r matches Ok(p) ==> {
            &&& p.channel_id@ == msg.channel@
            &&& p.sequence == old(state).next_sequence_send + 1
            &&& p.timeout_seconds == now_seconds + PACKET_LIFETIME_SECONDS
            &&& p.data.memo@ == spec_packet_memo()
            &&& p.data.data@ == spec_single_query_envelope(
                spec_twap_request(
                    msg.pool_id,
                    encode_utf8(msg.base_asset@),
                    encode_utf8(msg.quote_asset@),
                    Some(
                        Timestamp {
                            seconds: (now_seconds - TWAP_WINDOW_SECONDS) as i64,
                            nanos: 0,
                        },
                    ),
                ),
                encode_utf8(spec_twap_query_path()),
            )
            &&& final(state).next_sequence_send == p.sequence
            &&& final(state).pending_map() == old(state).pending_map().insert(
                p.sequence,
                PendingQueryV::Twap(msg@),
            )
            &&& *final(state) == (IcqState {
                next_sequence_send: p.sequence,
                pending_requests: final(state).pending_requests,
                ..*old(state)
            })
        },
{
    if !chan_has(&state.channels, &msg.channel) {
        return Err(ContractError::NoSuchChannel { id: msg.channel });
    }

    let start_time = Timestamp { seconds: (now_seconds - TWAP_WINDOW_SECONDS) as i64, nanos: 0 };
    let twap_request = ArithmeticTwapToNowRequest {
        pool_id: msg.pool_id,
        base_asset: msg.base_asset.clone(),
        quote_asset: msg.quote_asset.clone(),
        start_time: Some(start_time),
    };
    let body = encode_twap_request(&twap_request);
    let req = AbciQueryRequest {
        data: body,
        path: twap_query_path().to_owned(),
        height: 0,
        prove: false,
    };
    let mut requests: Vec<AbciQueryRequest> = Vec::new();
    requests.push(req);
    let query = CosmosQuery { requests };
    let data = encode_cosmos_query(&query);
    proof {
        assert(query.requests@.len() == 1);
        assert(query.requests@.drop_last() =~= Seq::<AbciQueryRequest>::empty());
        assert(spec_cosmos_query(query.requests@.drop_last()) =~= Seq::<u8>::empty());
        assert(spec_cosmos_query(query.requests@) =~= spec_single_query_envelope(
            spec_twap_request(
                msg.pool_id,
                encode_utf8(msg.base_asset@),
                encode_utf8(msg.quote_asset@),
                Some(start_time),
            ),
            encode_utf8(spec_twap_query_path()),
        ));
    }

    let packet_data = InterchainQueryPacketData { data, memo: packet_memo().to_owned() };
    let timeout_seconds = now_seconds + PACKET_LIFETIME_SECONDS;
    let channel_id = msg.channel.clone();

    let sequence = get_next_sequence_send(state);
    kv_insert(&mut state.pending_requests, sequence, PendingQuery::Twap(msg));

    Ok(IbcSendPacket { channel_id, data: packet_data, sequence, timeout_seconds })
}

/// All persisted balance results, keyed by sequence.
pub fn query_all_balances(state: &IcqState) -> (r: &Vec<(u64, ProtoCoin)>)
    ensures
        r@ == state.balance_results@,
{
    &state.balance_results
}

/// All persisted price results, keyed by sequence.
pub fn query_all_price_feed(state: &IcqState) -> (r: &Vec<(u64, String)>)
    ensures
        r@ == state.price_results@,
{
    &state.price_results
}

/// All persisted error records, keyed by sequence.
pub fn query_all_errors(state: &IcqState) -> (r: &Vec<(u64, String)>)
    ensures
        r@ == state.errors@,
{
    &state.errors
}

/// The most recently acknowledged sequence, if any acknowledgment arrived.
pub fn query_last_sequence(state: &IcqState) -> (r: Option<u64>)
    ensures
        r == state.last_sequence_ack,
{
    state.last_sequence_ack
}

} // verus!
