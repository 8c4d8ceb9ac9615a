use vstd::prelude::*;

use vstd::utf8::{encode_utf8, valid_utf8};

use crate::ack::{
    data_key, error_key, json_single_parse, parse_ack, parse_response_packet, result_key, Ack,
};
use crate::error::ContractError;
use crate::ext::base64_bytes;
use crate::msg::ProtoCoinV;
use crate::state::{
    chan_remove, chan_save, kv_get, kv_insert, ChannelInfo, ChannelInfoV, IbcEndpoint,
    IcqState, PendingQuery, PendingQueryV,
};
use crate::wire::{
    balance_response_parse, cosmos_response_parse, decode_balance_response,
    decode_cosmos_response, decode_twap_response, twap_response_parse,
};

verus! {

/// The fixed protocol version identifier both sides must propose.
pub open spec fn spec_ibc_version() -> Seq<char> {
    "icq-1"@
}

/// The fixed protocol version identifier, `"icq-1"`.
pub fn ibc_version() -> (s: &'static str)
    ensures
        s@ == spec_ibc_version(),
{
    "icq-1"
}

/// Whether packet delivery on a channel preserves send order.
#[derive(Clone, Copy, Debug, PartialEq, Eq, Structural)]
pub enum IbcOrder {
    Unordered,
    Ordered,
}

/// The channel metadata presented during the handshake.
#[derive(Clone, Debug, PartialEq, Eq)]
pub struct IbcChannel {
    /// this chain's end of the channel
    pub endpoint: IbcEndpoint,
    /// the remote end of the channel
    pub counterparty_endpoint: IbcEndpoint,
    pub order: IbcOrder,
    pub version: String,
    /// the connection the channel exists on
    pub connection_id: String,
}

/// The open step of the handshake (`OpenInit` on the initiating chain,
/// `OpenTry` on the other, which already knows the counterparty version).
pub enum IbcChannelOpenMsg {
    OpenInit { channel: IbcChannel },
    OpenTry { channel: IbcChannel, counterparty_version: String },
}

impl IbcChannelOpenMsg {
    pub open spec fn spec_channel(self) -> IbcChannel {
        match self {
            IbcChannelOpenMsg::OpenInit { channel } => channel,
            IbcChannelOpenMsg::OpenTry { channel, .. } => channel,
        }
    }

    pub open spec fn spec_counterparty_version(self) -> Option<Seq<char>> {
        match self {
            IbcChannelOpenMsg::OpenInit { .. } => None,
            IbcChannelOpenMsg::OpenTry { counterparty_version, .. } => Some(
                counterparty_version@,
            ),
        }
    }
}

/// The connect step of the handshake (`OpenAck` on the initiating chain,
/// which learns the counterparty version here, `OpenConfirm` on the other).
pub enum IbcChannelConnectMsg {
    OpenAck { channel: IbcChannel, counterparty_version: String },
    OpenConfirm { channel: IbcChannel },
}

impl IbcChannelConnectMsg {
    pub open spec fn spec_channel(self) -> IbcChannel {
        match self {
            IbcChannelConnectMsg::OpenAck { channel, .. } => channel,
            IbcChannelConnectMsg::OpenConfirm { channel } => channel,
        }
    }

    pub open spec fn spec_counterparty_version(self) -> Option<Seq<char>> {
        match self {
            IbcChannelConnectMsg::OpenAck { counterparty_version, .. } => Some(
                counterparty_version@,
            ),
            IbcChannelConnectMsg::OpenConfirm { .. } => None,
        }
    }
}

/// The close step: either side closed the channel.
pub enum IbcChannelCloseMsg {
    CloseInit { channel: IbcChannel },
    CloseConfirm { channel: IbcChannel },
}

impl IbcChannelCloseMsg {
    pub open spec fn spec_channel(self) -> IbcChannel {
        match self {
            IbcChannelCloseMsg::CloseInit { channel } => channel,
            IbcChannelCloseMsg::CloseConfirm { channel } => channel,
        }
    }
}

/// What the handshake validator decides, as a function of the proposed
/// ordering, the proposed version, and the counterparty version if it is
/// already known at this step.
pub open spec fn validate_spec(
    order: IbcOrder,
    version: Seq<char>,
    counterparty_version: Option<Seq<char>>,
    r: Result<(), ContractError>,
) -> bool {
    match r {
        Ok(_) => {
            &&& order is Unordered
            &&& version == spec_ibc_version()
            &&& (counterparty_version matches Some(v) ==> v == spec_ibc_version())
        },
        Err(e) => match e {
            ContractError::OnlyOrderedChannel => order is Ordered,
            ContractError::InvalidIbcVersion { actual, expected } => {
                &&& order is Unordered
                &&& expected@ == spec_ibc_version()
                &&& if version != spec_ibc_version() {
                    actual@ == version
                } else {
                    counterparty_version matches Some(v) && v != spec_ibc_version() && actual@
                        == v
                }
            },
            _ => false,
        },
    }
}

/// Enforce the handshake invariants: the channel must be unordered — an
/// ordered channel stalls entirely on a single lost packet — and both
/// version strings, as far as they are known at this step, must equal the
/// fixed protocol version.
pub fn validate_order_and_version(
    channel: &IbcChannel,
    counterparty_version: Option<&String>,
) -> (r: Result<(), ContractError>)
    ensures
        validate_spec(
            channel.order,
            channel.version@,
            match counterparty_version {
                Some(v) => Some(v@),
                None => None,
            },
            r,
        ),
{
    if !matches!(channel.order, IbcOrder::Unordered) {
        return Err(ContractError::OnlyOrderedChannel);
    }

    let expected = ibc_version().to_owned();
    if !(channel.version == expected) {
        return Err(
            ContractError::InvalidIbcVersion {
                actual: channel.version.clone(),
                expected,
            },
        );
    }

    // For a connection between chain A and chain B being established by
    // chain A, chain B knows the counterparty version during `OpenTry` and
    // chain A knows it during `OpenAck`. It is checked when known; when it
    // is not yet known the check belongs to a later step.
    if let Some(cpv) = counterparty_version {
        if !(*cpv == expected) {
            return Err(
                ContractError::InvalidIbcVersion { actual: cpv.clone(), expected },
            );
        }
    }

    Ok(())
}

/// Handle the `OpenInit` and `OpenTry` steps of the handshake: validation
/// only, no state is touched.
pub fn ibc_channel_open(msg: &IbcChannelOpenMsg) -> (r: Result<(), ContractError>)
    ensures
        validate_spec(
            msg.spec_channel().order,
            msg.spec_channel().version@,
            msg.spec_counterparty_version(),
            r,
        ),
{
    match msg {
        IbcChannelOpenMsg::OpenInit { channel } => validate_order_and_version(channel, None),
        IbcChannelOpenMsg::OpenTry { channel, counterparty_version } => validate_order_and_version(
            channel,
            Some(counterparty_version),
        ),
    }
}

/// Handle the `OpenAck` and `OpenConfirm` steps: validate once more, then
/// record the channel's metadata in the registry. Re-connecting the same
/// channel id overwrites its entry; it does not accumulate.
pub fn ibc_channel_connect(state: &mut IcqState, msg: &IbcChannelConnectMsg) -> (r: Result<
    (),
    ContractError,
>)
    requires
        old(state).wf(),
    ensures
        final(state).wf(),
        validate_spec(
            msg.spec_channel().order,
            msg.spec_channel().version@,
            msg.spec_counterparty_version(),
            r,
        ),
        r matches Err(_) ==> *final(state) == *old(state),
        r matches Ok(_) ==> *final(state) == (IcqState {
            channels: final(state).channels,
            ..*old(state)
        }) && final(state).channels_map() == old(state).channels_map().insert(
            msg.spec_channel().endpoint.channel_id@,
            (ChannelInfoV {
                id: msg.spec_channel().endpoint.channel_id@,
                counterparty_endpoint: msg.spec_channel().counterparty_endpoint@,
                connection_id: msg.spec_channel().connection_id@,
            }),
        ),
{
    let (channel, cpv): (&IbcChannel, Option<&String>) = match msg {
        IbcChannelConnectMsg::OpenAck { channel, counterparty_version } => (
            channel,
            Some(counterparty_version),
        ),
        IbcChannelConnectMsg::OpenConfirm { channel } => (channel, None),
    };
    match validate_order_and_version(channel, cpv) {
        Ok(_) => {},
        Err(e) => {
            return Err(e);
        },
    }

    let info = ChannelInfo {
        id: channel.endpoint.channel_id.clone(),
        counterparty_endpoint: IbcEndpoint {
            port_id: channel.counterparty_endpoint.port_id.clone(),
            channel_id: channel.counterparty_endpoint.channel_id.clone(),
        },
        connection_id: channel.connection_id.clone(),
    };
    chan_save(&mut state.channels, info);
    Ok(())
}

/// Handle channel closure: the registry entry is removed, and later sends
/// against this channel id fail. Closing never fails.
pub fn ibc_channel_close(state: &mut IcqState, msg: &IbcChannelCloseMsg)
    requires
        old(state).wf(),
    ensures
        final(state).wf(),
        *final(state) == (IcqState { channels: final(state).channels, ..*old(state) }),
        final(state).channels_map() == old(state).channels_map().remove(
            msg.spec_channel().endpoint.channel_id@,
        ),
{
    let channel = match msg {
        IbcChannelCloseMsg::CloseInit { channel } => channel,
        IbcChannelCloseMsg::CloseConfirm { channel } => channel,
    };
    chan_remove(&mut state.channels, &channel.endpoint.channel_id);
}

/// The state after an acknowledgment that recorded the sequence and nothing
/// else.
pub open spec fn only_last_ack_set(pre: IcqState, post: IcqState, sequence: u64) -> bool {
    post == (IcqState { last_sequence_ack: Some(sequence), ..pre })
}

/// What acknowledgment processing does once the innermost binary response
/// batch `d` is in hand: a malformed batch fails the call and changes
/// nothing; an empty batch, or one whose sequence has no pending request,
/// records only the sequence; otherwise the first response's value is
/// decoded as the type the pending request calls for and persisted under
/// the sequence.
pub open spec fn data_outcome(
    pre: IcqState,
    post: IcqState,
    sequence: u64,
    r: Result<(), ContractError>,
    d: Seq<u8>,
) -> bool {
    match cosmos_response_parse(d) {
        None => r matches Err(e) && e is MalformedResponse && post == pre,
        Some(resps) => if resps.len() == 0 {
            r is Ok && only_last_ack_set(pre, post, sequence)
        } else if !pre.pending_map().contains_key(sequence) {
            r is Ok && only_last_ack_set(pre, post, sequence)
        } else {
            match pre.pending_map()[sequence] {
                PendingQueryV::Balance(_) => match balance_response_parse(resps[0].1) {
                    None => r matches Err(e) && e is MalformedResponse && post == pre,
                    Some(None) => r is Ok && only_last_ack_set(pre, post, sequence),
                    Some(Some(c)) => if valid_utf8(c.0) && valid_utf8(c.1) {
                        &&& r is Ok
                        &&& (exists|dc: Seq<char>, ac: Seq<char>|
                            encode_utf8(dc) == c.0 && encode_utf8(ac) == c.1
                                && post.balances_map() == pre.balances_map().insert(
                                sequence,
                                ProtoCoinV { denom: dc, amount: ac },
                            ))
                        &&& post == (IcqState {
                            balance_results: post.balance_results,
                            last_sequence_ack: Some(sequence),
                            ..pre
                        })
                    } else {
                        r matches Err(e) && e is MalformedResponse && post == pre
                    },
                },
                PendingQueryV::Twap(_) => match twap_response_parse(resps[0].1) {
                    None => r matches Err(e) && e is MalformedResponse && post == pre,
                    Some(t) => if valid_utf8(t) {
                        &&& r is Ok
                        &&& (exists|tc: Seq<char>|
                            encode_utf8(tc) == t && post.prices_map() == pre.prices_map().insert(
                                sequence,
                                tc,
                            ))
                        &&& post == (IcqState {
                            price_results: post.price_results,
                            last_sequence_ack: Some(sequence),
                            ..pre
                        })
                    } else {
                        r matches Err(e) && e is MalformedResponse && post == pre
                    },
                },
            }
        },
    }
}

/// What acknowledgment processing does with the payload `p` of a success
/// acknowledgment: `p` must be the nested response carrier
/// `{"data":"<base64>"}`; any other shape fails the call with
/// `MalformedResponse` and changes nothing, and the base64-decoded carrier
/// payload is handled as [`data_outcome`] says.
pub open spec fn success_outcome(
    pre: IcqState,
    post: IcqState,
    sequence: u64,
    r: Result<(), ContractError>,
    p: Seq<u8>,
) -> bool {
    match json_single_parse(p) {
        None => r matches Err(e) && e is MalformedResponse && post == pre,
        Some((k2, v2)) => if k2 != data_key() {
            r matches Err(e) && e is MalformedResponse && post == pre
        } else if !valid_utf8(v2) {
            r matches Err(e) && e is MalformedResponse && post == pre
        } else {
            forall|d: Seq<u8>|
                v2 == #[trigger] base64_bytes(d) ==> data_outcome(pre, post, sequence, r, d)
        },
    }
}

#[verifier::rlimit(100)]
fn on_packet_success(state: &mut IcqState, payload: Vec<u8>, sequence: u64) -> (r: Result<
    (),
    ContractError,
>)
    requires
        old(state).wf(),
    ensures
        final(state).wf(),
        r matches Err(e) ==> *final(state) == *old(state) && e is MalformedResponse,
        r is Ok ==> final(state).last_sequence_ack == Some(sequence),
        success_outcome(*old(state), *final(state), sequence, r, payload@),
{
    let ghost pre = *old(state);
    let ghost pv = payload@;
    let data = match parse_response_packet(&payload) {
        None => {
            proof {
                let rr: Result<(), ContractError> = Err(ContractError::MalformedResponse);
                assert(success_outcome(pre, *state, sequence, rr, pv));
            }
            return Err(ContractError::MalformedResponse);
        },
        Some(d) => d,
    };
    let ghost dv = data@;
    let resp = match decode_cosmos_response(&data) {
        None => {
            proof {
                let rr: Result<(), ContractError> = Err(ContractError::MalformedResponse);
                bridge_success(pre, *state, sequence, rr, pv, dv);
            }
            return Err(ContractError::MalformedResponse);
        },
        Some(x) => x,
    };
    if resp.responses.len() == 0 {
        state.last_sequence_ack = Some(sequence);
        proof {
            let rr: Result<(), ContractError> = Ok(());
            assert(cosmos_response_parse(dv) matches Some(t) && t.len() == 0);
            bridge_success(pre, *state, sequence, rr, pv, dv);
        }
        return Ok(());
    }
    let kind: u8 = match kv_get(&state.pending_requests, sequence) {
        None => 0,
        Some(PendingQuery::Balance(_)) => 1,
        Some(PendingQuery::Twap(_)) => 2,
    };
    proof {
        assert(cosmos_response_parse(dv) matches Some(t) && t.len() == resp.responses@.len()
            && t[0] == (resp.responses@[0].code as u64, resp.responses@[0].value@));
    }
    if kind == 0 {
        state.last_sequence_ack = Some(sequence);
        proof {
            let rr: Result<(), ContractError> = Ok(());
            bridge_success(pre, *state, sequence, rr, pv, dv);
        }
        return Ok(());
    }
    if kind == 1 {
        match decode_balance_response(&resp.responses[0].value) {
            None => {
                proof {
                    let rr: Result<(), ContractError> = Err(ContractError::MalformedResponse);
                    bridge_success(pre, *state, sequence, rr, pv, dv);
                }
                Err(ContractError::MalformedResponse)
            },
            Some(None) => {
                state.last_sequence_ack = Some(sequence);
                proof {
                    let rr: Result<(), ContractError> = Ok(());
                    bridge_success(pre, *state, sequence, rr, pv, dv);
                }
                Ok(())
            },
            Some(Some(coin)) => {
                let ghost denomv = coin.denom@;
                let ghost amountv = coin.amount@;
                state.last_sequence_ack = Some(sequence);
                kv_insert(&mut state.balance_results, sequence, coin);
                proof {
                    let rr: Result<(), ContractError> = Ok(());
                    let t = cosmos_response_parse(dv)->Some_0;
                    let c = balance_response_parse(t[0].1)->Some_0->Some_0;
                    vstd::utf8::encode_utf8_valid_utf8(denomv);
                    vstd::utf8::encode_utf8_valid_utf8(amountv);
                    assert(encode_utf8(denomv) == c.0);
                    assert(encode_utf8(amountv) == c.1);
                    assert(state.balances_map() == pre.balances_map().insert(
                        sequence,
                        ProtoCoinV { denom: denomv, amount: amountv },
                    ));
                    assert(exists|dc: Seq<char>, ac: Seq<char>|
                        encode_utf8(dc) == c.0 && encode_utf8(ac) == c.1
                            && state.balances_map() == pre.balances_map().insert(
                            sequence,
                            ProtoCoinV { denom: dc, amount: ac },
                        ));
                    assert(*state == (IcqState {
                        balance_results: state.balance_results,
                        last_sequence_ack: Some(sequence),
                        ..pre
                    }));
                    assert(data_outcome(pre, *state, sequence, rr, dv));
                    bridge_success(pre, *state, sequence, rr, pv, dv);
                }
                Ok(())
            },
        }
    } else {
        match decode_twap_response(&resp.responses[0].value) {
            None => {
                proof {
                    let rr: Result<(), ContractError> = Err(ContractError::MalformedResponse);
                    bridge_success(pre, *state, sequence, rr, pv, dv);
                }
                Err(ContractError::MalformedResponse)
            },
            Some(twap) => {
                let ghost twapv = twap.arithmetic_twap@;
                state.last_sequence_ack = Some(sequence);
                kv_insert(&mut state.price_results, sequence, twap.arithmetic_twap);
                proof {
                    let rr: Result<(), ContractError> = Ok(());
                    let t = cosmos_response_parse(dv)->Some_0;
                    let tw = twap_response_parse(t[0].1)->Some_0;
                    vstd::utf8::encode_utf8_valid_utf8(twapv);
                    assert(encode_utf8(twapv) == tw);
                    assert(state.prices_map() == pre.prices_map().insert(sequence, twapv));
                    assert(exists|tc: Seq<char>|
                        encode_utf8(tc) == tw && state.prices_map() == pre.prices_map().insert(
                            sequence,
                            tc,
                        ));
                    assert(*state == (IcqState {
                        price_results: state.price_results,
                        last_sequence_ack: Some(sequence),
                        ..pre
                    }));
                    assert(data_outcome(pre, *state, sequence, rr, dv));
                    bridge_success(pre, *state, sequence, rr, pv, dv);
                }
                Ok(())
            },
        }
    }
}

/// From the handling of one concrete decoded carrier payload `d`, conclude
/// [`success_outcome`] for the whole success acknowledgment `p`: any bytes
/// whose canonical base64 stands in the carrier are those that were
/// decoded.
proof fn bridge_success(
    pre: IcqState,
    post: IcqState,
    sequence: u64,
    r: Result<(), ContractError>,
    p: Seq<u8>,
    d: Seq<u8>,
)
    requires
        json_single_parse(p) matches Some(kv) && kv.0 == data_key() && valid_utf8(kv.1) && (
        forall|dd: Seq<u8>| kv.1 == #[trigger] base64_bytes(dd) ==> dd == d),
        data_outcome(pre, post, sequence, r, d),
    ensures
        success_outcome(pre, post, sequence, r, p),
{
    let (k2, v2) = json_single_parse(p)->Some_0;
    assert forall|dd: Seq<u8>| v2 == #[trigger] base64_bytes(dd) implies data_outcome(
        pre,
        post,
        sequence,
        r,
        dd,
    ) by {
        assert(dd == d);
    }
}

/// Process an acknowledgment for the packet sent under `sequence`. The
/// sequence is recorded as last acknowledged on every accepted
/// acknowledgment. An error envelope persists its message in the error log
/// — a remote failure is expected, user-visible state, not a fault of this
/// call. A success envelope has its nested layers peeled back and the first
/// response persisted as [`success_outcome`] and [`data_outcome`] say. A
/// malformed envelope fails the call, and a failed call changes nothing:
/// the store commits per invocation, all or nothing.
#[verifier::rlimit(60)]
pub fn ibc_packet_ack(state: &mut IcqState, ack_data: &Vec<u8>, sequence: u64) -> (r: Result<
    (),
    ContractError,
>)
    requires
        old(state).wf(),
    ensures
        final(state).wf(),
        r matches Err(e) ==> *final(state) == *old(state) && (e is MalformedAck
            || e is MalformedResponse),
        r is Ok ==> final(state).last_sequence_ack == Some(sequence),
        json_single_parse(ack_data@) is None ==> (r matches Err(e) && e is MalformedAck),
        json_single_parse(ack_data@) matches Some((k, v)) ==> {
            &&& (k == error_key() && valid_utf8(v)) ==> {
                &&& r is Ok
                &&& (exists|m: Seq<char>|
                    encode_utf8(m) == v && final(state).errors_map() == old(
                        state,
                    ).errors_map().insert(sequence, m))
                &&& *final(state) == (IcqState {
                    errors: final(state).errors,
                    last_sequence_ack: Some(sequence),
                    ..*old(state)
                })
            }
            &&& (k == error_key() && !valid_utf8(v)) ==> (r matches Err(e) && e is MalformedAck)
            &&& (k != error_key() && k != result_key()) ==> (r matches Err(e)
                && e is MalformedAck)
            &&& (k == result_key() && valid_utf8(v)) ==> forall|p: Seq<u8>|
                v == #[trigger] base64_bytes(p) ==> success_outcome(
                    *old(state),
                    *final(state),
                    sequence,
                    r,
                    p,
                )
            &&& (k == result_key() && !valid_utf8(v)) ==> (r matches Err(e) && e is MalformedAck)
        },
{
    let ack = match parse_ack(ack_data) {
        None => {
            return Err(ContractError::MalformedAck);
        },
        Some(a) => a,
    };
    match ack {
        Ack::Failed(m) => {
            let ghost mv = m@;
            state.last_sequence_ack = Some(sequence);
            kv_insert(&mut state.errors, sequence, m);
            proof {
                assert(state.errors_map() == old(state).errors_map().insert(sequence, mv));
                assert(exists|m2: Seq<char>|
                    encode_utf8(m2) == json_single_parse(ack_data@)->Some_0.1
                        && state.errors_map() == old(state).errors_map().insert(sequence, m2));
                assert(*state == (IcqState {
                    errors: state.errors,
                    last_sequence_ack: Some(sequence),
                    ..*old(state)
                }));
            }
            Ok(())
        },
        Ack::Success(payload) => {
            let ghost pv = payload@;
            let r = on_packet_success(state, payload, sequence);
            proof {
                if let Some((k, v)) = json_single_parse(ack_data@) {
                    if k == result_key() && valid_utf8(v) {
                        assert forall|p: Seq<u8>|
                            v == #[trigger] base64_bytes(p) implies success_outcome(
                            *old(state),
                            *state,
                            sequence,
                            r,
                            p,
                        ) by {
                            assert(p == pv);
                        }
                    }
                }
            }
            r
        },
    }
}

/// Timeout of a sent packet: the query is abandoned. Deliberately a no-op
/// beyond the host-side observability attributes — nothing is retried and
/// no state changes, and timeout handling never fails.
pub fn ibc_packet_timeout(state: &mut IcqState, _sequence: u64)
    ensures
        *final(state) == *old(state),
{
}

} // verus!
