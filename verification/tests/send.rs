use cosmos_sdk_proto::cosmos::bank::v1beta1::QueryBalanceRequest;
use cosmos_sdk_proto::cosmos::base::tendermint::v1beta1::AbciQueryRequest as RefAbciQueryRequest;
use prost::Message;

use cw_ibc_example::contract::{send_query_balance, send_query_twap};
use cw_ibc_example::error::ContractError;
use cw_ibc_example::ibc::{ibc_channel_connect, IbcChannel, IbcChannelConnectMsg, IbcOrder};
use cw_ibc_example::msg::{QueryBalanceMsg, QueryTwapMsg};
use cw_ibc_example::state::{IbcEndpoint, IcqState};
use cw_ibc_example::wire::{decode_cosmos_query, encode_balance_request};

fn state_with_channel(id: &str) -> IcqState {
    let mut state = IcqState::new();
    let msg = IbcChannelConnectMsg::OpenAck {
        channel: IbcChannel {
            endpoint: IbcEndpoint {
                port_id: "wasm.contract".to_string(),
                channel_id: id.to_string(),
            },
            counterparty_endpoint: IbcEndpoint {
                port_id: "icqhost".to_string(),
                channel_id: "channel-7".to_string(),
            },
            order: IbcOrder::Unordered,
            version: "icq-1".to_string(),
            connection_id: "connection-2".to_string(),
        },
        counterparty_version: "icq-1".to_string(),
    };
    ibc_channel_connect(&mut state, &msg).unwrap();
    state
}

fn balance_msg(channel: &str) -> QueryBalanceMsg {
    QueryBalanceMsg {
        channel: channel.to_string(),
        address: "osmo1abc".to_string(),
        denom: "uosmo".to_string(),
    }
}

#[test]
fn unknown_channel_fails_and_counter_unchanged() {
    let mut state = state_with_channel("channel-3");
    let r = send_query_balance(&mut state, 1_700_000_000, balance_msg("channel-none"));
    assert_eq!(
        r,
        Err(ContractError::NoSuchChannel {
            id: "channel-none".to_string()
        })
    );
    assert_eq!(state.next_sequence_send, 0);
    assert!(state.pending_requests.is_empty());
}

#[test]
fn sequences_strictly_increase_even_across_failed_calls() {
    let mut state = state_with_channel("channel-3");
    let s1 = send_query_balance(&mut state, 1_700_000_000, balance_msg("channel-3"))
        .unwrap()
        .sequence;
    let s2 = send_query_balance(&mut state, 1_700_000_000, balance_msg("channel-3"))
        .unwrap()
        .sequence;
    // a failed call commits nothing and burns no sequence number
    assert!(send_query_balance(&mut state, 1_700_000_000, balance_msg("channel-none")).is_err());
    let s3 = send_query_balance(&mut state, 1_700_000_000, balance_msg("channel-3"))
        .unwrap()
        .sequence;
    assert!(s1 < s2 && s2 < s3);
    assert_eq!((s1, s2, s3), (1, 2, 3));
}

#[test]
fn balance_packet_matches_reference_protobuf_encoding() {
    let mut state = state_with_channel("channel-3");
    let now: u64 = 1_700_000_000;
    let p = send_query_balance(&mut state, now, balance_msg("channel-3")).unwrap();

    let body = QueryBalanceRequest {
        address: "osmo1abc".to_string(),
        denom: "uosmo".to_string(),
    }
    .encode_to_vec();
    let request = RefAbciQueryRequest {
        data: body,
        path: "/cosmos.bank.v1beta1.Query/Balance".to_string(),
        height: 0,
        prove: false,
    }
    .encode_to_vec();
    // the batch envelope holds the one request as length-delimited field 1
    let mut expected: Vec<u8> = vec![0x0A, request.len() as u8];
    expected.extend_from_slice(&request);

    assert_eq!(p.data.data, expected);
    assert_eq!(p.data.memo, "test icq request");
    assert_eq!(p.channel_id, "channel-3");
    assert_eq!(p.timeout_seconds, now + 120);
    assert_eq!(p.sequence, 1);
    assert_eq!(state.next_sequence_send, 1);
    assert_eq!(state.pending_requests.len(), 1);
}

#[test]
fn balance_envelope_round_trips() {
    let mut state = state_with_channel("channel-3");
    let p = send_query_balance(&mut state, 1_700_000_000, balance_msg("channel-3")).unwrap();

    let q = decode_cosmos_query(&p.data.data).unwrap();
    assert_eq!(q.requests.len(), 1);
    assert_eq!(q.requests[0].path, "/cosmos.bank.v1beta1.Query/Balance");
    let body = encode_balance_request(&"osmo1abc".to_string(), &"uosmo".to_string());
    assert_eq!(q.requests[0].data, body);
    assert_eq!(q.requests[0].height, 0);
    assert!(!q.requests[0].prove);

    // the reference decoder recovers the original query parameters
    let back = QueryBalanceRequest::decode(q.requests[0].data.as_slice()).unwrap();
    assert_eq!(back.address, "osmo1abc");
    assert_eq!(back.denom, "uosmo");
}

#[test]
fn twap_packet_bytes_are_exact() {
    let mut state = state_with_channel("channel-3");
    // send time five seconds past the averaging window, so the start time is 5
    let now: u64 = 14405;
    let msg = QueryTwapMsg {
        channel: "channel-3".to_string(),
        pool_id: 1,
        base_asset: "osmo".to_string(),
        quote_asset: "atom".to_string(),
    };
    let p = send_query_twap(&mut state, now, msg).unwrap();

    let mut body: Vec<u8> = vec![0x08, 0x01]; // pool_id = 1
    body.extend_from_slice(&[0x12, 0x04]);
    body.extend_from_slice(b"osmo");
    body.extend_from_slice(&[0x1A, 0x04]);
    body.extend_from_slice(b"atom");
    body.extend_from_slice(&[0x22, 0x02, 0x08, 0x05]); // start_time = 5 s

    let path = b"/osmosis.twap.v1beta1.Query/ArithmeticTwapToNow";
    let mut request: Vec<u8> = vec![0x0A, body.len() as u8];
    request.extend_from_slice(&body);
    request.extend_from_slice(&[0x12, path.len() as u8]);
    request.extend_from_slice(path);

    let mut expected: Vec<u8> = vec![0x0A, request.len() as u8];
    expected.extend_from_slice(&request);

    assert_eq!(p.data.data, expected);
    assert_eq!(p.sequence, 1);
    assert_eq!(p.timeout_seconds, now + 120);
}
