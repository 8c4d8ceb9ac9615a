use cosmos_sdk_proto::cosmos::bank::v1beta1::QueryBalanceResponse;
use cosmos_sdk_proto::cosmos::base::v1beta1::Coin as RefCoin;
use prost::Message;

use cw_ibc_example::ack::{encode_ack_error, encode_ack_result, encode_response_packet, make_ack_success, parse_ack, Ack};
use cw_ibc_example::contract::{
    query_all_balances, query_all_errors, query_all_price_feed, query_last_sequence,
    send_query_balance, send_query_twap,
};
use cw_ibc_example::error::ContractError;
use cw_ibc_example::ibc::{
    ibc_channel_connect, ibc_packet_ack, ibc_packet_timeout, IbcChannel, IbcChannelConnectMsg,
    IbcOrder,
};
use cw_ibc_example::msg::{
    AbciQueryResponse, ArithmeticTwapToNowResponse, CosmosResponse, ProtoCoin, QueryBalanceMsg,
    QueryTwapMsg,
};
use cw_ibc_example::state::{IbcEndpoint, IcqState};
use cw_ibc_example::wire::{encode_balance_response, encode_cosmos_response, encode_twap_response};

fn state_with_channel(id: &str) -> IcqState {
    let mut state = IcqState::new();
    let msg = IbcChannelConnectMsg::OpenAck {
        channel: IbcChannel {
            endpoint: IbcEndpoint {
                port_id: "wasm.contract".to_string(),
                channel_id: id.to_string(),
            },
            counterparty_endpoint: IbcEndpoint {
                port_id: "icqhost".to_string(),
                channel_id: "channel-7".to_string(),
            },
            order: IbcOrder::Unordered,
            version: "icq-1".to_string(),
            connection_id: "connection-2".to_string(),
        },
        counterparty_version: "icq-1".to_string(),
    };
    ibc_channel_connect(&mut state, &msg).unwrap();
    state
}

fn balance_msg(channel: &str) -> QueryBalanceMsg {
    QueryBalanceMsg {
        channel: channel.to_string(),
        address: "osmo1abc".to_string(),
        denom: "uosmo".to_string(),
    }
}

/// Wrap an inner protobuf response batch into the full nested success
/// acknowledgment: batch -> {"data": b64} -> {"result": b64}.
fn success_ack(batch: &CosmosResponse) -> Vec<u8> {
    let batch_bytes = encode_cosmos_response(batch);
    let carrier = encode_response_packet(&batch_bytes);
    encode_ack_result(&carrier)
}

#[test]
fn error_ack_persists_error_record() {
    let mut state = state_with_channel("channel-3");
    let ack: Vec<u8> = br#"{"error":"insufficient data"}"#.to_vec();
    assert_eq!(ibc_packet_ack(&mut state, &ack, 42), Ok(()));
    assert_eq!(query_last_sequence(&state), Some(42));
    assert_eq!(
        query_all_errors(&state),
        &vec![(42u64, "insufficient data".to_string())]
    );
    assert!(query_all_balances(&state).is_empty());
    assert!(query_all_price_feed(&state).is_empty());
}

#[test]
fn error_ack_round_trips_through_encoder() {
    let ack = encode_ack_error(&"insufficient data".to_string());
    assert_eq!(ack, br#"{"error":"insufficient data"}"#.to_vec());
    assert_eq!(
        parse_ack(&ack),
        Some(Ack::Failed("insufficient data".to_string()))
    );
}

#[test]
fn escaped_error_message_round_trips() {
    let msg = "a \"quoted\" name\nand a\ttab \\ done".to_string();
    let ack = encode_ack_error(&msg);
    assert_eq!(parse_ack(&ack), Some(Ack::Failed(msg)));
}

#[test]
fn make_ack_success_is_the_reference_json() {
    assert_eq!(make_ack_success(), br#"{"result":"MQ=="}"#.to_vec());
}

#[test]
fn success_ack_with_empty_batch_updates_only_last_sequence() {
    let mut state = state_with_channel("channel-3");
    send_query_balance(&mut state, 1_700_000_000, balance_msg("channel-3")).unwrap();
    let ack = success_ack(&CosmosResponse { responses: vec![] });
    assert_eq!(ibc_packet_ack(&mut state, &ack, 1), Ok(()));
    assert_eq!(query_last_sequence(&state), Some(1));
    assert!(query_all_balances(&state).is_empty());
    assert!(query_all_price_feed(&state).is_empty());
    assert!(query_all_errors(&state).is_empty());
}

#[test]
fn nested_balance_ack_persists_result_for_sequence_seven() {
    let mut state = state_with_channel("channel-3");
    for _ in 0..7 {
        send_query_balance(&mut state, 1_700_000_000, balance_msg("channel-3")).unwrap();
    }
    let coin = ProtoCoin {
        denom: "uosmo".to_string(),
        amount: "1000".to_string(),
    };
    let value = encode_balance_response(&coin);

    // the balance payload agrees with the reference protobuf encoding
    let reference = QueryBalanceResponse {
        balance: Some(RefCoin {
            denom: "uosmo".to_string(),
            amount: "1000".to_string(),
        }),
    }
    .encode_to_vec();
    assert_eq!(value, reference);

    let batch = CosmosResponse {
        responses: vec![AbciQueryResponse { code: 0, value }],
    };
    let ack = success_ack(&batch);
    assert_eq!(ibc_packet_ack(&mut state, &ack, 7), Ok(()));
    assert_eq!(query_last_sequence(&state), Some(7));
    assert_eq!(query_all_balances(&state), &vec![(7u64, coin)]);
    assert!(query_all_errors(&state).is_empty());
}

#[test]
fn nested_twap_ack_persists_price_string() {
    let mut state = state_with_channel("channel-3");
    let msg = QueryTwapMsg {
        channel: "channel-3".to_string(),
        pool_id: 1,
        base_asset: "osmo".to_string(),
        quote_asset: "atom".to_string(),
    };
    let p = send_query_twap(&mut state, 1_700_000_000, msg).unwrap();
    let value = encode_twap_response(&ArithmeticTwapToNowResponse {
        arithmetic_twap: "1.523000000000000000".to_string(),
    });
    let batch = CosmosResponse {
        responses: vec![AbciQueryResponse { code: 0, value }],
    };
    let ack = success_ack(&batch);
    assert_eq!(ibc_packet_ack(&mut state, &ack, p.sequence), Ok(()));
    assert_eq!(
        query_all_price_feed(&state),
        &vec![(1u64, "1.523000000000000000".to_string())]
    );
}

#[test]
fn ack_for_unknown_sequence_records_only_last_sequence() {
    let mut state = state_with_channel("channel-3");
    let coin = ProtoCoin {
        denom: "uosmo".to_string(),
        amount: "1000".to_string(),
    };
    let batch = CosmosResponse {
        responses: vec![AbciQueryResponse {
            code: 0,
            value: encode_balance_response(&coin),
        }],
    };
    let ack = success_ack(&batch);
    // nothing was sent under sequence 5, so there is no path to decode by
    assert_eq!(ibc_packet_ack(&mut state, &ack, 5), Ok(()));
    assert_eq!(query_last_sequence(&state), Some(5));
    assert!(query_all_balances(&state).is_empty());
}

#[test]
fn malformed_outer_envelope_fails_loud_and_changes_nothing() {
    let mut state = state_with_channel("channel-3");
    for bad in [
        b"junk".to_vec(),
        br#"{"weird":"x"}"#.to_vec(),
        br#"{"result":"!!not-base64!!"}"#.to_vec(),
        Vec::new(),
    ] {
        assert_eq!(
            ibc_packet_ack(&mut state, &bad, 3),
            Err(ContractError::MalformedAck)
        );
        assert_eq!(query_last_sequence(&state), None);
        assert!(query_all_errors(&state).is_empty());
    }
}

#[test]
fn malformed_nested_payload_is_a_malformed_response() {
    let mut state = state_with_channel("channel-3");
    send_query_balance(&mut state, 1_700_000_000, balance_msg("channel-3")).unwrap();
    // a success envelope whose payload is not the nested carrier object
    let not_carrier = b"not json at all".to_vec();
    let ack = encode_ack_result(&not_carrier);
    assert_eq!(
        ibc_packet_ack(&mut state, &ack, 1),
        Err(ContractError::MalformedResponse)
    );
    assert_eq!(query_last_sequence(&state), None);

    // a carrier whose data is not a protobuf response batch
    let bad_batch = vec![0x0Au8, 0x7F];
    let carrier = encode_response_packet(&bad_batch);
    let ack = encode_ack_result(&carrier);
    assert_eq!(
        ibc_packet_ack(&mut state, &ack, 1),
        Err(ContractError::MalformedResponse)
    );
    assert_eq!(query_last_sequence(&state), None);
}

#[test]
fn timeout_changes_nothing() {
    let mut state = state_with_channel("channel-3");
    send_query_balance(&mut state, 1_700_000_000, balance_msg("channel-3")).unwrap();
    let before_pending = state.pending_requests.clone();
    ibc_packet_timeout(&mut state, 1);
    assert_eq!(state.pending_requests, before_pending);
    assert_eq!(query_last_sequence(&state), None);
    assert_eq!(state.next_sequence_send, 1);
}
