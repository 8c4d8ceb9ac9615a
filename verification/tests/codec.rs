use cosmos_sdk_proto::cosmos::bank::v1beta1::QueryBalanceRequest;
use cosmos_sdk_proto::cosmos::base::tendermint::v1beta1::AbciQueryResponse as RefAbciQueryResponse;
use prost::Message;

use cw_ibc_example::msg::{AbciQueryResponse, ProtoCoin};
use cw_ibc_example::wire::{
    decode_balance_response, decode_coin, decode_cosmos_response, encode_abci_query_response,
    encode_balance_request, encode_balance_response, encode_coin,
};

#[test]
fn long_field_lengths_use_multi_byte_varints() {
    let address = "a".repeat(200);
    let bytes = encode_balance_request(&address, &"uosmo".to_string());
    let reference = QueryBalanceRequest {
        address: address.clone(),
        denom: "uosmo".to_string(),
    }
    .encode_to_vec();
    assert_eq!(bytes, reference);
    let back = QueryBalanceRequest::decode(bytes.as_slice()).unwrap();
    assert_eq!(back.address, address);
}

#[test]
fn empty_fields_are_omitted_as_the_reference_does() {
    let bytes = encode_balance_request(&String::new(), &String::new());
    assert!(bytes.is_empty());
    let reference = QueryBalanceRequest {
        address: String::new(),
        denom: String::new(),
    }
    .encode_to_vec();
    assert_eq!(bytes, reference);
}

#[test]
fn coin_codec_round_trips_and_matches_reference() {
    let coin = ProtoCoin {
        denom: "uosmo".to_string(),
        amount: "1000".to_string(),
    };
    let bytes = encode_coin(&coin);
    assert_eq!(decode_coin(&bytes), Some(coin));
}

#[test]
fn response_decoder_skips_fields_the_logic_does_not_read() {
    let coin_payload = encode_balance_response(&ProtoCoin {
        denom: "uosmo".to_string(),
        amount: "1000".to_string(),
    });
    // a realistic reference response, with the nondeterministic fields set
    let reference = RefAbciQueryResponse {
        code: 0,
        log: "query ok".to_string(),
        info: "".to_string(),
        index: 4,
        key: b"balance-key".to_vec(),
        value: coin_payload.clone(),
        proof_ops: None,
        height: 123456,
        codespace: "bank".to_string(),
    }
    .encode_to_vec();
    let mut batch: Vec<u8> = vec![0x0A, reference.len() as u8];
    batch.extend_from_slice(&reference);

    let decoded = decode_cosmos_response(&batch).unwrap();
    assert_eq!(decoded.responses.len(), 1);
    assert_eq!(decoded.responses[0].code, 0);
    assert_eq!(decoded.responses[0].value, coin_payload);

    assert_eq!(
        decode_balance_response(&decoded.responses[0].value),
        Some(Some(ProtoCoin {
            denom: "uosmo".to_string(),
            amount: "1000".to_string(),
        }))
    );
}

#[test]
fn response_encoder_matches_reference_bytes() {
    let resp = AbciQueryResponse {
        code: 5,
        value: b"payload".to_vec(),
    };
    let bytes = encode_abci_query_response(&resp);
    let reference = RefAbciQueryResponse {
        code: 5,
        log: String::new(),
        info: String::new(),
        index: 0,
        key: Vec::new(),
        value: b"payload".to_vec(),
        proof_ops: None,
        height: 0,
        codespace: String::new(),
    }
    .encode_to_vec();
    assert_eq!(bytes, reference);
}

#[test]
fn balance_response_without_coin_decodes_to_none() {
    let empty: Vec<u8> = Vec::new();
    assert_eq!(decode_balance_response(&empty), Some(None));
}

#[test]
fn truncated_protobuf_is_rejected() {
    // a length-delimited field announcing more bytes than follow
    let bad = vec![0x0Au8, 0x05, 0x01];
    assert_eq!(decode_cosmos_response(&bad), None);
}
