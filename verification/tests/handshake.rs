use cw_ibc_example::error::ContractError;
use cw_ibc_example::ibc::{
    ibc_channel_close, ibc_channel_connect, ibc_channel_open, validate_order_and_version,
    IbcChannel, IbcChannelCloseMsg, IbcChannelConnectMsg, IbcChannelOpenMsg, IbcOrder,
};
use cw_ibc_example::state::{IbcEndpoint, IcqState};

fn channel(order: IbcOrder, version: &str) -> IbcChannel {
    IbcChannel {
        endpoint: IbcEndpoint {
            port_id: "wasm.contract".to_string(),
            channel_id: "channel-3".to_string(),
        },
        counterparty_endpoint: IbcEndpoint {
            port_id: "icqhost".to_string(),
            channel_id: "channel-7".to_string(),
        },
        order,
        version: version.to_string(),
        connection_id: "connection-2".to_string(),
    }
}

#[test]
fn ordered_channel_rejected_regardless_of_version() {
    for version in ["icq-1", "icq-0", "", "anything"] {
        let ch = channel(IbcOrder::Ordered, version);
        assert_eq!(
            validate_order_and_version(&ch, None),
            Err(ContractError::OnlyOrderedChannel)
        );
        let cpv = "icq-1".to_string();
        let ch = channel(IbcOrder::Ordered, version);
        assert_eq!(
            validate_order_and_version(&ch, Some(&cpv)),
            Err(ContractError::OnlyOrderedChannel)
        );
    }
}

#[test]
fn version_icq0_rejected_with_exact_error() {
    let ch = channel(IbcOrder::Unordered, "icq-0");
    assert_eq!(
        validate_order_and_version(&ch, None),
        Err(ContractError::InvalidIbcVersion {
            actual: "icq-0".to_string(),
            expected: "icq-1".to_string(),
        })
    );
}

#[test]
fn counterparty_version_mismatch_rejected() {
    let ch = channel(IbcOrder::Unordered, "icq-1");
    let cpv = "icq-0".to_string();
    assert_eq!(
        validate_order_and_version(&ch, Some(&cpv)),
        Err(ContractError::InvalidIbcVersion {
            actual: "icq-0".to_string(),
            expected: "icq-1".to_string(),
        })
    );
}

#[test]
fn unknown_counterparty_version_is_accepted() {
    let ch = channel(IbcOrder::Unordered, "icq-1");
    assert_eq!(validate_order_and_version(&ch, None), Ok(()));
    let cpv = "icq-1".to_string();
    let ch = channel(IbcOrder::Unordered, "icq-1");
    assert_eq!(validate_order_and_version(&ch, Some(&cpv)), Ok(()));
}

#[test]
fn open_validates_both_variants() {
    let ok = IbcChannelOpenMsg::OpenInit {
        channel: channel(IbcOrder::Unordered, "icq-1"),
    };
    assert_eq!(ibc_channel_open(&ok), Ok(()));
    let bad = IbcChannelOpenMsg::OpenTry {
        channel: channel(IbcOrder::Unordered, "icq-1"),
        counterparty_version: "icq-0".to_string(),
    };
    assert!(ibc_channel_open(&bad).is_err());
}

#[test]
fn connect_registers_channel_and_close_removes_it() {
    let mut state = IcqState::new();
    let msg = IbcChannelConnectMsg::OpenAck {
        channel: channel(IbcOrder::Unordered, "icq-1"),
        counterparty_version: "icq-1".to_string(),
    };
    assert_eq!(ibc_channel_connect(&mut state, &msg), Ok(()));
    assert_eq!(state.channels.len(), 1);
    assert_eq!(state.channels[0].id, "channel-3");
    assert_eq!(state.channels[0].counterparty_endpoint.port_id, "icqhost");
    assert_eq!(state.channels[0].connection_id, "connection-2");

    // reconnecting the same channel id overwrites, it does not accumulate
    let again = IbcChannelConnectMsg::OpenConfirm {
        channel: channel(IbcOrder::Unordered, "icq-1"),
    };
    assert_eq!(ibc_channel_connect(&mut state, &again), Ok(()));
    assert_eq!(state.channels.len(), 1);

    let close = IbcChannelCloseMsg::CloseInit {
        channel: channel(IbcOrder::Unordered, "icq-1"),
    };
    ibc_channel_close(&mut state, &close);
    assert!(state.channels.is_empty());
}

#[test]
fn connect_rejects_invalid_channel_and_leaves_state_unchanged() {
    let mut state = IcqState::new();
    let msg = IbcChannelConnectMsg::OpenAck {
        channel: channel(IbcOrder::Ordered, "icq-1"),
        counterparty_version: "icq-1".to_string(),
    };
    assert_eq!(
        ibc_channel_connect(&mut state, &msg),
        Err(ContractError::OnlyOrderedChannel)
    );
    assert!(state.channels.is_empty());
}
