use vstd::prelude::*;

verus! {

/// Instantiation takes no parameters.
#[derive(Clone, Debug, PartialEq, Eq)]
pub struct InstantiateMsg {}

/// Commands accepted from the host/user.
#[derive(Clone, Debug, PartialEq, Eq)]
pub enum ExecuteMsg {
    SendQueryBalance(QueryBalanceMsg),
    SendQueryTwap(QueryTwapMsg),
}

/// Parameters of an outbound account-balance query.
#[derive(Clone, Debug, PartialEq, Eq)]
pub struct QueryBalanceMsg {
    pub channel: String,
    pub address: String,
    pub denom: String,
}

/// Parameters of an outbound time-weighted-average-price query.
#[derive(Clone, Debug, PartialEq, Eq)]
pub struct QueryTwapMsg {
    pub channel: String,
    pub pool_id: u64,
    pub base_asset: String,
    pub quote_asset: String,
}

/// Read-only queries over the persisted terminal results.
#[derive(Clone, Debug, PartialEq, Eq)]
pub enum QueryMsg {
    AllBalances {},
    AllPriceFeeds {},
    AllErrors {},
    LastSequence {},
}

/// Outbound packet payload: a binary-encoded query batch plus a memo.
#[derive(Clone, Debug, PartialEq, Eq)]
pub struct InterchainQueryPacketData {
    pub data: Vec<u8>,
    pub memo: String,
}

/// One routed query request: a protocol-defined routing path and the
/// binary-encoded request body specific to that path.
#[derive(Clone, Debug, PartialEq, Eq)]
pub struct AbciQueryRequest {
    pub data: Vec<u8>,
    pub path: String,
    pub height: i64,
    pub prove: bool,
}

/// The query-batch envelope carried inside the outbound packet payload.
#[derive(Clone, Debug, PartialEq, Eq)]
pub struct CosmosQuery {
    pub requests: Vec<AbciQueryRequest>,
}

/// The success acknowledgment envelope: one opaque result field.
#[derive(Clone, Debug, PartialEq, Eq)]
pub struct InterchainQueryPacketAck {
    pub result: Vec<u8>,
}

/// The response-batch carrier nested inside a success acknowledgment.
#[derive(Clone, Debug, PartialEq, Eq)]
pub struct CosmosResponsePacket {
    pub data: Vec<u8>,
}

/// One per-query response; the logic reads the response code and the
/// binary-encoded value.
#[derive(Clone, Debug, PartialEq, Eq)]
pub struct AbciQueryResponse {
    pub code: u32,
    pub value: Vec<u8>,
}

/// The ordered batch of per-query responses.
#[derive(Clone, Debug, PartialEq, Eq)]
pub struct CosmosResponse {
    pub responses: Vec<AbciQueryResponse>,
}

/// A decoded coin balance: denomination and decimal amount string.
#[derive(Clone, Debug, PartialEq, Eq)]
pub struct ProtoCoin {
    pub denom: String,
    pub amount: String,
}

/// The body of a time-weighted-average-price query.
#[derive(Clone, Debug, PartialEq, Eq)]
pub struct ArithmeticTwapToNowRequest {
    pub pool_id: u64,
    pub base_asset: String,
    pub quote_asset: String,
    pub start_time: Option<Timestamp>,
}

/// Seconds and nanoseconds of UTC time since the Unix epoch.
#[derive(Clone, Copy, Debug, PartialEq, Eq)]
pub struct Timestamp {
    pub seconds: i64,
    pub nanos: i32,
}

/// The decoded body of a time-weighted-average-price response.
#[derive(Clone, Debug, PartialEq, Eq)]
pub struct ArithmeticTwapToNowResponse {
    pub arithmetic_twap: String,
}

/// Mathematical value of a [`ProtoCoin`].
pub struct ProtoCoinV {
    pub denom: Seq<char>,
    pub amount: Seq<char>,
}

impl View for ProtoCoin {
    type V = ProtoCoinV;

    open spec fn view(&self) -> ProtoCoinV {
        ProtoCoinV { denom: self.denom@, amount: self.amount@ }
    }
}

/// Mathematical value of a [`QueryBalanceMsg`].
pub struct QueryBalanceMsgV {
    pub channel: Seq<char>,
    pub address: Seq<char>,
    pub denom: Seq<char>,
}

impl View for QueryBalanceMsg {
    type V = QueryBalanceMsgV;

    open spec fn view(&self) -> QueryBalanceMsgV {
        QueryBalanceMsgV {
            channel: self.channel@,
            address: self.address@,
            denom: self.denom@,
        }
    }
}

/// Mathematical value of a [`QueryTwapMsg`].
pub struct QueryTwapMsgV {
    pub channel: Seq<char>,
    pub pool_id: u64,
    pub base_asset: Seq<char>,
    pub quote_asset: Seq<char>,
}

impl View for QueryTwapMsg {
    type V = QueryTwapMsgV;

    open spec fn view(&self) -> QueryTwapMsgV {
        QueryTwapMsgV {
            channel: self.channel@,
            pool_id: self.pool_id,
            base_asset: self.base_asset@,
            quote_asset: self.quote_asset@,
        }
    }
}

} // verus!
