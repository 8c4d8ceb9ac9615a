use vstd::prelude::*;

use vstd::utf8::encode_utf8;

use vstd::utf8::valid_utf8;

use crate::msg::{
    AbciQueryRequest, AbciQueryResponse, ArithmeticTwapToNowRequest, ArithmeticTwapToNowResponse,
    CosmosQuery, CosmosResponse, ProtoCoin, Timestamp,
};

verus! {

// The binary wire format of the query envelopes: base-128 varints and
// tag-length-value fields, with fields carrying their type's default value
// omitted, emitted in ascending tag order. Each encoder's contract gives the
// produced bytes exactly, via the spec functions below.

/// Base-128 varint encoding of `n`: seven value bits per byte, least
/// significant group first, the high bit of every byte but the last set.
pub open spec fn varint(n: u64) -> Seq<u8>
    decreases n,
{
    if n < 128 {
        seq![n as u8]
    } else {
        seq![(n % 128 + 128) as u8] + varint(n / 128)
    }
}

/// A length-delimited field: its tag byte, the payload length, the payload.
pub open spec fn len_prefixed(tag: u8, payload: Seq<u8>) -> Seq<u8> {
    seq![tag] + varint(payload.len() as u64) + payload
}

/// A varint field: its tag byte, then the value.
pub open spec fn varint_field(tag: u8, n: u64) -> Seq<u8> {
    seq![tag] + varint(n)
}

/// The wire bytes of an account-balance query body: address (field 1) and
/// denomination (field 2), each omitted when empty.
pub open spec fn spec_balance_request(address: Seq<u8>, denom: Seq<u8>) -> Seq<u8> {
    (if address.len() == 0 {
        Seq::<u8>::empty()
    } else {
        len_prefixed(0x0A, address)
    }) + (if denom.len() == 0 {
        Seq::<u8>::empty()
    } else {
        len_prefixed(0x12, denom)
    })
}

/// The wire bytes of a protobuf timestamp: seconds (field 1) and
/// nanoseconds (field 2), each omitted when zero. Negative values are
/// carried as their 64-bit two's complement.
pub open spec fn spec_timestamp(t: Timestamp) -> Seq<u8> {
    (if t.seconds == 0 {
        Seq::<u8>::empty()
    } else {
        varint_field(0x08, t.seconds as u64)
    }) + (if t.nanos == 0 {
        Seq::<u8>::empty()
    } else {
        varint_field(0x10, t.nanos as i64 as u64)
    })
}

/// The wire bytes of a time-weighted-average-price query body: pool id
/// (field 1, omitted when zero), base asset (field 2) and quote asset
/// (field 3, each omitted when empty), start time (field 4, omitted when
/// absent).
pub open spec fn spec_twap_request(
    pool_id: u64,
    base_asset: Seq<u8>,
    quote_asset: Seq<u8>,
    start_time: Option<Timestamp>,
) -> Seq<u8> {
    (if pool_id == 0 {
        Seq::<u8>::empty()
    } else {
        varint_field(0x08, pool_id)
    }) + (if base_asset.len() == 0 {
        Seq::<u8>::empty()
    } else {
        len_prefixed(0x12, base_asset)
    }) + (if quote_asset.len() == 0 {
        Seq::<u8>::empty()
    } else {
        len_prefixed(0x1A, quote_asset)
    }) + (match start_time {
        Some(t) => len_prefixed(0x22, spec_timestamp(t)),
        None => Seq::<u8>::empty(),
    })
}

/// The wire bytes of one routed query request: body (field 1) and routing
/// path (field 2), each omitted when empty; height (field 3, omitted when
/// zero) and prove (field 4, omitted when false).
pub open spec fn spec_request_fields(
    data: Seq<u8>,
    path: Seq<u8>,
    height: i64,
    prove: bool,
) -> Seq<u8> {
    (if data.len() == 0 {
        Seq::<u8>::empty()
    } else {
        len_prefixed(0x0A, data)
    }) + (if path.len() == 0 {
        Seq::<u8>::empty()
    } else {
        len_prefixed(0x12, path)
    }) + (if height == 0 {
        Seq::<u8>::empty()
    } else {
        varint_field(0x18, height as u64)
    }) + (if prove {
        varint_field(0x20, 1)
    } else {
        Seq::<u8>::empty()
    })
}

/// The wire bytes of one routed query request value.
pub open spec fn spec_abci_query_request(r: AbciQueryRequest) -> Seq<u8> {
    spec_request_fields(r.data@, encode_utf8(r.path@), r.height, r.prove)
}

/// The wire bytes of a query batch holding exactly one routed request, as
/// every outbound packet of this protocol carries.
pub open spec fn spec_single_query_envelope(data: Seq<u8>, path: Seq<u8>) -> Seq<u8> {
    len_prefixed(0x0A, spec_request_fields(data, path, 0, false))
}

/// The wire bytes of a query batch: one length-delimited field 1 per
/// request, in order.
pub open spec fn spec_cosmos_query(requests: Seq<AbciQueryRequest>) -> Seq<u8>
    decreases requests.len(),
{
    if requests.len() == 0 {
        Seq::<u8>::empty()
    } else {
        spec_cosmos_query(requests.drop_last()) + len_prefixed(
            0x0A,
            spec_abci_query_request(requests.last()),
        )
    }
}

/// Append the bytes of `src` to `out`.
pub(crate) fn append_bytes(out: &mut Vec<u8>, src: &[u8])
    ensures
        final(out)@ == old(out)@ + src@,
{
    let n = src.len();
    let mut i: usize = 0;
    while i < n
        invariant
            n == src@.len(),
            0 <= i <= n,
            out@ == old(out)@ + src@.subrange(0, i as int),
        decreases n - i,
    {
        out.push(src[i]);
        proof {
            assert(old(out)@ + src@.subrange(0, i as int) + seq![src@[i as int]] =~= old(out)@
                + src@.subrange(0, i + 1));
        }
        i += 1;
    }
    proof {
        assert(src@.subrange(0, n as int) =~= src@);
    }
}

/// Append the varint encoding of `n` to `out`.
fn encode_varint(out: &mut Vec<u8>, n: u64)
    ensures
        final(out)@ == old(out)@ + varint(n),
{
    let mut m = n;
    loop
        invariant
            old(out)@ + varint(n) == out@ + varint(m),
        decreases m,
    {
        if m < 128 {
            out.push(m as u8);
            proof {
                assert(varint(m) == seq![m as u8]);
                assert(out@ =~= old(out)@ + varint(n));
            }
            return;
        } else {
            let b = (m % 128 + 128) as u8;
            out.push(b);
            proof {
                assert(varint(m) == seq![b] + varint(m / 128));
                assert(out@ + varint(m / 128) =~= old(out)@ + varint(n));
            }
            m = m / 128;
        }
    }
}

/// Append a length-delimited field to `out`: tag, payload length, payload.
fn encode_len_prefixed(out: &mut Vec<u8>, tag: u8, payload: &[u8])
    ensures
        final(out)@ == old(out)@ + len_prefixed(tag, payload@),
{
    out.push(tag);
    encode_varint(out, payload.len() as u64);
    append_bytes(out, payload);
    proof {
        assert(out@ =~= old(out)@ + len_prefixed(tag, payload@));
    }
}

/// Append a varint field to `out`: tag, then the value.
fn encode_varint_field(out: &mut Vec<u8>, tag: u8, n: u64)
    ensures
        final(out)@ == old(out)@ + varint_field(tag, n),
{
    out.push(tag);
    encode_varint(out, n);
    proof {
        assert(out@ =~= old(out)@ + varint_field(tag, n));
    }
}

/// Encode an account-balance query body.
pub fn encode_balance_request(address: &String, denom: &String) -> (r: Vec<u8>)
    ensures
        r@ == spec_balance_request(encode_utf8(address@), encode_utf8(denom@)),
{
    let mut out: Vec<u8> = Vec::new();
    let address_bytes = address.as_str().as_bytes();
    if address_bytes.len() > 0 {
        encode_len_prefixed(&mut out, 0x0A, address_bytes);
    }
    let denom_bytes = denom.as_str().as_bytes();
    if denom_bytes.len() > 0 {
        encode_len_prefixed(&mut out, 0x12, denom_bytes);
    }
    proof {
        assert(out@ =~= spec_balance_request(encode_utf8(address@), encode_utf8(denom@)));
    }
    out
}

/// Encode a protobuf timestamp.
pub fn encode_timestamp(t: &Timestamp) -> (r: Vec<u8>)
    ensures
        r@ == spec_timestamp(*t),
{
    let mut out: Vec<u8> = Vec::new();
    if t.seconds != 0 {
        encode_varint_field(&mut out, 0x08, t.seconds as u64);
    }
    if t.nanos != 0 {
        encode_varint_field(&mut out, 0x10, t.nanos as i64 as u64);
    }
    proof {
        assert(out@ =~= spec_timestamp(*t));
    }
    out
}

/// Encode a time-weighted-average-price query body.
pub fn encode_twap_request(r: &ArithmeticTwapToNowRequest) -> (out: Vec<u8>)
    ensures
        out@ == spec_twap_request(
            r.pool_id,
            encode_utf8(r.base_asset@),
            encode_utf8(r.quote_asset@),
            r.start_time,
        ),
{
    let mut out: Vec<u8> = Vec::new();
    if r.pool_id != 0 {
        encode_varint_field(&mut out, 0x08, r.pool_id);
    }
    let base_bytes = r.base_asset.as_str().as_bytes();
    if base_bytes.len() > 0 {
        encode_len_prefixed(&mut out, 0x12, base_bytes);
    }
    let quote_bytes = r.quote_asset.as_str().as_bytes();
    if quote_bytes.len() > 0 {
        encode_len_prefixed(&mut out, 0x1A, quote_bytes);
    }
    if let Some(t) = &r.start_time {
        let ts = encode_timestamp(t);
        encode_len_prefixed(&mut out, 0x22, ts.as_slice());
    }
    proof {
        assert(out@ =~= spec_twap_request(
            r.pool_id,
            encode_utf8(r.base_asset@),
            encode_utf8(r.quote_asset@),
            r.start_time,
        ));
    }
    out
}

/// Encode one routed query request.
pub fn encode_abci_query_request(r: &AbciQueryRequest) -> (out: Vec<u8>)
    ensures
        out@ == spec_abci_query_request(*r),
{
    let mut out: Vec<u8> = Vec::new();
    if r.data.len() > 0 {
        encode_len_prefixed(&mut out, 0x0A, r.data.as_slice());
    }
    let path_bytes = r.path.as_str().as_bytes();
    if path_bytes.len() > 0 {
        encode_len_prefixed(&mut out, 0x12, path_bytes);
    }
    if r.height != 0 {
        encode_varint_field(&mut out, 0x18, r.height as u64);
    }
    if r.prove {
        encode_varint_field(&mut out, 0x20, 1);
    }
    proof {
        assert(out@ =~= spec_abci_query_request(*r));
    }
    out
}

/// Encode a query batch.
pub fn encode_cosmos_query(q: &CosmosQuery) -> (out: Vec<u8>)
    ensures
        out@ == spec_cosmos_query(q.requests@),
{
    let mut out: Vec<u8> = Vec::new();
    let n = q.requests.len();
    let mut i: usize = 0;
    while i < n
        invariant
            n == q.requests@.len(),
            0 <= i <= n,
            out@ == spec_cosmos_query(q.requests@.subrange(0, i as int)),
        decreases n - i,
    {
        let body = encode_abci_query_request(&q.requests[i]);
        encode_len_prefixed(&mut out, 0x0A, body.as_slice());
        proof {
            let pre = q.requests@.subrange(0, i as int);
            let post = q.requests@.subrange(0, i + 1);
            assert(post.drop_last() =~= pre);
            assert(post.last() == q.requests@[i as int]);
        }
        i += 1;
    }
    proof {
        assert(q.requests@.subrange(0, n as int) =~= q.requests@);
    }
    out
}

/// The wire bytes of a coin: denomination (field 1) and amount (field 2),
/// each omitted when empty.
pub open spec fn spec_coin(denom: Seq<u8>, amount: Seq<u8>) -> Seq<u8> {
    (if denom.len() == 0 {
        Seq::<u8>::empty()
    } else {
        len_prefixed(0x0A, denom)
    }) + (if amount.len() == 0 {
        Seq::<u8>::empty()
    } else {
        len_prefixed(0x12, amount)
    })
}

/// Encode a coin.
pub fn encode_coin(c: &ProtoCoin) -> (r: Vec<u8>)
    ensures
        r@ == spec_coin(encode_utf8(c.denom@), encode_utf8(c.amount@)),
{
    let mut out: Vec<u8> = Vec::new();
    let denom_bytes = c.denom.as_str().as_bytes();
    if denom_bytes.len() > 0 {
        encode_len_prefixed(&mut out, 0x0A, denom_bytes);
    }
    let amount_bytes = c.amount.as_str().as_bytes();
    if amount_bytes.len() > 0 {
        encode_len_prefixed(&mut out, 0x12, amount_bytes);
    }
    proof {
        assert(out@ =~= spec_coin(encode_utf8(c.denom@), encode_utf8(c.amount@)));
    }
    out
}

/// The wire bytes of a balance query response carrying one coin (field 1).
pub open spec fn spec_balance_response(coin: Seq<u8>) -> Seq<u8> {
    len_prefixed(0x0A, coin)
}

/// Encode a balance query response carrying one coin.
pub fn encode_balance_response(c: &ProtoCoin) -> (r: Vec<u8>)
    ensures
        r@ == spec_balance_response(spec_coin(encode_utf8(c.denom@), encode_utf8(c.amount@))),
{
    let coin = encode_coin(c);
    let mut out: Vec<u8> = Vec::new();
    encode_len_prefixed(&mut out, 0x0A, coin.as_slice());
    proof {
        assert(out@ =~= spec_balance_response(
            spec_coin(encode_utf8(c.denom@), encode_utf8(c.amount@)),
        ));
    }
    out
}

/// The wire bytes of a time-weighted-average-price response: the price
/// string (field 1), omitted when empty.
pub open spec fn spec_twap_response(twap: Seq<u8>) -> Seq<u8> {
    if twap.len() == 0 {
        Seq::<u8>::empty()
    } else {
        len_prefixed(0x0A, twap)
    }
}

/// Encode a time-weighted-average-price response.
pub fn encode_twap_response(resp: &ArithmeticTwapToNowResponse) -> (r: Vec<u8>)
    ensures
        r@ == spec_twap_response(encode_utf8(resp.arithmetic_twap@)),
{
    let mut out: Vec<u8> = Vec::new();
    let twap_bytes = resp.arithmetic_twap.as_str().as_bytes();
    if twap_bytes.len() > 0 {
        encode_len_prefixed(&mut out, 0x0A, twap_bytes);
    }
    proof {
        assert(out@ =~= spec_twap_response(encode_utf8(resp.arithmetic_twap@)));
    }
    out
}

/// The wire bytes of one per-query response: code (field 1, omitted when
/// zero) and value (field 7, omitted when empty).
pub open spec fn spec_abci_query_response(code: u32, value: Seq<u8>) -> Seq<u8> {
    (if code == 0 {
        Seq::<u8>::empty()
    } else {
        varint_field(0x08, code as u64)
    }) + (if value.len() == 0 {
        Seq::<u8>::empty()
    } else {
        len_prefixed(0x3A, value)
    })
}

/// Encode one per-query response.
pub fn encode_abci_query_response(resp: &AbciQueryResponse) -> (r: Vec<u8>)
    ensures
        r@ == spec_abci_query_response(resp.code, resp.value@),
{
    let mut out: Vec<u8> = Vec::new();
    if resp.code != 0 {
        encode_varint_field(&mut out, 0x08, resp.code as u64);
    }
    if resp.value.len() > 0 {
        encode_len_prefixed(&mut out, 0x3A, resp.value.as_slice());
    }
    proof {
        assert(out@ =~= spec_abci_query_response(resp.code, resp.value@));
    }
    out
}

/// The wire bytes of a response batch: one length-delimited field 1 per
/// response, in order.
pub open spec fn spec_cosmos_response(responses: Seq<AbciQueryResponse>) -> Seq<u8>
    decreases responses.len(),
{
    if responses.len() == 0 {
        Seq::<u8>::empty()
    } else {
        spec_cosmos_response(responses.drop_last()) + len_prefixed(
            0x0A,
            spec_abci_query_response(responses.last().code, responses.last().value@),
        )
    }
}

/// Encode a response batch.
pub fn encode_cosmos_response(resp: &CosmosResponse) -> (out: Vec<u8>)
    ensures
        out@ == spec_cosmos_response(resp.responses@),
{
    let mut out: Vec<u8> = Vec::new();
    let n = resp.responses.len();
    let mut i: usize = 0;
    while i < n
        invariant
            n == resp.responses@.len(),
            0 <= i <= n,
            out@ == spec_cosmos_response(resp.responses@.subrange(0, i as int)),
        decreases n - i,
    {
        let body = encode_abci_query_response(&resp.responses[i]);
        encode_len_prefixed(&mut out, 0x0A, body.as_slice());
        proof {
            let pre = resp.responses@.subrange(0, i as int);
            let post = resp.responses@.subrange(0, i + 1);
            assert(post.drop_last() =~= pre);
            assert(post.last() == resp.responses@[i as int]);
        }
        i += 1;
    }
    proof {
        assert(resp.responses@.subrange(0, n as int) =~= resp.responses@);
    }
    out
}

// ---------------------------------------------------------------------------
// Decoding. Each exec decoder mirrors a spec parse function clause by clause,
// so its contract gives the result exactly. Unknown fields are skipped, as
// the wire format prescribes; a later occurrence of a known field overrides
// an earlier one.

/// Parse one varint from the front of `s`: the value and the bytes consumed.
/// Fails on an empty or truncated input and on a value above 64 bits.
pub open spec fn varint_parse(s: Seq<u8>) -> Option<(u64, int)>
    decreases s.len(),
{
    if s.len() == 0 {
        None
    } else if s[0] < 128 {
        Some((s[0] as u64, 1))
    } else {
        match varint_parse(s.drop_first()) {
            None => None,
            Some((v, n)) => {
                let val = (s[0] - 128) + 128 * v;
                if val <= u64::MAX {
                    Some((val as u64, n + 1))
                } else {
                    None
                }
            },
        }
    }
}

/// One parsed field: a varint value, a length-delimited payload, or a
/// fixed-width value (which this protocol only ever skips).
pub enum WireField {
    Num(u64),
    Bytes(Seq<u8>),
    Fixed,
}

/// Parse one field from the front of `s`: its field number, its content,
/// and the bytes consumed.
pub open spec fn field_parse(s: Seq<u8>) -> Option<(u64, WireField, int)> {
    match varint_parse(s) {
        None => None,
        Some((tag, tn)) => {
            let fno = tag / 8;
            let wire = tag % 8;
            if fno == 0 {
                None
            } else if wire == 0 {
                match varint_parse(s.skip(tn)) {
                    None => None,
                    Some((v, vn)) => Some((fno, WireField::Num(v), tn + vn)),
                }
            } else if wire == 2 {
                match varint_parse(s.skip(tn)) {
                    None => None,
                    Some((l, ln)) => if tn + ln + l <= s.len() {
                        Some(
                            (
                                fno,
                                WireField::Bytes(s.subrange(tn + ln, tn + ln + l)),
                                tn + ln + l,
                            ),
                        )
                    } else {
                        None
                    },
                }
            } else if wire == 1 {
                if tn + 8 <= s.len() {
                    Some((fno, WireField::Fixed, tn + 8))
                } else {
                    None
                }
            } else if wire == 5 {
                if tn + 4 <= s.len() {
                    Some((fno, WireField::Fixed, tn + 4))
                } else {
                    None
                }
            } else {
                None
            }
        },
    }
}

/// A parsed varint consumes at least one byte and at most the whole input.
proof fn lemma_varint_parse_len(s: Seq<u8>)
    ensures
        varint_parse(s) matches Some(p) ==> 1 <= p.1 <= s.len(),
    decreases s.len(),
{
    if s.len() > 0 && s[0] >= 128 {
        lemma_varint_parse_len(s.drop_first());
    }
}

/// A parsed field consumes at least one byte and at most the whole input.
proof fn lemma_field_parse_len(s: Seq<u8>)
    ensures
        field_parse(s) matches Some(p) ==> 1 <= p.2 <= s.len(),
{
    lemma_varint_parse_len(s);
    if let Some((tag, tn)) = varint_parse(s) {
        lemma_varint_parse_len(s.skip(tn));
    }
}

/// The exec form of one parsed field; a payload is the window of the buffer
/// between the two indices.
pub enum FieldRef {
    Num(u64),
    Bytes(usize, usize),
    Fixed,
}

/// Parse one varint starting at `pos`; returns the value and the position
/// after it.
pub fn decode_varint(buf: &Vec<u8>, pos: usize) -> (r: Option<(u64, usize)>)
    requires
        pos <= buf@.len(),
    ensures
        match varint_parse(buf@.skip(pos as int)) {
            Some((v, used)) => r matches Some(p) && p.0 == v && p.1 == pos + used,
            None => r is None,
        },
    decreases buf@.len() - pos,
{
    if pos == buf.len() {
        return None;
    }
    let b = buf[pos];
    proof {
        assert(buf@.skip(pos as int)[0] == b);
        assert(buf@.skip(pos as int).drop_first() =~= buf@.skip(pos as int + 1));
    }
    if b < 128 {
        return Some((b as u64, pos + 1));
    }
    match decode_varint(buf, pos + 1) {
        None => None,
        Some((v, end)) => {
            let c = (b - 128) as u64;
            if v <= (u64::MAX - c) / 128 {
                proof {
                    assert(c + 128 * v <= u64::MAX) by (nonlinear_arith)
                        requires
                            v <= (u64::MAX - c) / 128,
                            c <= 127,
                    ;
                }
                Some((c + 128 * v, end))
            } else {
                proof {
                    assert(c + 128 * v > u64::MAX) by (nonlinear_arith)
                        requires
                            v > (u64::MAX - c) / 128,
                            c <= 127,
                    ;
                }
                None
            }
        },
    }
}

/// Parse one field starting at `pos`; returns the field number, its
/// content, and the position after it.
pub fn decode_field(buf: &Vec<u8>, pos: usize) -> (r: Option<(u64, FieldRef, usize)>)
    requires
        pos <= buf@.len(),
    ensures
        match field_parse(buf@.skip(pos as int)) {
            None => r is None,
            Some((fno, wf, n)) => {
                &&& r matches Some(t)
                &&& t.0 == fno
                &&& t.2 == pos + n
                &&& match wf {
                    WireField::Num(v) => t.1 matches FieldRef::Num(x) && x == v,
                    WireField::Bytes(b) => t.1 matches FieldRef::Bytes(st, en) && pos <= st
                        <= en <= buf@.len() && buf@.subrange(st as int, en as int) == b,
                    WireField::Fixed => t.1 is Fixed,
                }
            },
        },
{
    let ghost s = buf@.skip(pos as int);
    proof {
        lemma_varint_parse_len(s);
        if let Some((tag0, tn0)) = varint_parse(s) {
            lemma_varint_parse_len(s.skip(tn0));
        }
    }
    let (tag, p1) = match decode_varint(buf, pos) {
        None => {
            return None;
        },
        Some(t) => t,
    };
    let fno = tag / 8;
    let wire = tag % 8;
    if fno == 0 {
        return None;
    }
    if wire == 0 {
        proof {
            assert(s.skip(p1 - pos) =~= buf@.skip(p1 as int));
        }
        match decode_varint(buf, p1) {
            None => None,
            Some((v, p2)) => Some((fno, FieldRef::Num(v), p2)),
        }
    } else if wire == 2 {
        proof {
            assert(s.skip(p1 - pos) =~= buf@.skip(p1 as int));
        }
        match decode_varint(buf, p1) {
            None => None,
            Some((l, p2)) => {
                if l <= (buf.len() - p2) as u64 {
                    let end = p2 + (l as usize);
                    proof {
                        assert(s.subrange(
                            p2 - pos,
                            p2 - pos + l,
                        ) =~= buf@.subrange(p2 as int, end as int));
                    }
                    Some((fno, FieldRef::Bytes(p2, end), end))
                } else {
                    None
                }
            },
        }
    } else if wire == 1 {
        if buf.len() - p1 >= 8 {
            Some((fno, FieldRef::Fixed, p1 + 8))
        } else {
            None
        }
    } else if wire == 5 {
        if buf.len() - p1 >= 4 {
            Some((fno, FieldRef::Fixed, p1 + 4))
        } else {
            None
        }
    } else {
        None
    }
}

/// Copy the window `[start, end)` of `buf` into a fresh vector.
pub fn copy_range(buf: &Vec<u8>, start: usize, end: usize) -> (r: Vec<u8>)
    requires
        start <= end <= buf@.len(),
    ensures
        r@ == buf@.subrange(start as int, end as int),
{
    let mut out: Vec<u8> = Vec::new();
    let mut i: usize = start;
    while i < end
        invariant
            start <= i <= end <= buf@.len(),
            out@ == buf@.subrange(start as int, i as int),
        decreases end - i,
    {
        out.push(buf[i]);
        proof {
            assert(buf@.subrange(start as int, i as int) + seq![buf@[i as int]] =~= buf@.subrange(
                start as int,
                i + 1,
            ));
        }
        i += 1;
    }
    out
}

// ---------------------------------------------------------------------------
// Message parsers. Each `*_parse_from` walks the fields of one message from
// the front of `s`, carrying the values seen so far; unknown fields are
// skipped and a later occurrence of a known field overrides an earlier one.

/// Coin message: denomination (field 1) and amount (field 2).
pub open spec fn coin_parse_from(s: Seq<u8>, denom: Seq<u8>, amount: Seq<u8>) -> Option<
    (Seq<u8>, Seq<u8>),
>
    decreases s.len(),
{
    if s.len() == 0 {
        Some((denom, amount))
    } else {
        match field_parse(s) {
            None => None,
            Some((fno, wf, n)) => if !(1 <= n <= s.len()) {
                None
            } else {
                let rest = s.skip(n);
                match wf {
                    WireField::Bytes(b) => if fno == 1 {
                        coin_parse_from(rest, b, amount)
                    } else if fno == 2 {
                        coin_parse_from(rest, denom, b)
                    } else {
                        coin_parse_from(rest, denom, amount)
                    },
                    _ => coin_parse_from(rest, denom, amount),
                }
            },
        }
    }
}

pub open spec fn coin_parse(s: Seq<u8>) -> Option<(Seq<u8>, Seq<u8>)> {
    coin_parse_from(s, Seq::empty(), Seq::empty())
}

/// Balance query response: one optional coin (field 1).
pub open spec fn balance_response_parse_from(
    s: Seq<u8>,
    bal: Option<(Seq<u8>, Seq<u8>)>,
) -> Option<Option<(Seq<u8>, Seq<u8>)>>
    decreases s.len(),
{
    if s.len() == 0 {
        Some(bal)
    } else {
        match field_parse(s) {
            None => None,
            Some((fno, wf, n)) => if !(1 <= n <= s.len()) {
                None
            } else {
                let rest = s.skip(n);
                match wf {
                    WireField::Bytes(b) => if fno == 1 {
                        match coin_parse(b) {
                            None => None,
                            Some(c) => balance_response_parse_from(rest, Some(c)),
                        }
                    } else {
                        balance_response_parse_from(rest, bal)
                    },
                    _ => balance_response_parse_from(rest, bal),
                }
            },
        }
    }
}

pub open spec fn balance_response_parse(s: Seq<u8>) -> Option<Option<(Seq<u8>, Seq<u8>)>> {
    balance_response_parse_from(s, None)
}

/// Time-weighted-average-price response: one string (field 1).
pub open spec fn twap_response_parse_from(s: Seq<u8>, twap: Seq<u8>) -> Option<Seq<u8>>
    decreases s.len(),
{
    if s.len() == 0 {
        Some(twap)
    } else {
        match field_parse(s) {
            None => None,
            Some((fno, wf, n)) => if !(1 <= n <= s.len()) {
                None
            } else {
                let rest = s.skip(n);
                match wf {
                    WireField::Bytes(b) => if fno == 1 {
                        twap_response_parse_from(rest, b)
                    } else {
                        twap_response_parse_from(rest, twap)
                    },
                    _ => twap_response_parse_from(rest, twap),
                }
            },
        }
    }
}

pub open spec fn twap_response_parse(s: Seq<u8>) -> Option<Seq<u8>> {
    twap_response_parse_from(s, Seq::empty())
}

/// One per-query response: response code (field 1, at most 32 bits) and
/// value bytes (field 7).
pub open spec fn abci_query_response_parse_from(
    s: Seq<u8>,
    code: u64,
    value: Seq<u8>,
) -> Option<(u64, Seq<u8>)>
    decreases s.len(),
{
    if s.len() == 0 {
        Some((code, value))
    } else {
        match field_parse(s) {
            None => None,
            Some((fno, wf, n)) => if !(1 <= n <= s.len()) {
                None
            } else {
                let rest = s.skip(n);
                match wf {
                    WireField::Num(v) => if fno == 1 {
                        if v > u32::MAX as u64 {
                            None
                        } else {
                            abci_query_response_parse_from(rest, v, value)
                        }
                    } else {
                        abci_query_response_parse_from(rest, code, value)
                    },
                    WireField::Bytes(b) => if fno == 7 {
                        abci_query_response_parse_from(rest, code, b)
                    } else {
                        abci_query_response_parse_from(rest, code, value)
                    },
                    _ => abci_query_response_parse_from(rest, code, value),
                }
            },
        }
    }
}

pub open spec fn abci_query_response_parse(s: Seq<u8>) -> Option<(u64, Seq<u8>)> {
    abci_query_response_parse_from(s, 0, Seq::empty())
}

/// Response batch: repeated per-query responses (field 1), in order.
pub open spec fn cosmos_response_parse_from(s: Seq<u8>, acc: Seq<(u64, Seq<u8>)>) -> Option<
    Seq<(u64, Seq<u8>)>,
>
    decreases s.len(),
{
    if s.len() == 0 {
        Some(acc)
    } else {
        match field_parse(s) {
            None => None,
            Some((fno, wf, n)) => if !(1 <= n <= s.len()) {
                None
            } else {
                let rest = s.skip(n);
                match wf {
                    WireField::Bytes(b) => if fno == 1 {
                        match abci_query_response_parse(b) {
                            None => None,
                            Some(t) => cosmos_response_parse_from(rest, acc.push(t)),
                        }
                    } else {
                        cosmos_response_parse_from(rest, acc)
                    },
                    _ => cosmos_response_parse_from(rest, acc),
                }
            },
        }
    }
}

pub open spec fn cosmos_response_parse(s: Seq<u8>) -> Option<Seq<(u64, Seq<u8>)>> {
    cosmos_response_parse_from(s, Seq::empty())
}

/// One routed query request: body (field 1), path (field 2), height
/// (field 3), prove (field 4).
pub open spec fn abci_query_request_parse_from(
    s: Seq<u8>,
    data: Seq<u8>,
    path: Seq<u8>,
    height: u64,
    prove: bool,
) -> Option<(Seq<u8>, Seq<u8>, u64, bool)>
    decreases s.len(),
{
    if s.len() == 0 {
        Some((data, path, height, prove))
    } else {
        match field_parse(s) {
            None => None,
            Some((fno, wf, n)) => if !(1 <= n <= s.len()) {
                None
            } else {
                let rest = s.skip(n);
                match wf {
                    WireField::Bytes(b) => if fno == 1 {
                        abci_query_request_parse_from(rest, b, path, height, prove)
                    } else if fno == 2 {
                        abci_query_request_parse_from(rest, data, b, height, prove)
                    } else {
                        abci_query_request_parse_from(rest, data, path, height, prove)
                    },
                    WireField::Num(v) => if fno == 3 {
                        abci_query_request_parse_from(rest, data, path, v, prove)
                    } else if fno == 4 {
                        abci_query_request_parse_from(rest, data, path, height, v != 0)
                    } else {
                        abci_query_request_parse_from(rest, data, path, height, prove)
                    },
                    _ => abci_query_request_parse_from(rest, data, path, height, prove),
                }
            },
        }
    }
}

pub open spec fn abci_query_request_parse(s: Seq<u8>) -> Option<(Seq<u8>, Seq<u8>, u64, bool)> {
    abci_query_request_parse_from(s, Seq::empty(), Seq::empty(), 0, false)
}

/// Query batch: repeated routed requests (field 1), in order.
pub open spec fn cosmos_query_parse_from(
    s: Seq<u8>,
    acc: Seq<(Seq<u8>, Seq<u8>, u64, bool)>,
) -> Option<Seq<(Seq<u8>, Seq<u8>, u64, bool)>>
    decreases s.len(),
{
    if s.len() == 0 {
        Some(acc)
    } else {
        match field_parse(s) {
            None => None,
            Some((fno, wf, n)) => if !(1 <= n <= s.len()) {
                None
            } else {
                let rest = s.skip(n);
                match wf {
                    WireField::Bytes(b) => if fno == 1 {
                        match abci_query_request_parse(b) {
                            None => None,
                            Some(t) => cosmos_query_parse_from(rest, acc.push(t)),
                        }
                    } else {
                        cosmos_query_parse_from(rest, acc)
                    },
                    _ => cosmos_query_parse_from(rest, acc),
                }
            },
        }
    }
}

pub open spec fn cosmos_query_parse(s: Seq<u8>) -> Option<Seq<(Seq<u8>, Seq<u8>, u64, bool)>> {
    cosmos_query_parse_from(s, Seq::empty())
}

// ---------------------------------------------------------------------------
// Exec decoders, one per message, each proved to return what its parse
// function says.

fn decode_coin_from(buf: &Vec<u8>, pos: usize, denom: Vec<u8>, amount: Vec<u8>) -> (r: Option<
    (Vec<u8>, Vec<u8>),
>)
    requires
        pos <= buf@.len(),
    ensures
        match coin_parse_from(buf@.skip(pos as int), denom@, amount@) {
            None => r is None,
            Some(p) => r matches Some(q) && q.0@ == p.0 && q.1@ == p.1,
        },
    decreases buf@.len() - pos,
{
    if pos == buf.len() {
        return Some((denom, amount));
    }
    proof {
        lemma_field_parse_len(buf@.skip(pos as int));
    }
    match decode_field(buf, pos) {
        None => None,
        Some((fno, fr, next)) => {
            proof {
                assert(buf@.skip(pos as int).skip(next - pos) =~= buf@.skip(next as int));
            }
            match fr {
                FieldRef::Bytes(st, en) => if fno == 1 {
                    let b = copy_range(buf, st, en);
                    decode_coin_from(buf, next, b, amount)
                } else if fno == 2 {
                    let b = copy_range(buf, st, en);
                    decode_coin_from(buf, next, denom, b)
                } else {
                    decode_coin_from(buf, next, denom, amount)
                },
                _ => decode_coin_from(buf, next, denom, amount),
            }
        },
    }
}

/// Decode a coin message into its denomination and amount strings.
pub fn decode_coin(bytes: &Vec<u8>) -> (r: Option<ProtoCoin>)
    ensures
        match coin_parse(bytes@) {
            None => r is None,
            Some(p) => match r {
                Some(c) => encode_utf8(c.denom@) == p.0 && encode_utf8(c.amount@) == p.1,
                None => !valid_utf8(p.0) || !valid_utf8(p.1),
            },
        },
{
    proof {
        assert(bytes@.skip(0) =~= bytes@);
    }
    match decode_coin_from(bytes, 0, Vec::new(), Vec::new()) {
        None => None,
        Some((d, a)) => match crate::ext::bytes_to_string(d) {
            None => None,
            Some(denom) => match crate::ext::bytes_to_string(a) {
                None => None,
                Some(amount) => Some(ProtoCoin { denom, amount }),
            },
        },
    }
}

fn decode_balance_response_from(
    buf: &Vec<u8>,
    pos: usize,
    bal: Option<(Vec<u8>, Vec<u8>)>,
) -> (r: Option<Option<(Vec<u8>, Vec<u8>)>>)
    requires
        pos <= buf@.len(),
    ensures
        match balance_response_parse_from(
            buf@.skip(pos as int),
            match bal {
                Some(p) => Some((p.0@, p.1@)),
                None => None,
            },
        ) {
            None => r is None,
            Some(None) => r matches Some(None),
            Some(Some(p)) => r matches Some(q) && q matches Some(c) && c.0@ == p.0 && c.1@
                == p.1,
        },
    decreases buf@.len() - pos,
{
    if pos == buf.len() {
        return Some(bal);
    }
    proof {
        lemma_field_parse_len(buf@.skip(pos as int));
    }
    match decode_field(buf, pos) {
        None => None,
        Some((fno, fr, next)) => {
            proof {
                assert(buf@.skip(pos as int).skip(next - pos) =~= buf@.skip(next as int));
            }
            match fr {
                FieldRef::Bytes(st, en) => if fno == 1 {
                    let b = copy_range(buf, st, en);
                    proof {
                        assert(b@.skip(0) =~= b@);
                    }
                    match decode_coin_from(&b, 0, Vec::new(), Vec::new()) {
                        None => None,
                        Some(c) => decode_balance_response_from(buf, next, Some(c)),
                    }
                } else {
                    decode_balance_response_from(buf, next, bal)
                },
                _ => decode_balance_response_from(buf, next, bal),
            }
        },
    }
}

/// Decode a balance query response: `None` when the message is malformed,
/// `Some(None)` when it carries no coin, `Some(Some(_))` otherwise.
pub fn decode_balance_response(bytes: &Vec<u8>) -> (r: Option<Option<ProtoCoin>>)
    ensures
        match balance_response_parse(bytes@) {
            None => r is None,
            Some(None) => r matches Some(None),
            Some(Some(p)) => match r {
                Some(q) => q matches Some(c) && encode_utf8(c.denom@) == p.0 && encode_utf8(
                    c.amount@,
                ) == p.1,
                None => !valid_utf8(p.0) || !valid_utf8(p.1),
            },
        },
{
    proof {
        assert(bytes@.skip(0) =~= bytes@);
    }
    match decode_balance_response_from(bytes, 0, None) {
        None => None,
        Some(None) => Some(None),
        Some(Some((d, a))) => match crate::ext::bytes_to_string(d) {
            None => None,
            Some(denom) => match crate::ext::bytes_to_string(a) {
                None => None,
                Some(amount) => Some(Some(ProtoCoin { denom, amount })),
            },
        },
    }
}

fn decode_twap_response_from(buf: &Vec<u8>, pos: usize, twap: Vec<u8>) -> (r: Option<Vec<u8>>)
    requires
        pos <= buf@.len(),
    ensures
        match twap_response_parse_from(buf@.skip(pos as int), twap@) {
            None => r is None,
            Some(t) => r matches Some(q) && q@ == t,
        },
    decreases buf@.len() - pos,
{
    if pos == buf.len() {
        return Some(twap);
    }
    proof {
        lemma_field_parse_len(buf@.skip(pos as int));
    }
    match decode_field(buf, pos) {
        None => None,
        Some((fno, fr, next)) => {
            proof {
                assert(buf@.skip(pos as int).skip(next - pos) =~= buf@.skip(next as int));
            }
            match fr {
                FieldRef::Bytes(st, en) => if fno == 1 {
                    let b = copy_range(buf, st, en);
                    decode_twap_response_from(buf, next, b)
                } else {
                    decode_twap_response_from(buf, next, twap)
                },
                _ => decode_twap_response_from(buf, next, twap),
            }
        },
    }
}

/// Decode a time-weighted-average-price response into its price string.
pub fn decode_twap_response(bytes: &Vec<u8>) -> (r: Option<ArithmeticTwapToNowResponse>)
    ensures
        match twap_response_parse(bytes@) {
            None => r is None,
            Some(t) => match r {
                Some(resp) => encode_utf8(resp.arithmetic_twap@) == t,
                None => !valid_utf8(t),
            },
        },
{
    proof {
        assert(bytes@.skip(0) =~= bytes@);
    }
    match decode_twap_response_from(bytes, 0, Vec::new()) {
        None => None,
        Some(t) => match crate::ext::bytes_to_string(t) {
            None => None,
            Some(s) => Some(ArithmeticTwapToNowResponse { arithmetic_twap: s }),
        },
    }
}

fn decode_abci_query_response_from(buf: &Vec<u8>, pos: usize, code: u32, value: Vec<u8>) -> (r:
    Option<(u32, Vec<u8>)>)
    requires
        pos <= buf@.len(),
    ensures
        match abci_query_response_parse_from(buf@.skip(pos as int), code as u64, value@) {
            None => r is None,
            Some(t) => r matches Some(q) && q.0 as u64 == t.0 && q.1@ == t.1,
        },
    decreases buf@.len() - pos,
{
    if pos == buf.len() {
        return Some((code, value));
    }
    proof {
        lemma_field_parse_len(buf@.skip(pos as int));
    }
    match decode_field(buf, pos) {
        None => None,
        Some((fno, fr, next)) => {
            proof {
                assert(buf@.skip(pos as int).skip(next - pos) =~= buf@.skip(next as int));
            }
            match fr {
                FieldRef::Num(v) => if fno == 1 {
                    if v > u32::MAX as u64 {
                        None
                    } else {
                        decode_abci_query_response_from(buf, next, v as u32, value)
                    }
                } else {
                    decode_abci_query_response_from(buf, next, code, value)
                },
                FieldRef::Bytes(st, en) => if fno == 7 {
                    let b = copy_range(buf, st, en);
                    decode_abci_query_response_from(buf, next, code, b)
                } else {
                    decode_abci_query_response_from(buf, next, code, value)
                },
                _ => decode_abci_query_response_from(buf, next, code, value),
            }
        },
    }
}

/// The mathematical value of a sequence of per-query responses.
pub open spec fn resps_view(v: Seq<AbciQueryResponse>) -> Seq<(u64, Seq<u8>)> {
    Seq::new(v.len(), |i: int| (v[i].code as u64, v[i].value@))
}

fn decode_cosmos_response_from(buf: &Vec<u8>, pos: usize, acc: Vec<AbciQueryResponse>) -> (r:
    Option<Vec<AbciQueryResponse>>)
    requires
        pos <= buf@.len(),
    ensures
        match cosmos_response_parse_from(buf@.skip(pos as int), resps_view(acc@)) {
            None => r is None,
            Some(t) => r matches Some(out) && resps_view(out@) == t,
        },
    decreases buf@.len() - pos,
{
    if pos == buf.len() {
        return Some(acc);
    }
    proof {
        lemma_field_parse_len(buf@.skip(pos as int));
    }
    match decode_field(buf, pos) {
        None => None,
        Some((fno, fr, next)) => {
            proof {
                assert(buf@.skip(pos as int).skip(next - pos) =~= buf@.skip(next as int));
            }
            match fr {
                FieldRef::Bytes(st, en) => if fno == 1 {
                    let b = copy_range(buf, st, en);
                    proof {
                        assert(b@.skip(0) =~= b@);
                    }
                    match decode_abci_query_response_from(&b, 0, 0, Vec::new()) {
                        None => None,
                        Some((code, value)) => {
                            let mut acc2 = acc;
                            let ghost acc_view = resps_view(acc2@);
                            let ghost t = abci_query_response_parse(b@)->Some_0;
                            acc2.push(AbciQueryResponse { code, value });
                            proof {
                                assert(resps_view(acc2@) =~= acc_view.push(t));
                            }
                            decode_cosmos_response_from(buf, next, acc2)
                        },
                    }
                } else {
                    decode_cosmos_response_from(buf, next, acc)
                },
                _ => decode_cosmos_response_from(buf, next, acc),
            }
        },
    }
}

/// Decode a response batch into its ordered per-query responses.
pub fn decode_cosmos_response(bytes: &Vec<u8>) -> (r: Option<CosmosResponse>)
    ensures
        match cosmos_response_parse(bytes@) {
            None => r is None,
            Some(t) => r matches Some(resp) && resps_view(resp.responses@) == t,
        },
{
    proof {
        assert(bytes@.skip(0) =~= bytes@);
        assert(resps_view(Seq::empty()) =~= Seq::<(u64, Seq<u8>)>::empty());
    }
    match decode_cosmos_response_from(bytes, 0, Vec::new()) {
        None => None,
        Some(out) => Some(CosmosResponse { responses: out }),
    }
}

fn decode_abci_query_request_from(
    buf: &Vec<u8>,
    pos: usize,
    data: Vec<u8>,
    path: Vec<u8>,
    height: u64,
    prove: bool,
) -> (r: Option<(Vec<u8>, Vec<u8>, u64, bool)>)
    requires
        pos <= buf@.len(),
    ensures
        match abci_query_request_parse_from(buf@.skip(pos as int), data@, path@, height, prove) {
            None => r is None,
            Some(t) => r matches Some(q) && q.0@ == t.0 && q.1@ == t.1 && q.2 == t.2 && q.3
                == t.3,
        },
    decreases buf@.len() - pos,
{
    if pos == buf.len() {
        return Some((data, path, height, prove));
    }
    proof {
        lemma_field_parse_len(buf@.skip(pos as int));
    }
    match decode_field(buf, pos) {
        None => None,
        Some((fno, fr, next)) => {
            proof {
                assert(buf@.skip(pos as int).skip(next - pos) =~= buf@.skip(next as int));
            }
            match fr {
                FieldRef::Bytes(st, en) => if fno == 1 {
                    let b = copy_range(buf, st, en);
                    decode_abci_query_request_from(buf, next, b, path, height, prove)
                } else if fno == 2 {
                    let b = copy_range(buf, st, en);
                    decode_abci_query_request_from(buf, next, data, b, height, prove)
                } else {
                    decode_abci_query_request_from(buf, next, data, path, height, prove)
                },
                FieldRef::Num(v) => if fno == 3 {
                    decode_abci_query_request_from(buf, next, data, path, v, prove)
                } else if fno == 4 {
                    decode_abci_query_request_from(buf, next, data, path, height, v != 0)
                } else {
                    decode_abci_query_request_from(buf, next, data, path, height, prove)
                },
                _ => decode_abci_query_request_from(buf, next, data, path, height, prove),
            }
        },
    }
}

/// Whether a decoded query batch carries the same requests as a parse
/// result: same bodies, same paths (as UTF-8 bytes), same heights carried
/// in 64-bit two's complement, same prove flags.
pub open spec fn requests_correspond(
    v: Seq<AbciQueryRequest>,
    t: Seq<(Seq<u8>, Seq<u8>, u64, bool)>,
) -> bool {
    &&& v.len() == t.len()
    &&& forall|i: int|
        0 <= i < v.len() ==> {
            &&& (#[trigger] v[i]).data@ == t[i].0
            &&& encode_utf8(v[i].path@) == t[i].1
            &&& v[i].height == t[i].2 as i64
            &&& v[i].prove == t[i].3
        }
}

fn decode_cosmos_query_from(
    buf: &Vec<u8>,
    pos: usize,
    acc: Vec<AbciQueryRequest>,
    Ghost(acc_t): Ghost<Seq<(Seq<u8>, Seq<u8>, u64, bool)>>,
) -> (r: Option<Vec<AbciQueryRequest>>)
    requires
        pos <= buf@.len(),
        requests_correspond(acc@, acc_t),
    ensures
        match cosmos_query_parse_from(buf@.skip(pos as int), acc_t) {
            None => r is None,
            Some(t) => match r {
                Some(out) => requests_correspond(out@, t),
                None => exists|i: int| 0 <= i < t.len() && !valid_utf8((#[trigger] t[i]).1),
            },
        },
    decreases buf@.len() - pos,
{
    if pos == buf.len() {
        return Some(acc);
    }
    proof {
        lemma_field_parse_len(buf@.skip(pos as int));
    }
    match decode_field(buf, pos) {
        None => None,
        Some((fno, fr, next)) => {
            proof {
                assert(buf@.skip(pos as int).skip(next - pos) =~= buf@.skip(next as int));
            }
            match fr {
                FieldRef::Bytes(st, en) => if fno == 1 {
                    let b = copy_range(buf, st, en);
                    proof {
                        assert(b@.skip(0) =~= b@);
                    }
                    match decode_abci_query_request_from(&b, 0, Vec::new(), Vec::new(), 0, false) {
                        None => None,
                        Some((data, path, height, prove)) => {
                            let ghost t = abci_query_request_parse(b@)->Some_0;
                            match crate::ext::bytes_to_string(path) {
                                None => {
                                    proof {
                                        lemma_query_parse_keeps_prefix(
                                            buf@.skip(next as int),
                                            acc_t.push(t),
                                            acc_t.len() as int,
                                        );
                                    }
                                    None
                                },
                                Some(path_s) => {
                                    let mut acc2 = acc;
                                    acc2.push(
                                        AbciQueryRequest {
                                            data,
                                            path: path_s,
                                            height: height as i64,
                                            prove,
                                        },
                                    );
                                    decode_cosmos_query_from(
                                        buf,
                                        next,
                                        acc2,
                                        Ghost(acc_t.push(t)),
                                    )
                                },
                            }
                        },
                    }
                } else {
                    decode_cosmos_query_from(buf, next, acc, Ghost(acc_t))
                },
                _ => decode_cosmos_query_from(buf, next, acc, Ghost(acc_t)),
            }
        },
    }
}

/// A parsed query batch keeps its accumulated prefix: whatever was parsed
/// so far stands unchanged at the front of the final batch.
proof fn lemma_query_parse_keeps_prefix(
    s: Seq<u8>,
    acc: Seq<(Seq<u8>, Seq<u8>, u64, bool)>,
    i: int,
)
    requires
        0 <= i < acc.len(),
    ensures
        cosmos_query_parse_from(s, acc) matches Some(t) ==> i < t.len() && t[i] == acc[i],
    decreases s.len(),
{
    if s.len() != 0 {
        match field_parse(s) {
            None => {},
            Some((fno, wf, n)) => {
                if 1 <= n <= s.len() {
                    let rest = s.skip(n);
                    match wf {
                        WireField::Bytes(b) => if fno == 1 {
                            match abci_query_request_parse(b) {
                                None => {},
                                Some(t) => {
                                    lemma_query_parse_keeps_prefix(rest, acc.push(t), i);
                                },
                            }
                        } else {
                            lemma_query_parse_keeps_prefix(rest, acc, i);
                        },
                        _ => {
                            lemma_query_parse_keeps_prefix(rest, acc, i);
                        },
                    }
                }
            },
        }
    }
}

// ---------------------------------------------------------------------------
// Round-trip laws: what the encoders produce, the parsers recover exactly.

/// A varint encoding, followed by anything, parses back to the encoded
/// value, consuming exactly the encoding.
proof fn lemma_varint_round_trip(n: u64, rest: Seq<u8>)
    ensures
        varint_parse(varint(n) + rest) == Some((n, varint(n).len() as int)),
    decreases n,
{
    let s = varint(n) + rest;
    if n < 128 {
        assert(s[0] == n as u8);
    } else {
        assert(s[0] == (n % 128 + 128) as u8);
        assert(s[0] >= 128);
        assert(s.drop_first() =~= varint(n / 128) + rest);
        lemma_varint_round_trip(n / 128, rest);
        vstd::arithmetic::div_mod::lemma_fundamental_div_mod(n as int, 128);
        assert((s[0] - 128) + 128 * (n / 128) == n);
    }
}

/// A length-delimited field, followed by anything, parses back to its
/// payload, consuming exactly the field.
proof fn lemma_len_prefixed_field(tag: u8, payload: Seq<u8>, rest: Seq<u8>)
    requires
        tag < 128,
        tag % 8 == 2,
        tag / 8 != 0,
        payload.len() <= u64::MAX,
    ensures
        field_parse(len_prefixed(tag, payload) + rest) == Some(
            ((tag / 8) as u64, WireField::Bytes(payload), len_prefixed(tag, payload).len() as int),
        ),
        (len_prefixed(tag, payload) + rest).skip(len_prefixed(tag, payload).len() as int)
            == rest,
{
    let s = len_prefixed(tag, payload) + rest;
    assert(s[0] == tag);
    assert(s =~= seq![tag] + (varint(payload.len() as u64) + (payload + rest)));
    assert(varint_parse(s) == Some((tag as u64, 1int)));
    assert(s.skip(1) =~= varint(payload.len() as u64) + (payload + rest));
    lemma_varint_round_trip(payload.len() as u64, payload + rest);
    let ln = varint(payload.len() as u64).len() as int;
    assert(varint_parse(s.skip(1)) == Some((payload.len() as u64, ln)));
    assert(s.subrange(1 + ln, 1 + ln + payload.len() as int) =~= payload);
    assert(s.skip(1 + ln + payload.len() as int) =~= rest);
}

/// A varint field, followed by anything, parses back to its value,
/// consuming exactly the field.
proof fn lemma_varint_field(tag: u8, n: u64, rest: Seq<u8>)
    requires
        tag < 128,
        tag % 8 == 0,
        tag / 8 != 0,
    ensures
        field_parse(varint_field(tag, n) + rest) == Some(
            ((tag / 8) as u64, WireField::Num(n), varint_field(tag, n).len() as int),
        ),
        (varint_field(tag, n) + rest).skip(varint_field(tag, n).len() as int) == rest,
{
    let s = varint_field(tag, n) + rest;
    assert(s[0] == tag);
    assert(varint_parse(s) == Some((tag as u64, 1int)));
    assert(s.skip(1) =~= varint(n) + rest);
    lemma_varint_round_trip(n, rest);
    assert(s.skip(varint_field(tag, n).len() as int) =~= rest);
}

/// The encoded fields of one routed request parse back to exactly the
/// encoded values.
proof fn lemma_request_fields_round_trip(data: Seq<u8>, path: Seq<u8>)
    requires
        data.len() <= u64::MAX,
        path.len() <= u64::MAX,
    ensures
        abci_query_request_parse(spec_request_fields(data, path, 0, false)) == Some(
            (data, path, 0u64, false),
        ),
{
    let s = spec_request_fields(data, path, 0, false);
    let none: Seq<u8> = Seq::empty();
    if data.len() == 0 && path.len() == 0 {
        assert(data =~= none);
        assert(path =~= none);
        assert(s =~= none);
        assert(abci_query_request_parse_from(s, none, none, 0, false) == Some(
            (data, path, 0u64, false),
        ));
    } else if data.len() == 0 {
        assert(data =~= none);
        assert(s =~= len_prefixed(0x12, path) + none);
        lemma_len_prefixed_field(0x12, path, none);
        assert(s.skip(len_prefixed(0x12, path).len() as int) == none);
        assert(abci_query_request_parse_from(none, none, path, 0, false) == Some(
            (data, path, 0u64, false),
        ));
        assert(abci_query_request_parse_from(s, none, none, 0, false) == Some(
            (data, path, 0u64, false),
        ));
    } else if path.len() == 0 {
        assert(path =~= none);
        assert(s =~= len_prefixed(0x0A, data) + none);
        lemma_len_prefixed_field(0x0A, data, none);
        assert(s.skip(len_prefixed(0x0A, data).len() as int) == none);
        assert(abci_query_request_parse_from(none, data, none, 0, false) == Some(
            (data, path, 0u64, false),
        ));
        assert(abci_query_request_parse_from(s, none, none, 0, false) == Some(
            (data, path, 0u64, false),
        ));
    } else {
        assert(s =~= len_prefixed(0x0A, data) + (len_prefixed(0x12, path) + none));
        lemma_len_prefixed_field(0x0A, data, len_prefixed(0x12, path) + none);
        let s1 = s.skip(len_prefixed(0x0A, data).len() as int);
        assert(s1 == len_prefixed(0x12, path) + none);
        lemma_len_prefixed_field(0x12, path, none);
        assert(s1.skip(len_prefixed(0x12, path).len() as int) == none);
        assert(abci_query_request_parse_from(none, data, path, 0, false) == Some(
            (data, path, 0u64, false),
        ));
        assert(abci_query_request_parse_from(s1, data, none, 0, false) == Some(
            (data, path, 0u64, false),
        ));
        assert(abci_query_request_parse_from(s, none, none, 0, false) == Some(
            (data, path, 0u64, false),
        ));
    }
}

/// Round trip of the one-request batch envelope the protocol sends: the
/// envelope built from a request body and a routing path decodes back to
/// exactly that one request, with height zero and no proof asked.
pub proof fn lemma_single_query_envelope_round_trip(data: Seq<u8>, path: Seq<u8>)
    requires
        data.len() <= u64::MAX,
        path.len() <= u64::MAX,
        spec_request_fields(data, path, 0, false).len() <= u64::MAX,
    ensures
        cosmos_query_parse(spec_single_query_envelope(data, path)) == Some(
            seq![(data, path, 0u64, false)],
        ),
{
    let fields = spec_request_fields(data, path, 0, false);
    let s = spec_single_query_envelope(data, path);
    assert(s =~= len_prefixed(0x0A, fields) + Seq::<u8>::empty());
    lemma_len_prefixed_field(0x0A, fields, Seq::empty());
    lemma_request_fields_round_trip(data, path);
    assert(s.skip(len_prefixed(0x0A, fields).len() as int) =~= Seq::<u8>::empty());
    assert(cosmos_query_parse_from(
        s.skip(len_prefixed(0x0A, fields).len() as int),
        Seq::<(Seq<u8>, Seq<u8>, u64, bool)>::empty().push((data, path, 0u64, false)),
    ) == Some(Seq::<(Seq<u8>, Seq<u8>, u64, bool)>::empty().push((data, path, 0u64, false))));
    assert(Seq::<(Seq<u8>, Seq<u8>, u64, bool)>::empty().push((data, path, 0u64, false)) =~= seq![
        (data, path, 0u64, false),
    ]);
}

/// Decode a query batch into its ordered routed requests.
pub fn decode_cosmos_query(bytes: &Vec<u8>) -> (r: Option<CosmosQuery>)
    ensures
        match cosmos_query_parse(bytes@) {
            None => r is None,
            Some(t) => match r {
                Some(q) => requests_correspond(q.requests@, t),
                None => exists|i: int| 0 <= i < t.len() && !valid_utf8((#[trigger] t[i]).1),
            },
        },
{
    proof {
        assert(bytes@.skip(0) =~= bytes@);
    }
    match decode_cosmos_query_from(bytes, 0, Vec::new(), Ghost(Seq::empty())) {
        None => None,
        Some(out) => Some(CosmosQuery { requests: out }),
    }
}

} // verus!
