use vstd::prelude::*;

use vstd::utf8::{encode_utf8, valid_utf8};

use crate::ext::{base64_bytes, base64_decode, base64_encode, bytes_to_string};

verus! {

// The acknowledgment envelope: a compact JSON object with a single string
// field, either `{"result":"<base64>"}` or `{"error":"<message>"}`, as the
// standard serializers on both sides emit it. The nested carrier
// `{"data":"<base64>"}` has the same shape. The codec below is strict: no
// whitespace between tokens, and the escapes `\" \\ \/ \b \f \n \r \t` (a
// `\u` escape or a raw control byte is rejected).

/// The decoded outer acknowledgment: remote success carrying an opaque
/// payload, or remote failure carrying an error message.
#[derive(Clone, Debug, PartialEq, Eq)]
pub enum Ack {
    Success(Vec<u8>),
    Failed(String),
}

/// The bytes of the field name `error`.
pub open spec fn error_key() -> Seq<u8> {
    seq![101u8, 114u8, 114u8, 111u8, 114u8]
}

/// The bytes of the field name `result`.
pub open spec fn result_key() -> Seq<u8> {
    seq![114u8, 101u8, 115u8, 117u8, 108u8, 116u8]
}

/// The bytes of the field name `data`.
pub open spec fn data_key() -> Seq<u8> {
    seq![100u8, 97u8, 116u8, 97u8]
}

/// The JSON escape of one byte.
pub open spec fn esc_byte(b: u8) -> Seq<u8> {
    if b == 0x22 {
        seq![0x5Cu8, 0x22u8]
    } else if b == 0x5C {
        seq![0x5Cu8, 0x5Cu8]
    } else if b == 0x08 {
        seq![0x5Cu8, 0x62u8]
    } else if b == 0x0C {
        seq![0x5Cu8, 0x66u8]
    } else if b == 0x0A {
        seq![0x5Cu8, 0x6Eu8]
    } else if b == 0x0D {
        seq![0x5Cu8, 0x72u8]
    } else if b == 0x09 {
        seq![0x5Cu8, 0x74u8]
    } else {
        seq![b]
    }
}

/// The canonical JSON escaping of a byte string.
pub open spec fn json_escape(s: Seq<u8>) -> Seq<u8>
    decreases s.len(),
{
    if s.len() == 0 {
        Seq::empty()
    } else {
        json_escape(s.drop_last()) + esc_byte(s.last())
    }
}

/// The compact JSON object with one string field: `{"key":"value"}`, the
/// value escaped. The key is a fixed field name and is never escaped.
pub open spec fn spec_json_kv(key: Seq<u8>, value: Seq<u8>) -> Seq<u8> {
    seq![0x7Bu8, 0x22u8] + key + seq![0x22u8, 0x3Au8, 0x22u8] + json_escape(value) + seq![
        0x22u8,
        0x7Du8,
    ]
}

/// The wire bytes of an error acknowledgment.
pub open spec fn spec_ack_error(msg: Seq<u8>) -> Seq<u8> {
    spec_json_kv(error_key(), msg)
}

/// The wire bytes of a success acknowledgment whose payload's base64 is
/// `payload_b64`.
pub open spec fn spec_ack_result(payload_b64: Seq<u8>) -> Seq<u8> {
    spec_json_kv(result_key(), payload_b64)
}

/// The wire bytes of the nested response carrier whose payload's base64 is
/// `data_b64`.
pub open spec fn spec_response_packet(data_b64: Seq<u8>) -> Seq<u8> {
    spec_json_kv(data_key(), data_b64)
}

/// What one escape character unescapes to.
pub open spec fn unescape_byte(b: u8) -> Option<u8> {
    if b == 0x22 {
        Some(0x22u8)
    } else if b == 0x5C {
        Some(0x5Cu8)
    } else if b == 0x2F {
        Some(0x2Fu8)
    } else if b == 0x62 {
        Some(0x08u8)
    } else if b == 0x66 {
        Some(0x0Cu8)
    } else if b == 0x6E {
        Some(0x0Au8)
    } else if b == 0x72 {
        Some(0x0Du8)
    } else if b == 0x74 {
        Some(0x09u8)
    } else {
        None
    }
}

/// Parse the contents of a JSON string from the front of `s` (the opening
/// quote already consumed) up to and including the closing quote: the
/// unescaped bytes after `acc`, and the bytes consumed.
pub open spec fn string_parse_from(s: Seq<u8>, acc: Seq<u8>) -> Option<(Seq<u8>, int)>
    decreases s.len(),
{
    if s.len() == 0 {
        None
    } else if s[0] == 0x22 {
        Some((acc, 1))
    } else if s[0] == 0x5C {
        if s.len() < 2 {
            None
        } else {
            match unescape_byte(s[1]) {
                None => None,
                Some(b) => match string_parse_from(s.skip(2), acc.push(b)) {
                    None => None,
                    Some((v, n)) => Some((v, n + 2)),
                },
            }
        }
    } else if s[0] < 0x20 {
        None
    } else {
        match string_parse_from(s.skip(1), acc.push(s[0])) {
            None => None,
            Some((v, n)) => Some((v, n + 1)),
        }
    }
}

/// A parsed string consumes at least one byte and at most the whole input.
proof fn lemma_string_parse_len(s: Seq<u8>, acc: Seq<u8>)
    ensures
        string_parse_from(s, acc) matches Some(p) ==> 1 <= p.1 <= s.len(),
    decreases s.len(),
{
    if s.len() != 0 {
        if s[0] == 0x5C && s.len() >= 2 {
            if let Some(b) = unescape_byte(s[1]) {
                lemma_string_parse_len(s.skip(2), acc.push(b));
            }
        } else if s[0] != 0x22 && s[0] >= 0x20 {
            lemma_string_parse_len(s.skip(1), acc.push(s[0]));
        }
    }
}

/// Parse a whole single-field object: the key bytes and the unescaped value
/// bytes. Fails unless the input is exactly one such object.
pub open spec fn json_single_parse(s: Seq<u8>) -> Option<(Seq<u8>, Seq<u8>)> {
    if s.len() < 2 || s[0] != 0x7B || s[1] != 0x22 {
        None
    } else {
        match string_parse_from(s.skip(2), Seq::empty()) {
            None => None,
            Some((key, n1)) => {
                let i = 2 + n1;
                if !(i + 2 <= s.len() && s[i] == 0x3A && s[i + 1] == 0x22) {
                    None
                } else {
                    match string_parse_from(s.skip(i + 2), Seq::empty()) {
                        None => None,
                        Some((value, n2)) => {
                            let j = i + 2 + n2;
                            if j + 1 == s.len() && s[j] == 0x7D {
                                Some((key, value))
                            } else {
                                None
                            }
                        },
                    }
                }
            },
        }
    }
}

/// Bytes that pass through the escaping untouched: printable, and neither
/// the quote nor the backslash.
pub open spec fn plain_byte(b: u8) -> bool {
    b >= 0x20 && b != 0x22 && b != 0x5C
}

/// Bytes the escaping can represent: everything printable, plus the named
/// control characters.
pub open spec fn escapable(v: Seq<u8>) -> bool {
    forall|i: int|
        0 <= i < v.len() ==> ((#[trigger] v[i]) >= 0x20 || v[i] == 0x08 || v[i] == 0x0C
            || v[i] == 0x0A || v[i] == 0x0D || v[i] == 0x09)
}

proof fn lemma_json_escape_first(v: Seq<u8>)
    requires
        v.len() > 0,
    ensures
        json_escape(v) == esc_byte(v[0]) + json_escape(v.drop_first()),
    decreases v.len(),
{
    if v.len() == 1 {
        assert(v.drop_last() =~= Seq::<u8>::empty());
        assert(v.drop_first() =~= Seq::<u8>::empty());
        assert(json_escape(v) =~= esc_byte(v[0]) + json_escape(v.drop_first()));
    } else {
        lemma_json_escape_first(v.drop_last());
        assert(v.drop_last()[0] == v[0]);
        assert(v.drop_last().drop_first() =~= v.drop_first().drop_last());
        assert(v.drop_first().last() == v.last());
        assert(json_escape(v) == json_escape(v.drop_last()) + esc_byte(v.last()));
        assert(esc_byte(v[0]) + json_escape(v.drop_first().drop_last()) + esc_byte(v.last())
            =~= esc_byte(v[0]) + (json_escape(v.drop_first().drop_last()) + esc_byte(
            v.last(),
        )));
        assert(json_escape(v) =~= esc_byte(v[0]) + json_escape(v.drop_first()));
    }
}

/// A string of plain bytes is its own escaping.
proof fn lemma_json_escape_plain(v: Seq<u8>)
    requires
        forall|i: int| 0 <= i < v.len() ==> plain_byte(#[trigger] v[i]),
    ensures
        json_escape(v) == v,
    decreases v.len(),
{
    if v.len() > 0 {
        lemma_json_escape_plain(v.drop_last());
        assert(plain_byte(v.last()));
        assert(esc_byte(v.last()) =~= seq![v.last()]);
        assert(v.drop_last() + seq![v.last()] =~= v);
    }
}

/// The escaped bytes of an escapable string, a closing quote, and anything
/// after parse back to exactly that string.
proof fn lemma_string_parse_escaped(v: Seq<u8>, rest: Seq<u8>, acc: Seq<u8>)
    requires
        escapable(v),
    ensures
        string_parse_from(json_escape(v) + seq![0x22u8] + rest, acc) == Some(
            (acc + v, json_escape(v).len() as int + 1),
        ),
    decreases v.len(),
{
    let s = json_escape(v) + seq![0x22u8] + rest;
    if v.len() == 0 {
        assert(json_escape(v) =~= Seq::<u8>::empty());
        assert(s[0] == 0x22);
        assert(acc + v =~= acc);
    } else {
        lemma_json_escape_first(v);
        let b = v[0];
        assert(escapable(v.drop_first())) by {
            assert forall|i: int|
                0 <= i < v.drop_first().len() implies ((#[trigger] v.drop_first()[i]) >= 0x20
                || v.drop_first()[i] == 0x08 || v.drop_first()[i] == 0x0C || v.drop_first()[i]
                == 0x0A || v.drop_first()[i] == 0x0D || v.drop_first()[i] == 0x09) by {
                assert(v.drop_first()[i] == v[i + 1]);
            }
        }
        lemma_string_parse_escaped(v.drop_first(), rest, acc.push(b));
        assert(acc.push(b) + v.drop_first() =~= acc + v);
        if b == 0x22 || b == 0x5C || b == 0x08 || b == 0x0C || b == 0x0A || b == 0x0D || b
            == 0x09 {
            assert(esc_byte(b).len() == 2);
            assert(s[0] == esc_byte(b)[0] && s[0] == 0x5C);
            assert(s[1] == esc_byte(b)[1]);
            assert(unescape_byte(s[1]) == Some(b));
            assert(s.skip(2) =~= json_escape(v.drop_first()) + seq![0x22u8] + rest);
        } else {
            assert(b >= 0x20);
            assert(esc_byte(b) =~= seq![b]);
            assert(s[0] == b);
            assert(s.skip(1) =~= json_escape(v.drop_first()) + seq![0x22u8] + rest);
        }
    }
}

/// Round trip of the single-field object: what the encoder builds from a
/// plain field name and an escapable value, the parser takes apart into
/// exactly that name and value.
pub proof fn lemma_json_kv_round_trip(key: Seq<u8>, value: Seq<u8>)
    requires
        forall|i: int| 0 <= i < key.len() ==> plain_byte(#[trigger] key[i]),
        escapable(value),
    ensures
        json_single_parse(spec_json_kv(key, value)) == Some((key, value)),
{
    let s = spec_json_kv(key, value);
    let mid = seq![0x3Au8, 0x22u8] + json_escape(value) + seq![0x22u8, 0x7Du8];
    assert(s[0] == 0x7B);
    assert(s[1] == 0x22);
    assert(s.len() >= 2);
    lemma_json_escape_plain(key);
    assert(s.skip(2) =~= json_escape(key) + seq![0x22u8] + mid);
    assert(escapable(key));
    lemma_string_parse_escaped(key, mid, Seq::empty());
    assert(string_parse_from(s.skip(2), Seq::empty()) == Some(
        (Seq::<u8>::empty() + key, key.len() as int + 1),
    ));
    assert(Seq::<u8>::empty() + key =~= key);
    let i: int = 2 + key.len() as int + 1;
    assert(s[i] == mid[0] && mid[0] == 0x3A);
    assert(s[i + 1] == mid[1] && mid[1] == 0x22);
    assert(i + 2 <= s.len());
    assert(s.skip(i + 2) =~= json_escape(value) + seq![0x22u8] + seq![0x7Du8]);
    lemma_string_parse_escaped(value, seq![0x7Du8], Seq::empty());
    assert(string_parse_from(s.skip(i + 2), Seq::empty()) == Some(
        (Seq::<u8>::empty() + value, json_escape(value).len() as int + 1),
    ));
    assert(Seq::<u8>::empty() + value =~= value);
    let j: int = i + 2 + json_escape(value).len() as int + 1;
    assert(s[j] == 0x7D);
    assert(j + 1 == s.len());
}

/// Round trip of the error acknowledgment: the envelope built from an
/// escapable message parses back to exactly the `error` field holding it.
pub proof fn lemma_ack_error_round_trip(msg: Seq<u8>)
    requires
        escapable(msg),
    ensures
        json_single_parse(spec_ack_error(msg)) == Some((error_key(), msg)),
{
    assert forall|i: int| 0 <= i < error_key().len() implies plain_byte(
        #[trigger] error_key()[i],
    ) by {
    }
    lemma_json_kv_round_trip(error_key(), msg);
}

/// Round trip of the success acknowledgment: the envelope built over a
/// base64 payload — whose bytes all lie in the base64 alphabet — parses
/// back to exactly the `result` field holding it.
pub proof fn lemma_ack_result_round_trip(payload_b64: Seq<u8>)
    requires
        forall|i: int| 0 <= i < payload_b64.len() ==> 0x2B <= #[trigger] payload_b64[i] <= 0x7A,
    ensures
        json_single_parse(spec_ack_result(payload_b64)) == Some((result_key(), payload_b64)),
{
    assert forall|i: int| 0 <= i < result_key().len() implies plain_byte(
        #[trigger] result_key()[i],
    ) by {
    }
    assert(escapable(payload_b64));
    lemma_json_kv_round_trip(result_key(), payload_b64);
}

/// Round trip of the nested response carrier, under the same condition on
/// the base64 payload.
pub proof fn lemma_response_packet_round_trip(data_b64: Seq<u8>)
    requires
        forall|i: int| 0 <= i < data_b64.len() ==> 0x2B <= #[trigger] data_b64[i] <= 0x7A,
    ensures
        json_single_parse(spec_response_packet(data_b64)) == Some((data_key(), data_b64)),
{
    assert forall|i: int| 0 <= i < data_key().len() implies plain_byte(
        #[trigger] data_key()[i],
    ) by {
    }
    assert(escapable(data_b64));
    lemma_json_kv_round_trip(data_key(), data_b64);
}

fn parse_string_at(buf: &Vec<u8>, pos: usize, acc: Vec<u8>) -> (r: Option<(Vec<u8>, usize)>)
    requires
        pos <= buf@.len(),
    ensures
        match string_parse_from(buf@.skip(pos as int), acc@) {
            None => r is None,
            Some((v, n)) => r matches Some(q) && q.0@ == v && q.1 == pos + n,
        },
    decreases buf@.len() - pos,
{
    if pos == buf.len() {
        return None;
    }
    let b = buf[pos];
    proof {
        assert(buf@.skip(pos as int)[0] == b);
    }
    if b == 0x22 {
        return Some((acc, pos + 1));
    }
    if b == 0x5C {
        if pos + 1 == buf.len() {
            proof {
                assert(buf@.skip(pos as int).len() < 2);
            }
            return None;
        }
        let e = buf[pos + 1];
        proof {
            assert(buf@.skip(pos as int)[1] == e);
            assert(buf@.skip(pos as int).skip(2) =~= buf@.skip(pos as int + 2));
        }
        let u: u8 = if e == 0x22 {
            0x22
        } else if e == 0x5C {
            0x5C
        } else if e == 0x2F {
            0x2F
        } else if e == 0x62 {
            0x08
        } else if e == 0x66 {
            0x0C
        } else if e == 0x6E {
            0x0A
        } else if e == 0x72 {
            0x0D
        } else if e == 0x74 {
            0x09
        } else {
            return None;
        };
        let mut acc2 = acc;
        acc2.push(u);
        return parse_string_at(buf, pos + 2, acc2);
    }
    if b < 0x20 {
        return None;
    }
    proof {
        assert(buf@.skip(pos as int).skip(1) =~= buf@.skip(pos as int + 1));
    }
    let mut acc2 = acc;
    acc2.push(b);
    parse_string_at(buf, pos + 1, acc2)
}

/// Parse a compact single-field JSON object into its key and unescaped
/// value bytes.
pub fn parse_json_kv(buf: &Vec<u8>) -> (r: Option<(Vec<u8>, Vec<u8>)>)
    ensures
        match json_single_parse(buf@) {
            None => r is None,
            Some((k, v)) => r matches Some(q) && q.0@ == k && q.1@ == v,
        },
{
    if buf.len() < 2 {
        return None;
    }
    if !(buf[0] == 0x7B && buf[1] == 0x22) {
        return None;
    }
    proof {
        lemma_string_parse_len(buf@.skip(2), Seq::empty());
    }
    let (key, i) = match parse_string_at(buf, 2, Vec::new()) {
        None => {
            return None;
        },
        Some(p) => p,
    };
    if !(buf.len() - i >= 2) {
        return None;
    }
    if !(buf[i] == 0x3A && buf[i + 1] == 0x22) {
        return None;
    }
    proof {
        lemma_string_parse_len(buf@.skip(i + 2), Seq::empty());
    }
    let (value, j) = match parse_string_at(buf, i + 2, Vec::new()) {
        None => {
            return None;
        },
        Some(p) => p,
    };
    if buf.len() - j == 1 && buf[j] == 0x7D {
        Some((key, value))
    } else {
        None
    }
}

/// Whether `k` is the field name `error`.
fn is_error_key(k: &Vec<u8>) -> (r: bool)
    ensures
        r == (k@ == error_key()),
{
    let r = k.len() == 5 && k[0] == 101 && k[1] == 114 && k[2] == 114 && k[3] == 111 && k[4]
        == 114;
    proof {
        if r {
            assert(k@ =~= error_key());
        } else {
            assert(k@ != error_key());
        }
    }
    r
}

/// Whether `k` is the field name `result`.
fn is_result_key(k: &Vec<u8>) -> (r: bool)
    ensures
        r == (k@ == result_key()),
{
    let r = k.len() == 6 && k[0] == 114 && k[1] == 101 && k[2] == 115 && k[3] == 117 && k[4]
        == 108 && k[5] == 116;
    proof {
        if r {
            assert(k@ =~= result_key());
        } else {
            assert(k@ != result_key());
        }
    }
    r
}

/// Whether `k` is the field name `data`.
fn is_data_key(k: &Vec<u8>) -> (r: bool)
    ensures
        r == (k@ == data_key()),
{
    let r = k.len() == 4 && k[0] == 100 && k[1] == 97 && k[2] == 116 && k[3] == 97;
    proof {
        if r {
            assert(k@ =~= data_key());
        } else {
            assert(k@ != data_key());
        }
    }
    r
}

/// Decode the outer acknowledgment envelope: `{"error":"<message>"}` gives
/// the remote failure, `{"result":"<base64>"}` the remote success with its
/// payload base64-decoded. Anything else — any other shape, an error
/// message that is not UTF-8, a payload that is not base64 — is malformed.
pub fn parse_ack(bytes: &Vec<u8>) -> (r: Option<Ack>)
    ensures
        match json_single_parse(bytes@) {
            None => r is None,
            Some((key, val)) => if key == error_key() {
                match r {
                    Some(a) => a matches Ack::Failed(m) && valid_utf8(val) && encode_utf8(m@) == val,
                    None => !valid_utf8(val),
                }
            } else if key == result_key() {
                match r {
                    Some(a) => a matches Ack::Success(p) && valid_utf8(val) && (forall|v: Seq<u8>|
                        val == #[trigger] base64_bytes(v) ==> p@ == v),
                    None => !valid_utf8(val) || (forall|v: Seq<u8>|
                        val != #[trigger] base64_bytes(v)),
                }
            } else {
                r is None
            },
        },
{
    let (key, value) = match parse_json_kv(bytes) {
        None => {
            return None;
        },
        Some(p) => p,
    };
    if is_error_key(&key) {
        match bytes_to_string(value) {
            None => None,
            Some(m) => Some(Ack::Failed(m)),
        }
    } else if is_result_key(&key) {
        match bytes_to_string(value) {
            None => None,
            Some(s) => match base64_decode(s.as_str()) {
                None => None,
                Some(p) => Some(Ack::Success(p)),
            },
        }
    } else {
        None
    }
}

/// Decode the nested response carrier `{"data":"<base64>"}` into its
/// base64-decoded payload.
pub fn parse_response_packet(bytes: &Vec<u8>) -> (r: Option<Vec<u8>>)
    ensures
        match json_single_parse(bytes@) {
            None => r is None,
            Some((key, val)) => if key == data_key() {
                match r {
                    Some(p) => valid_utf8(val) && (forall|v: Seq<u8>|
                        val == #[trigger] base64_bytes(v) ==> p@ == v),
                    None => !valid_utf8(val) || (forall|v: Seq<u8>|
                        val != #[trigger] base64_bytes(v)),
                }
            } else {
                r is None
            },
        },
{
    let (key, value) = match parse_json_kv(bytes) {
        None => {
            return None;
        },
        Some(p) => p,
    };
    if is_data_key(&key) {
        match bytes_to_string(value) {
            None => None,
            Some(s) => match base64_decode(s.as_str()) {
                None => None,
                Some(p) => Some(p),
            },
        }
    } else {
        None
    }
}

/// Build the compact single-field object `{"key":"value"}`, escaping the
/// value. A control byte other than the named ones is emitted raw, as the
/// escaping spec says; such a value will not parse back.
fn encode_json_kv(key: &Vec<u8>, value: &Vec<u8>) -> (r: Vec<u8>)
    ensures
        r@ == spec_json_kv(key@, value@),
{
    let mut out: Vec<u8> = Vec::new();
    out.push(0x7B);
    out.push(0x22);
    crate::wire::append_bytes(&mut out, key.as_slice());
    out.push(0x22);
    out.push(0x3A);
    out.push(0x22);
    let ghost prefix = seq![0x7Bu8, 0x22u8] + key@ + seq![0x22u8, 0x3Au8, 0x22u8];
    proof {
        assert(out@ =~= prefix + json_escape(value@.subrange(0, 0)));
    }
    let n = value.len();
    let mut i: usize = 0;
    while i < n
        invariant
            n == value@.len(),
            0 <= i <= n,
            out@ == prefix + json_escape(value@.subrange(0, i as int)),
        decreases n - i,
    {
        let b = value[i];
        if b == 0x22 {
            out.push(0x5C);
            out.push(0x22);
        } else if b == 0x5C {
            out.push(0x5C);
            out.push(0x5C);
        } else if b == 0x08 {
            out.push(0x5C);
            out.push(0x62);
        } else if b == 0x0C {
            out.push(0x5C);
            out.push(0x66);
        } else if b == 0x0A {
            out.push(0x5C);
            out.push(0x6E);
        } else if b == 0x0D {
            out.push(0x5C);
            out.push(0x72);
        } else if b == 0x09 {
            out.push(0x5C);
            out.push(0x74);
        } else {
            out.push(b);
        }
        proof {
            assert(value@.subrange(0, i + 1).drop_last() =~= value@.subrange(0, i as int));
            assert(value@.subrange(0, i + 1).last() == value@[i as int]);
            assert(out@ =~= prefix + json_escape(value@.subrange(0, i + 1)));
        }
        i += 1;
    }
    out.push(0x22);
    out.push(0x7D);
    proof {
        assert(value@.subrange(0, n as int) =~= value@);
        assert(out@ =~= spec_json_kv(key@, value@));
    }
    out
}

fn error_key_vec() -> (r: Vec<u8>)
    ensures
        r@ == error_key(),
{
    let r: Vec<u8> = vec![101, 114, 114, 111, 114];
    proof {
        assert(r@ =~= error_key());
    }
    r
}

fn result_key_vec() -> (r: Vec<u8>)
    ensures
        r@ == result_key(),
{
    let r: Vec<u8> = vec![114, 101, 115, 117, 108, 116];
    proof {
        assert(r@ =~= result_key());
    }
    r
}

fn data_key_vec() -> (r: Vec<u8>)
    ensures
        r@ == data_key(),
{
    let r: Vec<u8> = vec![100, 97, 116, 97];
    proof {
        assert(r@ =~= data_key());
    }
    r
}

/// Build an error acknowledgment `{"error":"<message>"}`.
pub fn encode_ack_error(msg: &String) -> (r: Vec<u8>)
    ensures
        r@ == spec_ack_error(encode_utf8(msg@)),
{
    let key = error_key_vec();
    let value = msg.as_str().as_bytes_vec();
    encode_json_kv(&key, &value)
}

/// Build a success acknowledgment `{"result":"<base64 of payload>"}`.
pub fn encode_ack_result(payload: &Vec<u8>) -> (r: Vec<u8>)
    ensures
        r@ == spec_ack_result(base64_bytes(payload@)),
{
    let key = result_key_vec();
    let b64 = base64_encode(payload);
    let value = b64.as_str().as_bytes_vec();
    encode_json_kv(&key, &value)
}

/// Build the nested response carrier `{"data":"<base64 of payload>"}`.
pub fn encode_response_packet(payload: &Vec<u8>) -> (r: Vec<u8>)
    ensures
        r@ == spec_response_packet(base64_bytes(payload@)),
{
    let key = data_key_vec();
    let b64 = base64_encode(payload);
    let value = b64.as_str().as_bytes_vec();
    encode_json_kv(&key, &value)
}

/// The acknowledgment written by the receiving side of the channel: success
/// with the one-byte payload `1`.
pub fn make_ack_success() -> (r: Vec<u8>)
    ensures
        r@ == spec_ack_result(base64_bytes(seq![0x31u8])),
{
    let payload: Vec<u8> = vec![0x31];
    proof {
        assert(payload@ =~= seq![0x31u8]);
    }
    encode_ack_result(&payload)
}

} // verus!
