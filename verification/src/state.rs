use vstd::prelude::*;

use crate::msg::{ProtoCoin, ProtoCoinV, QueryBalanceMsg, QueryBalanceMsgV, QueryTwapMsg, QueryTwapMsgV};

verus! {

/// The remote end of a channel: a (port, channel id) pair.
#[derive(Clone, Debug, PartialEq, Eq)]
pub struct IbcEndpoint {
    pub port_id: String,
    pub channel_id: String,
}

/// Mathematical value of an [`IbcEndpoint`].
pub struct IbcEndpointV {
    pub port_id: Seq<char>,
    pub channel_id: Seq<char>,
}

impl View for IbcEndpoint {
    type V = IbcEndpointV;

    open spec fn view(&self) -> IbcEndpointV {
        IbcEndpointV { port_id: self.port_id@, channel_id: self.channel_id@ }
    }
}

/// Static metadata of one open channel, written on handshake completion.
#[derive(Clone, Debug, PartialEq, Eq)]
pub struct ChannelInfo {
    /// id of this channel
    pub id: String,
    /// the remote channel/port we connect to
    pub counterparty_endpoint: IbcEndpoint,
    /// the connection this exists on
    pub connection_id: String,
}

/// Mathematical value of a [`ChannelInfo`].
pub struct ChannelInfoV {
    pub id: Seq<char>,
    pub counterparty_endpoint: IbcEndpointV,
    pub connection_id: Seq<char>,
}

impl View for ChannelInfo {
    type V = ChannelInfoV;

    open spec fn view(&self) -> ChannelInfoV {
        ChannelInfoV {
            id: self.id@,
            counterparty_endpoint: self.counterparty_endpoint@,
            connection_id: self.connection_id@,
        }
    }
}

/// Per-channel transfer accounting.
#[derive(Clone, Copy, Debug, PartialEq, Eq)]
pub struct ChannelState {
    pub outstanding: u128,
    pub total_sent: u128,
}

/// The persisted outbound sequence counter.
#[derive(Clone, Copy, Debug, PartialEq, Eq)]
pub struct SequenceState {
    pub next_sequence_send: u64,
}

/// The typed parameters of a query whose acknowledgment is still outstanding,
/// keyed by the sequence number allocated when it was sent.
#[derive(Clone, Debug, PartialEq, Eq)]
pub enum PendingQuery {
    Balance(QueryBalanceMsg),
    Twap(QueryTwapMsg),
}

/// Mathematical value of a [`PendingQuery`].
pub enum PendingQueryV {
    Balance(QueryBalanceMsgV),
    Twap(QueryTwapMsgV),
}

impl View for PendingQuery {
    type V = PendingQueryV;

    open spec fn view(&self) -> PendingQueryV {
        match self {
            PendingQuery::Balance(m) => PendingQueryV::Balance(m@),
            PendingQuery::Twap(m) => PendingQueryV::Twap(m@),
        }
    }
}

/// The association of keys to values held by a sequence of entries; a later
/// entry for the same key overrides an earlier one.
pub open spec fn kv_map<V: View>(s: Seq<(u64, V)>) -> Map<u64, V::V>
    decreases s.len(),
{
    if s.len() == 0 {
        Map::empty()
    } else {
        kv_map(s.drop_last()).insert(s.last().0, s.last().1@)
    }
}

/// No two entries share a key.
pub open spec fn kv_unique<V>(s: Seq<(u64, V)>) -> bool {
    forall|i: int, j: int| 0 <= i < j < s.len() ==> (#[trigger] s[i]).0 != (#[trigger] s[j]).0
}

proof fn lemma_kv_unique_prefix<V>(s: Seq<(u64, V)>)
    requires
        kv_unique(s),
        s.len() > 0,
    ensures
        kv_unique(s.drop_last()),
{
    assert forall|i: int, j: int|
        0 <= i < j < s.drop_last().len() implies (#[trigger] s.drop_last()[i]).0 != (
    #[trigger] s.drop_last()[j]).0 by {
        assert(s[i].0 != s[j].0);
    }
}

/// A key that occurs in no entry is absent from the association.
proof fn lemma_kv_absent<V: View>(s: Seq<(u64, V)>, k: u64)
    requires
        forall|i: int| 0 <= i < s.len() ==> (#[trigger] s[i]).0 != k,
    ensures
        !kv_map(s).contains_key(k),
    decreases s.len(),
{
    if s.len() > 0 {
        assert(s.last().0 != k);
        lemma_kv_absent(s.drop_last(), k);
    }
}

/// Under unique keys, each entry is the association's value at its key.
proof fn lemma_kv_index<V: View>(s: Seq<(u64, V)>, i: int)
    requires
        kv_unique(s),
        0 <= i < s.len(),
    ensures
        kv_map(s).contains_key(s[i].0),
        kv_map(s)[s[i].0] == s[i].1@,
    decreases s.len(),
{
    if i == s.len() - 1 {
    } else {
        lemma_kv_unique_prefix(s);
        lemma_kv_index(s.drop_last(), i);
        assert(s[i].0 != s.last().0);
    }
}

proof fn lemma_kv_update<V: View>(s: Seq<(u64, V)>, i: int, val: V)
    requires
        kv_unique(s),
        0 <= i < s.len(),
    ensures
        kv_unique(s.update(i, (s[i].0, val))),
        kv_map(s.update(i, (s[i].0, val))) == kv_map(s).insert(s[i].0, val@),
    decreases s.len(),
{
    let k = s[i].0;
    let t = s.update(i, (k, val));
    assert forall|x: int, y: int| 0 <= x < y < t.len() implies (#[trigger] t[x]).0 != (
    #[trigger] t[y]).0 by {
        assert(s[x].0 != s[y].0);
    }
    if i == s.len() - 1 {
        assert(t.drop_last() =~= s.drop_last());
        assert(kv_map(t) =~= kv_map(s).insert(k, val@));
    } else {
        lemma_kv_unique_prefix(s);
        lemma_kv_update(s.drop_last(), i, val);
        assert(t.drop_last() =~= s.drop_last().update(i, (k, val)));
        assert(t.last() == s.last());
        assert(s[i].0 != s.last().0);
        assert(kv_map(t) =~= kv_map(s).insert(k, val@));
    }
}

/// Look a key up; the result is the association's entry for it.
pub fn kv_get<'a, V: View>(v: &'a Vec<(u64, V)>, k: u64) -> (r: Option<&'a V>)
    requires
        kv_unique(v@),
    ensures
        match r {
            Some(x) => kv_map(v@).contains_key(k) && x@ == kv_map(v@)[k],
            None => !kv_map(v@).contains_key(k),
        },
{
    let n = v.len();
    let mut i: usize = 0;
    while i < n
        invariant
            kv_unique(v@),
            n == v@.len(),
            0 <= i <= n,
            forall|j: int| 0 <= j < i ==> (#[trigger] v@[j]).0 != k,
        decreases n - i,
    {
        if v[i].0 == k {
            proof {
                lemma_kv_index(v@, i as int);
            }
            return Some(&v[i].1);
        }
        i += 1;
    }
    proof {
        lemma_kv_absent(v@, k);
    }
    None
}

/// Insert a value for a key, overwriting any earlier value for the same key.
pub fn kv_insert<V: View>(v: &mut Vec<(u64, V)>, k: u64, val: V)
    requires
        kv_unique(old(v)@),
    ensures
        kv_unique(final(v)@),
        kv_map(final(v)@) == kv_map(old(v)@).insert(k, val@),
{
    let n = v.len();
    let mut i: usize = 0;
    while i < n
        invariant
            kv_unique(v@),
            v@ == old(v)@,
            n == v@.len(),
            0 <= i <= n,
            forall|j: int| 0 <= j < i ==> (#[trigger] v@[j]).0 != k,
        decreases n - i,
    {
        if v[i].0 == k {
            proof {
                lemma_kv_update(v@, i as int, val);
            }
            v[i] = (k, val);
            return;
        }
        i += 1;
    }
    proof {
        lemma_kv_absent(v@, k);
    }
    v.push((k, val));
    proof {
        assert(v@.drop_last() =~= old(v)@);
        assert forall|x: int, y: int|
            0 <= x < y < v@.len() implies (#[trigger] v@[x]).0 != (#[trigger] v@[y]).0 by {
            if y < v@.len() - 1 {
                assert(old(v)@[x].0 != old(v)@[y].0);
            } else {
                assert(old(v)@[x].0 != k);
            }
        }
    }
}

/// The whole of the contract's persisted state, loaded from the external
/// transactional store at the start of an invocation and committed atomically
/// at its end. Every entry point states how the new state relates to the old.
pub struct IcqState {
    /// Channel registry: one entry per open channel, keyed by channel id.
    pub channels: Vec<ChannelInfo>,
    /// Typed parameters of queries sent and not yet acknowledged, keyed by
    /// the allocated sequence number.
    pub pending_requests: Vec<(u64, PendingQuery)>,
    /// Terminal balance results, keyed by sequence number.
    pub balance_results: Vec<(u64, ProtoCoin)>,
    /// Terminal price results, keyed by sequence number.
    pub price_results: Vec<(u64, String)>,
    /// Error strings from failed acknowledgments, keyed by sequence number.
    pub errors: Vec<(u64, String)>,
    /// The most recently acknowledged sequence, for liveness inspection.
    pub last_sequence_ack: Option<u64>,
    /// The last allocated outbound sequence number; 0 before any send.
    pub next_sequence_send: u64,
}

impl IcqState {
    /// Every keyed collection has unique keys, so each is a map.
    pub open spec fn wf(self) -> bool {
        &&& chan_unique(self.channels@)
        &&& kv_unique(self.pending_requests@)
        &&& kv_unique(self.balance_results@)
        &&& kv_unique(self.price_results@)
        &&& kv_unique(self.errors@)
    }

    pub open spec fn channels_map(self) -> Map<Seq<char>, ChannelInfoV> {
        chan_map(self.channels@)
    }

    pub open spec fn pending_map(self) -> Map<u64, PendingQueryV> {
        kv_map(self.pending_requests@)
    }

    pub open spec fn balances_map(self) -> Map<u64, ProtoCoinV> {
        kv_map(self.balance_results@)
    }

    pub open spec fn prices_map(self) -> Map<u64, Seq<char>> {
        kv_map(self.price_results@)
    }

    pub open spec fn errors_map(self) -> Map<u64, Seq<char>> {
        kv_map(self.errors@)
    }

    /// The fresh state: empty registry, no results, counter at zero.
    pub fn new() -> (s: Self)
        ensures
            s.wf(),
            s.channels_map() == Map::<Seq<char>, ChannelInfoV>::empty(),
            s.pending_map() == Map::<u64, PendingQueryV>::empty(),
            s.balances_map() == Map::<u64, ProtoCoinV>::empty(),
            s.prices_map() == Map::<u64, Seq<char>>::empty(),
            s.errors_map() == Map::<u64, Seq<char>>::empty(),
            s.last_sequence_ack is None,
            s.next_sequence_send == 0,
    {
        IcqState {
            channels: Vec::new(),
            pending_requests: Vec::new(),
            balance_results: Vec::new(),
            price_results: Vec::new(),
            errors: Vec::new(),
            last_sequence_ack: None,
            next_sequence_send: 0,
        }
    }
}

/// Allocate the next outbound sequence number: the successor of the persisted
/// counter, which is persisted back, so an allocated value is never returned
/// again.
pub fn get_next_sequence_send(state: &mut IcqState) -> (seq: u64)
    requires
        old(state).next_sequence_send < u64::MAX,
    ensures
        seq == old(state).next_sequence_send + 1,
        *final(state) == (IcqState { next_sequence_send: seq, ..*old(state) }),
{
    let seq = state.next_sequence_send + 1;
    state.next_sequence_send = seq;
    seq
}

/// Sequence allocation law: an allocation returns the successor of the
/// counter and leaves the counter at the value returned, and every other
/// entry point leaves the counter where it was or (on a send) above. So for
/// any two allocations, one after the other with any run of calls between
/// them that never lowers the counter — including calls that fail, which
/// leave the state unchanged — the two values returned are strictly
/// increasing and in particular never repeat.
pub proof fn lemma_sequences_strictly_increase(s0: IcqState, s1: IcqState, r0: u64, r1: u64)
    requires
        // r0 was returned by an allocation that left the counter in state s0
        r0 == s0.next_sequence_send,
        // no call between the two allocations lowered the counter
        s0.next_sequence_send <= s1.next_sequence_send,
        s1.next_sequence_send < u64::MAX,
        // r1 was returned by the next allocation, made in state s1
        r1 == s1.next_sequence_send + 1,
    ensures
        r0 < r1,
{
}

/// The channel registry as an association of channel ids to metadata; a later
/// entry for the same id overrides an earlier one.
pub open spec fn chan_map(s: Seq<ChannelInfo>) -> Map<Seq<char>, ChannelInfoV>
    decreases s.len(),
{
    if s.len() == 0 {
        Map::empty()
    } else {
        chan_map(s.drop_last()).insert(s.last().id@, s.last()@)
    }
}

/// No two registry entries share a channel id.
pub open spec fn chan_unique(s: Seq<ChannelInfo>) -> bool {
    forall|i: int, j: int| 0 <= i < j < s.len() ==> (#[trigger] s[i]).id@ != (#[trigger] s[j]).id@
}

proof fn lemma_chan_unique_prefix(s: Seq<ChannelInfo>)
    requires
        chan_unique(s),
        s.len() > 0,
    ensures
        chan_unique(s.drop_last()),
{
    assert forall|i: int, j: int|
        0 <= i < j < s.drop_last().len() implies (#[trigger] s.drop_last()[i]).id@ != (
    #[trigger] s.drop_last()[j]).id@ by {
        assert(s[i].id@ != s[j].id@);
    }
}

proof fn lemma_chan_absent(s: Seq<ChannelInfo>, id: Seq<char>)
    requires
        forall|i: int| 0 <= i < s.len() ==> (#[trigger] s[i]).id@ != id,
    ensures
        !chan_map(s).contains_key(id),
    decreases s.len(),
{
    if s.len() > 0 {
        assert(s.last().id@ != id);
        lemma_chan_absent(s.drop_last(), id);
    }
}

proof fn lemma_chan_index(s: Seq<ChannelInfo>, i: int)
    requires
        chan_unique(s),
        0 <= i < s.len(),
    ensures
        chan_map(s).contains_key(s[i].id@),
        chan_map(s)[s[i].id@] == s[i]@,
    decreases s.len(),
{
    if i == s.len() - 1 {
    } else {
        lemma_chan_unique_prefix(s);
        lemma_chan_index(s.drop_last(), i);
        assert(s[i].id@ != s.last().id@);
    }
}

proof fn lemma_chan_update(s: Seq<ChannelInfo>, i: int, info: ChannelInfo)
    requires
        chan_unique(s),
        0 <= i < s.len(),
        info.id@ == s[i].id@,
    ensures
        chan_unique(s.update(i, info)),
        chan_map(s.update(i, info)) == chan_map(s).insert(info.id@, info@),
    decreases s.len(),
{
    let t = s.update(i, info);
    assert forall|x: int, y: int| 0 <= x < y < t.len() implies (#[trigger] t[x]).id@ != (
    #[trigger] t[y]).id@ by {
        assert(s[x].id@ != s[y].id@);
    }
    if i == s.len() - 1 {
        assert(t.drop_last() =~= s.drop_last());
        assert(chan_map(t) =~= chan_map(s).insert(info.id@, info@));
    } else {
        lemma_chan_unique_prefix(s);
        lemma_chan_update(s.drop_last(), i, info);
        assert(t.drop_last() =~= s.drop_last().update(i, info));
        assert(t.last() == s.last());
        assert(s[i].id@ != s.last().id@);
        assert(chan_map(t) =~= chan_map(s).insert(info.id@, info@));
    }
}

proof fn lemma_chan_remove_at(s: Seq<ChannelInfo>, i: int)
    requires
        chan_unique(s),
        0 <= i < s.len(),
    ensures
        chan_unique(s.remove(i)),
        chan_map(s.remove(i)) == chan_map(s).remove(s[i].id@),
    decreases s.len(),
{
    let t = s.remove(i);
    assert forall|x: int, y: int| 0 <= x < y < t.len() implies (#[trigger] t[x]).id@ != (
    #[trigger] t[y]).id@ by {
        let xs = if x < i { x } else { x + 1 };
        let ys = if y < i { y } else { y + 1 };
        assert(t[x] == s[xs] && t[y] == s[ys]);
        assert(s[xs].id@ != s[ys].id@);
    }
    if i == s.len() - 1 {
        assert(t =~= s.drop_last());
        lemma_chan_unique_prefix(s);
        assert forall|j: int| 0 <= j < t.len() implies (#[trigger] t[j]).id@ != s[i].id@ by {
            assert(s[j].id@ != s[i].id@);
        }
        lemma_chan_absent(t, s[i].id@);
        assert(chan_map(t) =~= chan_map(s).remove(s[i].id@));
    } else {
        lemma_chan_unique_prefix(s);
        lemma_chan_remove_at(s.drop_last(), i);
        assert(t.drop_last() =~= s.drop_last().remove(i));
        assert(t.last() == s.last());
        assert(s[i].id@ != s.last().id@);
        assert(chan_map(t) =~= chan_map(s).remove(s[i].id@));
    }
}

/// Whether a channel id is present in the registry.
pub fn chan_has(v: &Vec<ChannelInfo>, id: &String) -> (r: bool)
    requires
        chan_unique(v@),
    ensures
        r == chan_map(v@).contains_key(id@),
{
    let n = v.len();
    let mut i: usize = 0;
    while i < n
        invariant
            chan_unique(v@),
            n == v@.len(),
            0 <= i <= n,
            forall|j: int| 0 <= j < i ==> (#[trigger] v@[j]).id@ != id@,
        decreases n - i,
    {
        if v[i].id == *id {
            proof {
                lemma_chan_index(v@, i as int);
            }
            return true;
        }
        i += 1;
    }
    proof {
        lemma_chan_absent(v@, id@);
    }
    false
}

/// Record a channel's metadata, overwriting any earlier entry for its id.
pub fn chan_save(v: &mut Vec<ChannelInfo>, info: ChannelInfo)
    requires
        chan_unique(old(v)@),
    ensures
        chan_unique(final(v)@),
        chan_map(final(v)@) == chan_map(old(v)@).insert(info.id@, info@),
{
    let n = v.len();
    let mut i: usize = 0;
    while i < n
        invariant
            chan_unique(v@),
            v@ == old(v)@,
            n == v@.len(),
            0 <= i <= n,
            forall|j: int| 0 <= j < i ==> (#[trigger] v@[j]).id@ != info.id@,
        decreases n - i,
    {
        if v[i].id == info.id {
            proof {
                lemma_chan_update(v@, i as int, info);
            }
            v[i] = info;
            return;
        }
        i += 1;
    }
    proof {
        lemma_chan_absent(v@, info.id@);
    }
    v.push(info);
    proof {
        assert(v@.drop_last() =~= old(v)@);
        assert forall|x: int, y: int|
            0 <= x < y < v@.len() implies (#[trigger] v@[x]).id@ != (#[trigger] v@[y]).id@ by {
            if y < v@.len() - 1 {
                assert(old(v)@[x].id@ != old(v)@[y].id@);
            } else {
                assert(old(v)@[x].id@ != v@[y].id@);
            }
        }
    }
}

/// Drop the registry entry for a channel id, if one exists.
pub fn chan_remove(v: &mut Vec<ChannelInfo>, id: &String)
    requires
        chan_unique(old(v)@),
    ensures
        chan_unique(final(v)@),
        chan_map(final(v)@) == chan_map(old(v)@).remove(id@),
{
    let n = v.len();
    let mut i: usize = 0;
    while i < n
        invariant
            chan_unique(v@),
            v@ == old(v)@,
            n == v@.len(),
            0 <= i <= n,
            forall|j: int| 0 <= j < i ==> (#[trigger] v@[j]).id@ != id@,
        decreases n - i,
    {
        if v[i].id == *id {
            proof {
                lemma_chan_remove_at(v@, i as int);
            }
            v.remove(i);
            return;
        }
        i += 1;
    }
    proof {
        lemma_chan_absent(v@, id@);
        assert(chan_map(v@) =~= chan_map(v@).remove(id@));
    }
}

} // verus!
