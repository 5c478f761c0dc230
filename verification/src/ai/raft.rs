//! Placement leadership and the home of rate counters when fabric daemons
//! replicate them: the peer list, who may place, where a counter lives.
use vstd::prelude::*;

use crate::text::{
    chars_of, first_index, lemma_first_index, parse_u64_range, parse_u64_spec, split_char,
    split_range, string_of_range, trim, trim_bounds,
};
use crate::num::clamp;
use super::limits::{
    admit_request, charged_tokens, over_requests, over_tokens, sat_u64, window_expired, window_requests,
    window_tokens, RateCounter,
};
use vstd::string::*;

verus! {

/// A replicated command on the rate-counter state machine.
#[derive(Debug, Clone)]
pub enum LeaseCommand {
    Leader { leader: u64 },
    Admit { id: String, now: i64, tokens: u64, rpm: u64, tpm: u64, streams: u32 },
    Release { id: String },
    AdmitDay { id: String, now: i64, tokens: u64, daily: u64 },
    /// Append one audit chain tip on the leader.
    AuditLink { line: String },
}

/// The state machine's reply to a command.
#[derive(Debug, Clone)]
pub enum LeaseResponse {
    Leader { leader: u64 },
    Admitted { stream_id: Option<String> },
    Rejected { message: String },
    Released,
    AuditLinked { tip: String },
}

/// This member's id and every member's id and address, ids distinct.
#[derive(Debug, Clone)]
pub struct PeerSpec {
    pub id: u64,
    pub peers: Vec<(u64, String)>,
}

/// One comma-separated item of the peer list.
pub enum PeerItem {
    Skip,
    Bad,
    Member(u64, Seq<char>),
}

/// `id@addr`, blank, or malformed.
pub open spec fn peer_item(raw: Seq<char>) -> PeerItem {
    let t = trim(raw);
    if t.len() == 0 {
        PeerItem::Skip
    } else {
        match first_index(t, '@') {
            None => PeerItem::Bad,
            Some(k) => match parse_u64_spec(t.subrange(0, k)) {
                None => PeerItem::Bad,
                Some(id) => if k + 1 >= t.len() {
                    PeerItem::Bad
                } else {
                    PeerItem::Member(id, t.subrange(k + 1, t.len() as int))
                },
            },
        }
    }
}

/// Where `id` sits among the members.
pub open spec fn member_index(s: Seq<(u64, Seq<char>)>, id: u64) -> Option<int> {
    if exists|i: int| 0 <= i < s.len() && (#[trigger] s[i]).0 == id {
        Some(choose|i: int| 0 <= i < s.len() && (#[trigger] s[i]).0 == id)
    } else {
        None
    }
}

/// Members with `(id, addr)` added, a repeated id taking the later address.
pub open spec fn upsert(s: Seq<(u64, Seq<char>)>, id: u64, addr: Seq<char>) -> Seq<(u64, Seq<char>)> {
    match member_index(s, id) {
        Some(i) => s.update(i, (id, addr)),
        None => s.push((id, addr)),
    }
}

/// The members named by the items, or none when one is malformed.
pub open spec fn members_of(items: Seq<Seq<char>>) -> Option<Seq<(u64, Seq<char>)>>
    decreases items.len(),
{
    if items.len() == 0 {
        Some(Seq::empty())
    } else {
        match members_of(items.drop_last()) {
            None => None,
            Some(m) => match peer_item(items.last()) {
                PeerItem::Skip => Some(m),
                PeerItem::Bad => None,
                PeerItem::Member(id, addr) => Some(upsert(m, id, addr)),
            },
        }
    }
}

/// The peer configuration: this member's id, a comma-separated
/// `id@addr` list of at least three distinct members that includes it, and
/// a non-empty shared token.
pub open spec fn peer_spec_of(id: Option<Seq<char>>, peers: Option<Seq<char>>, token: Option<Seq<char>>) -> Option<(u64, Seq<(u64, Seq<char>)>)> {
    match (id, peers, token) {
        (Some(i), Some(p), Some(t)) => match parse_u64_spec(i) {
            None => None,
            Some(me) => if t.len() == 0 {
                None
            } else {
                match members_of(split_char(p, ',')) {
                    None => None,
                    Some(m) => if m.len() < 3 || member_index(m, me) is None {
                        None
                    } else {
                        Some((me, m))
                    },
                }
            },
        },
        _ => None,
    }
}

pub open spec fn opt_view(o: Option<&str>) -> Option<Seq<char>> {
    match o {
        Some(s) => Some(s@),
        None => None,
    }
}

pub open spec fn members_view(v: Seq<(u64, String)>) -> Seq<(u64, Seq<char>)> {
    v.map_values(|e: (u64, String)| (e.0, e.1@))
}

fn find_member(v: &Vec<(u64, String)>, id: u64) -> (r: Option<usize>)
    ensures
        match r {
            Some(i) => i < v@.len() && v@[i as int].0 == id,
            None => forall|j: int| 0 <= j < v@.len() ==> (#[trigger] v@[j]).0 != id,
        },
{
    let mut i: usize = 0;
    while i < v.len()
        invariant
            i <= v@.len(),
            forall|j: int| 0 <= j < i ==> (#[trigger] v@[j]).0 != id,
        decreases v.len() - i,
    {
        if v[i].0 == id {
            return Some(i);
        }
        i = i + 1;
    }
    None
}

/// Member ids are distinct.
pub open spec fn distinct_ids(s: Seq<(u64, Seq<char>)>) -> bool {
    forall|i: int, j: int| 0 <= i < j < s.len() ==> (#[trigger] s[i]).0 != (#[trigger] s[j]).0
}

fn parse_item(item: &Vec<char>) -> (r: Option<Option<(u64, String)>>)
    ensures
        match peer_item(item@) {
            PeerItem::Skip => r == Some(None::<(u64, String)>),
            PeerItem::Bad => r is None,
            PeerItem::Member(id, addr) => r matches Some(Some((i, a))) && i == id && a@ == addr,
        },
{
    let (a, b) = trim_bounds(item);
    if a == b {
        return Some(None);
    }
    let mut t: Vec<char> = Vec::new();
    let mut i = a;
    while i < b
        invariant
            a <= i <= b,
            b <= item@.len(),
            t@ == item@.subrange(a as int, i as int),
        decreases b - i,
    {
        t.push(item[i]);
        i = i + 1;
        assert(t@ =~= item@.subrange(a as int, i as int));
    }
    let n = t.len();
    proof {
        lemma_first_index(t@, '@');
    }
    let k = crate::text::find_char_from(&t, '@', 0);
    proof {
        assert(t@.subrange(0, n as int) =~= t@);
    }
    if k == n {
        return None;
    }
    let id = match parse_u64_range(&t, 0, k) {
        Some(id) => id,
        None => {
            return None;
        },
    };
    if k + 1 >= n {
        return None;
    }
    Some(Some((id, string_of_range(&t, k + 1, n))))
}

proof fn lemma_members_none(items: Seq<Seq<char>>, k: int)
    requires
        0 <= k <= items.len(),
        members_of(items.subrange(0, k)) is None,
    ensures
        members_of(items) is None,
    decreases items.len() - k,
{
    if k < items.len() {
        let t = items.subrange(0, k + 1);
        assert(t.drop_last() =~= items.subrange(0, k));
        lemma_members_none(items, k + 1);
    } else {
        assert(items.subrange(0, k) =~= items);
    }
}

/// The peer configuration from its three settings.
pub fn parse_peer_spec(id: Option<&str>, peers: Option<&str>, token: Option<&str>) -> (r: Option<PeerSpec>)
    ensures
        match peer_spec_of(opt_view(id), opt_view(peers), opt_view(token)) {
            None => r is None,
            Some((me, m)) => r matches Some(s) && s.id == me && members_view(s.peers@) == m,
        },
        r matches Some(s) ==> distinct_ids(members_view(s.peers@)),
{
    let (id_text, raw, tok) = match (id, peers, token) {
        (Some(i), Some(p), Some(t)) => (i, p, t),
        _ => {
            return None;
        },
    };
    let iv = chars_of(id_text);
    proof {
        assert(iv@.subrange(0, iv@.len() as int) =~= iv@);
    }
    let me = match parse_u64_range(&iv, 0, iv.len()) {
        Some(x) => x,
        None => {
            return None;
        },
    };
    if tok.unicode_len() == 0 {
        return None;
    }
    let pv = chars_of(raw);
    proof {
        assert(pv@.subrange(0, pv@.len() as int) =~= pv@);
    }
    let items = split_range(&pv, 0, pv.len(), ',');
    let ghost iv_items = items@.map_values(|p: Vec<char>| p@);
    let mut members: Vec<(u64, String)> = Vec::new();
    let mut k: usize = 0;
    while k < items.len()
        invariant
            k <= items@.len(),
            iv_items == items@.map_values(|p: Vec<char>| p@),
            members_of(iv_items.subrange(0, k as int)) == Some(members_view(members@)),
            distinct_ids(members_view(members@)),
            iv_items == split_char(raw@, ','),
            opt_view(id) == Some(id_text@),
            opt_view(peers) == Some(raw@),
            opt_view(token) == Some(tok@),
            parse_u64_spec(id_text@) == Some(me),
            tok@.len() > 0,
        decreases items.len() - k,
    {
        proof {
            let t = iv_items.subrange(0, k + 1);
            assert(t.drop_last() =~= iv_items.subrange(0, k as int));
            assert(t.last() == items@[k as int]@);
        }
        match parse_item(&items[k]) {
            None => {
                proof {
                    lemma_members_none(iv_items, k + 1);
                }
                return None;
            },
            Some(None) => {},
            Some(Some((pid, addr))) => {
                let ghost before = members_view(members@);
                match find_member(&members, pid) {
                    Some(j) => {
                        let ghost av = addr@;
                        members.set(j, (pid, addr));
                        proof {
                            assert(before[j as int].0 == pid);
                            assert(member_index(before, pid) is Some);
                            let c = choose|i: int| 0 <= i < before.len() && (#[trigger] before[i]).0 == pid;
                            assert(c == j);
                            assert(members_view(members@) =~= before.update(j as int, (pid, av)));
                        }
                    },
                    None => {
                        let ghost av = addr@;
                        members.push((pid, addr));
                        assert(members_view(members@) =~= before.push((pid, av)));
                        proof {
                            assert forall|j: int| 0 <= j < before.len() implies (#[trigger] before[j]).0 != pid by {
                                assert(before[j].0 == members@[j].0);
                            }
                            assert(member_index(before, pid) is None);
                        }
                    },
                }
            },
        }
        k = k + 1;
    }
    proof {
        assert(iv_items.subrange(0, iv_items.len() as int) =~= iv_items);
    }
    if members.len() < 3 {
        return None;
    }
    match find_member(&members, me) {
        None => {
            proof {
                assert forall|j: int| 0 <= j < members_view(members@).len() implies (#[trigger] members_view(members@)[j]).0 != me by {
                    assert(members_view(members@)[j].0 == members@[j].0);
                }
            }
            None
        },
        Some(j) => {
            proof {
                assert(members_view(members@)[j as int].0 == me);
            }
            Some(PeerSpec { id: me, peers: members })
        },
    }
}

/// Whether the three peer settings configure replication.
pub fn peers_configured(id: Option<&str>, peers: Option<&str>, token: Option<&str>) -> (r: bool)
    ensures
        r == peer_spec_of(opt_view(id), opt_view(peers), opt_view(token)) is Some,
{
    parse_peer_spec(id, peers, token).is_some()
}

/// Whether this daemon may place replicas: always without peers, else only
/// as the elected leader.
pub fn may_place(configured: bool, is_leader: bool) -> (r: bool)
    ensures
        r == (!configured || is_leader),
{
    !configured || is_leader
}

/// Where a rate counter is stored.
#[derive(Debug, Clone)]
pub enum CounterHome {
    /// This daemon's own store.
    Local,
    /// Forward to the elected leader at this address.
    Leader(String),
    /// No elected leader: fail closed.
    Unavailable,
}

/// The address of member `id`, if listed.
pub open spec fn address_of(m: Seq<(u64, Seq<char>)>, id: u64) -> Option<Seq<char>> {
    match member_index(m, id) {
        Some(i) => Some(m[i].1),
        None => None,
    }
}

/// Unset peers keep counters local, as does leadership; a follower forwards
/// to the elected leader; with no running member or no leader it fails closed.
pub fn counter_home(spec: Option<&PeerSpec>, is_leader: bool, member_running: bool, current_leader: Option<u64>) -> (r: CounterHome)
    requires
        spec matches Some(s) ==> distinct_ids(members_view(s.peers@)),
    ensures
        match spec {
            None => r is Local,
            Some(s) => if is_leader {
                r is Local
            } else if !member_running {
                r is Unavailable
            } else {
                match current_leader {
                    None => r is Unavailable,
                    Some(l) => match address_of(members_view(s.peers@), l) {
                        None => r is Unavailable,
                        Some(a) => r matches CounterHome::Leader(x) && x@ == a,
                    },
                }
            },
        },
{
    let s = match spec {
        None => {
            return CounterHome::Local;
        },
        Some(s) => s,
    };
    if is_leader {
        return CounterHome::Local;
    }
    if !member_running {
        return CounterHome::Unavailable;
    }
    let l = match current_leader {
        None => {
            return CounterHome::Unavailable;
        },
        Some(l) => l,
    };
    let ghost mv = members_view(s.peers@);
    match find_member(&s.peers, l) {
        None => {
            proof {
                assert forall|j: int| 0 <= j < mv.len() implies (#[trigger] mv[j]).0 != l by {
                    assert(mv[j].0 == s.peers@[j].0);
                }
            }
            CounterHome::Unavailable
        },
        Some(j) => {
            proof {
                assert(mv[j as int].0 == l);
                let c = choose|i: int| 0 <= i < mv.len() && (#[trigger] mv[i]).0 == l;
                assert(c == j);
            }
            CounterHome::Leader(crate::text::owned(s.peers[j].1.as_str()))
        },
    }
}

/// A quorum is committed when a leader is known and at least three voters
/// are members.
pub fn quorum_committed(member_running: bool, current_leader: Option<u64>, voters: usize) -> (r: bool)
    ensures
        r == (member_running && current_leader is Some && voters >= 3),
{
    member_running && current_leader.is_some() && voters >= 3
}

/// The replicated audit chain tip, when one has been written.
pub fn replicated_audit_tip(tip: Option<&str>) -> (r: Option<String>)
    ensures
        match tip {
            Some(t) if t@.len() > 0 => r matches Some(x) && x@ == t@,
            _ => r is None,
        },
{
    match tip {
        Some(t) => if t.unicode_len() > 0 {
            Some(crate::text::owned(t))
        } else {
            None
        },
        None => None,
    }
}

/// Index of the first counter with id `id`, from `i` on.
pub open spec fn counter_at(cs: Seq<RateCounter>, id: Seq<char>, i: int) -> Option<int>
    decreases cs.len() - i,
{
    if i < 0 || i >= cs.len() {
        None
    } else if cs[i].id@ == id {
        Some(i)
    } else {
        counter_at(cs, id, i + 1)
    }
}

/// The counter an admission is judged against: the stored one, else an
/// empty one (only its figures matter).
pub open spec fn current_counter(cs: Seq<RateCounter>, id: Seq<char>) -> RateCounter {
    match counter_at(cs, id, 0) {
        Some(i) => cs[i],
        None => RateCounter {
            id: vstd::pervasive::arbitrary(),
            window_started_unix: 0,
            requests: 0,
            tokens: 0,
            inflight: 0,
        },
    }
}

/// `c` is the counter `id` after an admission of `tokens` against `cur`;
/// a request that opens a stream (`streams > 0`) takes one in-flight slot.
pub open spec fn admitted_counter(c: RateCounter, cur: RateCounter, id: Seq<char>, now: i64, tokens: u64, streams: u32) -> bool {
    &&& c.id@ == id
    &&& c.window_started_unix == (if window_expired(cur, now) { now } else { cur.window_started_unix })
    &&& c.requests == sat_u64(window_requests(cur, now) + 1)
    &&& c.tokens == sat_u64(window_tokens(cur, now) + charged_tokens(tokens))
    &&& c.inflight == (if streams > 0 { clamp(cur.inflight + 1, 0, u32::MAX as int) } else { cur.inflight as int })
}

/// The stream cap refuses this request: it opens a stream and `streams`
/// are already in flight.
pub open spec fn streams_full(cur: RateCounter, streams: u32) -> bool {
    streams > 0 && cur.inflight >= streams
}

proof fn lemma_counter_at(cs: Seq<RateCounter>, id: Seq<char>, i: int)
    ensures
        counter_at(cs, id, i) matches Some(k) ==> 0 <= k < cs.len() && cs[k].id@ == id,
    decreases cs.len() - i,
{
    if 0 <= i < cs.len() {
        lemma_counter_at(cs, id, i + 1);
    }
}

fn find_counter(cs: &Vec<RateCounter>, id: &str) -> (r: Option<usize>)
    ensures
        counter_at(cs@, id@, 0) == (match r {
            Some(i) => Some(i as int),
            None => None::<int>,
        }),
        r matches Some(i) ==> i < cs@.len(),
{
    let mut i: usize = 0;
    while i < cs.len()
        invariant
            i <= cs@.len(),
            counter_at(cs@, id@, 0) == counter_at(cs@, id@, i as int),
        decreases cs.len() - i,
    {
        if crate::text::str_eq(cs[i].id.as_str(), id) {
            return Some(i);
        }
        i = i + 1;
    }
    None
}

/// The admit arm of the replicated counter state machine: judge the
/// request against the stored counter (an empty one when there is none),
/// first its per-minute limits, then, for a request that opens a stream
/// (`streams > 0`), the cap of `streams` in flight. On admission store the
/// new counter, a stream taking one in-flight slot, and answer the stream
/// id; on refusal change nothing.
pub fn apply_admit(
    counters: &mut Vec<RateCounter>,
    id: &str,
    now: i64,
    tokens: u64,
    rpm: u64,
    tpm: u64,
    streams: u32,
) -> (r: LeaseResponse)
    ensures
        ({
            let cur = current_counter(old(counters)@, id@);
            if over_requests(cur, now, rpm) {
                &&& r matches LeaseResponse::Rejected { message } && message@ == "rate limit exceeded for "@
                    + id@ + " ("@ + crate::text::dec(rpm as nat) + " requests/minute)"@
                &&& final(counters)@ == old(counters)@
            } else if over_tokens(cur, now, tokens, tpm) {
                &&& r matches LeaseResponse::Rejected { message } && message@ == "token limit exceeded for "@
                    + id@ + " ("@ + crate::text::dec(tpm as nat) + " tokens/minute)"@
                &&& final(counters)@ == old(counters)@
            } else if streams_full(cur, streams) {
                &&& r matches LeaseResponse::Rejected { message } && message@ == "stream limit exceeded for "@
                    + id@ + " ("@ + crate::text::dec(streams as nat) + " concurrent streams)"@
                &&& final(counters)@ == old(counters)@
            } else {
                &&& r matches LeaseResponse::Admitted { stream_id } && (if streams > 0 {
                    stream_id matches Some(s) && s@ == id@
                } else {
                    stream_id is None
                })
                &&& match counter_at(old(counters)@, id@, 0) {
                    Some(i) => {
                        &&& final(counters)@.len() == old(counters)@.len()
                        &&& forall|j: int| 0 <= j < old(counters)@.len() && j != i ==> #[trigger] final(counters)@[j] == old(counters)@[j]
                        &&& admitted_counter(final(counters)@[i], cur, id@, now, tokens, streams)
                    },
                    None => {
                        &&& final(counters)@.len() == old(counters)@.len() + 1
                        &&& final(counters)@.subrange(0, old(counters)@.len() as int) == old(counters)@
                        &&& admitted_counter(final(counters)@[old(counters)@.len() as int], cur, id@, now, tokens, streams)
                    },
                }
            }
        }),
{
    let found = find_counter(counters, id);
    let cur = match found {
        Some(i) => RateCounter {
            id: crate::text::owned(counters[i].id.as_str()),
            window_started_unix: counters[i].window_started_unix,
            requests: counters[i].requests,
            tokens: counters[i].tokens,
            inflight: counters[i].inflight,
        },
        None => RateCounter { id: crate::text::owned(id), window_started_unix: 0, requests: 0, tokens: 0, inflight: 0 },
    };
    let ghost spec_cur = current_counter(counters@, id@);
    proof {
        lemma_counter_at(counters@, id@, 0);
    }
    assert(cur.id@ == id@);
    assert(window_expired(cur, now) == window_expired(spec_cur, now));
    match admit_request(cur, now, tokens, rpm, tpm) {
        Err(message) => LeaseResponse::Rejected { message },
        Ok(next) => {
            if streams > 0 && next.inflight >= streams {
                let mut message = crate::text::owned("stream limit exceeded for ");
                message.append(id);
                message.append(" (");
                crate::text::push_dec(&mut message, streams as u64);
                message.append(" concurrent streams)");
                return LeaseResponse::Rejected { message };
            }
            let mut next = next;
            if streams > 0 {
                next.inflight = next.inflight.saturating_add(1);
            }
            let ghost before = counters@;
            match found {
                Some(i) => {
                    counters.set(i, next);
                },
                None => {
                    counters.push(next);
                    assert(counters@.subrange(0, before.len() as int) =~= before);
                },
            }
            let stream_id = if streams > 0 {
                Some(crate::text::owned(id))
            } else {
                None
            };
            LeaseResponse::Admitted { stream_id }
        },
    }
}

/// The audit-link arm: the chain's new tip is the hash of the old tip and
/// the line; it is stored and answered.
pub fn apply_audit_link(tip: &mut String, line: &str) -> (r: String)
    ensures
        final(tip)@ == crate::text::hex_seq(crate::crypto::sha256_spec(vstd::utf8::encode_utf8(old(tip)@ + "\n"@ + line@))),
        r@ == final(tip)@,
{
    let next = super::chain_hash(tip.as_str(), line);
    let answer = crate::text::owned(next.as_str());
    *tip = next;
    answer
}

/// The counter `c` once one of its streams has finished: one in-flight
/// slot fewer, never below zero.
pub open spec fn released_counter(c: RateCounter) -> RateCounter {
    RateCounter { inflight: clamp(c.inflight - 1, 0, u32::MAX as int) as u32, ..c }
}

/// A release gives back the slot an admitted stream took: admitting a
/// stream against `cur` and then releasing it leaves `cur`'s in-flight
/// count (short of the counter's ceiling).
pub proof fn lemma_release_returns_the_slot(
    c: RateCounter,
    cur: RateCounter,
    id: Seq<char>,
    now: i64,
    tokens: u64,
    streams: u32,
)
    requires
        admitted_counter(c, cur, id, now, tokens, streams),
        streams > 0,
        cur.inflight < u32::MAX,
    ensures
        released_counter(c).inflight == cur.inflight,
        streams_full(released_counter(c), streams) == streams_full(cur, streams),
{
}

/// The release arm: a finished stream frees its in-flight slot; an
/// unknown counter is left as it is.
pub fn apply_release(counters: &mut Vec<RateCounter>, id: &str) -> (r: LeaseResponse)
    ensures
        r is Released,
        final(counters)@.len() == old(counters)@.len(),
        match counter_at(old(counters)@, id@, 0) {
            Some(i) => {
                &&& forall|j: int| 0 <= j < old(counters)@.len() && j != i ==> #[trigger] final(counters)@[j] == old(counters)@[j]
                &&& final(counters)@[i] == released_counter(old(counters)@[i])
            },
            None => final(counters)@ == old(counters)@,
        },
{
    if let Some(i) = find_counter(counters, id) {
        let n = counters[i].inflight;
        counters[i].inflight = n.saturating_sub(1);
    }
    LeaseResponse::Released
}

} // verus!
