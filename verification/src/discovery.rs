use crate::protocol::{DeviceInfo, DiscoveryPacket, KnownPeerHint, DEVICE_TTL_SECS};
use crate::text::{lemma_filter_insert, opt_view, seq_lt, str_eq, str_lt, trim, trimmed};
use crate::watch_state::{first_index, is_first, lemma_first_index, lemma_first_index_range};
use vstd::prelude::*;

verus! {

/// How a device came to be probed: named by the user, or introduced by a
/// peer.
#[derive(Clone, Copy, Debug, PartialEq, Eq, Structural)]
pub enum CandidateSource {
    Manual,
    Introduced,
}

impl CandidateSource {
    /// A device named by the user stays named by the user.
    pub fn merge(self, other: Self) -> (r: Self)
        ensures
            r == (if self == CandidateSource::Manual || other == CandidateSource::Manual {
                CandidateSource::Manual
            } else {
                CandidateSource::Introduced
            }),
    {
        match (self, other) {
            (CandidateSource::Manual, _) | (_, CandidateSource::Manual) => CandidateSource::Manual,
            _ => CandidateSource::Introduced,
        }
    }
}

/// Whether a discovery packet is for this device to take in: it comes from
/// this application and not from this device.
pub fn accepts_packet(packet: &DiscoveryPacket, own_id: &str) -> (r: bool)
    ensures
        r == (packet.app@ == "quicklan"@ && packet.version == 1 && packet.device_id@ != own_id@),
{
    packet.is_quicklan() && !str_eq(packet.device_id.as_str(), own_id)
}

/// How a device was found, as shown: "manual", "introduced" or "broadcast".
pub fn discovered_via_label(source: Option<CandidateSource>) -> (r: &'static str)
    ensures
        r@ == (match source {
            Some(CandidateSource::Manual) => "manual"@,
            Some(CandidateSource::Introduced) => "introduced"@,
            None => "broadcast"@,
        }),
{
    match source {
        Some(CandidateSource::Manual) => "manual",
        Some(CandidateSource::Introduced) => "introduced",
        None => "broadcast",
    }
}

/// Whether a packet makes this device fetch the sender's manifest: always for
/// a library announcement; for presence when the sender already owns shares
/// here or was probed; for anything else when it was probed.
pub open spec fn sync_wanted(packet_type: Seq<char>, owns_shares: bool, probed: bool) -> bool {
    if packet_type == "library"@ {
        true
    } else if packet_type == "presence"@ {
        owns_shares || probed
    } else {
        probed
    }
}

pub fn should_sync(packet_type: &str, owns_shares: bool, source: Option<CandidateSource>) -> (r: bool)
    ensures
        r == sync_wanted(packet_type@, owns_shares, source is Some),
{
    let probed = source.is_some();
    if str_eq(packet_type, "library") {
        true
    } else if str_eq(packet_type, "presence") {
        owns_shares || probed
    } else {
        probed
    }
}

/// The kind of packet a probe sends: a library announcement to a device the
/// user named, or every fourth round; presence otherwise.
pub fn probe_packet_type(manual: bool, round: u64) -> (r: &'static str)
    ensures
        r@ == (if manual || round % 4 == 0 {
            "library"@
        } else {
            "presence"@
        }),
{
    if manual || round % 4 == 0 {
        "library"
    } else {
        "presence"
    }
}

/// Whether a device last heard from `elapsed_ms` ago is still online.
pub fn is_online(elapsed_ms: u128) -> (r: bool)
    ensures
        r == (elapsed_ms < DEVICE_TTL_SECS * 1000),
{
    elapsed_ms < (DEVICE_TTL_SECS as u128) * 1000
}

/// The broadcast address of the subnet of `ip` under `mask`.
pub fn subnet_broadcast(ip: u32, mask: u32) -> (r: u32)
    ensures
        r == ip | !mask,
{
    ip | !mask
}

/// The device id kept in a file: its trimmed content, unless that is empty.
pub fn stored_device_id(content: &str) -> (r: Option<String>)
    ensures
        match r {
            Some(id) => id@ == trim(content@) && id@.len() > 0,
            None => trim(content@).len() == 0,
        },
{
    let t = trimmed(content);
    if t.as_str().is_empty() {
        None
    } else {
        Some(t)
    }
}

/// Whether a peer a packet introduces is worth probing: it is neither this
/// device nor the packet's sender.
pub fn hint_applies(hint_device_id: &str, own_id: &str, source_device_id: &str) -> (r: bool)
    ensures
        r == (hint_device_id@ != own_id@ && hint_device_id@ != source_device_id@),
{
    !str_eq(hint_device_id, own_id) && !str_eq(hint_device_id, source_device_id)
}

/// The avatar a device shows: the one its packet names, else the one known
/// before.
pub fn avatar_or_previous(announced: Option<String>, previous: Option<String>) -> (r: Option<String>)
    ensures
        opt_view(r) == (if announced is Some {
            opt_view(announced)
        } else {
            opt_view(previous)
        }),
{
    match announced {
        Some(a) => Some(a),
        None => previous,
    }
}

// ---------------------------------------------------------------------------
// Introducing peers.
// ---------------------------------------------------------------------------

/// How many peers one packet introduces at most.
pub const INTRO_HINT_LIMIT: usize = 6;

/// A device worth introducing to `target_id`: online, and neither this
/// device nor the target.
pub open spec fn introducible(d: DeviceInfo, own_id: Seq<char>, target_id: Seq<char>) -> bool {
    d.online && d.id@ != own_id && d.id@ != target_id
}

/// The hint that introduces a device.
pub open spec fn hint_of(d: DeviceInfo) -> KnownPeerHint {
    KnownPeerHint {
        device_id: d.id,
        device_name: d.name,
        ip: d.ip,
        tcp_port: d.tcp_port,
        api_port: d.api_port,
    }
}

/// The hints of the devices a packet for `target_id` introduces: the first
/// six introducible devices, in the order given.
pub open spec fn hints_for(devices: Seq<DeviceInfo>, own_id: Seq<char>, target_id: Seq<char>) -> Seq<KnownPeerHint> {
    let chosen = devices.filter(|d: DeviceInfo| introducible(d, own_id, target_id));
    chosen.take(if chosen.len() < INTRO_HINT_LIMIT { chosen.len() as int } else { INTRO_HINT_LIMIT as int }).map_values(
        |d: DeviceInfo| hint_of(d),
    )
}

/// The peers a packet for `target_id` introduces, among `devices`.
pub fn peer_hints(devices: &Vec<DeviceInfo>, own_id: &str, target_id: &str) -> (r: Vec<KnownPeerHint>)
    ensures
        r@.len() == hints_for(devices@, own_id@, target_id@).len(),
        forall|k: int| 0 <= k < r@.len() ==> {
            let h = #[trigger] r@[k];
            let e = hints_for(devices@, own_id@, target_id@)[k];
            &&& h.device_id@ == e.device_id@
            &&& h.device_name@ == e.device_name@
            &&& h.ip@ == e.ip@
            &&& h.tcp_port == e.tcp_port
            &&& h.api_port == e.api_port
        },
{
    let ghost input = devices@;
    let ghost pred = |d: DeviceInfo| introducible(d, own_id@, target_id@);
    let mut out: Vec<KnownPeerHint> = Vec::new();
    let ghost mut chosen: Seq<DeviceInfo> = Seq::empty();
    let mut i: usize = 0;
    while i < devices.len() && out.len() < INTRO_HINT_LIMIT
        invariant
            i <= input.len(),
            input == devices@,
            pred == (|d: DeviceInfo| introducible(d, own_id@, target_id@)),
            chosen == input.take(i as int).filter(pred),
            out@.len() == chosen.len(),
            out@.len() <= INTRO_HINT_LIMIT,
            forall|k: int| 0 <= k < out@.len() ==> {
                let h = #[trigger] out@[k];
                &&& h.device_id@ == chosen[k].id@
                &&& h.device_name@ == chosen[k].name@
                &&& h.ip@ == chosen[k].ip@
                &&& h.tcp_port == chosen[k].tcp_port
                &&& h.api_port == chosen[k].api_port
            },
        decreases input.len() - i,
    {
        let d = &devices[i];
        assert(input.take(i + 1).drop_last() =~= input.take(i as int));
        assert(input.take(i + 1).last() == *d);
        reveal_with_fuel(Seq::<_>::filter, 1);
        let keep = d.online && !str_eq(d.id.as_str(), own_id) && !str_eq(d.id.as_str(), target_id);
        assert(pred(*d) == keep);
        if keep {
            out.push(KnownPeerHint {
                device_id: d.id.clone(),
                device_name: d.name.clone(),
                ip: d.ip.clone(),
                tcp_port: d.tcp_port,
                api_port: d.api_port,
            });
        }
        proof {
            chosen = input.take(i + 1).filter(pred);
        }
        i = i + 1;
    }
    proof {
        let all = input.filter(pred);
        lemma_filter_take_prefix(input, pred, i as int);
        if i < input.len() {
            assert(out@.len() == INTRO_HINT_LIMIT);
        } else {
            assert(input.take(i as int) =~= input);
        }
        assert(chosen.len() <= all.len());
        assert(all.take(chosen.len() as int) =~= chosen);
    }
    out
}

/// Filtering a prefix gives a prefix of the filtered sequence.
proof fn lemma_filter_take_prefix(s: Seq<DeviceInfo>, pred: spec_fn(DeviceInfo) -> bool, i: int)
    requires
        0 <= i <= s.len(),
    ensures
        s.take(i).filter(pred).len() <= s.filter(pred).len(),
        s.filter(pred).take(s.take(i).filter(pred).len() as int) =~= s.take(i).filter(pred),
    decreases s.len() - i,
{
    if i < s.len() {
        lemma_filter_take_prefix(s, pred, i + 1);
        assert(s.take(i + 1).drop_last() =~= s.take(i));
        reveal_with_fuel(Seq::<_>::filter, 1);
        let a = s.take(i).filter(pred);
        let b = s.take(i + 1).filter(pred);
        if pred(s[i]) {
            assert(b =~= a.push(s[i]));
            assert(s.filter(pred).take(a.len() as int) =~= b.take(a.len() as int));
        } else {
            assert(b =~= a);
        }
    } else {
        assert(s.take(i) =~= s);
    }
}

// ---------------------------------------------------------------------------
// Listing devices.
// ---------------------------------------------------------------------------

/// `a` is listed before `b`: this device first, then devices online, then by
/// name, then by address.
pub open spec fn device_before(a: DeviceInfo, b: DeviceInfo) -> bool {
    ||| (a.is_local && !b.is_local)
    ||| (a.is_local == b.is_local && a.online && !b.online)
    ||| (a.is_local == b.is_local && a.online == b.online && seq_lt(a.name@, b.name@))
    ||| (a.is_local == b.is_local && a.online == b.online && a.name@ == b.name@ && seq_lt(
        a.ip@,
        b.ip@,
    ))
}

/// Devices in listing order.
pub open spec fn devices_sorted(s: Seq<DeviceInfo>) -> bool {
    forall|i: int, j: int| 0 <= i < j < s.len() ==> !device_before(#[trigger] s[j], #[trigger] s[i])
}

fn device_first(a: &DeviceInfo, b: &DeviceInfo) -> (r: bool)
    ensures
        r == device_before(*a, *b),
{
    (a.is_local && !b.is_local) || (a.is_local == b.is_local && a.online && !b.online) || (
    a.is_local == b.is_local && a.online == b.online && str_lt(a.name.as_str(), b.name.as_str()))
        || (a.is_local == b.is_local && a.online == b.online && str_eq(
        a.name.as_str(),
        b.name.as_str(),
    ) && str_lt(a.ip.as_str(), b.ip.as_str()))
}

proof fn lemma_device_order(a: DeviceInfo, b: DeviceInfo, c: DeviceInfo)
    ensures
        !device_before(a, a),
        device_before(a, b) && device_before(b, c) ==> device_before(a, c),
{
    crate::text::lemma_seq_lt_irreflexive(a.name@);
    crate::text::lemma_seq_lt_irreflexive(a.ip@);
    if device_before(a, b) && device_before(b, c) && a.is_local == b.is_local && b.is_local
        == c.is_local && a.online == b.online && b.online == c.online {
        if seq_lt(a.name@, b.name@) && seq_lt(b.name@, c.name@) {
            crate::text::lemma_seq_lt_transitive(a.name@, b.name@, c.name@);
        }
        if a.name@ == b.name@ && b.name@ == c.name@ && seq_lt(a.ip@, b.ip@) && seq_lt(
            b.ip@,
            c.ip@,
        ) {
            crate::text::lemma_seq_lt_transitive(a.ip@, b.ip@, c.ip@);
        }
    }
}

/// Devices of the same listing rank: both this device or both not, both
/// online or both not, with the same name and the same address.
pub open spec fn device_same_rank(a: DeviceInfo, b: DeviceInfo) -> bool {
    a.is_local == b.is_local && a.online == b.online && a.name@ == b.name@ && a.ip@ == b.ip@
}

/// The devices of `devices` of the same listing rank as `k`, in their order.
pub open spec fn device_rank_group(devices: Seq<DeviceInfo>, k: DeviceInfo) -> Seq<DeviceInfo> {
    devices.filter(|d: DeviceInfo| device_same_rank(d, k))
}

/// Sorts devices into listing order, keeping devices of the same rank in the
/// order given.
pub fn sort_devices(devices: Vec<DeviceInfo>) -> (r: Vec<DeviceInfo>)
    ensures
        r@.to_multiset() == devices@.to_multiset(),
        devices_sorted(r@),
        forall|k: DeviceInfo| #[trigger] device_rank_group(r@, k) == device_rank_group(devices@, k),
{
    let ghost input = devices@;
    let mut rest = devices;
    let mut out: Vec<DeviceInfo> = Vec::new();
    let ghost mut i: int = 0;
    assert(rest@ =~= input.skip(0));
    assert(out@ =~= input.take(0));
    while rest.len() > 0
        invariant
            0 <= i <= input.len(),
            rest@ == input.skip(i),
            out@.to_multiset() == input.take(i).to_multiset(),
            devices_sorted(out@),
            forall|k: DeviceInfo| #[trigger] device_rank_group(out@, k) == device_rank_group(input.take(i), k),
        decreases rest@.len(),
    {
        let item = rest.remove(0);
        let ghost x = item;
        assert(x == input[i]);
        let ghost cur = out@;
        let mut p: usize = 0;
        while p < out.len() && !device_first(&item, &out[p])
            invariant
                p <= out@.len(),
                cur == out@,
                x == item,
                forall|k: int| 0 <= k < p ==> !device_before(x, #[trigger] cur[k]),
            decreases out.len() - p,
        {
            p = p + 1;
        }
        out.insert(p, item);
        let ghost next = out@;
        assert(next =~= cur.insert(p as int, x));
        proof {
            vstd::seq_lib::to_multiset_insert(cur, p as int, x);
            vstd::seq_lib::to_multiset_build(input.take(i), x);
            assert(input.take(i + 1) =~= input.take(i).push(x));
            assert(rest@ =~= input.skip(i + 1));
            assert forall|j: int| p <= j < cur.len() implies !device_same_rank(#[trigger] cur[j], x) by {
                assert(device_before(x, cur[p as int]));
                if device_same_rank(cur[j], x) {
                    lemma_device_order(x, x, x);
                    if j > p {
                        assert(!device_before(cur[j], cur[p as int]));
                    }
                }
            }
            assert forall|k: DeviceInfo| #[trigger] device_rank_group(next, k) == device_rank_group(input.take(i + 1), k) by {
                let pred = |d: DeviceInfo| device_same_rank(d, k);
                assert forall|j: int| pred(x) && p <= j < cur.len() implies !pred(#[trigger] cur[j]) by {
                    assert(!device_same_rank(cur[j], x));
                }
                lemma_filter_insert(cur, p as int, x, pred);
                input.take(i).lemma_filter_push(x, pred);
                assert(device_rank_group(cur, k) == cur.filter(pred));
                assert(device_rank_group(cur, k) == device_rank_group(input.take(i), k));
                assert(next.filter(pred) == cur.insert(p as int, x).filter(pred));
                assert(input.take(i + 1).filter(pred) == input.take(i).push(x).filter(pred));
            }
            assert forall|a: int, b: int| 0 <= a < b < next.len() implies !device_before(
                #[trigger] next[b],
                #[trigger] next[a],
            ) by {
                if a < p && b == p {
                    assert(next[a] == cur[a]);
                } else if a == p && b > p {
                    assert(next[b] == cur[b - 1]);
                    if device_before(cur[b - 1], x) {
                        lemma_device_order(cur[b - 1], x, cur[p as int]);
                        lemma_device_order(cur[p as int], cur[b - 1], cur[b - 1]);
                        if b - 1 > p {
                            assert(!device_before(cur[b - 1], cur[p as int]));
                        }
                    }
                } else if a < p && b > p {
                    assert(next[a] == cur[a]);
                    assert(next[b] == cur[b - 1]);
                } else if a > p {
                    assert(next[a] == cur[a - 1]);
                    assert(next[b] == cur[b - 1]);
                } else {
                    assert(next[a] == cur[a]);
                    assert(next[b] == cur[b]);
                }
            }
            i = i + 1;
        }
    }
    assert(input.take(i) =~= input);
    out
}

// ---------------------------------------------------------------------------
// Addresses to probe.
// ---------------------------------------------------------------------------

/// An address to probe and how it came to be probed.
#[derive(Debug)]
pub struct Candidate {
    pub ip: String,
    pub source: CandidateSource,
}

/// The addresses a device probes, each once.
pub struct CandidateTable {
    entries: Vec<Candidate>,
}

/// The addresses of a table's entries.
pub open spec fn candidate_ips(entries: Seq<(Seq<char>, CandidateSource)>) -> Seq<Seq<char>> {
    entries.map_values(|e: (Seq<char>, CandidateSource)| e.0)
}

/// How `ip` came to be probed, if it is.
pub open spec fn source_of(entries: Seq<(Seq<char>, CandidateSource)>, ip: Seq<char>) -> Option<
    CandidateSource,
> {
    let i = first_index(candidate_ips(entries), ip);
    if i >= 0 {
        Some(entries[i].1)
    } else {
        None
    }
}

/// The merged source.
pub open spec fn merged(a: CandidateSource, b: CandidateSource) -> CandidateSource {
    if a == CandidateSource::Manual || b == CandidateSource::Manual {
        CandidateSource::Manual
    } else {
        CandidateSource::Introduced
    }
}

/// The table once `ip` is to be probed for `source`: a known address keeps
/// its place, its source merged.
pub open spec fn remembered(
    entries: Seq<(Seq<char>, CandidateSource)>,
    ip: Seq<char>,
    source: CandidateSource,
) -> Seq<(Seq<char>, CandidateSource)> {
    let i = first_index(candidate_ips(entries), ip);
    if i >= 0 {
        entries.update(i, (ip, merged(entries[i].1, source)))
    } else {
        entries.push((ip, source))
    }
}

/// The table without `ip`.
pub open spec fn consumed(entries: Seq<(Seq<char>, CandidateSource)>, ip: Seq<char>) -> Seq<
    (Seq<char>, CandidateSource),
> {
    entries.filter(|e: (Seq<char>, CandidateSource)| e.0 != ip)
}

impl View for CandidateTable {
    type V = Seq<(Seq<char>, CandidateSource)>;

    closed spec fn view(&self) -> Seq<(Seq<char>, CandidateSource)> {
        self.entries@.map_values(|c: Candidate| (c.ip@, c.source))
    }
}

impl CandidateTable {
    pub fn new() -> (r: CandidateTable)
        ensures
            r@.len() == 0,
    {
        let r = CandidateTable { entries: Vec::new() };
        assert(r@ =~= Seq::<(Seq<char>, CandidateSource)>::empty());
        r
    }

    fn position(&self, ip: &str) -> (r: Option<usize>)
        ensures
            match r {
                Some(i) => first_index(candidate_ips(self@), ip@) == i && i < self@.len(),
                None => first_index(candidate_ips(self@), ip@) == -1,
            },
    {
        let ghost ids = candidate_ips(self@);
        let mut i: usize = 0;
        while i < self.entries.len()
            invariant
                i <= self.entries@.len(),
                ids == candidate_ips(self@),
                self@.len() == self.entries@.len(),
                forall|j: int| 0 <= j < i ==> #[trigger] ids[j] != ip@,
            decreases self.entries.len() - i,
        {
            assert(ids[i as int] == self.entries@[i as int].ip@);
            if str_eq(self.entries[i].ip.as_str(), ip) {
                proof {
                    lemma_first_index(ids, ip@, i as int);
                }
                return Some(i);
            }
            i = i + 1;
        }
        assert(!exists|k: int| is_first(ids, ip@, k));
        None
    }

    /// Notes that `ip` is to be probed for `source`.
    pub fn remember(&mut self, ip: &str, source: CandidateSource)
        ensures
            final(self)@ == remembered(old(self)@, ip@, source),
    {
        let ghost model = self@;
        match self.position(ip) {
            Some(i) => {
                let merged_source = self.entries[i].source.merge(source);
                self.entries.set(i, Candidate { ip: ip.to_string(), source: merged_source });
                assert(self@ =~= model.update(i as int, (ip@, merged_source)));
            },
            None => {
                self.entries.push(Candidate { ip: ip.to_string(), source });
                assert(self@ =~= model.push((ip@, source)));
            },
        }
    }

    /// Drops `ip` once its device answered.
    pub fn consume(&mut self, ip: &str)
        ensures
            final(self)@ == consumed(old(self)@, ip@),
    {
        let ghost model = self@;
        let ghost pred = |e: (Seq<char>, CandidateSource)| e.0 != ip@;
        let mut kept: Vec<Candidate> = Vec::new();
        let mut i: usize = 0;
        while i < self.entries.len()
            invariant
                i <= self.entries@.len(),
                model == self@,
                model.len() == self.entries@.len(),
                pred == (|e: (Seq<char>, CandidateSource)| e.0 != ip@),
                kept@.map_values(|c: Candidate| (c.ip@, c.source)) == model.take(i as int).filter(
                    pred,
                ),
            decreases self.entries.len() - i,
        {
            assert(model.take(i + 1).drop_last() =~= model.take(i as int));
            let e = &self.entries[i];
            assert(model[i as int] == (e.ip@, e.source));
            assert(model.take(i + 1).last() == (e.ip@, e.source));
            let keep = !str_eq(e.ip.as_str(), ip);
            reveal_with_fuel(Seq::<_>::filter, 1);
            assert(pred((e.ip@, e.source)) == keep);
            if keep {
                let ghost before = kept@.map_values(|c: Candidate| (c.ip@, c.source));
                kept.push(Candidate { ip: e.ip.clone(), source: e.source });
                assert(kept@.map_values(|c: Candidate| (c.ip@, c.source)) =~= before.push(
                    (e.ip@, e.source),
                ));
            }
            i = i + 1;
        }
        assert(model.take(i as int) =~= model);
        self.entries = kept;
    }

    /// How `ip` came to be probed, if it is.
    pub fn source_for(&self, ip: &str) -> (r: Option<CandidateSource>)
        ensures
            r == source_of(self@, ip@),
    {
        match self.position(ip) {
            Some(i) => Some(self.entries[i].source),
            None => None,
        }
    }

    /// The addresses to probe, with their sources.
    pub fn targets(&self) -> (r: Vec<(String, CandidateSource)>)
        ensures
            r@.map_values(|t: (String, CandidateSource)| (t.0@, t.1)) == self@,
    {
        let mut out: Vec<(String, CandidateSource)> = Vec::new();
        let mut i: usize = 0;
        while i < self.entries.len()
            invariant
                i <= self.entries@.len(),
                self@.len() == self.entries@.len(),
                out@.map_values(|t: (String, CandidateSource)| (t.0@, t.1)) == self@.take(i as int),
            decreases self.entries.len() - i,
        {
            let ghost before = out@.map_values(|t: (String, CandidateSource)| (t.0@, t.1));
            out.push((self.entries[i].ip.clone(), self.entries[i].source));
            assert(self@[i as int] == (self.entries@[i as int].ip@, self.entries@[i as int].source));
            assert(out@.map_values(|t: (String, CandidateSource)| (t.0@, t.1)) =~= before.push(
                self@[i as int],
            ));
            assert(self@.take(i + 1) =~= self@.take(i as int).push(self@[i as int]));
            i = i + 1;
        }
        assert(self@.take(i as int) =~= self@);
        out
    }
}

} // verus!
