//! Registry of CLI host machines ("devices"), identified by host name. The
//! registry is global: every dashboard user sees every device.

use vstd::prelude::*;

use crate::clock::{rfc3339_text, UtcTime};
use crate::ids::{is_uuid_v4_text, new_uuid};
use crate::text::same_text;
use crate::tunnel_registry::{count_on_host, ActiveTunnels};

verus! {

/// Stored device record.
#[derive(Debug, Clone)]
pub struct DeviceRecord {
    pub id: String,
    pub hostname: String,
    pub last_seen_at: UtcTime,
}

/// Public device view returned by `GET /api/devices`.
#[derive(Debug, Clone)]
pub struct DeviceInfo {
    pub id: String,
    pub hostname: String,
    /// RFC3339 last-seen time.
    pub last_seen_at: String,
    /// Active tunnels for this device right now.
    pub tunnel_count: usize,
}

/// Position of the first device of `s` with host name `host`.
pub open spec fn first_with_host(s: Seq<DeviceRecord>, host: Seq<char>) -> Option<int> {
    if exists|i: int|
        0 <= i < s.len() && #[trigger] s[i].hostname@ == host && forall|j: int|
            0 <= j < i ==> s[j].hostname@ != host {
        Some(
            choose|i: int|
                0 <= i < s.len() && #[trigger] s[i].hostname@ == host && forall|j: int|
                    0 <= j < i ==> s[j].hostname@ != host,
        )
    } else {
        None
    }
}

/// `after` is `before` with the device `host` seen at `now`: a known device
/// gets its last-seen time refreshed, an unknown one joins at the end with a
/// fresh id.
pub open spec fn upserted(before: Seq<DeviceRecord>, host: Seq<char>, now: UtcTime, after: Seq<DeviceRecord>) -> bool {
    match first_with_host(before, host) {
        Some(i) => after == before.update(i, DeviceRecord { last_seen_at: now, ..before[i] }),
        None => {
            &&& after.len() == before.len() + 1
            &&& after.subrange(0, before.len() as int) == before
            &&& after.last().hostname@ == host
            &&& after.last().last_seen_at == now
            &&& after.last().id@.len() == 36
            &&& is_uuid_v4_text(after.last().id@)
        },
    }
}

/// Known devices, in the order they first appeared.
pub struct Devices {
    list: Vec<DeviceRecord>,
}

impl Devices {
    /// The devices, oldest first.
    pub closed spec fn records(&self) -> Seq<DeviceRecord> {
        self.list@
    }

    /// No devices.
    pub fn new() -> (d: Self)
        ensures
            d.records() == Seq::<DeviceRecord>::empty(),
    {
        Devices { list: Vec::new() }
    }

    /// Inserts or refreshes the device `hostname`, marking it seen at `now`.
    /// A new device gets a fresh id.
    pub fn upsert(&mut self, hostname: &str, now: UtcTime)
        ensures
            upserted(old(self).records(), hostname@, now, final(self).records()),
    {
        let mut i: usize = 0;
        while i < self.list.len()
            invariant
                i <= self.list@.len(),
                self.list@ == old(self).list@,
                forall|j: int| 0 <= j < i ==> self.list@[j].hostname@ != hostname@,
            decreases self.list@.len() - i,
        {
            if same_text(self.list[i].hostname.as_str(), hostname) {
                let ghost old_list = self.list@;
                let ghost k = choose|k: int|
                    0 <= k < old_list.len() && #[trigger] old_list[k].hostname@ == hostname@ && forall|
                        j: int,
                    | 0 <= j < k ==> old_list[j].hostname@ != hostname@;
                assert(old_list[i as int].hostname@ == hostname@);
                assert(k == i) by {
                    if k < i {
                    } else if k > i {
                        assert(old_list[i as int].hostname@ != hostname@);
                    }
                }
                let record = DeviceRecord {
                    id: self.list[i].id.clone(),
                    hostname: self.list[i].hostname.clone(),
                    last_seen_at: now,
                };
                self.list.set(i, record);
                assert(self.list@ =~= old_list.update(
                    i as int,
                    DeviceRecord { last_seen_at: now, ..old_list[i as int] },
                ));
                return ;
            }
            i = i + 1;
        }
        let ghost old_list = self.list@;
        self.list.push(DeviceRecord { id: new_uuid(), hostname: String::from_str(hostname), last_seen_at: now });
        assert(self.list@.subrange(0, old_list.len() as int) =~= old_list);
    }

    /// Each device with its count of open tunnels from that host, in the order
    /// the devices first appeared.
    pub fn rows(&self, tunnels: &ActiveTunnels) -> (r: Vec<DeviceInfo>)
        ensures
            r@.len() == self.records().len(),
            forall|i: int|
                0 <= i < r@.len() ==> {
                    let d = self.records()[i];
                    &&& (#[trigger] r@[i]).id == d.id
                    &&& r@[i].hostname == d.hostname
                    &&& rfc3339_text(d.last_seen_at.spec_secs(), d.last_seen_at.spec_nanos()) == Some(
                        r@[i].last_seen_at@,
                    )
                    &&& r@[i].tunnel_count == count_on_host(tunnels.entries(), d.hostname@)
                },
    {
        let mut out: Vec<DeviceInfo> = Vec::new();
        let mut i: usize = 0;
        while i < self.list.len()
            invariant
                i <= self.list@.len(),
                out@.len() == i,
                forall|j: int|
                    0 <= j < i ==> {
                        let d = self.list@[j];
                        &&& (#[trigger] out@[j]).id == d.id
                        &&& out@[j].hostname == d.hostname
                        &&& rfc3339_text(d.last_seen_at.spec_secs(), d.last_seen_at.spec_nanos())
                            == Some(out@[j].last_seen_at@)
                        &&& out@[j].tunnel_count == count_on_host(tunnels.entries(), d.hostname@)
                    },
            decreases self.list@.len() - i,
        {
            let d = &self.list[i];
            out.push(
                DeviceInfo {
                    id: d.id.clone(),
                    hostname: d.hostname.clone(),
                    last_seen_at: d.last_seen_at.to_rfc3339(),
                    tunnel_count: tunnels.count_on_host(d.hostname.as_str()),
                },
            );
            i = i + 1;
        }
        out
    }
}

/// A device with host name `host` at position `k` of `s` makes
/// `first_with_host` find one.
proof fn lemma_host_found(s: Seq<DeviceRecord>, host: Seq<char>, k: int)
    requires
        0 <= k < s.len(),
        s[k].hostname@ == host,
    ensures
        first_with_host(s, host) is Some,
    decreases k,
{
    if forall|j: int| 0 <= j < k ==> s[j].hostname@ != host {
        assert(0 <= k < s.len() && s[k].hostname@ == host && forall|j: int| 0 <= j < k ==> s[j].hostname@ != host);
    } else {
        let j = choose|j: int| 0 <= j < k && s[j].hostname@ == host;
        lemma_host_found(s, host, j);
    }
}

/// A host seen twice is listed once: the second sighting refreshes the device
/// that the first one recorded instead of adding another.
pub proof fn law_host_listed_once(
    a: Seq<DeviceRecord>,
    host: Seq<char>,
    first_seen: UtcTime,
    b: Seq<DeviceRecord>,
    seen_again: UtcTime,
    c: Seq<DeviceRecord>,
)
    requires
        upserted(a, host, first_seen, b),
        upserted(b, host, seen_again, c),
    ensures
        c.len() == b.len(),
        b.len() <= a.len() + 1,
{
    match first_with_host(a, host) {
        Some(i) => {
            assert(b[i].hostname == a[i].hostname);
            lemma_host_found(b, host, i);
        },
        None => {
            lemma_host_found(b, host, b.len() - 1);
        },
    }
}

} // verus!
