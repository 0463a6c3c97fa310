//! The CLI's registry of background tunnels, one JSON record per tunnel
//! under `~/.borehole/tunnels/<id>.json`. Reading and writing the files
//! happens outside this crate; here are the records, their paths, their
//! order and how `borehole list` shows them.

use vstd::prelude::*;

use crate::ids::{is_lower_hex, new_simple_id};
use crate::proto::{protocol_name, protocol_text, Protocol};
use crate::text::{join_path, joined, push_char, push_decimal, decimal, rfind_char, find_last, same_text};

verus! {

broadcast use vstd::seq_lib::group_to_multiset_ensures;

/// Lifecycle state of a background tunnel that has no port yet.
pub const STATE_STARTING: &'static str = "starting";

/// Lifecycle state of a background tunnel that the server registered.
pub const STATE_ACTIVE: &'static str = "active";

/// Persisted description of a background tunnel.
#[derive(Debug, Clone)]
pub struct TunnelRecord {
    /// Short unique id (also the JSON file stem).
    pub id: String,
    /// OS process id of the worker serving this tunnel (0 until it starts).
    pub pid: u32,
    /// "tcp" or "http".
    pub protocol: String,
    /// Local port being exposed.
    pub local_port: u16,
    /// Remote port assigned by the server (`None` until registered).
    pub remote_port: Option<u16>,
    /// Preferred edge node, if any.
    pub node: Option<String>,
    /// Lifecycle state: `STATE_STARTING` or `STATE_ACTIVE`.
    pub state: String,
}

impl TunnelRecord {
    /// The record a detaching `borehole start` writes before the worker runs.
    pub fn starting(
        id: String,
        protocol: Protocol,
        local_port: u16,
        remote_port: Option<u16>,
        node: Option<String>,
    ) -> (r: Self)
        ensures
            r.id == id,
            r.pid == 0,
            r.protocol@ == protocol_text(protocol),
            r.local_port == local_port,
            r.remote_port == remote_port,
            r.node == node,
            r.state@ == STATE_STARTING@,
    {
        TunnelRecord {
            id,
            pid: 0,
            protocol: String::from_str(protocol_name(protocol)),
            local_port,
            remote_port,
            node,
            state: String::from_str(STATE_STARTING),
        }
    }

    /// The worker took the tunnel over: its pid, still starting.
    pub fn begin_worker(&mut self, pid: u32)
        ensures
            final(self).pid == pid,
            final(self).state@ == STATE_STARTING@,
            final(self).id == old(self).id,
            final(self).protocol == old(self).protocol,
            final(self).local_port == old(self).local_port,
            final(self).remote_port == old(self).remote_port,
            final(self).node == old(self).node,
    {
        self.pid = pid;
        self.state = String::from_str(STATE_STARTING);
    }

    /// The server assigned `port`: the tunnel is active.
    pub fn mark_active(&mut self, port: u16)
        ensures
            final(self).remote_port == Some(port),
            final(self).state@ == STATE_ACTIVE@,
            final(self).id == old(self).id,
            final(self).pid == old(self).pid,
            final(self).protocol == old(self).protocol,
            final(self).local_port == old(self).local_port,
            final(self).node == old(self).node,
    {
        self.remote_port = Some(port);
        self.state = String::from_str(STATE_ACTIVE);
    }
}

/// A fresh id for a background tunnel: the first 8 digits of a random UUID.
pub fn new_record_id() -> (r: String)
    ensures
        r@.len() == 8,
        forall|i: int| 0 <= i < 8 ==> is_lower_hex(#[trigger] r@[i]),
{
    let simple = new_simple_id();
    let id = String::from_str(simple.as_str().substring_char(0, 8));
    assert forall|i: int| 0 <= i < 8 implies is_lower_hex(#[trigger] id@[i]) by {
        assert(id@[i] == simple@[i]);
    }
    id
}

/// `~/.borehole/tunnels` for the home directory `home`.
pub open spec fn tunnels_dir_of(home: Seq<char>) -> Seq<char> {
    joined(joined(home, seq!['.', 'b', 'o', 'r', 'e', 'h', 'o', 'l', 'e']), seq!['t', 'u', 'n', 'n', 'e', 'l', 's'])
}

/// The directory of the background tunnel records under `home`.
pub fn tunnels_dir(home: &str) -> (r: String)
    ensures
        r@ == tunnels_dir_of(home@),
{
    proof {
        reveal_strlit(".borehole");
        reveal_strlit("tunnels");
    }
    assert(".borehole"@ =~= seq!['.', 'b', 'o', 'r', 'e', 'h', 'o', 'l', 'e']);
    assert("tunnels"@ =~= seq!['t', 'u', 'n', 'n', 'e', 'l', 's']);
    let base = join_path(home, ".borehole");
    join_path(base.as_str(), "tunnels")
}

/// `<dir>/<id>.json`.
pub fn record_path(dir: &str, id: &str) -> (r: String)
    ensures
        r@ == joined(dir@, id@ + seq!['.', 'j', 's', 'o', 'n']),
{
    proof {
        reveal_strlit(".json");
    }
    let mut name = String::from_str(id);
    name.append(".json");
    assert(name@ =~= id@ + seq!['.', 'j', 's', 'o', 'n']);
    join_path(dir, name.as_str())
}

/// The extension of a file name, as `Path::extension` gives it: what follows
/// the last `.`, unless the name has no `.` or its only `.` leads it.
pub open spec fn extension(name: Seq<char>) -> Option<Seq<char>> {
    match find_last(name, '.') {
        Some(i) if i > 0 => Some(name.subrange(i + 1, name.len() as int)),
        _ => None,
    }
}

/// Whether a directory entry named `name` is a tunnel record (`.json`).
pub fn is_record_file(name: &str) -> (r: bool)
    ensures
        r == (extension(name@) == Some(seq!['j', 's', 'o', 'n'])),
{
    proof {
        reveal_strlit("json");
    }
    assert("json"@ =~= seq!['j', 's', 'o', 'n']);
    let n = name.unicode_len();
    match rfind_char(name, '.') {
        Some(i) => {
            if i > 0 {
                same_text(name.substring_char(i + 1, n), "json")
            } else {
                false
            }
        },
        None => false,
    }
}

/// Lexicographic order of texts by code point, as `String`'s order is.
pub open spec fn text_le(a: Seq<char>, b: Seq<char>) -> bool
    decreases a.len(),
{
    if a.len() == 0 {
        true
    } else if b.len() == 0 {
        false
    } else if a[0] == b[0] {
        text_le(a.subrange(1, a.len() as int), b.subrange(1, b.len() as int))
    } else {
        a[0] < b[0]
    }
}

pub proof fn lemma_text_le_total(a: Seq<char>, b: Seq<char>)
    ensures
        text_le(a, b) || text_le(b, a),
    decreases a.len(),
{
    if a.len() > 0 && b.len() > 0 && a[0] == b[0] {
        lemma_text_le_total(a.subrange(1, a.len() as int), b.subrange(1, b.len() as int));
    }
}

pub proof fn lemma_text_le_transitive(a: Seq<char>, b: Seq<char>, c: Seq<char>)
    requires
        text_le(a, b),
        text_le(b, c),
    ensures
        text_le(a, c),
    decreases a.len(),
{
    if a.len() > 0 && b.len() > 0 && c.len() > 0 && a[0] == b[0] && b[0] == c[0] {
        lemma_text_le_transitive(
            a.subrange(1, a.len() as int),
            b.subrange(1, b.len() as int),
            c.subrange(1, c.len() as int),
        );
    }
}

/// Whether `a` sorts before or with `b`.
pub fn text_less_eq(a: &str, b: &str) -> (r: bool)
    ensures
        r == text_le(a@, b@),
{
    let n = a.unicode_len();
    let m = b.unicode_len();
    let mut i: usize = 0;
    assert(a@.subrange(0, n as int) =~= a@);
    assert(b@.subrange(0, m as int) =~= b@);
    while i < n && i < m && a.get_char(i) == b.get_char(i)
        invariant
            n == a@.len(),
            m == b@.len(),
            i <= n,
            i <= m,
            text_le(a@, b@) == text_le(a@.subrange(i as int, n as int), b@.subrange(i as int, m as int)),
        decreases n - i,
    {
        assert(a@.subrange(i as int, n as int).subrange(1, n - i) =~= a@.subrange(i + 1, n as int));
        assert(b@.subrange(i as int, m as int).subrange(1, m - i) =~= b@.subrange(i + 1, m as int));
        i = i + 1;
    }
    if i == n {
        return true;
    }
    if i == m {
        return false;
    }
    let x = a.get_char(i);
    let y = b.get_char(i);
    assert(a@.subrange(i as int, n as int)[0] == x);
    assert(b@.subrange(i as int, m as int)[0] == y);
    x < y
}

/// Records in order of their ids.
pub open spec fn sorted_by_id(s: Seq<TunnelRecord>) -> bool {
    forall|i: int, j: int| 0 <= i < j < s.len() ==> text_le(#[trigger] s[i].id@, #[trigger] s[j].id@)
}

/// `output` is `input` rearranged by `idx` (`output[k]` is `input[idx[k]]`,
/// each input record used once), with records of equal ids left in their
/// input order.
pub open spec fn arranged_by(input: Seq<TunnelRecord>, output: Seq<TunnelRecord>, idx: Seq<int>) -> bool {
    &&& idx.len() == output.len()
    &&& output.len() == input.len()
    &&& forall|k: int| 0 <= k < idx.len() ==> 0 <= #[trigger] idx[k] < input.len() && output[k] == input[idx[k]]
    &&& forall|k1: int, k2: int| 0 <= k1 < k2 < idx.len() ==> #[trigger] idx[k1] != #[trigger] idx[k2]
    &&& forall|k1: int, k2: int|
        0 <= k1 < k2 < idx.len() && (#[trigger] output[k1]).id@ == (#[trigger] output[k2]).id@ ==> idx[k1]
            < idx[k2]
}

pub proof fn lemma_text_le_reflexive(a: Seq<char>)
    ensures
        text_le(a, a),
    decreases a.len(),
{
    if a.len() > 0 {
        lemma_text_le_reflexive(a.subrange(1, a.len() as int));
    }
}

/// The records ordered by id, a stable sort (records with equal ids keep
/// their order), as `borehole list` shows them.
pub fn sort_by_id(records: Vec<TunnelRecord>) -> (r: Vec<TunnelRecord>)
    ensures
        r@.to_multiset() == records@.to_multiset(),
        sorted_by_id(r@),
        exists|idx: Seq<int>| arranged_by(records@, r@, idx),
{
    let mut input = records;
    let ghost initial = input@;
    let ghost n = initial.len();
    let ghost mut idx: Seq<int> = Seq::empty();
    let mut out: Vec<TunnelRecord> = Vec::new();
    while input.len() > 0
        invariant
            out@.to_multiset().add(input@.to_multiset()) == initial.to_multiset(),
            sorted_by_id(out@),
            n == initial.len(),
            out@.len() + input@.len() == n,
            input@ == initial.subrange(out@.len() as int, n as int),
            idx.len() == out@.len(),
            forall|k: int| 0 <= k < idx.len() ==> 0 <= #[trigger] idx[k] < out@.len() && out@[k] == initial[idx[k]],
            forall|k1: int, k2: int| 0 <= k1 < k2 < idx.len() ==> #[trigger] idx[k1] != #[trigger] idx[k2],
            forall|k1: int, k2: int|
                0 <= k1 < k2 < idx.len() && (#[trigger] out@[k1]).id@ == (#[trigger] out@[k2]).id@ ==> idx[k1]
                    < idx[k2],
        decreases input@.len(),
    {
        let ghost before_in = input@;
        let ghost t = out@.len() as int;
        let rec = input.remove(0);
        assert(rec == initial[t]);
        assert(input@ =~= initial.subrange(t + 1, n as int));
        assert(before_in.to_multiset() == input@.to_multiset().insert(rec)) by {
            assert(before_in =~= input@.insert(0, rec));
        }
        let mut k: usize = 0;
        while k < out.len() && text_less_eq(out[k].id.as_str(), rec.id.as_str())
            invariant
                k <= out@.len(),
                forall|i: int| 0 <= i < k ==> text_le(#[trigger] out@[i].id@, rec.id@),
            decreases out@.len() - k,
        {
            k = k + 1;
        }
        let ghost before_out = out@;
        let ghost before_idx = idx;
        proof {
            if k < before_out.len() {
                lemma_text_le_total(before_out[k as int].id@, rec.id@);
            }
        }
        out.insert(k, rec);
        proof {
            idx = before_idx.insert(k as int, t);
        }
        assert(out@ =~= before_out.insert(k as int, rec));
        assert(sorted_by_id(out@)) by {
            assert forall|i: int, j: int| 0 <= i < j < out@.len() implies text_le(
                #[trigger] out@[i].id@,
                #[trigger] out@[j].id@,
            ) by {
                if j < k {
                    assert(out@[i] == before_out[i] && out@[j] == before_out[j]);
                } else if j == k {
                    assert(out@[i] == before_out[i]);
                } else if i == k {
                    assert(out@[j] == before_out[j - 1]);
                    if j - 1 > k {
                        lemma_text_le_transitive(rec.id@, before_out[k as int].id@, before_out[j - 1].id@);
                    }
                } else if i < k {
                    assert(out@[i] == before_out[i] && out@[j] == before_out[j - 1]);
                } else {
                    assert(out@[i] == before_out[i - 1] && out@[j] == before_out[j - 1]);
                }
            }
        }
        assert forall|k1: int| 0 <= k1 < idx.len() implies 0 <= #[trigger] idx[k1] < out@.len() && out@[k1]
            == initial[idx[k1]] by {
            if k1 < k {
                assert(idx[k1] == before_idx[k1]);
            } else if k1 > k {
                assert(idx[k1] == before_idx[k1 - 1]);
            }
        }
        assert forall|k1: int, k2: int| 0 <= k1 < k2 < idx.len() implies #[trigger] idx[k1] != #[trigger] idx[k2] by {
            if k1 == k || k2 == k {
                if k1 != k {
                    let o = if k1 < k { k1 } else { k1 - 1 };
                    assert(idx[k1] == before_idx[o]);
                }
                if k2 != k {
                    let o = if k2 < k { k2 } else { k2 - 1 };
                    assert(idx[k2] == before_idx[o]);
                }
            } else {
                let o1 = if k1 < k { k1 } else { k1 - 1 };
                let o2 = if k2 < k { k2 } else { k2 - 1 };
                assert(idx[k1] == before_idx[o1] && idx[k2] == before_idx[o2]);
            }
        }
        assert forall|k1: int, k2: int|
            0 <= k1 < k2 < idx.len() && (#[trigger] out@[k1]).id@ == (#[trigger] out@[k2]).id@ implies idx[k1]
                < idx[k2] by {
            if k1 == k {
                // Every record after the insertion point sorts strictly after `rec`.
                let j = k2 - 1;
                assert(out@[k2] == before_out[j]);
                assert(k < before_out.len());
                assert(!text_le(before_out[k as int].id@, rec.id@));
                if j > k {
                    assert(text_le(before_out[k as int].id@, before_out[j].id@));
                }
                lemma_text_le_reflexive(rec.id@);
                assert(false);
            } else if k2 == k {
                assert(idx[k1] == before_idx[k1]);
            } else {
                let o1 = if k1 < k { k1 } else { k1 - 1 };
                let o2 = if k2 < k { k2 } else { k2 - 1 };
                assert(idx[k1] == before_idx[o1] && idx[k2] == before_idx[o2]);
                assert(out@[k1] == before_out[o1] && out@[k2] == before_out[o2]);
            }
        }
    }
    assert(input@.to_multiset() =~= vstd::multiset::Multiset::empty());
    assert(out@.to_multiset() =~= initial.to_multiset());
    assert(arranged_by(initial, out@, idx));
    out
}

/// `s` padded with spaces to at least `width` characters, as `{:<width}` writes it.
pub open spec fn padded(s: Seq<char>, width: nat) -> Seq<char> {
    if s.len() < width {
        s + Seq::new((width - s.len()) as nat, |i: int| ' ')
    } else {
        s
    }
}

/// Appends `s` left-aligned in a field of `width` characters.
fn push_padded(out: &mut String, s: &str, width: usize)
    ensures
        final(out)@ == old(out)@ + padded(s@, width as nat),
{
    out.append(s);
    let n = s.unicode_len();
    let mut k = n;
    while k < width
        invariant
            n == s@.len(),
            n <= k <= width || (k == n && n >= width),
            out@ == old(out)@ + s@ + Seq::new((k - n) as nat, |i: int| ' '),
        decreases width - k,
    {
        push_char(out, ' ');
        assert(Seq::new((k - n) as nat, |i: int| ' ').push(' ') =~= Seq::new((k + 1 - n) as nat, |i: int| ' '));
        k = k + 1;
    }
    assert(out@ =~= old(out)@ + padded(s@, width as nat));
}

/// The header of the `borehole list` table.
pub open spec fn list_header_text() -> Seq<char> {
    padded("ID"@, 11) + seq![' '] + padded("PROTO"@, 6) + seq![' '] + padded("LOCAL"@, 8) + seq![' ']
        + padded("REMOTO"@, 8) + seq![' '] + "ESTADO"@
}

/// The header line of the `borehole list` table.
pub fn list_header() -> (r: String)
    ensures
        r@ == list_header_text(),
{
    proof {
        reveal_strlit(" ");
    }
    let mut out = String::new();
    push_padded(&mut out, "ID", 11);
    out.append(" ");
    push_padded(&mut out, "PROTO", 6);
    out.append(" ");
    push_padded(&mut out, "LOCAL", 8);
    out.append(" ");
    push_padded(&mut out, "REMOTO", 8);
    out.append(" ");
    out.append("ESTADO");
    assert(out@ =~= list_header_text());
    out
}

/// The row of `r` in the `borehole list` table.
pub open spec fn list_row_text(r: TunnelRecord) -> Seq<char> {
    padded(r.id@, 11) + seq![' '] + padded(r.protocol@, 6) + seq![' '] + padded(
        seq![':'] + decimal(r.local_port as nat),
        8,
    ) + seq![' '] + padded(
        match r.remote_port {
            Some(p) => seq![':'] + decimal(p as nat),
            None => seq!['-'],
        },
        8,
    ) + seq![' '] + r.state@
}

/// One line of the `borehole list` table.
pub fn list_row(r: &TunnelRecord) -> (line: String)
    ensures
        line@ == list_row_text(*r),
{
    proof {
        reveal_strlit(" ");
        reveal_strlit("-");
    }
    let mut local = String::new();
    push_char(&mut local, ':');
    push_decimal(&mut local, r.local_port as u64);
    let mut remote = String::new();
    match r.remote_port {
        Some(p) => {
            push_char(&mut remote, ':');
            push_decimal(&mut remote, p as u64);
        },
        None => {
            push_char(&mut remote, '-');
        },
    }
    let mut out = String::new();
    push_padded(&mut out, r.id.as_str(), 11);
    out.append(" ");
    push_padded(&mut out, r.protocol.as_str(), 6);
    out.append(" ");
    push_padded(&mut out, local.as_str(), 8);
    out.append(" ");
    push_padded(&mut out, remote.as_str(), 8);
    out.append(" ");
    out.append(r.state.as_str());
    assert(local@ =~= seq![':'] + decimal(r.local_port as nat));
    assert(out@ =~= list_row_text(*r));
    out
}

} // verus!
