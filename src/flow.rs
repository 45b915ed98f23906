//! Flow keys, flow records and the table that accumulates them.
use vstd::prelude::*;
use vstd::hash_map::StringHashMap;
use crate::line::{LineView, ParsedLine};

verus! {

/// The character that separates the five parts of a flow key.
pub open spec fn key_separator() -> char {
    '_'
}

/// Two texts joined by the key separator.
pub open spec fn joined(a: Seq<char>, b: Seq<char>) -> Seq<char> {
    a + seq![key_separator()] + b
}

/// The composite key of a line: firewall, source, destination, port and
/// protocol, joined by the key separator.
pub open spec fn flow_key_spec(l: LineView) -> Seq<char> {
    joined(
        l.firewall_ip,
        joined(l.source_ip, joined(l.destination_ip, joined(l.destination_port, l.protocol_id))),
    )
}

/// Builds the composite key of a parsed line.
pub fn flow_key(p: &ParsedLine) -> (r: String)
    ensures
        r@ == flow_key_spec(p@),
{
    proof {
        reveal_strlit("_");
    }
    let mut k = p.firewall_ip.clone();
    k.append("_");
    k.append(p.source_ip.as_str());
    k.append("_");
    k.append(p.destination_ip.as_str());
    k.append("_");
    k.append(p.destination_port.as_str());
    k.append("_");
    k.append(p.protocol_id.as_str());
    assert(k@ =~= flow_key_spec(p@));
    k
}

/// One aggregated flow.
pub struct FlowRecord {
    pub key: String,
    pub source_ip: String,
    pub destination_ip: String,
    pub packets_in: u64,
    pub bytes_in: u64,
    pub packets_out: u64,
    pub bytes_out: u64,
    pub count: u64,
}

/// What a [`FlowRecord`] holds, with its texts as character sequences.
pub struct FlowView {
    pub key: Seq<char>,
    pub source_ip: Seq<char>,
    pub destination_ip: Seq<char>,
    pub packets_in: u64,
    pub bytes_in: u64,
    pub packets_out: u64,
    pub bytes_out: u64,
    pub count: u64,
}

impl View for FlowRecord {
    type V = FlowView;

    open spec fn view(&self) -> FlowView {
        FlowView {
            key: self.key@,
            source_ip: self.source_ip@,
            destination_ip: self.destination_ip@,
            packets_in: self.packets_in,
            bytes_in: self.bytes_in,
            packets_out: self.packets_out,
            bytes_out: self.bytes_out,
            count: self.count,
        }
    }
}

impl FlowRecord {
    /// A copy of the record.
    pub fn duplicate(&self) -> (r: FlowRecord)
        ensures
            r@ == self@,
    {
        FlowRecord {
            key: self.key.clone(),
            source_ip: self.source_ip.clone(),
            destination_ip: self.destination_ip.clone(),
            packets_in: self.packets_in,
            bytes_in: self.bytes_in,
            packets_out: self.packets_out,
            bytes_out: self.bytes_out,
            count: self.count,
        }
    }
}

/// The sum of two counters, held at `u64::MAX` where it would not fit.
pub open spec fn sat_add(a: u64, b: u64) -> u64 {
    if a + b > u64::MAX {
        u64::MAX
    } else {
        (a + b) as u64
    }
}

/// The table after one line's values are merged under `key`: a new record
/// with a count of one where the key is absent; otherwise the counters are
/// added to the existing record, its count goes up by one, and its addresses
/// stay as they were.
pub open spec fn merge_entry(
    t: Map<Seq<char>, FlowView>,
    key: Seq<char>,
    source_ip: Seq<char>,
    destination_ip: Seq<char>,
    packets_in: u64,
    bytes_in: u64,
    packets_out: u64,
    bytes_out: u64,
) -> Map<Seq<char>, FlowView> {
    if t.contains_key(key) {
        let r = t[key];
        t.insert(
            key,
            FlowView {
                key: r.key,
                source_ip: r.source_ip,
                destination_ip: r.destination_ip,
                packets_in: sat_add(r.packets_in, packets_in),
                bytes_in: sat_add(r.bytes_in, bytes_in),
                packets_out: sat_add(r.packets_out, packets_out),
                bytes_out: sat_add(r.bytes_out, bytes_out),
                count: sat_add(r.count, 1),
            },
        )
    } else {
        t.insert(
            key,
            FlowView {
                key,
                source_ip,
                destination_ip,
                packets_in,
                bytes_in,
                packets_out,
                bytes_out,
                count: 1,
            },
        )
    }
}

/// The mapping from flow key to aggregated record of one run.
pub struct AggregationTable {
    map: StringHashMap<FlowRecord>,
    keys: Vec<String>,
}

impl View for AggregationTable {
    type V = Map<Seq<char>, FlowView>;

    closed spec fn view(&self) -> Map<Seq<char>, FlowView> {
        self.map@.map_values(|r: FlowRecord| r@)
    }
}

impl AggregationTable {
    /// The table is consistent: each record is stored under its own key, and
    /// the list of keys names each stored key exactly once.
    pub closed spec fn wf(&self) -> bool {
        &&& forall|k: Seq<char>| #[trigger]
            self.map@.contains_key(k) ==> self.map@[k].key@ == k
        &&& forall|i: int| 0 <= i < self.keys@.len() ==> self.map@.contains_key(
            #[trigger] self.keys@[i]@,
        )
        &&& forall|k: Seq<char>| #[trigger]
            self.map@.contains_key(k) ==> exists|i: int|
                0 <= i < self.keys@.len() && #[trigger] self.keys@[i]@ == k
        &&& forall|i: int, j: int|
            0 <= i < j < self.keys@.len() ==> #[trigger] self.keys@[i]@ != #[trigger] self.keys@[j]@
    }

    /// An empty table.
    pub fn new() -> (r: AggregationTable)
        ensures
            r.wf(),
            r@ == Map::<Seq<char>, FlowView>::empty(),
    {
        let r = AggregationTable { map: StringHashMap::new(), keys: Vec::new() };
        assert(r@ =~= Map::<Seq<char>, FlowView>::empty());
        r
    }

    /// The number of flows in the table.
    pub fn len(&self) -> (r: usize)
        ensures
            r == self@.len(),
    {
        assert(self.map@.dom() =~= self@.dom());
        self.map.len()
    }

    /// The record stored under `key`, if any.
    pub fn get(&self, key: &str) -> (r: Option<&FlowRecord>)
        ensures
            match r {
                Some(rec) => self@.contains_key(key@) && rec@ == self@[key@],
                None => !self@.contains_key(key@),
            },
    {
        self.map.get(key)
    }

    /// Adds one line's values to the record under `key`, or starts that record.
    pub fn merge_or_insert(
        &mut self,
        key: String,
        source_ip: String,
        destination_ip: String,
        packets_in: u64,
        bytes_in: u64,
        packets_out: u64,
        bytes_out: u64,
    )
        requires
            old(self).wf(),
        ensures
            final(self).wf(),
            final(self)@ == merge_entry(
                old(self)@,
                key@,
                source_ip@,
                destination_ip@,
                packets_in,
                bytes_in,
                packets_out,
                bytes_out,
            ),
    {
        let ghost old_map = self.map@;
        let ghost old_keys = self.keys@;
        let rec = match self.map.get(key.as_str()) {
            Some(r) => FlowRecord {
                key: r.key.clone(),
                source_ip: r.source_ip.clone(),
                destination_ip: r.destination_ip.clone(),
                packets_in: r.packets_in.saturating_add(packets_in),
                bytes_in: r.bytes_in.saturating_add(bytes_in),
                packets_out: r.packets_out.saturating_add(packets_out),
                bytes_out: r.bytes_out.saturating_add(bytes_out),
                count: r.count.saturating_add(1),
            },
            None => {
                self.keys.push(key.clone());
                assert forall|k: Seq<char>| #[trigger] old_map.contains_key(k) implies exists|i: int|
                    0 <= i < self.keys@.len() && #[trigger] self.keys@[i]@ == k by {
                    let i = choose|i: int| 0 <= i < old_keys.len() && #[trigger] old_keys[i]@ == k;
                    assert(self.keys@[i] == old_keys[i]);
                }
                assert(self.keys@[old_keys.len() as int]@ == key@);
                assert forall|i: int, j: int| 0 <= i < j < self.keys@.len() implies #[trigger] self.keys@[i]@
                    != #[trigger] self.keys@[j]@ by {
                    if j == old_keys.len() {
                        assert(old_map.contains_key(old_keys[i]@));
                    } else {
                        assert(old_keys[i]@ != old_keys[j]@);
                    }
                }
                FlowRecord {
                    key: key.clone(),
                    source_ip,
                    destination_ip,
                    packets_in,
                    bytes_in,
                    packets_out,
                    bytes_out,
                    count: 1,
                }
            },
        };
        let ghost key_view = key@;
        self.map.insert(key, rec);
        assert(self.map@.contains_key(key_view));
        assert forall|k: Seq<char>| #[trigger] self.map@.contains_key(k) implies exists|i: int|
            0 <= i < self.keys@.len() && #[trigger] self.keys@[i]@ == k by {
            if old_map.contains_key(k) {
                let i = choose|i: int| 0 <= i < old_keys.len() && #[trigger] old_keys[i]@ == k;
                assert(self.keys@[i] == old_keys[i]);
            } else {
                assert(self.keys@[old_keys.len() as int]@ == k);
            }
        }
        assert(self@ =~= merge_entry(
            old(self)@,
            key@,
            source_ip@,
            destination_ip@,
            packets_in,
            bytes_in,
            packets_out,
            bytes_out,
        ));
    }

    /// Every record of the table, each once, in the order their keys first
    /// appeared.
    pub fn records(&self) -> (r: Vec<FlowRecord>)
        requires
            self.wf(),
        ensures
            forall|i: int| 0 <= i < r@.len() ==> self@.contains_key(#[trigger] r@[i].key@)
                && self@[r@[i].key@] == r@[i]@,
            forall|k: Seq<char>| #[trigger]
                self@.contains_key(k) ==> exists|i: int| 0 <= i < r@.len() && #[trigger] r@[i].key@ == k,
            forall|i: int, j: int|
                0 <= i < j < r@.len() ==> #[trigger] r@[i].key@ != #[trigger] r@[j].key@,
    {
        let mut r: Vec<FlowRecord> = Vec::new();
        let n = self.keys.len();
        for i in 0..n
            invariant
                self.wf(),
                n == self.keys@.len(),
                r@.len() == i,
                forall|j: int| 0 <= j < i ==> (#[trigger] r@[j]).key@ == self.keys@[j]@
                    && self@.contains_key(r@[j].key@) && self@[r@[j].key@] == r@[j]@,
        {
            let rec = self.map.get(self.keys[i].as_str());
            assert(self.map@.contains_key(self.keys@[i as int]@));
            match rec {
                Some(rec) => {
                    r.push(rec.duplicate());
                },
                None => {},
            }
        }
        assert forall|k: Seq<char>| #[trigger] self@.contains_key(k) implies exists|i: int|
            0 <= i < r@.len() && #[trigger] r@[i].key@ == k by {
            assert(self.map@.contains_key(k));
            let i = choose|i: int| 0 <= i < self.keys@.len() && #[trigger] self.keys@[i]@ == k;
            assert(r@[i].key@ == k);
        }
        assert forall|i: int, j: int| 0 <= i < j < r@.len() implies #[trigger] r@[i].key@
            != #[trigger] r@[j].key@ by {
            assert(self.keys@[i]@ != self.keys@[j]@);
        }
        r
    }
}

} // verus!
