//! What holds of a whole run, whatever its lines.
use vstd::prelude::*;
use crate::flow::{flow_key_spec, joined, key_separator, FlowView};
use crate::line::{parse_line_spec, LineView};
use crate::run::{run_lines, step};

verus! {

/// One of the quantities a flow record accumulates.
pub enum Counter {
    PacketsIn,
    BytesIn,
    PacketsOut,
    BytesOut,
    Lines,
}

/// What a parsed line adds to a counter.
pub open spec fn counter_value(l: LineView, c: Counter) -> int {
    match c {
        Counter::PacketsIn => l.packets_in as int,
        Counter::BytesIn => l.bytes_in as int,
        Counter::PacketsOut => l.packets_out as int,
        Counter::BytesOut => l.bytes_out as int,
        Counter::Lines => 1,
    }
}

/// A counter of a flow record.
pub open spec fn flow_counter(r: FlowView, c: Counter) -> u64 {
    match c {
        Counter::PacketsIn => r.packets_in,
        Counter::BytesIn => r.bytes_in,
        Counter::PacketsOut => r.packets_out,
        Counter::BytesOut => r.bytes_out,
        Counter::Lines => r.count,
    }
}

/// A total as a 64-bit counter holds it: `u64::MAX` where it does not fit.
pub open spec fn capped(x: int) -> u64 {
    if x > u64::MAX {
        u64::MAX
    } else {
        x as u64
    }
}

/// The line parses and its key is `k`.
pub open spec fn counted(line: Seq<char>, k: Seq<char>) -> bool {
    parse_line_spec(line) is Ok && flow_key_spec(parse_line_spec(line)->Ok_0) == k
}

/// The sum of a counter over the lines that parse and have key `k`.
pub open spec fn key_sum(lines: Seq<Seq<char>>, k: Seq<char>, c: Counter) -> int
    decreases lines.len(),
{
    if lines.len() == 0 {
        0
    } else {
        key_sum(lines.drop_last(), k, c) + if counted(lines.last(), k) {
            counter_value(parse_line_spec(lines.last())->Ok_0, c)
        } else {
            0
        }
    }
}

/// The first line that parses and has key `k`, parsed.
pub open spec fn first_line_for(lines: Seq<Seq<char>>, k: Seq<char>) -> Option<LineView>
    decreases lines.len(),
{
    if lines.len() == 0 {
        None
    } else {
        match first_line_for(lines.drop_last(), k) {
            Some(l) => Some(l),
            None => if counted(lines.last(), k) {
                Some(parse_line_spec(lines.last())->Ok_0)
            } else {
                None
            },
        }
    }
}

/// The record under `k` after a run over `lines`: it exists exactly when some
/// line with that key parses; its addresses are those of the first such line,
/// and each counter is the (capped) sum over all of them.
pub open spec fn closed_form(lines: Seq<Seq<char>>, k: Seq<char>) -> bool {
    let t = run_lines(Map::empty(), lines);
    &&& forall|c: Counter| #[trigger] key_sum(lines, k, c) >= 0
    &&& t.contains_key(k) <==> first_line_for(lines, k) is Some
    &&& first_line_for(lines, k) is None ==> forall|c: Counter| #[trigger]
        key_sum(lines, k, c) == 0
    &&& t.contains_key(k) ==> {
        let r = t[k];
        let f = first_line_for(lines, k)->Some_0;
        &&& r.key == k
        &&& r.source_ip == f.source_ip
        &&& r.destination_ip == f.destination_ip
        &&& forall|c: Counter| #[trigger]
            flow_counter(r, c) == capped(key_sum(lines, k, c))
    }
}

/// What a run from an empty table computes, key by key: see [`closed_form`].
pub proof fn law_run_totals(lines: Seq<Seq<char>>, k: Seq<char>)
    ensures
        closed_form(lines, k),
    decreases lines.len(),
{
    if lines.len() > 0 {
        let init = lines.drop_last();
        let x = lines.last();
        law_run_totals(init, k);
        let t = run_lines(Map::empty(), init);
        assert forall|c: Counter| #[trigger] key_sum(lines, k, c) >= 0 by {
            assert(key_sum(init, k, c) >= 0);
        }
        if counted(x, k) {
            let l = parse_line_spec(x)->Ok_0;
            assert forall|c: Counter| #[trigger] key_sum(lines, k, c) == key_sum(init, k, c)
                + counter_value(l, c) by {}
            if t.contains_key(k) {
                let r = run_lines(Map::empty(), lines)[k];
                let r0 = t[k];
                assert(run_lines(Map::empty(), lines) == step(t, x));
                assert forall|c: Counter| #[trigger]
                    flow_counter(r, c) == capped(key_sum(lines, k, c)) by {
                    assert(key_sum(lines, k, c) == key_sum(init, k, c) + counter_value(l, c));
                    assert(flow_counter(r0, c) == capped(key_sum(init, k, c)));
                    match c {
                        Counter::PacketsIn => {},
                        Counter::BytesIn => {},
                        Counter::PacketsOut => {},
                        Counter::BytesOut => {},
                        Counter::Lines => {},
                    }
                }
            } else {
                let r = run_lines(Map::empty(), lines)[k];
                assert forall|c: Counter| #[trigger]
                    flow_counter(r, c) == capped(key_sum(lines, k, c)) by {
                    assert(key_sum(init, k, c) == 0);
                    assert(key_sum(lines, k, c) == key_sum(init, k, c) + counter_value(l, c));
                    match c {
                        Counter::PacketsIn => {},
                        Counter::BytesIn => {},
                        Counter::PacketsOut => {},
                        Counter::BytesOut => {},
                        Counter::Lines => {},
                    }
                }
            }
        } else {
            assert forall|c: Counter| #[trigger] key_sum(lines, k, c) == key_sum(init, k, c) by {}
        }
    }
}

/// The sum of a counter over lines that all parse.
pub open spec fn parsed_sum(lines: Seq<Seq<char>>, c: Counter) -> int
    decreases lines.len(),
{
    if lines.len() == 0 {
        0
    } else {
        parsed_sum(lines.drop_last(), c) + counter_value(parse_line_spec(lines.last())->Ok_0, c)
    }
}

proof fn lemma_key_sum_all_counted(lines: Seq<Seq<char>>, k: Seq<char>, c: Counter)
    requires
        forall|i: int| 0 <= i < lines.len() ==> counted(#[trigger] lines[i], k),
    ensures
        key_sum(lines, k, c) == parsed_sum(lines, c),
        c == Counter::Lines ==> parsed_sum(lines, c) == lines.len(),
    decreases lines.len(),
{
    if lines.len() > 0 {
        let init = lines.drop_last();
        assert forall|i: int| 0 <= i < init.len() implies counted(#[trigger] init[i], k) by {
            assert(init[i] == lines[i]);
        }
        lemma_key_sum_all_counted(init, k, c);
        assert(counted(lines[lines.len() - 1], k));
    }
}

/// Merging is summing: after a run over lines that all parse and share one
/// key, the record under that key holds the sum of each counter over the
/// lines (held at `u64::MAX` where the sum does not fit), and its count is
/// the number of lines.
pub proof fn law_merge_sums(lines: Seq<Seq<char>>, k: Seq<char>)
    requires
        lines.len() > 0,
        forall|i: int| 0 <= i < lines.len() ==> counted(#[trigger] lines[i], k),
    ensures
        run_lines(Map::empty(), lines).contains_key(k),
        run_lines(Map::empty(), lines)[k].packets_in == capped(
            parsed_sum(lines, Counter::PacketsIn),
        ),
        run_lines(Map::empty(), lines)[k].bytes_in == capped(parsed_sum(lines, Counter::BytesIn)),
        run_lines(Map::empty(), lines)[k].packets_out == capped(
            parsed_sum(lines, Counter::PacketsOut),
        ),
        run_lines(Map::empty(), lines)[k].bytes_out == capped(
            parsed_sum(lines, Counter::BytesOut),
        ),
        run_lines(Map::empty(), lines)[k].count == capped(lines.len() as int),
{
    law_run_totals(lines, k);
    lemma_key_sum_all_counted(lines, k, Counter::PacketsIn);
    lemma_key_sum_all_counted(lines, k, Counter::BytesIn);
    lemma_key_sum_all_counted(lines, k, Counter::PacketsOut);
    lemma_key_sum_all_counted(lines, k, Counter::BytesOut);
    lemma_key_sum_all_counted(lines, k, Counter::Lines);
    let last = lines.len() - 1;
    assert(counted(lines[last], k));
    assert(lines.last() == lines[last]);
    let init = lines.drop_last();
    law_run_totals(init, k);
    let r = run_lines(Map::empty(), lines)[k];
    assert(flow_counter(r, Counter::PacketsIn) == capped(key_sum(lines, k, Counter::PacketsIn)));
    assert(flow_counter(r, Counter::BytesIn) == capped(key_sum(lines, k, Counter::BytesIn)));
    assert(flow_counter(r, Counter::PacketsOut) == capped(key_sum(lines, k, Counter::PacketsOut)));
    assert(flow_counter(r, Counter::BytesOut) == capped(key_sum(lines, k, Counter::BytesOut)));
    assert(flow_counter(r, Counter::Lines) == capped(key_sum(lines, k, Counter::Lines)));
}

/// First writer wins: the addresses of a record are those of the first
/// accepted line with its key, whatever lines follow.
pub proof fn law_first_writer_wins(lines: Seq<Seq<char>>, k: Seq<char>)
    ensures
        run_lines(Map::empty(), lines).contains_key(k) <==> first_line_for(lines, k) is Some,
        run_lines(Map::empty(), lines).contains_key(k) ==> run_lines(Map::empty(), lines)[k].source_ip
            == first_line_for(lines, k)->Some_0.source_ip && run_lines(
            Map::empty(),
            lines,
        )[k].destination_ip == first_line_for(lines, k)->Some_0.destination_ip,
{
    law_run_totals(lines, k);
}

/// A rejected line leaves the table as it was.
pub proof fn law_rejected_line_not_merged(t: Map<Seq<char>, FlowView>, line: Seq<char>)
    requires
        parse_line_spec(line) is Err,
    ensures
        step(t, line) == t,
{
}

/// No key is in the table after a run unless some accepted line has it.
pub proof fn law_only_accepted_keys(lines: Seq<Seq<char>>, k: Seq<char>)
    requires
        forall|i: int| 0 <= i < lines.len() ==> !counted(#[trigger] lines[i], k),
    ensures
        !run_lines(Map::empty(), lines).contains_key(k),
    decreases lines.len(),
{
    law_run_totals(lines, k);
    if lines.len() > 0 {
        let init = lines.drop_last();
        assert forall|i: int| 0 <= i < init.len() implies !counted(#[trigger] init[i], k) by {
            assert(init[i] == lines[i]);
        }
        law_only_accepted_keys(init, k);
        law_run_totals(init, k);
        assert(!counted(lines[lines.len() - 1], k));
    }
}

proof fn lemma_concat(x: Seq<Seq<char>>, y: Seq<Seq<char>>, k: Seq<char>)
    ensures
        forall|c: Counter| #[trigger] key_sum(x + y, k, c) == key_sum(x, k, c) + key_sum(y, k, c),
        first_line_for(x + y, k) is Some <==> (first_line_for(x, k) is Some || first_line_for(
            y,
            k,
        ) is Some),
    decreases y.len(),
{
    if y.len() == 0 {
        assert(x + y =~= x);
    } else {
        lemma_concat(x, y.drop_last(), k);
        assert((x + y).drop_last() =~= x + y.drop_last());
        assert((x + y).last() == y.last());
        assert forall|c: Counter| #[trigger] key_sum(x + y, k, c) == key_sum(x, k, c) + key_sum(
            y,
            k,
            c,
        ) by {
            assert(key_sum(x + y.drop_last(), k, c) == key_sum(x, k, c) + key_sum(
                y.drop_last(),
                k,
                c,
            ));
        }
    }
}

/// The text holds no key separator.
pub open spec fn separator_free(s: Seq<char>) -> bool {
    forall|i: int| 0 <= i < s.len() ==> s[i] != key_separator()
}

proof fn lemma_joined_injective(a1: Seq<char>, b1: Seq<char>, a2: Seq<char>, b2: Seq<char>)
    requires
        separator_free(a1),
        separator_free(a2),
        joined(a1, b1) == joined(a2, b2),
    ensures
        a1 == a2,
        b1 == b2,
{
    let j = joined(a1, b1);
    if a1.len() < a2.len() {
        assert(j[a1.len() as int] == key_separator());
        assert(j[a1.len() as int] == a2[a1.len() as int]);
    } else if a2.len() < a1.len() {
        assert(j[a2.len() as int] == key_separator());
        assert(j[a2.len() as int] == a1[a2.len() as int]);
    } else {
        assert(a1 =~= j.subrange(0, a1.len() as int));
        assert(a2 =~= j.subrange(0, a2.len() as int));
        assert(b1 =~= j.subrange(a1.len() + 1int, j.len() as int));
        assert(b2 =~= j.subrange(a2.len() + 1int, j.len() as int));
    }
}

/// Two lines share a key exactly when they agree on firewall, source,
/// destination, port and protocol, provided no part but the protocol holds
/// the key separator.
pub proof fn law_key_partition(a: LineView, b: LineView)
    requires
        separator_free(a.firewall_ip),
        separator_free(a.source_ip),
        separator_free(a.destination_ip),
        separator_free(a.destination_port),
        separator_free(b.firewall_ip),
        separator_free(b.source_ip),
        separator_free(b.destination_ip),
        separator_free(b.destination_port),
    ensures
        flow_key_spec(a) == flow_key_spec(b) <==> (a.firewall_ip == b.firewall_ip && a.source_ip
            == b.source_ip && a.destination_ip == b.destination_ip && a.destination_port
            == b.destination_port && a.protocol_id == b.protocol_id),
{
    if flow_key_spec(a) == flow_key_spec(b) {
        let ra = joined(a.source_ip, joined(a.destination_ip, joined(a.destination_port, a.protocol_id)));
        let rb = joined(b.source_ip, joined(b.destination_ip, joined(b.destination_port, b.protocol_id)));
        lemma_joined_injective(a.firewall_ip, ra, b.firewall_ip, rb);
        let sa = joined(a.destination_ip, joined(a.destination_port, a.protocol_id));
        let sb = joined(b.destination_ip, joined(b.destination_port, b.protocol_id));
        lemma_joined_injective(a.source_ip, sa, b.source_ip, sb);
        let ta = joined(a.destination_port, a.protocol_id);
        let tb = joined(b.destination_port, b.protocol_id);
        lemma_joined_injective(a.destination_ip, ta, b.destination_ip, tb);
        lemma_joined_injective(a.destination_port, a.protocol_id, b.destination_port, b.protocol_id);
    }
}

/// The lines of several files, one file after another.
pub open spec fn concat_files(files: Seq<Seq<Seq<char>>>) -> Seq<Seq<char>>
    decreases files.len(),
{
    if files.len() == 0 {
        Seq::empty()
    } else {
        concat_files(files.drop_last()) + files.last()
    }
}

proof fn lemma_concat_files(x: Seq<Seq<Seq<char>>>, y: Seq<Seq<Seq<char>>>)
    ensures
        concat_files(x + y) == concat_files(x) + concat_files(y),
    decreases y.len(),
{
    if y.len() == 0 {
        assert(x + y =~= x);
        assert(concat_files(x) + concat_files(y) =~= concat_files(x));
    } else {
        lemma_concat_files(x, y.drop_last());
        assert((x + y).drop_last() =~= x + y.drop_last());
        assert(concat_files(x + y) =~= concat_files(x) + concat_files(y));
    }
}

proof fn lemma_permuted_files(files: Seq<Seq<Seq<char>>>, other: Seq<Seq<Seq<char>>>, k: Seq<char>)
    requires
        files.to_multiset() == other.to_multiset(),
    ensures
        forall|c: Counter| #[trigger] key_sum(concat_files(files), k, c) == key_sum(
            concat_files(other),
            k,
            c,
        ),
        first_line_for(concat_files(files), k) is Some <==> first_line_for(
            concat_files(other),
            k,
        ) is Some,
    decreases files.len(),
{
    broadcast use vstd::seq_lib::group_to_multiset_ensures;

    if files.len() == 0 {
        assert(files.to_multiset().len() == 0);
        assert(other.to_multiset().len() == other.len());
        assert(other =~= files);
    } else {
        let n = files.len() - 1;
        let f = files.last();
        let rest = files.drop_last();
        assert(rest =~= files.remove(n));
        assert(other.to_multiset().count(f) > 0);
        assert(other.contains(f));
        let j = choose|j: int| 0 <= j < other.len() && other[j] == f;
        let pre = other.take(j);
        let post = other.skip(j + 1);
        assert(other.remove(j).to_multiset() == other.to_multiset().remove(f));
        assert(other.remove(j) =~= pre + post);
        assert(other =~= pre + seq![f] + post);
        lemma_permuted_files(rest, other.remove(j), k);
        lemma_concat_files(pre, post);
        lemma_concat_files(pre, seq![f]);
        lemma_concat_files(pre + seq![f], post);
        let one = seq![f];
        assert(one.drop_last() =~= Seq::<Seq<Seq<char>>>::empty());
        assert(concat_files(one) == concat_files(one.drop_last()) + f);
        assert(concat_files(one) =~= f);
        let a = concat_files(pre);
        let b = concat_files(post);
        let r = concat_files(rest);
        assert(concat_files(files) == r + f);
        assert(concat_files(other) == a + f + b);
        assert(concat_files(other.remove(j)) == a + b);
        lemma_concat(r, f, k);
        lemma_concat(a, f, k);
        lemma_concat(a + f, b, k);
        lemma_concat(a, b, k);
        assert forall|c: Counter| #[trigger] key_sum(concat_files(files), k, c) == key_sum(
            concat_files(other),
            k,
            c,
        ) by {
            assert(key_sum(r, k, c) == key_sum(a + b, k, c));
        }
    }
}

/// The order of the files does not matter: taking the same files in any
/// other order gives a table with the same keys and, under each key, the
/// same counters.
pub proof fn law_file_order_irrelevant(files: Seq<Seq<Seq<char>>>, other: Seq<Seq<Seq<char>>>)
    requires
        files.to_multiset() == other.to_multiset(),
    ensures
        run_lines(Map::empty(), concat_files(files)).dom() == run_lines(
            Map::empty(),
            concat_files(other),
        ).dom(),
        forall|k: Seq<char>| #[trigger]
            run_lines(Map::empty(), concat_files(files)).contains_key(k) ==> {
                let r1 = run_lines(Map::empty(), concat_files(files))[k];
                let r2 = run_lines(Map::empty(), concat_files(other))[k];
                &&& r1.key == r2.key
                &&& r1.packets_in == r2.packets_in
                &&& r1.bytes_in == r2.bytes_in
                &&& r1.packets_out == r2.packets_out
                &&& r1.bytes_out == r2.bytes_out
                &&& r1.count == r2.count
            },
{
    let l1 = concat_files(files);
    let l2 = concat_files(other);
    let t1 = run_lines(Map::empty(), l1);
    let t2 = run_lines(Map::empty(), l2);
    assert forall|k: Seq<char>| #[trigger] t1.contains_key(k) == t2.contains_key(k) by {
        law_run_totals(l1, k);
        law_run_totals(l2, k);
        lemma_permuted_files(files, other, k);
    }
    assert(t1.dom() =~= t2.dom());
    assert forall|k: Seq<char>| #[trigger] t1.contains_key(k) implies {
        let r1 = t1[k];
        let r2 = t2[k];
        &&& r1.key == r2.key
        &&& r1.packets_in == r2.packets_in
        &&& r1.bytes_in == r2.bytes_in
        &&& r1.packets_out == r2.packets_out
        &&& r1.bytes_out == r2.bytes_out
        &&& r1.count == r2.count
    } by {
        law_run_totals(l1, k);
        law_run_totals(l2, k);
        lemma_permuted_files(files, other, k);
        assert(flow_counter(t1[k], Counter::PacketsIn) == flow_counter(t2[k], Counter::PacketsIn));
        assert(flow_counter(t1[k], Counter::BytesIn) == flow_counter(t2[k], Counter::BytesIn));
        assert(flow_counter(t1[k], Counter::PacketsOut) == flow_counter(t2[k], Counter::PacketsOut));
        assert(flow_counter(t1[k], Counter::BytesOut) == flow_counter(t2[k], Counter::BytesOut));
        assert(flow_counter(t1[k], Counter::Lines) == flow_counter(t2[k], Counter::Lines));
    }
}

} // verus!
