//! The line parser: one comma-separated log line to typed fields.
use vstd::prelude::*;
use crate::number::{parse_u64, parse_u64_spec};

verus! {

/// The least number of comma-separated fields a usable line has.
pub const MIN_FIELDS: usize = 13;

/// Why a line was left out of the aggregation.
#[derive(Debug, Clone, Copy, PartialEq, Eq, Structural)]
pub enum LineError {
    /// Fewer fields than a usable line has.
    MalformedLine,
    /// One of the four traffic counters is empty.
    MissingCounter,
    /// One of the four traffic counters is not an unsigned 64-bit number.
    InvalidNumber,
}

/// The fields of an accepted line that the aggregation uses.
pub struct ParsedLine {
    pub firewall_ip: String,
    pub source_ip: String,
    pub destination_ip: String,
    pub destination_port: String,
    pub protocol_id: String,
    pub packets_in: u64,
    pub bytes_in: u64,
    pub packets_out: u64,
    pub bytes_out: u64,
}

/// What a [`ParsedLine`] holds, with its texts as character sequences.
pub struct LineView {
    pub firewall_ip: Seq<char>,
    pub source_ip: Seq<char>,
    pub destination_ip: Seq<char>,
    pub destination_port: Seq<char>,
    pub protocol_id: Seq<char>,
    pub packets_in: u64,
    pub bytes_in: u64,
    pub packets_out: u64,
    pub bytes_out: u64,
}

impl View for ParsedLine {
    type V = LineView;

    open spec fn view(&self) -> LineView {
        LineView {
            firewall_ip: self.firewall_ip@,
            source_ip: self.source_ip@,
            destination_ip: self.destination_ip@,
            destination_port: self.destination_port@,
            protocol_id: self.protocol_id@,
            packets_in: self.packets_in,
            bytes_in: self.bytes_in,
            packets_out: self.packets_out,
            bytes_out: self.bytes_out,
        }
    }
}

/// The fields of a text between its commas, in order. A text without a comma
/// is one field; each comma adds one more.
pub open spec fn split_commas(s: Seq<char>) -> Seq<Seq<char>>
    decreases s.len(),
{
    if s.len() == 0 {
        seq![Seq::empty()]
    } else {
        let init = split_commas(s.drop_last());
        if s.last() == ',' {
            init.push(Seq::empty())
        } else {
            init.update(init.len() - 1, init.last().push(s.last()))
        }
    }
}

/// The texts of a sequence of strings.
pub open spec fn string_views(v: Seq<String>) -> Seq<Seq<char>> {
    Seq::new(v.len(), |i: int| v[i]@)
}

/// What one line yields: its fields at positions 1, 3, 4, 5 and 6 (firewall,
/// source, destination, port, protocol) and its counters at 9 to 12 (packets
/// in, bytes in, packets out, bytes out), or why it is rejected.
pub open spec fn parse_line_spec(line: Seq<char>) -> Result<LineView, LineError> {
    let f = split_commas(line);
    if f.len() < MIN_FIELDS {
        Err(LineError::MalformedLine)
    } else if f[9].len() == 0 || f[10].len() == 0 || f[11].len() == 0 || f[12].len() == 0 {
        Err(LineError::MissingCounter)
    } else if parse_u64_spec(f[9]) is None || parse_u64_spec(f[10]) is None
        || parse_u64_spec(f[11]) is None || parse_u64_spec(f[12]) is None {
        Err(LineError::InvalidNumber)
    } else {
        Ok(
            LineView {
                firewall_ip: f[1],
                source_ip: f[3],
                destination_ip: f[4],
                destination_port: f[5],
                protocol_id: f[6],
                packets_in: parse_u64_spec(f[9])->Some_0,
                bytes_in: parse_u64_spec(f[10])->Some_0,
                packets_out: parse_u64_spec(f[11])->Some_0,
                bytes_out: parse_u64_spec(f[12])->Some_0,
            },
        )
    }
}

proof fn lemma_split_commas_nonempty(s: Seq<char>)
    ensures
        split_commas(s).len() >= 1,
    decreases s.len(),
{
    if s.len() > 0 {
        lemma_split_commas_nonempty(s.drop_last());
    }
}

/// The characters of a text, one per element.
pub fn char_vec(s: &str) -> (r: Vec<char>)
    ensures
        r@ == s@,
{
    let mut r: Vec<char> = Vec::new();
    for c in it: s.chars()
        invariant
            it.seq() == s@,
            r@ == it.seq().take(it.index() as int),
    {
        r.push(c);
    }
    r
}

/// Splits a line at every comma.
pub fn split_fields(line: &str) -> (r: Vec<String>)
    ensures
        string_views(r@) == split_commas(line@),
{
    let chars = char_vec(line);
    let n = chars.len();
    let mut fields: Vec<String> = Vec::new();
    let mut start: usize = 0;
    let mut i: usize = 0;
    assert(line@.take(0) =~= Seq::<char>::empty());
    assert(string_views(fields@).push(line@.subrange(0, 0)) =~= seq![Seq::<char>::empty()]);
    while i < n
        invariant
            n == chars@.len(),
            chars@ == line@,
            start <= i <= n,
            string_views(fields@).push(line@.subrange(start as int, i as int)) == split_commas(
                line@.take(i as int),
            ),
        decreases n - i,
    {
        let ghost before = string_views(fields@);
        assert(line@.take(i as int + 1).drop_last() =~= line@.take(i as int));
        if chars[i] == ',' {
            let field = line.substring_char(start, i).to_owned();
            fields.push(field);
            start = i + 1;
            assert(string_views(fields@) =~= before.push(field@));
            assert(line@.subrange(start as int, i as int + 1) =~= Seq::<char>::empty());
        } else {
            assert(line@.subrange(start as int, i as int + 1) =~= line@.subrange(
                start as int,
                i as int,
            ).push(chars@[i as int]));
            assert(before.push(line@.subrange(start as int, i as int + 1)) =~= before.push(
                line@.subrange(start as int, i as int),
            ).update(before.len() as int, line@.subrange(start as int, i as int + 1)));
        }
        i = i + 1;
    }
    let ghost before = string_views(fields@);
    let last = line.substring_char(start, n).to_owned();
    fields.push(last);
    assert(string_views(fields@) =~= before.push(last@));
    assert(line@.take(n as int) =~= line@);
    fields
}

/// Parses one (already trimmed) log line into the fields the aggregation uses.
pub fn parse_line(line: &str) -> (r: Result<ParsedLine, LineError>)
    ensures
        match r {
            Ok(p) => parse_line_spec(line@) == Ok::<LineView, LineError>(p@),
            Err(e) => parse_line_spec(line@) == Err::<LineView, LineError>(e),
        },
{
    let fields = split_fields(line);
    let ghost f = split_commas(line@);
    assert(fields@.len() == f.len());
    if fields.len() < MIN_FIELDS {
        return Err(LineError::MalformedLine);
    }
    assert(forall|i: int| 0 <= i < f.len() ==> f[i] == #[trigger] fields@[i]@);
    if fields[9].as_str().is_empty() || fields[10].as_str().is_empty() || fields[11].as_str().is_empty()
        || fields[12].as_str().is_empty() {
        return Err(LineError::MissingCounter);
    }
    let packets_in = parse_u64(&char_vec(fields[9].as_str()));
    let bytes_in = parse_u64(&char_vec(fields[10].as_str()));
    let packets_out = parse_u64(&char_vec(fields[11].as_str()));
    let bytes_out = parse_u64(&char_vec(fields[12].as_str()));
    match (packets_in, bytes_in, packets_out, bytes_out) {
        (Some(packets_in), Some(bytes_in), Some(packets_out), Some(bytes_out)) => {
            Ok(
                ParsedLine {
                    firewall_ip: fields[1].clone(),
                    source_ip: fields[3].clone(),
                    destination_ip: fields[4].clone(),
                    destination_port: fields[5].clone(),
                    protocol_id: fields[6].clone(),
                    packets_in,
                    bytes_in,
                    packets_out,
                    bytes_out,
                },
            )
        },
        _ => Err(LineError::InvalidNumber),
    }
}

} // verus!
