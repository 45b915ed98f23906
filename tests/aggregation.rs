use flow_aggregator::{
    char_vec, elapsed_ms, fixed2_string, flow_key, output_path, parse_line, parse_u64,
    percent_hundredths, rate_hundredths, session_close_string, split_fields, summarize,
    throughput_string, AggregationTable, FlowAggregator, FlowRecord, LineError, RunStats,
};

const LINE_A: &str = "fw1,_,_,src1,dst1,80,tcp,_,_,10,1000,5,500";
const LINE_B: &str = "fw1,_,_,src1,dst1,80,tcp,_,_,3,300,2,200";

fn run(files: &[(&str, &[&str])]) -> FlowAggregator {
    let mut agg = FlowAggregator::new();
    for (path, lines) in files {
        agg.record_file(path.to_string());
        for line in lines.iter() {
            let _ = agg.process_line(line);
        }
    }
    agg
}

fn sorted_records(agg: &FlowAggregator) -> Vec<(String, String, String, u64, u64, u64, u64, u64)> {
    let mut v: Vec<_> = agg
        .table
        .records()
        .into_iter()
        .map(|r: FlowRecord| {
            (
                r.key,
                r.source_ip,
                r.destination_ip,
                r.packets_in,
                r.bytes_in,
                r.packets_out,
                r.bytes_out,
                r.count,
            )
        })
        .collect();
    v.sort();
    v
}

#[test]
fn two_files_merge_into_one_flow() {
    // The firewall is field 1, so these lines (whose field 1 is "_") build the key "__src1_dst1_80_tcp".
    let agg = run(&[("a.log", &[LINE_A]), ("b.log", &[LINE_B])]);
    assert_eq!(agg.table.len(), 1);
    let r = agg.table.get("__src1_dst1_80_tcp").expect("flow present");
    assert_eq!((r.packets_in, r.bytes_in, r.packets_out, r.bytes_out, r.count), (13, 1300, 7, 700, 2));
    let flows = agg.table.len();
    let meta = summarize(1000, 2000, agg.stats, flows);
    assert_eq!(meta.total_connections, 2);
    assert_eq!(meta.flows, 1);
}

#[test]
fn two_files_merge_into_one_flow_firewall_in_field_one() {
    let agg = run(&[
        ("a.log", &["_,fw1,_,src1,dst1,80,tcp,_,_,10,1000,5,500"]),
        ("b.log", &["_,fw1,_,src1,dst1,80,tcp,_,_,3,300,2,200"]),
    ]);
    assert_eq!(agg.table.len(), 1);
    let r = agg.table.get("fw1_src1_dst1_80_tcp").expect("flow present");
    assert_eq!(r.key, "fw1_src1_dst1_80_tcp");
    assert_eq!(r.source_ip, "src1");
    assert_eq!(r.destination_ip, "dst1");
    assert_eq!(r.packets_in, 13);
    assert_eq!(r.bytes_in, 1300);
    assert_eq!(r.packets_out, 7);
    assert_eq!(r.bytes_out, 700);
    assert_eq!(r.count, 2);
    let flows = agg.table.len();
    let meta = summarize(1000, 2000, agg.stats, flows);
    assert_eq!(meta.total_connections, 2);
    assert_eq!(meta.flows, 1);
    assert_eq!(meta.files_processed, vec!["a.log".to_string(), "b.log".to_string()]);
    assert_eq!(meta.session_close, "2 (100.00% of total connections)");
    assert_eq!(meta.connections_per_second, "2.00 connections/second");
    assert_eq!(meta.elapsed_ms, 1000);
}

#[test]
fn short_line_is_counted_but_not_merged() {
    let mut agg = FlowAggregator::new();
    assert_eq!(agg.process_line("fw1,_,_,src1,dst1,80,tcp,_,_,10,1000,5"), Err(LineError::MalformedLine));
    assert_eq!(agg.stats.total_lines, 1);
    assert_eq!(agg.stats.accepted_lines, 0);
    assert_eq!(agg.stats.rejected_lines(), 1);
    assert_eq!(agg.table.len(), 0);
}

#[test]
fn empty_run_summary() {
    let agg = FlowAggregator::new();
    let flows = agg.table.len();
    let meta = summarize(5000, 5000, agg.stats, flows);
    assert_eq!(meta.flows, 0);
    assert_eq!(meta.total_connections, 0);
    assert!(meta.files_processed.is_empty());
    assert_eq!(meta.elapsed_ms, 0);
    assert_eq!(meta.session_close, "0 (0.00% of total connections)");
    assert_eq!(meta.connections_per_second, "0.00 connections/second");
}

#[test]
fn merge_sums_every_counter() {
    let agg = run(&[(
        "a.log",
        &[
            "x,fw,y,s,d,443,udp,z,w,1,2,3,4",
            "x,fw,y,s,d,443,udp,z,w,10,20,30,40",
            "x,fw,y,s,d,443,udp,z,w,100,200,300,400",
        ],
    )]);
    let r = agg.table.get("fw_s_d_443_udp").expect("flow present");
    assert_eq!((r.packets_in, r.bytes_in, r.packets_out, r.bytes_out, r.count), (111, 222, 333, 444, 3));
}

#[test]
fn counters_saturate() {
    let agg = run(&[(
        "a.log",
        &["x,fw,y,s,d,1,tcp,z,w,18446744073709551615,1,1,1", "x,fw,y,s,d,1,tcp,z,w,5,1,1,1"],
    )]);
    let r = agg.table.get("fw_s_d_1_tcp").expect("flow present");
    assert_eq!(r.packets_in, u64::MAX);
    assert_eq!(r.bytes_in, 2);
    assert_eq!(r.count, 2);
}

#[test]
fn differing_key_fields_stay_apart() {
    let base = "x,fw,y,s,d,80,tcp,z,w,1,1,1,1";
    let variants = [
        "x,fw2,y,s,d,80,tcp,z,w,1,1,1,1",
        "x,fw,y,s2,d,80,tcp,z,w,1,1,1,1",
        "x,fw,y,s,d2,80,tcp,z,w,1,1,1,1",
        "x,fw,y,s,d,81,tcp,z,w,1,1,1,1",
        "x,fw,y,s,d,80,udp,z,w,1,1,1,1",
    ];
    for v in variants.iter() {
        let agg = run(&[("a.log", &[base, v])]);
        assert_eq!(agg.table.len(), 2);
    }
    let agg = run(&[("a.log", &[base]), ("b.log", &["other,fw,more,s,d,80,tcp,q,q,1,1,1,1"])]);
    assert_eq!(agg.table.len(), 1);
    assert_eq!(agg.table.get("fw_s_d_80_tcp").unwrap().count, 2);
}

#[test]
fn accounting_adds_up() {
    let mut agg = FlowAggregator::new();
    assert_eq!(agg.process_line(LINE_A), Ok(()));
    assert_eq!(agg.process_line("too,short"), Err(LineError::MalformedLine));
    assert_eq!(agg.process_line("fw1,_,_,src1,dst1,80,tcp,_,_,,1000,5,500"), Err(LineError::MissingCounter));
    assert_eq!(agg.process_line("fw1,_,_,src9,dst1,80,tcp,_,_,1,x,5,500"), Err(LineError::InvalidNumber));
    assert_eq!(agg.process_line(LINE_B), Ok(()));
    assert_eq!(agg.stats.total_lines, 5);
    assert_eq!(agg.stats.accepted_lines, 2);
    assert_eq!(agg.stats.rejected_lines(), 3);
    assert_eq!(agg.stats.total_lines, agg.stats.accepted_lines + agg.stats.rejected_lines());
    assert_eq!(agg.table.len(), 1);
    assert!(agg.table.get("__src9_dst1_80_tcp").is_none());
}

#[test]
fn first_line_keeps_its_addresses() {
    // Both lines build the key "fw_s_x_d_80_tcp".
    let agg = run(&[("a.log", &["a,fw,b,s_x,d,80,tcp,c,e,1,1,1,1", "a,fw,b,s,x_d,80,tcp,c,e,2,2,2,2"])]);
    assert_eq!(agg.table.len(), 1);
    let r = agg.table.get("fw_s_x_d_80_tcp").unwrap();
    assert_eq!(r.source_ip, "s_x");
    assert_eq!(r.destination_ip, "d");
    assert_eq!(r.packets_in, 3);
    assert_eq!(r.count, 2);
}

#[test]
fn file_order_does_not_matter() {
    let a: &[&str] = &[LINE_A, "x,fw,y,s,d,1,icmp,z,w,7,7,7,7", "bad"];
    let b: &[&str] = &[LINE_B, "x,fw,y,s,d,1,icmp,z,w,1,2,3,4"];
    let c: &[&str] = &["x,fw9,y,s,d,1,icmp,z,w,9,9,9,9"];
    let first = run(&[("a", a), ("b", b), ("c", c)]);
    let second = run(&[("c", c), ("b", b), ("a", a)]);
    assert_eq!(sorted_records(&first), sorted_records(&second));
    assert_eq!(first.table.len(), 3);
}

#[test]
fn surrounding_white_space_is_removed() {
    let mut agg = FlowAggregator::new();
    assert_eq!(agg.process_line("  _,fw1,_,src1,dst1,80,tcp,_,_,10,1000,5,500 \r"), Ok(()));
    assert_eq!(agg.table.get("fw1_src1_dst1_80_tcp").unwrap().bytes_out, 500);
    // Without trimming, the last counter would not be a number.
    assert_eq!(parse_line("fw1,_,_,src1,dst1,80,tcp,_,_,10,1000,5,500 ").err(), Some(LineError::InvalidNumber));
}

#[test]
fn parse_line_fields() {
    let p = parse_line("0,fw,2,src,dst,8080,6,7,8,1,2,3,4,extra").ok().unwrap();
    assert_eq!(p.firewall_ip, "fw");
    assert_eq!(p.source_ip, "src");
    assert_eq!(p.destination_ip, "dst");
    assert_eq!(p.destination_port, "8080");
    assert_eq!(p.protocol_id, "6");
    assert_eq!((p.packets_in, p.bytes_in, p.packets_out, p.bytes_out), (1, 2, 3, 4));
    assert_eq!(flow_key(&p), "fw_src_dst_8080_6");
    assert_eq!(parse_line("").err(), Some(LineError::MalformedLine));
    assert_eq!(parse_line("0,1,2,3,4,5,6,7,8,1,2,3,").err(), Some(LineError::MissingCounter));
    assert_eq!(parse_line("0,1,2,3,4,5,6,7,8,1,2,-3,4").err(), Some(LineError::InvalidNumber));
    assert_eq!(parse_line("0,1,2,3,4,5,6,7,8,1,2,3,18446744073709551616").err(), Some(LineError::InvalidNumber));
    assert_eq!(parse_line("0,1,2,3,4,5,6,7,8,+1,2,3,4").ok().unwrap().packets_in, 1);
}

#[test]
fn split_fields_keeps_empty_fields() {
    assert_eq!(split_fields("a,,b,"), vec!["a".to_string(), String::new(), "b".to_string(), String::new()]);
    assert_eq!(split_fields(""), vec![String::new()]);
    assert_eq!(split_fields("é,ü"), vec!["é".to_string(), "ü".to_string()]);
}

#[test]
fn parse_u64_as_std() {
    for s in ["0", "42", "+7", "007", "18446744073709551615", "18446744073709551616", "", "+", "-1", "1a", " 1", "99999999999999999999"] {
        assert_eq!(parse_u64(&char_vec(s)), s.parse::<u64>().ok(), "{}", s);
    }
}

#[test]
fn ratio_figures() {
    assert_eq!(percent_hundredths(1, 3), 3333);
    assert_eq!(percent_hundredths(2, 3), 6667);
    assert_eq!(percent_hundredths(5, 0), 0);
    assert_eq!(rate_hundredths(2, 1000), 200);
    assert_eq!(rate_hundredths(1, 3000), 33);
    assert_eq!(rate_hundredths(7, 0), 0);
    assert_eq!(fixed2_string(5), "0.05");
    assert_eq!(fixed2_string(123456), "1234.56");
    assert_eq!(session_close_string(1, 3), "1 (33.33% of total connections)");
    assert_eq!(throughput_string(3, 2000), "1.50 connections/second");
    assert_eq!(elapsed_ms(5, 3), 0);
    assert_eq!(elapsed_ms(3, 1003), 1000);
}

#[test]
fn output_path_layout() {
    assert_eq!(output_path("./output", "20240101_120000"), "./output/FDB_DP_v11_20240101_120000.json");
}

#[test]
fn table_merge_or_insert_direct() {
    let mut t = AggregationTable::new();
    t.merge_or_insert("k".to_string(), "s".to_string(), "d".to_string(), 1, 2, 3, 4);
    t.merge_or_insert("k".to_string(), "s2".to_string(), "d2".to_string(), 1, 1, 1, 1);
    t.merge_or_insert("j".to_string(), "s".to_string(), "d".to_string(), 9, 9, 9, 9);
    assert_eq!(t.len(), 2);
    let r = t.get("k").unwrap();
    assert_eq!((r.source_ip.as_str(), r.destination_ip.as_str()), ("s", "d"));
    assert_eq!((r.packets_in, r.bytes_in, r.packets_out, r.bytes_out, r.count), (2, 3, 4, 5, 2));
    let keys: Vec<String> = t.records().into_iter().map(|r| r.key).collect();
    assert_eq!(keys, vec!["k".to_string(), "j".to_string()]);
}

#[test]
fn run_stats_counters() {
    let mut s = RunStats::new();
    s.record_line(true);
    s.record_line(false);
    s.record_file("f".to_string());
    assert_eq!((s.total_lines, s.accepted_lines, s.rejected_lines()), (2, 1, 1));
    assert_eq!(s.files_processed, vec!["f".to_string()]);
}
