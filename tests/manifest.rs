use fisher::manifest::{
    decimal_string, format_record, is_indexed, locate, manifest_total, parse_count, parse_manifest,
    parse_record, ManifestEntry,
};

fn entry(path: &str, n: usize) -> ManifestEntry {
    ManifestEntry { path: path.to_string(), chunk_count: n }
}

#[test]
fn record_is_path_space_count() {
    let e = parse_record("a.txt 2").unwrap();
    assert_eq!(e.path, "a.txt");
    assert_eq!(e.chunk_count, 2);
}

#[test]
fn paths_may_hold_spaces() {
    let e = parse_record("a b 3").unwrap();
    assert_eq!(e.path, "a b");
    assert_eq!(e.chunk_count, 3);
    let dir = entry("/home/u/My Documents/notes 2.txt", 4);
    let back = parse_manifest(&format_record(&dir));
    assert_eq!(back.len(), 1);
    assert_eq!(back[0].path, "/home/u/My Documents/notes 2.txt");
    assert_eq!(back[0].chunk_count, 4);
    assert!(parse_record("a b").is_none());
    assert!(parse_record("a 3 x").is_none());
}

#[test]
fn totals_of_entries() {
    assert_eq!(manifest_total(&vec![entry("a", 2), entry("b", 1)]), Some(3));
    assert_eq!(manifest_total(&Vec::new()), Some(0));
    assert_eq!(manifest_total(&vec![entry("a", usize::MAX), entry("b", 0)]), Some(usize::MAX));
    assert_eq!(manifest_total(&vec![entry("a", usize::MAX), entry("b", 1)]), None);
}

#[test]
fn malformed_records_are_refused() {
    assert!(parse_record("").is_none());
    assert!(parse_record("a.txt").is_none());
    assert!(parse_record("a.txt ").is_none());
    assert!(parse_record(" 3").is_none());
    assert!(parse_record("a.txt x3").is_none());
    assert!(parse_record("a.txt\t3").is_none());
    assert!(parse_record("a.txt 99999999999999999999999").is_none());
}

#[test]
fn counts_parse_in_decimal() {
    assert_eq!(parse_count("0"), Some(0));
    assert_eq!(parse_count("1234"), Some(1234));
    assert_eq!(parse_count(&usize::MAX.to_string()), Some(usize::MAX));
    assert_eq!(parse_count(""), None);
    assert_eq!(parse_count("12a"), None);
    assert_eq!(parse_count("18446744073709551616"), None);
}

#[test]
fn decimal_strings() {
    assert_eq!(decimal_string(0), "0");
    assert_eq!(decimal_string(7), "7");
    assert_eq!(decimal_string(1030), "1030");
    assert_eq!(decimal_string(usize::MAX), usize::MAX.to_string());
}

#[test]
fn record_lines_round_trip() {
    let e = entry("/data/docs/b.txt", 17);
    let line = format_record(&e);
    assert_eq!(line, "/data/docs/b.txt 17\n");
    let back = parse_manifest(&line);
    assert_eq!(back.len(), 1);
    assert_eq!(back[0].path, "/data/docs/b.txt");
    assert_eq!(back[0].chunk_count, 17);
}

#[test]
fn manifest_keeps_order_and_skips_junk() {
    let text = "a.txt 2\nnot a record\nb.txt 1\n\nc.pdf 4";
    let es = parse_manifest(text);
    let got: Vec<(String, usize)> = es.iter().map(|e| (e.path.clone(), e.chunk_count)).collect();
    assert_eq!(got, vec![("a.txt".to_string(), 2), ("b.txt".to_string(), 1), ("c.pdf".to_string(), 4)]);
}

#[test]
fn locate_walks_entries_in_order() {
    let es = vec![entry("a.txt", 2), entry("b.txt", 1)];
    assert_eq!(locate(&es, 0), Some((0, 0)));
    assert_eq!(locate(&es, 1), Some((0, 1)));
    assert_eq!(locate(&es, 2), Some((1, 0)));
    assert_eq!(locate(&es, 3), None);
    assert_eq!(locate(&es, usize::MAX), None);
    assert_eq!(locate(&Vec::new(), 0), None);
}

#[test]
fn locate_passes_over_empty_entries() {
    let es = vec![entry("a", 0), entry("b", 3), entry("c", 0), entry("d", 2)];
    assert_eq!(locate(&es, 0), Some((1, 0)));
    assert_eq!(locate(&es, 3), Some((3, 0)));
    assert_eq!(locate(&es, 4), Some((3, 1)));
    assert_eq!(locate(&es, 5), None);
}

#[test]
fn indexed_paths_are_found() {
    let es = vec![entry("a.txt", 2), entry("b.txt", 1)];
    assert!(is_indexed(&es, &"b.txt".to_string()));
    assert!(!is_indexed(&es, &"c.txt".to_string()));
    assert!(!is_indexed(&Vec::new(), &"a.txt".to_string()));
}

#[test]
fn appended_record_reads_back_last() {
    let mut text = String::from("a.txt 2\nb.txt 1\n");
    text.push_str(&format_record(&entry("c.txt", 1)));
    let es = parse_manifest(&text);
    let got: Vec<(String, usize)> = es.iter().map(|e| (e.path.clone(), e.chunk_count)).collect();
    assert_eq!(
        got,
        vec![("a.txt".to_string(), 2), ("b.txt".to_string(), 1), ("c.txt".to_string(), 1)]
    );
}
