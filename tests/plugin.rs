use cpu_monitor::plugin::PluginSample;

#[test]
fn parses_swap_figures() {
    let s = PluginSample::parse("SwapTotal: 100 kB\nSwapFree: 40 kB", 42);
    assert_eq!(s.get("SwapTotal"), Some(100));
    assert_eq!(s.get("SwapFree"), Some(40));
    assert_eq!(s.get("timestamps"), Some(42));
    assert_eq!(s.entries.len(), 3);
}

#[test]
fn bad_value_becomes_zero() {
    let s = PluginSample::parse("Foo: abc\nBar: -3 kB\nBaz:   7   ", 1);
    assert_eq!(s.get("Foo"), Some(0));
    assert_eq!(s.get("Bar"), Some(0));
    assert_eq!(s.get("Baz"), Some(7));
}

#[test]
fn lines_without_one_colon_are_skipped() {
    let s = PluginSample::parse("no colon here\na:1:2\n\n  Key  :  12 MB\r\n", 5);
    assert_eq!(s.get("no colon here"), None);
    assert_eq!(s.get("a"), None);
    assert_eq!(s.get("Key"), Some(12));
    assert_eq!(s.entries.len(), 2);
}

#[test]
fn later_line_and_timestamp_win() {
    let s = PluginSample::parse("x: 1\nx: 2\ntimestamps: 99", 7);
    assert_eq!(s.get("x"), Some(2));
    assert_eq!(s.get("timestamps"), Some(7));
    assert_eq!(s.entries.len(), 2);
}

#[test]
fn largest_value_and_overflow() {
    let s = PluginSample::parse("big: 18446744073709551615\nover: 18446744073709551616\nplus: +5", 0);
    assert_eq!(s.get("big"), Some(u64::MAX));
    assert_eq!(s.get("over"), Some(0));
    assert_eq!(s.get("plus"), Some(5));
}

#[test]
fn empty_text_holds_only_timestamp() {
    let s = PluginSample::parse("", 3);
    assert_eq!(s.entries.len(), 1);
    assert_eq!(s.get("timestamps"), Some(3));
}

#[test]
fn insert_replaces_value() {
    let mut s = PluginSample::new();
    s.insert("k".to_string(), 1);
    s.insert("k".to_string(), 2);
    assert_eq!(s.get("k"), Some(2));
    assert_eq!(s.entries.len(), 1);
    assert!(s.is_well_formed());
}
