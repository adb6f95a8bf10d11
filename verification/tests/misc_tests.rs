use userspace::kernel::kernel_capabilities::SystemCapabilities;
use userspace::kernel::syscall_net::{InterfaceAddr, InterfaceTable};
use userspace::oroboros::{
    args_complete, backoff_wait, doc_and_name, next_retry_wait, parse_args, trim_slashes,
    CouchConfig,
};
use userspace::scan::{contains_bytes, parse_u32_radix, split_bytes, split_fields};
use userspace::text::{push_decimal_u64, push_signed_zero_padded};

#[test]
fn dsel_stub_compiles() {
    // The helpers are optional scaffolding; the crate builds without them.
    fn _test_module_exists() {}
}

fn config(base: &str) -> CouchConfig {
    CouchConfig {
        base: base.to_string(),
        db: "testdb".to_string(),
        user: None,
        pass: None,
        concurrency: 0,
        max_retries: 5,
    }
}

#[test]
fn document_urls_are_percent_encoded() {
    let cfg = config("http://127.0.0.1:5984//");
    assert_eq!(cfg.doc_url("doc1"), "http://127.0.0.1:5984/testdb/doc1");
    assert_eq!(cfg.doc_url("special/id"), "http://127.0.0.1:5984/testdb/special%2Fid");
    assert_eq!(
        cfg.attachment_url("doc1", "avatar.png", Some("1-abc")),
        "http://127.0.0.1:5984/testdb/doc1/avatar.png?rev=1-abc"
    );
    assert_eq!(
        cfg.attachment_url("d", "a b", None),
        "http://127.0.0.1:5984/testdb/d/a%20b"
    );
    assert_eq!(cfg.doc_url("é"), "http://127.0.0.1:5984/testdb/%C3%A9");
    assert_eq!(cfg.permits(), 1);
    assert_eq!(trim_slashes("a/b//"), "a/b");
}

#[test]
fn retry_backoff_doubles_and_caps() {
    assert_eq!(backoff_wait(150, 1, 0, 10_000), 150);
    assert_eq!(backoff_wait(150, 3, 7, 10_000), 607);
    assert_eq!(backoff_wait(150, 10, 0, 10_000), 10_000);
    assert_eq!(backoff_wait(0, 0, 3, 10), 3);
    for _ in 0..20 {
        let w = next_retry_wait(120, 2, 8_000);
        assert!(w >= 240 && w < 360);
    }
}

#[test]
fn watched_paths_name_document_and_attachment() {
    let comps = vec!["watch".to_string(), "doc1".to_string(), "avatar.png".to_string()];
    assert_eq!(doc_and_name(&comps), Some(("doc1".to_string(), "avatar.png".to_string())));
    assert_eq!(doc_and_name(&vec!["x".to_string()]), None);
}

#[test]
fn scanning_text() {
    assert!(contains_bytes(b"HugePages_Total: 0", b"HugePages_Total"));
    assert!(!contains_bytes(b"numb", b"numa"));
    assert!(contains_bytes(b"", b""));
    assert_eq!(parse_u32_radix(b"0101A8C0", 16), Some(0x0101A8C0));
    assert_eq!(parse_u32_radix(b"+15", 10), Some(15));
    assert_eq!(parse_u32_radix(b"4294967296", 10), None);
    assert_eq!(parse_u32_radix(b"4294967295", 10), Some(u32::MAX));
    assert_eq!(parse_u32_radix(b"-1", 10), None);
    assert_eq!(parse_u32_radix(b"+", 10), None);
    assert_eq!(parse_u32_radix(b"", 16), None);
    assert_eq!(split_bytes(b"5.15.0", b'.'), vec![b"5".to_vec(), b"15".to_vec(), b"0".to_vec()]);
    assert_eq!(split_bytes(b"", b'.'), vec![Vec::<u8>::new()]);
    assert_eq!(
        split_fields(b"  eth0\t00000000 \r\n"),
        vec![b"eth0".to_vec(), b"00000000".to_vec()]
    );
}

#[test]
fn decimal_rendering() {
    let mut s = String::new();
    push_decimal_u64(&mut s, 1234);
    assert_eq!(s, "1234");
    let mut t = String::new();
    push_signed_zero_padded(&mut t, -7, 4);
    assert_eq!(t, "-007");
}

#[test]
fn command_line_reading() {
    let argv: Vec<String> = ["oroboros", "--url", "http://h:1", "--db", "d", "--watch", "/w",
        "--interval", "abc", "--concurrency", "8", "--retries", "x", "--user", "u"]
        .iter()
        .map(|s| s.to_string())
        .collect();
    assert!(args_complete(&argv));
    let (w, c) = parse_args(&argv);
    assert_eq!(w.couch_url, "http://h:1");
    assert_eq!(w.db, "d");
    assert_eq!(w.watch_dir, "/w");
    assert_eq!(w.batch_interval_ms, 2000);
    assert_eq!(w.username, Some("u".to_string()));
    assert_eq!(w.password, None);
    assert_eq!(c.concurrency, 8);
    assert_eq!(c.max_retries, 5);
    let defaults = parse_args(&vec!["oroboros".to_string()]);
    assert_eq!(defaults.0.couch_url, "http://127.0.0.1:5984");
    assert_eq!(defaults.0.db, "mydb");
    assert_eq!(defaults.0.watch_dir, ".");
    assert_eq!(defaults.1.concurrency, 4);
    let dangling: Vec<String> = vec!["oroboros".to_string(), "--db".to_string()];
    assert!(!args_complete(&dangling));
}

#[test]
fn capability_report_lines() {
    let caps = SystemCapabilities {
        io_uring_available: true,
        ebpf_capable: false,
        hugepages_available: true,
        numa_supported: false,
        simd_extensions: vec!["SSE2".to_string(), "AVX".to_string()],
    };
    let lines = caps.report_lines();
    assert_eq!(lines[0], "System Capabilities:");
    assert_eq!(lines[1], "  io_uring:        true");
    assert_eq!(lines[2], "  eBPF:           false");
    assert_eq!(lines[5], "  SIMD Extensions: SSE2, AVX");
}

#[test]
fn interface_table_groups_addresses_by_name() {
    let mut t = InterfaceTable::new();
    t.add_entry("eth0", 0x1043, None);
    t.add_entry("eth0", 0x9999, Some(InterfaceAddr::V4(0x0A000001)));
    t.add_entry("lo", 0x49, Some(InterfaceAddr::V4(0x7F000001)));
    t.add_entry("eth0", 0x1043, Some(InterfaceAddr::V6([0xfe; 16])));
    assert_eq!(t.len(), 2);
    let eth = t.get("eth0").unwrap();
    assert_eq!(eth.flags, 0x1043);
    assert_eq!(eth.addrs, vec![InterfaceAddr::V4(0x0A000001), InterfaceAddr::V6([0xfe; 16])]);
    assert!(t.get("wlan0").is_none());
}

#[test]
fn context_snapshot_text() {
    assert_eq!(
        userspace::dsel::snapshot_context(true, false),
        "CoroutineContext { cancelled: true, is_completed: false }"
    );
}
