use oxirast::boundary::{crash_log, crash_report_html, decimal_string, source_location, UNKNOWN_LOCATION, UNKNOWN_PANIC};

#[test]
fn decimal_matches_format() {
    for n in [0u32, 7, 10, 99, 100, 1234, 4_294_967_295] {
        assert_eq!(decimal_string(n), format!("{}", n));
    }
}

#[test]
fn location_is_file_colon_line() {
    assert_eq!(source_location("src/lib.rs", 42), "src/lib.rs:42");
}

#[test]
fn crash_report_holds_message_and_location() {
    assert_eq!(
        crash_report_html("boom", "a.rs:1"),
        "<h1>⚠️ Oxirast Crash Report</h1><div style=\"background:#220000;border:1px solid #ff0000;padding:1.5rem;\"><h3>Error:</h3><p>boom</p><hr/><h3>Location:</h3><p>a.rs:1</p></div>"
    );
    assert_eq!(crash_log("boom", "a.rs:1"), "Oxirast Panic: boom at a.rs:1");
}

#[test]
fn fallback_texts() {
    assert_eq!(UNKNOWN_PANIC, "Unknown Rust Panic inside WebAssembly");
    assert_eq!(UNKNOWN_LOCATION, "Unknown location");
}
