use space_cmd::api::ledger_freshness;
use space_cmd::records::Activity;
use space_cmd::time::{format_elapsed_at, format_elapsed_time, parse_iso_timestamp};

fn entry_created_at(ts: &str) -> Activity {
    Activity {
        id: 0,
        agent_id: "a".to_string(),
        spawn_id: None,
        primitive: "decision".to_string(),
        primitive_id: "d".to_string(),
        action: "created".to_string(),
        field: None,
        after: None,
        created_at: ts.to_string(),
    }
}

#[test]
fn format_seconds() {
    let ts = "2025-11-05T21:50:00Z";
    let formatted = format_elapsed_time(ts);
    assert!(formatted.ends_with('s') || formatted.ends_with('m'));
}

#[test]
fn parse_iso_timestamp_known_instant() {
    // 2025-11-05 21:50:00 UTC
    assert_eq!(parse_iso_timestamp("2025-11-05T21:50:00Z", 0), 1762379400);
}

#[test]
fn parse_iso_timestamp_fallback_on_malformed() {
    assert_eq!(parse_iso_timestamp("garbage", 42), 42);
    assert_eq!(parse_iso_timestamp("2025-11-05", 7), 7);
}

#[test]
fn elapsed_text_units() {
    let base = 1762379400u64;
    assert_eq!(format_elapsed_at("2025-11-05T21:50:00Z", base + 5), "5s");
    assert_eq!(format_elapsed_at("2025-11-05T21:50:00Z", base + 90), "1m30s");
    assert_eq!(format_elapsed_at("2025-11-05T21:50:00Z", base + 7200), "2h0m");
}

#[test]
fn parse_rfc3339_utc_accepts_zulu() {
    // 2026-02-06 12:34:56 UTC is epoch second 1770381296; ageing it
    // works only when the timestamp parsed.
    let acts = vec![entry_created_at("2026-02-06T12:34:56Z")];
    assert_eq!(ledger_freshness(&acts, 1770381296), Some(0));
}

#[test]
fn parse_rfc3339_utc_accepts_offset() {
    // The same wall-clock reading five hours west is five hours later.
    let acts = vec![entry_created_at("2026-02-06T12:34:56-05:00")];
    assert_eq!(ledger_freshness(&acts, 1770381296 + 5 * 3600), Some(0));
}

#[test]
fn parse_rfc3339_rejects_bare_date() {
    let acts = vec![entry_created_at("2026-02-06")];
    assert_eq!(ledger_freshness(&acts, 1770381296), None);
}
