use space_cmd::api::{health_ok, ledger_freshness, spawns_freshness, get_human_agent, ApiError};
use space_cmd::records::{Activity, Agent, DaemonStatus, Spawn};
use space_cmd::source::{Mode, Source};

fn api_source() -> Source {
    Source::connect(true)
}

fn db_source() -> Source {
    Source::connect(false)
}

#[test]
fn api_error_variants_carry_their_text() {
    let network = ApiError::Network("connection refused".to_string());
    match network {
        ApiError::Network(m) => assert_eq!(m, "connection refused"),
        ApiError::Decode(_) => panic!("wrong variant"),
    }
    let decode = ApiError::Decode("bad payload".to_string());
    match decode {
        ApiError::Decode(m) => assert_eq!(m, "bad payload"),
        ApiError::Network(_) => panic!("wrong variant"),
    }
}

#[test]
fn connect_commits_to_probe_outcome() {
    assert_eq!(api_source().mode, Mode::Api);
    assert_eq!(db_source().mode, Mode::Db);
}

#[test]
fn health_payload_reports_connectivity() {
    assert!(health_ok("{\"database\": {\"connected\": true}}"));
    assert!(!health_ok("{\"database\": {\"connected\": false}}"));
    assert!(!health_ok("{\"database\": {}}"));
    assert!(!health_ok("{}"));
    assert!(!health_ok("not json at all"));
}

#[test]
fn api_agents_decode_tolerantly() {
    let payload = "[{\"id\": \"a1\", \"identity\": \"zealot\", \"model\": \"m\"}, {\"identity\": 7}]";
    let agents = api_source().get_agents(Some(payload), None);
    assert_eq!(agents.len(), 2);
    assert_eq!(agents[0].id, "a1");
    assert_eq!(agents[0].identity, "zealot");
    assert_eq!(agents[0].agent_type, "ai");
    assert_eq!(agents[0].model.as_deref(), Some("m"));
    assert_eq!(agents[0].created_at, "");
    assert_eq!(agents[1].id, "");
    assert_eq!(agents[1].identity, "");
}

#[test]
fn api_agents_empty_on_bad_payload() {
    assert!(api_source().get_agents(Some("{\"not\": \"array\"}"), None).is_empty());
    assert!(api_source().get_agents(Some("nonsense"), None).is_empty());
    assert!(api_source().get_agents(None, None).is_empty());
}

#[test]
fn db_agents_pass_through() {
    let row = Agent {
        id: "x".to_string(),
        identity: "y".to_string(),
        agent_type: "human".to_string(),
        model: None,
        constitution: None,
        avatar_path: None,
        color: None,
        created_at: "c".to_string(),
        archived_at: None,
    };
    let agents = db_source().get_agents(None, Some(vec![row]));
    assert_eq!(agents.len(), 1);
    assert_eq!(agents[0].id, "x");
    assert!(db_source().get_agents(Some("[]"), None).is_empty());
}

#[test]
fn identities_map_later_listing_wins() {
    let payload = "[{\"id\": \"a\", \"identity\": \"first\"}, {\"id\": \"a\", \"identity\": \"second\"}]";
    let m = api_source().get_agent_identities(Some(payload), None);
    assert_eq!(m.get("a"), Some("second".to_string()));
    assert_eq!(m.get("b"), None);
}

#[test]
fn api_spawns_decode_with_defaults() {
    let payload = "[{\"id\": \"s1\", \"agent_id\": \"a1\", \"pid\": 42, \"last_active_at\": \"t\"}]";
    let spawns = api_source().get_spawns(Some(payload), None);
    assert_eq!(spawns.len(), 1);
    assert_eq!(spawns[0].status, "done");
    assert_eq!(spawns[0].pid, Some(42));
    assert_eq!(spawns[0].last_active_at.as_deref(), Some("t"));
}

#[test]
fn ledger_rows_missing_keys_are_skipped() {
    let payload = "[\
        {\"agent_id\": \"a\", \"type\": \"decision\", \"id\": \"d1\", \"created_at\": \"t1\", \"content\": \"c\"},\
        {\"agent_id\": \"a\", \"type\": \"insight\"},\
        {\"agent_id\": \"b\", \"type\": \"task\", \"id\": \"t9\", \"created_at\": \"t2\", \"status\": \"done\"}\
    ]";
    let acts = api_source().get_ledger_activity(10, Some(payload), None);
    assert_eq!(acts.len(), 2);
    assert_eq!(acts[0].primitive, "decision");
    assert_eq!(acts[0].action, "created");
    assert_eq!(acts[0].after.as_deref(), Some("c"));
    assert_eq!(acts[1].primitive_id, "t9");
    assert_eq!(acts[1].action, "done");
}

#[test]
fn ledger_view_scopes_and_caps() {
    let payload = "[\
        {\"agent_id\": \"a\", \"type\": \"decision\", \"id\": \"d1\", \"created_at\": \"t\"},\
        {\"agent_id\": \"a\", \"type\": \"message\", \"id\": \"m1\", \"created_at\": \"t\"},\
        {\"agent_id\": \"a\", \"type\": \"insight\", \"id\": \"i1\", \"created_at\": \"t\"},\
        {\"agent_id\": \"a\", \"type\": \"task\", \"id\": \"t1\", \"created_at\": \"t\"}\
    ]";
    let acts = api_source().get_ledger_activity(10, Some(payload), None);
    assert_eq!(acts.len(), 3);
    assert_eq!(acts[0].primitive_id, "d1");
    assert_eq!(acts[1].primitive_id, "i1");
    assert_eq!(acts[2].primitive_id, "t1");
    let capped = api_source().get_ledger_activity(2, Some(payload), None);
    assert_eq!(capped.len(), 2);
    assert_eq!(capped[1].primitive_id, "i1");
    let raw = api_source().get_activity(3, Some(payload), None);
    assert_eq!(raw.len(), 3);
    assert_eq!(raw[1].primitive, "message");
}

#[test]
fn agent_activity_filters_and_caps() {
    let payload = "[\
        {\"agent_id\": \"a\", \"type\": \"x\", \"id\": \"1\", \"created_at\": \"t\"},\
        {\"agent_id\": \"b\", \"type\": \"x\", \"id\": \"2\", \"created_at\": \"t\"},\
        {\"agent_id\": \"a\", \"type\": \"x\", \"id\": \"3\", \"created_at\": \"t\"},\
        {\"agent_id\": \"a\", \"type\": \"x\", \"id\": \"4\", \"created_at\": \"t\"}\
    ]";
    let acts = api_source().get_agent_activity("a", 2, Some(payload), None);
    assert_eq!(acts.len(), 2);
    assert_eq!(acts[0].primitive_id, "1");
    assert_eq!(acts[1].primitive_id, "3");
}

#[test]
fn spawn_activity_numbers_events_by_position() {
    let payload = "{\"events\": [\
        {\"type\": \"tool_call\", \"name\": \"read\", \"args\": \"f\", \"timestamp\": \"t0\"},\
        {\"type\": \"text\", \"content\": \"hi\", \"timestamp\": \"t1\"}\
    ]}";
    let acts = api_source().get_spawn_activity("sp1", Some(payload), None);
    assert_eq!(acts.len(), 2);
    assert_eq!(acts[0].id, 0);
    assert_eq!(acts[1].id, 1);
    assert_eq!(acts[0].spawn_id.as_deref(), Some("sp1"));
    assert_eq!(acts[0].field.as_deref(), Some("read"));
    assert_eq!(acts[0].after.as_deref(), Some("f"));
    assert_eq!(acts[1].after.as_deref(), Some("hi"));
    assert_eq!(acts[1].primitive, "text");
}

#[test]
fn daemon_status_carries_live_count() {
    let parsed = DaemonStatus {
        running: true,
        pid: Some(7),
        enabled: true,
        concurrency: 4,
        active_count: 0,
        last_skip: None,
    };
    let s = db_source().get_daemon_status(Some(parsed), 3);
    assert!(s.running);
    assert_eq!(s.active_count, 3);
    let d = db_source().get_daemon_status(None, 2);
    assert!(!d.running);
    assert_eq!(d.active_count, 2);
}

#[test]
fn tail_skips_malformed_lines_and_reverses() {
    let shard = "\
{\"spawn\": \"s1\", \"agent\": \"a\", \"entry_type\": \"text\", \"content\": \"one\"}\n\
this line is not json\n\
{\"spawn\": \"s2\", \"agent\": \"a\", \"entry_type\": \"tool\", \"name\": \"read\", \"ctx_pct\": 55}\n\
{\"agent\": \"a\", \"entry_type\": \"text\"}\n\
{\"spawn\": \"s3\", \"agent\": \"b\", \"entry_type\": \"text\", \"content\": \"three\"}\n";
    let entries = db_source().get_tail(Some(shard), 10);
    assert_eq!(entries.len(), 3);
    assert_eq!(entries[0].spawn, "s3");
    assert_eq!(entries[1].spawn, "s2");
    assert_eq!(entries[1].ctx_pct, Some(55));
    assert_eq!(entries[2].spawn, "s1");

    let capped = db_source().get_tail(Some(shard), 2);
    assert_eq!(capped.len(), 2);
    assert_eq!(capped[0].spawn, "s3");
    assert_eq!(capped[1].spawn, "s2");

    assert!(db_source().get_tail(None, 10).is_empty());
    assert!(db_source().get_tail(Some(shard), 0).is_empty());
}

#[test]
fn agent_tail_keeps_one_agents_events() {
    let shard = "\
{\"spawn\": \"s1\", \"agent\": \"a\", \"entry_type\": \"text\"}\n\
{\"spawn\": \"s2\", \"agent\": \"b\", \"entry_type\": \"text\"}\n\
{\"spawn\": \"s3\", \"agent\": \"a\", \"entry_type\": \"text\"}\n";
    let entries = db_source().get_agent_tail("a", Some(shard), 10);
    assert_eq!(entries.len(), 2);
    assert_eq!(entries[0].spawn, "s3");
    assert_eq!(entries[1].spawn, "s1");
}

#[test]
fn ledger_freshness_ages_newest_entry() {
    let act = Activity {
        id: 0,
        agent_id: "a".to_string(),
        spawn_id: None,
        primitive: "decision".to_string(),
        primitive_id: "d".to_string(),
        action: "created".to_string(),
        field: None,
        after: None,
        created_at: "2026-02-06T12:34:56Z".to_string(),
    };
    assert_eq!(ledger_freshness(&vec![act], 1770381296 + 10), Some(10));
    assert_eq!(ledger_freshness(&Vec::new(), 5), None);
    let bad = Activity {
        created_at: "yesterday".to_string(),
        id: 0,
        agent_id: "a".to_string(),
        spawn_id: None,
        primitive: "p".to_string(),
        primitive_id: "i".to_string(),
        action: "x".to_string(),
        field: None,
        after: None,
    };
    assert_eq!(ledger_freshness(&vec![bad], 5), None);
}

#[test]
fn spawns_freshness_takes_most_recent_activity() {
    let mk = |created: &str, active: Option<&str>| Spawn {
        id: "s".to_string(),
        agent_id: "a".to_string(),
        project_id: None,
        caller_spawn_id: None,
        source: None,
        status: "active".to_string(),
        error: None,
        pid: None,
        session_id: None,
        summary: None,
        trace_hash: None,
        created_at: created.to_string(),
        last_active_at: active.map(|s| s.to_string()),
    };
    let now = 1770381296 + 100;
    let spawns = vec![
        mk("2026-02-06T12:34:00Z", None),
        mk("2026-02-06T12:00:00Z", Some("2026-02-06T12:34:56Z")),
    ];
    assert_eq!(spawns_freshness(&spawns, now), Some(100));
    assert_eq!(spawns_freshness(&Vec::new(), now), None);
    assert_eq!(spawns_freshness(&vec![mk("nope", None)], now), None);
}

#[test]
fn human_agent_is_first_human_listed() {
    let mk = |id: &str, kind: &str| Agent {
        id: id.to_string(),
        identity: id.to_string(),
        agent_type: kind.to_string(),
        model: None,
        constitution: None,
        avatar_path: None,
        color: None,
        created_at: "t".to_string(),
        archived_at: None,
    };
    let agents = vec![mk("a", "ai"), mk("h", "human"), mk("h2", "human")];
    assert_eq!(get_human_agent(&agents).map(|a| a.id.clone()), Some("h".to_string()));
    assert!(get_human_agent(&vec![mk("a", "ai")]).is_none());
}
