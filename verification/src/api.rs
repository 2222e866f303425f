//! Decoding the remote service's loosely-typed JSON payloads into
//! records. A missing or type-mismatched field degrades to an empty
//! string or nothing, never a failure of the whole record; a payload
//! that is not the expected array decodes to no records at all.

use vstd::prelude::*;

use crate::json::{
    int_field, json_parse, parse_json, str_field, str_field_or, view_opt, Json,
    get_int_opt, get_str_opt, get_str_or,
};
use crate::records::{Activity, Agent, Spawn, TailEntry};
use crate::time::{parse_rfc3339_epoch, rfc3339_secs};

verus! {

/// Why a remote read failed: the request itself, or its payload.
#[derive(Debug)]
pub enum ApiError {
    Network(String),
    Decode(String),
}

/// Whether a health document reports the backing store connected.
pub open spec fn connected_of(j: Json) -> bool {
    match j.spec_get("database"@) {
        Some(db) => match db.spec_get("connected"@) {
            Some(v) => match v {
                Json::Bool(b) => b,
                _ => false,
            },
            _ => false,
        },
        _ => false,
    }
}

/// Whether a health payload reports the store connected; text that
/// does not parse, or reports anything else, counts disconnected.
pub fn health_ok(payload: &str) -> (r: bool)
    ensures
        r == match json_parse(payload@) {
            Some(j) => connected_of(j),
            None => false,
        },
{
    match parse_json(payload) {
        Some(j) => match j.get("database") {
            Some(db) => match db.get("connected") {
                Some(v) => match v {
                    Json::Bool(b) => *b,
                    _ => false,
                },
                None => false,
            },
            None => false,
        },
        None => false,
    }
}

/// How an agent record reads one JSON object.
pub open spec fn agent_matches(a: Agent, v: Json) -> bool {
    &&& a.id@ == str_field_or(v, "id"@, ""@)
    &&& a.identity@ == str_field_or(v, "identity"@, ""@)
    &&& a.agent_type@ == str_field_or(v, "type"@, "ai"@)
    &&& view_opt(a.model) == str_field(v, "model"@)
    &&& view_opt(a.constitution) == str_field(v, "constitution"@)
    &&& view_opt(a.avatar_path) == str_field(v, "avatar_path"@)
    &&& view_opt(a.color) == str_field(v, "color"@)
    &&& a.created_at@ == str_field_or(v, "created_at"@, ""@)
    &&& view_opt(a.archived_at) == str_field(v, "archived_at"@)
}

fn agent_from_json(v: &Json) -> (a: Agent)
    ensures
        agent_matches(a, *v),
{
    Agent {
        id: get_str_or(v, "id", ""),
        identity: get_str_or(v, "identity", ""),
        agent_type: get_str_or(v, "type", "ai"),
        model: get_str_opt(v, "model"),
        constitution: get_str_opt(v, "constitution"),
        avatar_path: get_str_opt(v, "avatar_path"),
        color: get_str_opt(v, "color"),
        created_at: get_str_or(v, "created_at", ""),
        archived_at: get_str_opt(v, "archived_at"),
    }
}

/// How a decoded agent listing relates to its payload: one record per
/// array element, nothing for anything that is not a JSON array.
pub open spec fn agents_decoded(p: Seq<char>, r: Seq<Agent>) -> bool {
    match json_parse(p) {
        Some(j) => match j {
            Json::Arr(items) => r.len() == items@.len() && (forall|i: int|
                0 <= i < r.len() ==> agent_matches(#[trigger] r[i], items@[i])),
            _ => r.len() == 0,
        },
        None => r.len() == 0,
    }
}

/// Decodes an agent listing payload.
pub fn agents_from_payload(payload: &str) -> (r: Vec<Agent>)
    ensures
        agents_decoded(payload@, r@),
{
    match parse_json(payload) {
        Some(j) => match j {
            Json::Arr(items) => {
                let n = items.len();
                let mut r: Vec<Agent> = Vec::new();
                let mut i: usize = 0;
                while i < n
                    invariant
                        n == items.len(),
                        i <= n,
                        r@.len() == i,
                        forall|k: int| 0 <= k < i ==> agent_matches(#[trigger] r@[k], items@[k]),
                    decreases n - i,
                {
                    let a = agent_from_json(&items[i]);
                    r.push(a);
                    i = i + 1;
                }
                r
            },
            _ => Vec::new(),
        },
        None => Vec::new(),
    }
}

/// How a spawn record reads one JSON object.
pub open spec fn spawn_matches(s: Spawn, v: Json) -> bool {
    &&& s.id@ == str_field_or(v, "id"@, ""@)
    &&& s.agent_id@ == str_field_or(v, "agent_id"@, ""@)
    &&& view_opt(s.project_id) == str_field(v, "project_id"@)
    &&& view_opt(s.caller_spawn_id) == str_field(v, "caller_spawn_id"@)
    &&& view_opt(s.source) == str_field(v, "source"@)
    &&& s.status@ == str_field_or(v, "status"@, "done"@)
    &&& view_opt(s.error) == str_field(v, "error"@)
    &&& s.pid == (match int_field(v, "pid"@) {
        Some(p) => Some(p as i32),
        None => None::<i32>,
    })
    &&& view_opt(s.session_id) == str_field(v, "session_id"@)
    &&& view_opt(s.summary) == str_field(v, "summary"@)
    &&& view_opt(s.trace_hash) == str_field(v, "trace_hash"@)
    &&& s.created_at@ == str_field_or(v, "created_at"@, ""@)
    &&& view_opt(s.last_active_at) == str_field(v, "last_active_at"@)
}

fn spawn_from_json(v: &Json) -> (s: Spawn)
    ensures
        spawn_matches(s, *v),
{
    let pid = match get_int_opt(v, "pid") {
        Some(p) => Some(#[verifier::truncate] (p as i32)),
        None => None,
    };
    Spawn {
        id: get_str_or(v, "id", ""),
        agent_id: get_str_or(v, "agent_id", ""),
        project_id: get_str_opt(v, "project_id"),
        caller_spawn_id: get_str_opt(v, "caller_spawn_id"),
        source: get_str_opt(v, "source"),
        status: get_str_or(v, "status", "done"),
        error: get_str_opt(v, "error"),
        pid,
        session_id: get_str_opt(v, "session_id"),
        summary: get_str_opt(v, "summary"),
        trace_hash: get_str_opt(v, "trace_hash"),
        created_at: get_str_or(v, "created_at", ""),
        last_active_at: get_str_opt(v, "last_active_at"),
    }
}

/// How a decoded spawn listing relates to its payload.
pub open spec fn spawns_decoded(p: Seq<char>, r: Seq<Spawn>) -> bool {
    match json_parse(p) {
        Some(j) => match j {
            Json::Arr(items) => r.len() == items@.len() && (forall|i: int|
                0 <= i < r.len() ==> spawn_matches(#[trigger] r[i], items@[i])),
            _ => r.len() == 0,
        },
        None => r.len() == 0,
    }
}

/// Decodes a spawn listing payload.
pub fn spawns_from_payload(payload: &str) -> (r: Vec<Spawn>)
    ensures
        spawns_decoded(payload@, r@),
{
    match parse_json(payload) {
        Some(j) => match j {
            Json::Arr(items) => {
                let n = items.len();
                let mut r: Vec<Spawn> = Vec::new();
                let mut i: usize = 0;
                while i < n
                    invariant
                        n == items.len(),
                        i <= n,
                        r@.len() == i,
                        forall|k: int| 0 <= k < i ==> spawn_matches(#[trigger] r@[k], items@[k]),
                    decreases n - i,
                {
                    let s = spawn_from_json(&items[i]);
                    r.push(s);
                    i = i + 1;
                }
                r
            },
            _ => Vec::new(),
        },
        None => Vec::new(),
    }
}

/// Whether a ledger row holds everything a record needs: who, what
/// kind, which id, and when.
pub open spec fn ledger_ok(v: Json) -> bool {
    &&& str_field(v, "agent_id"@) is Some
    &&& str_field(v, "type"@) is Some
    &&& str_field(v, "id"@) is Some
    &&& str_field(v, "created_at"@) is Some
}

/// How an activity record reads one complete ledger row.
pub open spec fn ledger_activity_matches(a: Activity, v: Json) -> bool {
    &&& a.id == 0
    &&& Some(a.agent_id@) == str_field(v, "agent_id"@)
    &&& a.spawn_id is None
    &&& Some(a.primitive@) == str_field(v, "type"@)
    &&& Some(a.primitive_id@) == str_field(v, "id"@)
    &&& a.action@ == str_field_or(v, "status"@, "created"@)
    &&& a.field is None
    &&& view_opt(a.after) == str_field(v, "content"@)
    &&& Some(a.created_at@) == str_field(v, "created_at"@)
}

/// The rows of a ledger array that hold everything needed, in order;
/// incomplete rows are dropped, one by one.
pub open spec fn ledger_rows(items: Seq<Json>) -> Seq<Json>
    decreases items.len(),
{
    if items.len() == 0 {
        Seq::empty()
    } else {
        let rest = ledger_rows(items.drop_last());
        if ledger_ok(items.last()) {
            rest.push(items.last())
        } else {
            rest
        }
    }
}

/// How a decoded activity listing relates to its payload: one record
/// per complete row, in payload order.
pub open spec fn activities_decoded(p: Seq<char>, r: Seq<Activity>) -> bool {
    match json_parse(p) {
        Some(j) => match j {
            Json::Arr(items) => {
                let rows = ledger_rows(items@);
                r.len() == rows.len() && (forall|i: int|
                    0 <= i < r.len() ==> ledger_activity_matches(#[trigger] r[i], rows[i]))
            },
            _ => r.len() == 0,
        },
        None => r.len() == 0,
    }
}

fn ledger_to_activity(v: &Json) -> (r: Option<Activity>)
    ensures
        match r {
            Some(a) => ledger_ok(*v) && ledger_activity_matches(a, *v),
            None => !ledger_ok(*v),
        },
{
    let agent_id = match get_str_opt(v, "agent_id") {
        Some(s) => s,
        None => {
            return None;
        },
    };
    let primitive = match get_str_opt(v, "type") {
        Some(s) => s,
        None => {
            return None;
        },
    };
    let primitive_id = match get_str_opt(v, "id") {
        Some(s) => s,
        None => {
            return None;
        },
    };
    let created_at = match get_str_opt(v, "created_at") {
        Some(s) => s,
        None => {
            return None;
        },
    };
    Some(
        Activity {
            id: 0,
            agent_id,
            spawn_id: None,
            primitive,
            primitive_id,
            action: get_str_or(v, "status", "created"),
            field: None,
            after: get_str_opt(v, "content"),
            created_at,
        },
    )
}

/// Decodes a ledger listing payload, dropping incomplete rows.
pub fn activities_from_payload(payload: &str) -> (r: Vec<Activity>)
    ensures
        activities_decoded(payload@, r@),
{
    match parse_json(payload) {
        Some(j) => match j {
            Json::Arr(items) => {
                let n = items.len();
                let mut r: Vec<Activity> = Vec::new();
                let mut i: usize = 0;
                proof {
                    assert(ledger_rows(items@.take(0)) =~= Seq::<Json>::empty());
                }
                while i < n
                    invariant
                        n == items.len(),
                        i <= n,
                        r@.len() == ledger_rows(items@.take(i as int)).len(),
                        forall|k: int|
                            0 <= k < r@.len() ==> ledger_activity_matches(
                                #[trigger] r@[k],
                                ledger_rows(items@.take(i as int))[k],
                            ),
                    decreases n - i,
                {
                    let ghost pre = items@.take(i as int);
                    let ghost cur = items@.take(i + 1);
                    proof {
                        assert(cur.drop_last() =~= pre);
                        assert(cur.last() == items@[i as int]);
                    }
                    match ledger_to_activity(&items[i]) {
                        Some(a) => {
                            r.push(a);
                        },
                        None => {},
                    }
                    i = i + 1;
                }
                proof {
                    assert(items@.take(n as int) =~= items@);
                }
                r
            },
            _ => Vec::new(),
        },
        None => Vec::new(),
    }
}

/// How an activity record reads one event of a spawn's feed: numbered
/// by position, scoped to the spawn.
pub open spec fn spawn_event_matches(a: Activity, v: Json, idx: int, sid: Seq<char>) -> bool {
    &&& a.id as int == idx
    &&& a.agent_id@ == str_field_or(v, "agent_id"@, ""@)
    &&& view_opt(a.spawn_id) == Some(sid)
    &&& a.primitive@ == str_field_or(v, "type"@, "event"@)
    &&& a.primitive_id@ == sid
    &&& a.action@ == str_field_or(v, "type"@, ""@)
    &&& view_opt(a.field) == str_field(v, "name"@)
    &&& view_opt(a.after) == (match str_field(v, "content"@) {
        Some(c) => Some(c),
        None => str_field(v, "args"@),
    })
    &&& a.created_at@ == str_field_or(v, "timestamp"@, ""@)
}

/// How a decoded event feed relates to its payload: the array under
/// `events`, numbered by position.
pub open spec fn spawn_events_decoded(p: Seq<char>, sid: Seq<char>, r: Seq<Activity>) -> bool {
    match json_parse(p) {
        Some(j) => match j.spec_get("events"@) {
            Some(ev) => match ev {
                Json::Arr(items) => if items@.len() <= i64::MAX {
                    r.len() == items@.len() && (forall|i: int|
                        0 <= i < r.len() ==> spawn_event_matches(#[trigger] r[i], items@[i], i, sid))
                } else {
                    r.len() == 0
                },
                _ => r.len() == 0,
            },
            None => r.len() == 0,
        },
        None => r.len() == 0,
    }
}

/// Decodes a spawn's event feed payload.
pub fn spawn_events_from_payload(payload: &str, spawn_id: &str) -> (r: Vec<Activity>)
    ensures
        spawn_events_decoded(payload@, spawn_id@, r@),
{
    let parsed = match parse_json(payload) {
        Some(j) => j,
        None => {
            return Vec::new();
        },
    };
    let events = match parsed.get("events") {
        Some(ev) => ev,
        None => {
            return Vec::new();
        },
    };
    match events {
        Json::Arr(items) => {
            let n = items.len();
            if n as u64 > i64::MAX as u64 {
                return Vec::new();
            }
            let mut r: Vec<Activity> = Vec::new();
            let mut i: usize = 0;
            while i < n
                invariant
                    n == items.len(),
                    n <= i64::MAX,
                    i <= n,
                    r@.len() == i,
                    forall|k: int|
                        0 <= k < i ==> spawn_event_matches(
                            #[trigger] r@[k],
                            items@[k],
                            k,
                            spawn_id@,
                        ),
                decreases n - i,
            {
                let v = &items[i];
                let after = match get_str_opt(v, "content") {
                    Some(c) => Some(c),
                    None => get_str_opt(v, "args"),
                };
                let a = Activity {
                    id: i as i64,
                    agent_id: get_str_or(v, "agent_id", ""),
                    spawn_id: Some(spawn_id.to_owned()),
                    primitive: get_str_or(v, "type", "event"),
                    primitive_id: spawn_id.to_owned(),
                    action: get_str_or(v, "type", ""),
                    field: get_str_opt(v, "name"),
                    after,
                    created_at: get_str_or(v, "timestamp", ""),
                };
                r.push(a);
                i = i + 1;
            }
            r
        },
        _ => Vec::new(),
    }
}

/// Whether a tail event holds the three texts every entry needs.
pub open spec fn tail_ok(v: Json) -> bool {
    &&& str_field(v, "spawn"@) is Some
    &&& str_field(v, "agent"@) is Some
    &&& str_field(v, "entry_type"@) is Some
}

/// How a tail entry reads one complete event object.
pub open spec fn tail_matches(t: TailEntry, v: Json) -> bool {
    &&& Some(t.spawn@) == str_field(v, "spawn"@)
    &&& Some(t.agent@) == str_field(v, "agent"@)
    &&& Some(t.entry_type@) == str_field(v, "entry_type"@)
    &&& view_opt(t.content) == str_field(v, "content"@)
    &&& view_opt(t.name) == str_field(v, "name"@)
    &&& view_opt(t.args) == str_field(v, "args"@)
    &&& t.ctx_pct == int_field(v, "ctx_pct"@)
}

/// Decodes one tail event object, if it is complete.
pub fn tail_entry_from_json(v: &Json) -> (r: Option<TailEntry>)
    ensures
        match r {
            Some(t) => tail_ok(*v) && tail_matches(t, *v),
            None => !tail_ok(*v),
        },
{
    let spawn = match get_str_opt(v, "spawn") {
        Some(s) => s,
        None => {
            return None;
        },
    };
    let agent = match get_str_opt(v, "agent") {
        Some(s) => s,
        None => {
            return None;
        },
    };
    let entry_type = match get_str_opt(v, "entry_type") {
        Some(s) => s,
        None => {
            return None;
        },
    };
    Some(
        TailEntry {
            spawn,
            agent,
            entry_type,
            content: get_str_opt(v, "content"),
            name: get_str_opt(v, "name"),
            args: get_str_opt(v, "args"),
            ctx_pct: get_int_opt(v, "ctx_pct"),
        },
    )
}

/// When a spawn was last seen: its last activity, or else its
/// creation, as an epoch second.
pub open spec fn spawn_ts(s: Spawn) -> Option<i64> {
    match s.last_active_at {
        Some(t) => rfc3339_secs(t@),
        None => rfc3339_secs(s.created_at@),
    }
}

/// The newest moment any spawn was seen.
pub open spec fn max_spawn_ts(ss: Seq<Spawn>) -> Option<i64>
    decreases ss.len(),
{
    if ss.len() == 0 {
        None
    } else {
        let rest = max_spawn_ts(ss.drop_last());
        match rest {
            Some(a) => match spawn_ts(ss.last()) {
                Some(b) => if b > a {
                    Some(b)
                } else {
                    Some(a)
                },
                None => Some(a),
            },
            None => spawn_ts(ss.last()),
        }
    }
}

/// The age of the newest ledger entry: nothing when there are no
/// entries, the timestamp does not parse, or the age leaves `i64`.
pub open spec fn ledger_freshness_of(acts: Seq<Activity>, now: int) -> Option<i64> {
    if acts.len() == 0 {
        None
    } else {
        match rfc3339_secs(acts.last().created_at@) {
            Some(ts) => if i64::MIN <= now - ts <= i64::MAX {
                Some((now - ts) as i64)
            } else {
                None
            },
            None => None,
        }
    }
}

/// Ages the newest fetched ledger entry against `now`.
pub fn ledger_freshness(acts: &Vec<Activity>, now: i64) -> (r: Option<i64>)
    ensures
        r == ledger_freshness_of(acts@, now as int),
{
    if acts.len() == 0 {
        return None;
    }
    let last = &acts[acts.len() - 1];
    proof {
        assert(acts@.last() == acts@[acts.len() - 1]);
    }
    match parse_rfc3339_epoch(last.created_at.as_str()) {
        Some(ts) => now.checked_sub(ts),
        None => None,
    }
}

/// The age of the most recently seen spawn: nothing when no spawn's
/// timestamp parses or the age leaves `i64`.
pub open spec fn spawns_freshness_of(ss: Seq<Spawn>, now: int) -> Option<i64> {
    match max_spawn_ts(ss) {
        Some(ts) => if i64::MIN <= now - ts <= i64::MAX {
            Some((now - ts) as i64)
        } else {
            None
        },
        None => None,
    }
}

/// Ages the most recently seen spawn against `now`.
pub fn spawns_freshness(spawns: &Vec<Spawn>, now: i64) -> (r: Option<i64>)
    ensures
        r == spawns_freshness_of(spawns@, now as int),
{
    let n = spawns.len();
    let mut best: Option<i64> = None;
    let mut i: usize = 0;
    proof {
        assert(spawns@.take(0) =~= Seq::<Spawn>::empty());
    }
    while i < n
        invariant
            n == spawns.len(),
            i <= n,
            best == max_spawn_ts(spawns@.take(i as int)),
        decreases n - i,
    {
        let ghost pre = spawns@.take(i as int);
        let ghost cur = spawns@.take(i + 1);
        proof {
            assert(cur.drop_last() =~= pre);
            assert(cur.last() == spawns@[i as int]);
        }
        let ts = match &spawns[i].last_active_at {
            Some(t) => parse_rfc3339_epoch(t.as_str()),
            None => parse_rfc3339_epoch(spawns[i].created_at.as_str()),
        };
        best = match (best, ts) {
            (Some(a), Some(b)) => if b > a {
                Some(b)
            } else {
                Some(a)
            },
            (Some(a), None) => Some(a),
            (None, b) => b,
        };
        i = i + 1;
    }
    proof {
        assert(spawns@.take(n as int) =~= spawns@);
    }
    match best {
        Some(ts) => now.checked_sub(ts),
        None => None,
    }
}

/// Finds the first human agent in a listing.
pub fn get_human_agent<'a>(agents: &'a Vec<Agent>) -> (r: Option<&'a Agent>)
    ensures
        match r {
            Some(a) => exists|k: int|
                0 <= k < agents@.len() && agents@[k] == *a && (#[trigger] agents@[k]).agent_type@
                    == "human"@,
            None => forall|k: int|
                0 <= k < agents@.len() ==> (#[trigger] agents@[k]).agent_type@ != "human"@,
        },
{
    let n = agents.len();
    let mut i: usize = 0;
    while i < n
        invariant
            n == agents.len(),
            i <= n,
            forall|k: int| 0 <= k < i ==> (#[trigger] agents@[k]).agent_type@ != "human"@,
        decreases n - i,
    {
        if crate::strutil::str_eq(agents[i].agent_type.as_str(), "human") {
            return Some(&agents[i]);
        }
        i = i + 1;
    }
    None
}

} // verus!
