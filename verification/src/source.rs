//! The data source: one backend is chosen at connect time from the
//! reachability probe and every read thereafter dispatches to it. The
//! caller performs the network or file read and hands the raw payload
//! in; decoding, filtering and ordering happen here, and any read
//! that brought nothing yields an empty result rather than an error.

use vstd::prelude::*;

use crate::api::{
    activities_decoded, activities_from_payload, agents_decoded, agents_from_payload,
    spawn_events_decoded, spawn_events_from_payload, spawns_decoded, spawns_from_payload,
    tail_entry_from_json, tail_matches, tail_ok,
};
use crate::app::StringMap;
use crate::json::{json_parse, parse_json, str_field, Json};
use crate::records::{Activity, Agent, DaemonStatus, Spawn, TailEntry};
use crate::strutil::{dec_int_str, i64_to_string, lines_of, split_lines, str_eq};

verus! {

/// The backend a session committed to.
#[derive(Debug, Clone, Copy, PartialEq, Eq, Structural)]
pub enum Mode {
    Api,
    Db,
}

/// The sticky backend selection.
#[derive(Debug, Clone, Copy)]
pub struct Source {
    pub mode: Mode,
}

/// The least local schema version the reads assume.
pub const MIN_SCHEMA_VERSION: i64 = 1;

/// Gates the local backend on its schema version: an older store is
/// refused outright, with the message telling which versions met.
pub fn check_schema_version(version: i64) -> (r: Result<(), String>)
    ensures
        version >= MIN_SCHEMA_VERSION <==> r is Ok,
        r matches Err(e) ==> e@ == "space-os schema v1 required, found v"@ + dec_int_str(
            version as int,
        ) + ". Run `space upgrade`"@,
{
    if version >= MIN_SCHEMA_VERSION {
        Ok(())
    } else {
        let mut msg = String::new();
        msg.append("space-os schema v1 required, found v");
        let v = i64_to_string(version);
        msg.append(v.as_str());
        msg.append(". Run `space upgrade`");
        proof {
            assert(msg@ =~= "space-os schema v1 required, found v"@ + dec_int_str(version as int)
                + ". Run `space upgrade`"@);
        }
        Err(msg)
    }
}

/// The identity of the last listed agent with a given id.
pub open spec fn ident_lookup(ss: Seq<Agent>, k: Seq<char>) -> Option<Seq<char>>
    decreases ss.len(),
{
    if ss.len() == 0 {
        None
    } else if ss.last().id@ == k {
        Some(ss.last().identity@)
    } else {
        ident_lookup(ss.drop_last(), k)
    }
}

/// Maps agent ids to identities; with one id listed twice, the later
/// listing wins.
pub fn agent_identities(agents: &Vec<Agent>) -> (r: StringMap)
    ensures
        forall|k: Seq<char>| #[trigger] r.spec_get(k) == ident_lookup(agents@, k),
{
    let n = agents.len();
    let mut m = StringMap::new();
    let mut i: usize = 0;
    proof {
        assert(agents@.take(0) =~= Seq::<Agent>::empty());
    }
    while i < n
        invariant
            n == agents.len(),
            i <= n,
            forall|k: Seq<char>| #[trigger] m.spec_get(k) == ident_lookup(agents@.take(i as int), k),
        decreases n - i,
    {
        let ghost pre = agents@.take(i as int);
        let ghost cur = agents@.take(i + 1);
        proof {
            assert(cur.drop_last() =~= pre);
            assert(cur.last() == agents@[i as int]);
        }
        let id = agents[i].id.clone();
        let identity = agents[i].identity.clone();
        m.insert(id, identity);
        i = i + 1;
    }
    proof {
        assert(agents@.take(n as int) =~= agents@);
    }
    m
}

/// Whether an activity row belongs to the ledger view: a decision,
/// an insight, or a task.
pub open spec fn is_ledger_primitive(p: Seq<char>) -> bool {
    p == "decision"@ || p == "insight"@ || p == "task"@
}

/// The ledger-scoped rows of a listing, in listed order.
pub open spec fn ledger_scoped(acts: Seq<Activity>) -> Seq<Activity>
    decreases acts.len(),
{
    if acts.len() == 0 {
        Seq::empty()
    } else {
        let rest = ledger_scoped(acts.drop_last());
        if is_ledger_primitive(acts.last().primitive@) {
            rest.push(acts.last())
        } else {
            rest
        }
    }
}

/// The activities of one agent, in listed order.
pub open spec fn acts_of_agent(acts: Seq<Activity>, aid: Seq<char>) -> Seq<Activity>
    decreases acts.len(),
{
    if acts.len() == 0 {
        Seq::empty()
    } else {
        let rest = acts_of_agent(acts.drop_last(), aid);
        if acts.last().agent_id@ == aid {
            rest.push(acts.last())
        } else {
            rest
        }
    }
}

/// The smaller of a limit and a length.
pub open spec fn capped(limit: int, len: int) -> int {
    if limit < len {
        limit
    } else {
        len
    }
}

/// The events of a shard's lines that decode as complete tail
/// entries, in file order; lines that do not parse are skipped.
pub open spec fn valid_tail_jsons(lines: Seq<Seq<char>>) -> Seq<Json>
    decreases lines.len(),
{
    if lines.len() == 0 {
        Seq::empty()
    } else {
        let rest = valid_tail_jsons(lines.drop_last());
        match json_parse(lines.last()) {
            Some(j) => if tail_ok(j) {
                rest.push(j)
            } else {
                rest
            },
            None => rest,
        }
    }
}

/// As `valid_tail_jsons`, keeping only one agent's events.
pub open spec fn valid_tail_jsons_for(lines: Seq<Seq<char>>, agent: Seq<char>) -> Seq<Json>
    decreases lines.len(),
{
    if lines.len() == 0 {
        Seq::empty()
    } else {
        let rest = valid_tail_jsons_for(lines.drop_last(), agent);
        match json_parse(lines.last()) {
            Some(j) => if tail_ok(j) && str_field(j, "agent"@) == Some(agent) {
                rest.push(j)
            } else {
                rest
            },
            None => rest,
        }
    }
}

/// Cuts a listing to its first `limit` ledger-scoped rows.
fn ledger_slice(all: &Vec<Activity>, limit: usize) -> (r: Vec<Activity>)
    ensures
        r@ == ledger_scoped(all@).take(capped(limit as int, ledger_scoped(all@).len() as int)),
        r@.len() <= limit,
        forall|i: int| 0 <= i < r@.len() ==> is_ledger_primitive((#[trigger] r@[i]).primitive@),
{
    let n = all.len();
    let mut r: Vec<Activity> = Vec::new();
    let mut i: usize = 0;
    proof {
        assert(all@.take(0) =~= Seq::<Activity>::empty());
        assert(ledger_scoped(all@.take(0)) =~= Seq::<Activity>::empty());
    }
    while i < n
        invariant
            n == all.len(),
            i <= n,
            r@.len() <= limit,
            r@.len() <= ledger_scoped(all@.take(i as int)).len(),
            r@ == ledger_scoped(all@.take(i as int)).take(
                capped(limit as int, ledger_scoped(all@.take(i as int)).len() as int),
            ),
            forall|k: int| 0 <= k < r@.len() ==> is_ledger_primitive((#[trigger] r@[k]).primitive@),
        decreases n - i,
    {
        let ghost pre = all@.take(i as int);
        let ghost cur = all@.take(i + 1);
        proof {
            assert(cur.drop_last() =~= pre);
            assert(cur.last() == all@[i as int]);
        }
        let keep = str_eq(all[i].primitive.as_str(), "decision") || str_eq(
            all[i].primitive.as_str(),
            "insight",
        ) || str_eq(all[i].primitive.as_str(), "task");
        if r.len() < limit && keep {
            let a = Activity {
                id: all[i].id,
                agent_id: all[i].agent_id.clone(),
                spawn_id: all[i].spawn_id.clone(),
                primitive: all[i].primitive.clone(),
                primitive_id: all[i].primitive_id.clone(),
                action: all[i].action.clone(),
                field: all[i].field.clone(),
                after: all[i].after.clone(),
                created_at: all[i].created_at.clone(),
            };
            proof {
                assert(a == all@[i as int]);
            }
            r.push(a);
        }
        proof {
            let fpre = ledger_scoped(pre);
            let fcur = ledger_scoped(cur);
            if is_ledger_primitive(all@[i as int].primitive@) {
                assert(fcur == fpre.push(all@[i as int]));
                if r@.len() > fpre.take(capped(limit as int, fpre.len() as int)).len() {
                    assert(r@ =~= fcur.take(capped(limit as int, fcur.len() as int)));
                } else {
                    assert(r@ =~= fcur.take(capped(limit as int, fcur.len() as int)));
                }
            } else {
                assert(fcur == fpre);
            }
        }
        i = i + 1;
    }
    proof {
        assert(all@.take(n as int) =~= all@);
    }
    r
}

impl Source {
    /// Commits to the remote backend when the reachability probe
    /// succeeded and reported the store connected, and to the local
    /// one otherwise; the choice never changes afterwards.
    pub fn connect(api_ok: bool) -> (s: Source)
        ensures
            s.mode == if api_ok {
                Mode::Api
            } else {
                Mode::Db
            },
    {
        if api_ok {
            Source { mode: Mode::Api }
        } else {
            Source { mode: Mode::Db }
        }
    }

    /// The agent listing: decoded from the remote payload in API
    /// mode, the local rows otherwise; a missing read yields nothing.
    pub fn get_agents(&self, api_payload: Option<&str>, db_rows: Option<Vec<Agent>>) -> (r: Vec<
        Agent,
    >)
        ensures
            self.mode is Api ==> match api_payload {
                Some(p) => agents_decoded(p@, r@),
                None => r@.len() == 0,
            },
            self.mode is Db ==> match db_rows {
                Some(rows) => r == rows,
                None => r@.len() == 0,
            },
    {
        match self.mode {
            Mode::Api => match api_payload {
                Some(p) => agents_from_payload(p),
                None => Vec::new(),
            },
            Mode::Db => match db_rows {
                Some(rows) => rows,
                None => Vec::new(),
            },
        }
    }

    /// The id-to-identity map over the agent listing.
    pub fn get_agent_identities(&self, api_payload: Option<&str>, db_rows: Option<Vec<Agent>>) -> (
        r: StringMap)
        ensures
            exists|ags: Seq<Agent>|
                {
                    &&& (self.mode is Api ==> match api_payload {
                        Some(p) => agents_decoded(p@, ags),
                        None => ags.len() == 0,
                    })
                    &&& (self.mode is Db ==> match db_rows {
                        Some(rows) => ags == rows@,
                        None => ags.len() == 0,
                    })
                    &&& forall|k: Seq<char>| #[trigger] r.spec_get(k) == ident_lookup(ags, k)
                },
    {
        let agents = self.get_agents(api_payload, db_rows);
        let r = agent_identities(&agents);
        proof {
            let ags = agents@;
            assert((self.mode is Api ==> match api_payload {
                Some(p) => agents_decoded(p@, ags),
                None => ags.len() == 0,
            }) && (self.mode is Db ==> match db_rows {
                Some(rows) => ags == rows@,
                None => ags.len() == 0,
            }) && (forall|k: Seq<char>| #[trigger] r.spec_get(k) == ident_lookup(ags, k)));
        }
        r
    }

    /// The spawn listing, by the chosen backend.
    pub fn get_spawns(&self, api_payload: Option<&str>, db_rows: Option<Vec<Spawn>>) -> (r: Vec<
        Spawn,
    >)
        ensures
            self.mode is Api ==> match api_payload {
                Some(p) => spawns_decoded(p@, r@),
                None => r@.len() == 0,
            },
            self.mode is Db ==> match db_rows {
                Some(rows) => r == rows,
                None => r@.len() == 0,
            },
    {
        match self.mode {
            Mode::Api => match api_payload {
                Some(p) => spawns_from_payload(p),
                None => Vec::new(),
            },
            Mode::Db => match db_rows {
                Some(rows) => rows,
                None => Vec::new(),
            },
        }
    }

    /// The activity listing, by the chosen backend, at most `limit`
    /// rows.
    pub fn get_activity(
        &self,
        limit: usize,
        api_payload: Option<&str>,
        db_rows: Option<Vec<Activity>>,
    ) -> (r: Vec<Activity>)
        ensures
            r@.len() <= limit,
            self.mode is Api ==> match api_payload {
                Some(p) => exists|all: Seq<Activity>|
                    #[trigger] activities_decoded(p@, all) && r@ == all.take(
                        capped(limit as int, all.len() as int),
                    ),
                None => r@.len() == 0,
            },
            self.mode is Db ==> match db_rows {
                Some(rows) => r@ == rows@.take(capped(limit as int, rows@.len() as int)),
                None => r@.len() == 0,
            },
    {
        match self.mode {
            Mode::Api => match api_payload {
                Some(p) => {
                    let mut all = activities_from_payload(p);
                    let ghost dec = all@;
                    all.truncate(limit);
                    proof {
                        assert(all@ =~= dec.take(capped(limit as int, dec.len() as int)));
                    }
                    all
                },
                None => Vec::new(),
            },
            Mode::Db => match db_rows {
                Some(rows) => {
                    let mut rows = rows;
                    let ghost pre = rows@;
                    rows.truncate(limit);
                    proof {
                        assert(rows@ =~= pre.take(capped(limit as int, pre.len() as int)));
                    }
                    rows
                },
                None => Vec::new(),
            },
        }
    }

    /// One agent's activity. The remote feed cannot filter by agent,
    /// so the over-fetched payload is filtered here and cut to
    /// `limit`; the local backend filters in its query and its rows
    /// pass through.
    pub fn get_agent_activity(
        &self,
        agent_id: &str,
        limit: usize,
        api_payload: Option<&str>,
        db_rows: Option<Vec<Activity>>,
    ) -> (r: Vec<Activity>)
        ensures
            self.mode is Api ==> match api_payload {
                Some(p) => exists|all: Seq<Activity>|
                    #[trigger] activities_decoded(p@, all) && r@ == acts_of_agent(
                        all,
                        agent_id@,
                    ).take(capped(limit as int, acts_of_agent(all, agent_id@).len() as int)),
                None => r@.len() == 0,
            },
            self.mode is Db ==> match db_rows {
                Some(rows) => r == rows,
                None => r@.len() == 0,
            },
    {
        match self.mode {
            Mode::Api => match api_payload {
                Some(p) => {
                    let all = activities_from_payload(p);
                    let n = all.len();
                    let mut r: Vec<Activity> = Vec::new();
                    let mut i: usize = 0;
                    proof {
                        assert(all@.take(0) =~= Seq::<Activity>::empty());
                        assert(acts_of_agent(all@.take(0), agent_id@) =~= Seq::<
                            Activity,
                        >::empty());
                    }
                    while i < n
                        invariant
                            n == all.len(),
                            i <= n,
                            r@.len() <= limit,
                            r@.len() <= acts_of_agent(all@.take(i as int), agent_id@).len(),
                            r@ == acts_of_agent(all@.take(i as int), agent_id@).take(capped(
                                limit as int,
                                acts_of_agent(all@.take(i as int), agent_id@).len() as int,
                            )),
                        decreases n - i,
                    {
                        let ghost pre = all@.take(i as int);
                        let ghost cur = all@.take(i + 1);
                        proof {
                            assert(cur.drop_last() =~= pre);
                            assert(cur.last() == all@[i as int]);
                        }
                        if r.len() < limit && str_eq(all[i].agent_id.as_str(), agent_id) {
                            let a = Activity {
                                id: all[i].id,
                                agent_id: all[i].agent_id.clone(),
                                spawn_id: all[i].spawn_id.clone(),
                                primitive: all[i].primitive.clone(),
                                primitive_id: all[i].primitive_id.clone(),
                                action: all[i].action.clone(),
                                field: all[i].field.clone(),
                                after: all[i].after.clone(),
                                created_at: all[i].created_at.clone(),
                            };
                            proof {
                                assert(a == all@[i as int]);
                            }
                            r.push(a);
                        }
                        proof {
                            let fpre = acts_of_agent(pre, agent_id@);
                            let fcur = acts_of_agent(cur, agent_id@);
                            if all@[i as int].agent_id@ == agent_id@ {
                                assert(fcur == fpre.push(all@[i as int]));
                                if r@.len() > fpre.take(capped(limit as int, fpre.len() as int)).len() {
                                    assert(r@ =~= fcur.take(capped(
                                        limit as int,
                                        fcur.len() as int,
                                    )));
                                } else {
                                    assert(r@ =~= fcur.take(capped(
                                        limit as int,
                                        fcur.len() as int,
                                    )));
                                }
                            } else {
                                assert(fcur == fpre);
                            }
                        }
                        i = i + 1;
                    }
                    proof {
                        assert(all@.take(n as int) =~= all@);
                    }
                    r
                },
                None => Vec::new(),
            },
            Mode::Db => match db_rows {
                Some(rows) => rows,
                None => Vec::new(),
            },
        }
    }

    /// The ledger view: only decision, insight and task rows, in
    /// listed order, at most `limit` of them, whichever backend the
    /// listing came from.
    pub fn get_ledger_activity(
        &self,
        limit: usize,
        api_payload: Option<&str>,
        db_rows: Option<Vec<Activity>>,
    ) -> (r: Vec<Activity>)
        ensures
            r@.len() <= limit,
            forall|i: int|
                0 <= i < r@.len() ==> is_ledger_primitive((#[trigger] r@[i]).primitive@),
            self.mode is Api ==> match api_payload {
                Some(p) => exists|all: Seq<Activity>|
                    #[trigger] activities_decoded(p@, all) && r@ == ledger_scoped(all).take(
                        capped(limit as int, ledger_scoped(all).len() as int),
                    ),
                None => r@.len() == 0,
            },
            self.mode is Db ==> match db_rows {
                Some(rows) => r@ == ledger_scoped(rows@).take(
                    capped(limit as int, ledger_scoped(rows@).len() as int),
                ),
                None => r@.len() == 0,
            },
    {
        match self.mode {
            Mode::Api => match api_payload {
                Some(p) => {
                    let all = activities_from_payload(p);
                    ledger_slice(&all, limit)
                },
                None => Vec::new(),
            },
            Mode::Db => match db_rows {
                Some(rows) => ledger_slice(&rows, limit),
                None => Vec::new(),
            },
        }
    }

    /// One spawn's event feed, numbered by position.
    pub fn get_spawn_activity(
        &self,
        spawn_id: &str,
        api_payload: Option<&str>,
        db_rows: Option<Vec<Activity>>,
    ) -> (r: Vec<Activity>)
        ensures
            self.mode is Api ==> match api_payload {
                Some(p) => spawn_events_decoded(p@, spawn_id@, r@),
                None => r@.len() == 0,
            },
            self.mode is Db ==> match db_rows {
                Some(rows) => r == rows,
                None => r@.len() == 0,
            },
    {
        match self.mode {
            Mode::Api => match api_payload {
                Some(p) => spawn_events_from_payload(p, spawn_id),
                None => Vec::new(),
            },
            Mode::Db => match db_rows {
                Some(rows) => rows,
                None => Vec::new(),
            },
        }
    }

    /// The daemon's status, reconstructed per request from its parsed
    /// documents, with the live count filled in; when the documents
    /// were unreadable everything else reports idle.
    pub fn get_daemon_status(&self, parsed: Option<DaemonStatus>, active_count: usize) -> (r:
        DaemonStatus)
        ensures
            r.active_count == active_count,
            match parsed {
                Some(d) => r == (DaemonStatus { active_count, ..d }),
                None => {
                    &&& r.running == false
                    &&& r.pid is None
                    &&& r.enabled == false
                    &&& r.concurrency == 0
                    &&& r.last_skip is None
                },
            },
    {
        match parsed {
            Some(d) => DaemonStatus { active_count, ..d },
            None => {
                let mut d = DaemonStatus::default();
                d.active_count = active_count;
                d
            },
        }
    }

    /// The newest events of the day's shard: each line decoded on its
    /// own, lines that do not parse skipped, the rest newest-first and
    /// cut to `limit`. A missing shard yields nothing.
    pub fn get_tail(&self, shard: Option<&str>, limit: usize) -> (r: Vec<TailEntry>)
        ensures
            match shard {
                None => r@.len() == 0,
                Some(content) => {
                    let vj = valid_tail_jsons(lines_of(content@));
                    &&& r@.len() == capped(limit as int, vj.len() as int)
                    &&& forall|i: int|
                        0 <= i < r@.len() ==> tail_matches(
                            #[trigger] r@[i],
                            vj[vj.len() - 1 - i],
                        )
                },
            },
    {
        let content = match shard {
            Some(c) => c,
            None => {
                return Vec::new();
            },
        };
        let pieces = split_lines(content);
        let n = pieces.len();
        let ghost lns = lines_of(content@);
        let mut valids: Vec<TailEntry> = Vec::new();
        let ghost vj_all = valid_tail_jsons(lns);
        let mut i: usize = 0;
        proof {
            assert(valid_tail_jsons(lns.take(0)) =~= Seq::<Json>::empty());
        }
        while i < n
            invariant
                n == pieces.len(),
                pieces.deep_view() == lns,
                i <= n,
                valids@.len() == valid_tail_jsons(lns.take(i as int)).len(),
                forall|k: int|
                    0 <= k < valids@.len() ==> tail_matches(
                        #[trigger] valids@[k],
                        valid_tail_jsons(lns.take(i as int))[k],
                    ),
            decreases n - i,
        {
            let ghost pre = lns.take(i as int);
            let ghost cur = lns.take(i + 1);
            proof {
                assert(cur.drop_last() =~= pre);
                assert(cur.last() == lns[i as int]);
                assert(pieces.deep_view()[i as int] == pieces@[i as int]@);
            }
            match parse_json(pieces[i].as_str()) {
                Some(j) => {
                    match tail_entry_from_json(&j) {
                        Some(t) => {
                            valids.push(t);
                        },
                        None => {},
                    }
                },
                None => {},
            }
            i = i + 1;
        }
        proof {
            assert(lns.take(n as int) =~= lns);
        }
        let total = valids.len();
        let m = if limit < total {
            limit
        } else {
            total
        };
        let mut r: Vec<TailEntry> = Vec::new();
        let mut k: usize = 0;
        while k < m
            invariant
                m <= total,
                total == valids.len(),
                valids@.len() == vj_all.len(),
                forall|q: int|
                    0 <= q < valids@.len() ==> tail_matches(#[trigger] valids@[q], vj_all[q]),
                k <= m,
                r@.len() == k,
                forall|q: int|
                    0 <= q < k ==> tail_matches(#[trigger] r@[q], vj_all[vj_all.len() - 1 - q]),
            decreases m - k,
        {
            let t = TailEntry {
                spawn: valids[total - 1 - k].spawn.clone(),
                agent: valids[total - 1 - k].agent.clone(),
                entry_type: valids[total - 1 - k].entry_type.clone(),
                content: valids[total - 1 - k].content.clone(),
                name: valids[total - 1 - k].name.clone(),
                args: valids[total - 1 - k].args.clone(),
                ctx_pct: valids[total - 1 - k].ctx_pct,
            };
            proof {
                assert(t == valids@[total - 1 - k]);
            }
            r.push(t);
            k = k + 1;
        }
        r
    }

    /// The newest events of one agent in the day's shard, newest
    /// first, cut to `limit`.
    pub fn get_agent_tail(&self, agent: &str, shard: Option<&str>, limit: usize) -> (r: Vec<
        TailEntry,
    >)
        ensures
            match shard {
                None => r@.len() == 0,
                Some(content) => {
                    let vj = valid_tail_jsons_for(lines_of(content@), agent@);
                    &&& r@.len() == capped(limit as int, vj.len() as int)
                    &&& forall|i: int|
                        0 <= i < r@.len() ==> tail_matches(
                            #[trigger] r@[i],
                            vj[vj.len() - 1 - i],
                        )
                },
            },
    {
        let content = match shard {
            Some(c) => c,
            None => {
                return Vec::new();
            },
        };
        let pieces = split_lines(content);
        let n = pieces.len();
        let ghost lns = lines_of(content@);
        let mut valids: Vec<TailEntry> = Vec::new();
        let ghost vj_all = valid_tail_jsons_for(lns, agent@);
        let mut i: usize = 0;
        proof {
            assert(valid_tail_jsons_for(lns.take(0), agent@) =~= Seq::<Json>::empty());
        }
        while i < n
            invariant
                n == pieces.len(),
                pieces.deep_view() == lns,
                i <= n,
                valids@.len() == valid_tail_jsons_for(lns.take(i as int), agent@).len(),
                forall|k: int|
                    0 <= k < valids@.len() ==> tail_matches(
                        #[trigger] valids@[k],
                        valid_tail_jsons_for(lns.take(i as int), agent@)[k],
                    ),
            decreases n - i,
        {
            let ghost pre = lns.take(i as int);
            let ghost cur = lns.take(i + 1);
            proof {
                assert(cur.drop_last() =~= pre);
                assert(cur.last() == lns[i as int]);
                assert(pieces.deep_view()[i as int] == pieces@[i as int]@);
            }
            match parse_json(pieces[i].as_str()) {
                Some(j) => {
                    match tail_entry_from_json(&j) {
                        Some(t) => {
                            if str_eq(t.agent.as_str(), agent) {
                                valids.push(t);
                            }
                        },
                        None => {},
                    }
                },
                None => {},
            }
            i = i + 1;
        }
        proof {
            assert(lns.take(n as int) =~= lns);
        }
        let total = valids.len();
        let m = if limit < total {
            limit
        } else {
            total
        };
        let mut r: Vec<TailEntry> = Vec::new();
        let mut k: usize = 0;
        while k < m
            invariant
                m <= total,
                total == valids.len(),
                valids@.len() == vj_all.len(),
                forall|q: int|
                    0 <= q < valids@.len() ==> tail_matches(#[trigger] valids@[q], vj_all[q]),
                k <= m,
                r@.len() == k,
                forall|q: int|
                    0 <= q < k ==> tail_matches(#[trigger] r@[q], vj_all[vj_all.len() - 1 - q]),
            decreases m - k,
        {
            let t = TailEntry {
                spawn: valids[total - 1 - k].spawn.clone(),
                agent: valids[total - 1 - k].agent.clone(),
                entry_type: valids[total - 1 - k].entry_type.clone(),
                content: valids[total - 1 - k].content.clone(),
                name: valids[total - 1 - k].name.clone(),
                args: valids[total - 1 - k].args.clone(),
                ctx_pct: valids[total - 1 - k].ctx_pct,
            };
            proof {
                assert(t == valids@[total - 1 - k]);
            }
            r.push(t);
            k = k + 1;
        }
        r
    }
}

} // verus!
