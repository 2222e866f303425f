//! Interactive client state: sidebar navigation, message scrolling,
//! input editing with history, and autocomplete over agent and file
//! names. Pure state transitions; reading the backing store is the
//! caller's business.

use vstd::prelude::*;

use crate::records::Agent;
use crate::schema::{Channel, Message, Spawn};
use crate::session::SessionLine;
use crate::strutil::{
    contains_seq, contains_sub, dec_str, is_space, is_space_char, lines_of, lower_of, lowercase,
    push_char, seq_lt, split_lines, str_eq, str_lt, u64_to_string,
};

verus! {

/// Which sidebar listing has focus.
#[derive(Debug, Clone, Copy, PartialEq, Eq, Structural)]
pub enum SidebarTab {
    Channels,
    Spawns,
}

/// What kind of completion is being offered.
#[derive(Debug, Clone, Copy, PartialEq, Eq, Structural)]
pub enum AutocompleteMode {
    Agent,
    File,
}

/// A set of strings kept as a plain vector of members.
#[derive(Debug)]
pub struct StringSet {
    pub items: Vec<String>,
}

impl StringSet {
    /// Whether `x` is a member.
    pub open spec fn has(&self, x: Seq<char>) -> bool {
        exists|i: int| 0 <= i < self.items.len() && #[trigger] self.items@[i]@ == x
    }

    /// An empty set.
    pub fn new() -> (r: StringSet)
        ensures
            r.items@.len() == 0,
            forall|x: Seq<char>| !r.has(x),
    {
        StringSet { items: Vec::new() }
    }

    /// Whether the set holds no members.
    pub fn is_empty(&self) -> (r: bool)
        ensures
            r == (self.items@.len() == 0),
    {
        self.items.len() == 0
    }

    /// Whether `x` is a member.
    pub fn contains(&self, x: &str) -> (r: bool)
        ensures
            r == self.has(x@),
    {
        let n = self.items.len();
        let mut i: usize = 0;
        while i < n
            invariant
                n == self.items.len(),
                i <= n,
                forall|k: int| 0 <= k < i ==> #[trigger] self.items@[k]@ != x@,
            decreases n - i,
        {
            if str_eq(self.items[i].as_str(), x) {
                return true;
            }
            i = i + 1;
        }
        false
    }

    /// Adds `x`; membership of everything else is unchanged.
    pub fn insert(&mut self, x: String)
        ensures
            final(self).items@ == old(self).items@.push(x),
            forall|y: Seq<char>| final(self).has(y) == (old(self).has(y) || y == x@),
    {
        let ghost pre = self.items@;
        let ghost xv = x@;
        self.items.push(x);
        proof {
            assert forall|y: Seq<char>| self.has(y) == (old(self).has(y) || y == xv) by {
                if old(self).has(y) {
                    let i = choose|i: int| 0 <= i < pre.len() && #[trigger] pre[i]@ == y;
                    assert(self.items@[i]@ == y);
                }
                if y == xv {
                    assert(self.items@[pre.len() as int]@ == y);
                }
                if self.has(y) {
                    let i = choose|i: int|
                        0 <= i < self.items.len() && #[trigger] self.items@[i]@ == y;
                    if i < pre.len() {
                        assert(pre[i]@ == y);
                    }
                }
            }
        }
    }

    /// Removes every copy of `x`; membership of everything else is
    /// unchanged.
    pub fn remove(&mut self, x: &str)
        ensures
            forall|y: Seq<char>| final(self).has(y) == (old(self).has(y) && y != x@),
    {
        let n = self.items.len();
        let mut kept: Vec<String> = Vec::new();
        let mut i: usize = 0;
        while i < n
            invariant
                n == old(self).items.len(),
                self.items@ == old(self).items@,
                i <= n,
                forall|j: int| 0 <= j < kept.len() ==> #[trigger] kept@[j]@ != x@,
                forall|j: int|
                    0 <= j < kept.len() ==> exists|k: int|
                        0 <= k < i && #[trigger] kept@[j]@ == old(self).items@[k]@,
                forall|k: int|
                    0 <= k < i && #[trigger] old(self).items@[k]@ != x@ ==> exists|j: int|
                        0 <= j < kept.len() && old(self).items@[k]@ == #[trigger] kept@[j]@,
            decreases n - i,
        {
            if !str_eq(self.items[i].as_str(), x) {
                let it = self.items[i].clone();
                let ghost pre_kept = kept@;
                kept.push(it);
                proof {
                    assert(kept@[pre_kept.len() as int]@ == old(self).items@[i as int]@);
                    assert forall|k: int|
                        0 <= k < i + 1 && #[trigger] old(self).items@[k]@ != x@ implies exists|j: int|
                        0 <= j < kept.len() && old(self).items@[k]@ == #[trigger] kept@[j]@ by {
                        if k < i {
                            let j = choose|j: int|
                                0 <= j < pre_kept.len() && old(self).items@[k]@ == #[trigger] pre_kept[j]@;
                            assert(old(self).items@[k]@ == kept@[j]@);
                        } else {
                            assert(old(self).items@[k]@ == kept@[pre_kept.len() as int]@);
                        }
                    }
                }
            }
            i = i + 1;
        }
        self.items = kept;
        proof {
            assert forall|y: Seq<char>| self.has(y) == (old(self).has(y) && y != x@) by {
                if self.has(y) {
                    let j = choose|j: int|
                        0 <= j < self.items.len() && #[trigger] self.items@[j]@ == y;
                    assert(y != x@);
                    let k = choose|k: int|
                        0 <= k < n && #[trigger] self.items@[j]@ == old(self).items@[k]@;
                    assert(old(self).items@[k]@ == y);
                }
                if old(self).has(y) && y != x@ {
                    let k = choose|k: int|
                        0 <= k < old(self).items.len() && #[trigger] old(self).items@[k]@ == y;
                    let j = choose|j: int|
                        0 <= j < self.items.len() && old(self).items@[k]@ == #[trigger] self.items@[j]@;
                    assert(self.items@[j]@ == y);
                }
            }
        }
    }
}

/// A map from strings to strings kept as an association list; a new
/// binding is put in front and shadows older ones.
#[derive(Debug)]
pub struct StringMap {
    pub entries: Vec<(String, String)>,
}

/// The first value bound to `k` in `entries`, front to back.
pub open spec fn assoc_lookup(entries: Seq<(String, String)>, k: Seq<char>) -> Option<Seq<char>>
    decreases entries.len(),
{
    if entries.len() == 0 {
        None
    } else if entries[0].0@ == k {
        Some(entries[0].1@)
    } else {
        assoc_lookup(entries.drop_first(), k)
    }
}

impl StringMap {
    /// The value bound to `k`, if any.
    pub open spec fn spec_get(&self, k: Seq<char>) -> Option<Seq<char>> {
        assoc_lookup(self.entries@, k)
    }

    /// An empty map.
    pub fn new() -> (r: StringMap)
        ensures
            r.entries@.len() == 0,
            forall|k: Seq<char>| r.spec_get(k) is None,
    {
        StringMap { entries: Vec::new() }
    }

    /// Binds `k` to `v`, shadowing any earlier binding.
    pub fn insert(&mut self, k: String, v: String)
        ensures
            final(self).entries@ == old(self).entries@.insert(0, (k, v)),
            forall|x: Seq<char>|
                #[trigger] final(self).spec_get(x) == if x == k@ {
                    Some(v@)
                } else {
                    old(self).spec_get(x)
                },
    {
        let ghost kv = k@;
        let ghost vv = v@;
        self.entries.insert(0, (k, v));
        proof {
            assert forall|x: Seq<char>|
                #[trigger] self.spec_get(x) == if x == kv {
                    Some(vv)
                } else {
                    old(self).spec_get(x)
                } by {
                assert(self.entries@[0].0@ == kv);
                assert(self.entries@.drop_first() =~= old(self).entries@);
            }
        }
    }

    /// Looks `k` up, handing back a copy of the bound value.
    pub fn get(&self, k: &str) -> (r: Option<String>)
        ensures
            match r {
                Some(v) => self.spec_get(k@) == Some(v@),
                None => self.spec_get(k@) is None,
            },
    {
        let n = self.entries.len();
        let mut i: usize = 0;
        proof {
            assert(self.entries@.skip(0) =~= self.entries@);
        }
        loop
            invariant
                n == self.entries.len(),
                i <= n,
                self.spec_get(k@) == assoc_lookup(self.entries@.skip(i as int), k@),
            decreases n - i,
        {
            if i >= n {
                return None;
            }
            proof {
                assert(self.entries@.skip(i as int)[0] == self.entries@[i as int]);
                assert(self.entries@.skip(i as int).drop_first() =~= self.entries@.skip(i + 1));
            }
            if str_eq(self.entries[i].0.as_str(), k) {
                let v = self.entries[i].1.clone();
                return Some(v);
            }
            i = i + 1;
        }
    }
}

/// The whole interactive client state.
pub struct AppState {
    pub active_tab: SidebarTab,
    pub active_channel_idx: usize,
    pub active_spawn_idx: usize,
    pub expanded_spawns: StringSet,
    pub channels: Vec<Channel>,
    pub messages: Vec<Message>,
    pub spawns: Vec<Spawn>,
    pub last_viewed_message_id: StringMap,
    pub message_scroll_offset: usize,
    pub sidebar_scroll_offset: usize,
    pub selected_spawn_idx: Option<usize>,
    pub session_events: Vec<SessionLine>,
    pub session_scroll_offset: usize,
    pub agents: Vec<Agent>,
    pub active_agent_idx: Option<usize>,
    pub all_stream: bool,
    pub input_text: String,
    pub input_history: Vec<String>,
    pub history_idx: Option<usize>,
    pub input_scroll_offset: usize,
    pub autocomplete_mode: Option<AutocompleteMode>,
    pub autocomplete_list: Vec<String>,
    pub autocomplete_idx: usize,
    pub autocomplete_query: String,
}

impl AppState {
    /// The focused indices stay inside their lists while the lists are
    /// non-empty.
    pub open spec fn idx_wf(&self) -> bool {
        &&& (self.channels.len() > 0 ==> self.active_channel_idx < self.channels.len())
        &&& (self.spawns.len() > 0 ==> self.active_spawn_idx < self.spawns.len())
    }

    /// A fresh state: channels tab focused, everything empty.
    pub fn new() -> (r: AppState)
        ensures
            r.active_tab == SidebarTab::Channels,
            r.active_channel_idx == 0,
            r.active_spawn_idx == 0,
            r.expanded_spawns.items@.len() == 0,
            forall|x: Seq<char>| !r.expanded_spawns.has(x),
            r.channels@.len() == 0,
            r.messages@.len() == 0,
            r.spawns@.len() == 0,
            forall|k: Seq<char>| r.last_viewed_message_id.spec_get(k) is None,
            r.message_scroll_offset == 0,
            r.sidebar_scroll_offset == 0,
            r.selected_spawn_idx is None,
            r.session_events@.len() == 0,
            r.session_scroll_offset == 0,
            r.agents@.len() == 0,
            r.active_agent_idx is None,
            r.all_stream == false,
            r.input_text@.len() == 0,
            r.input_history@.len() == 0,
            r.history_idx is None,
            r.input_scroll_offset == 0,
            r.autocomplete_mode is None,
            r.autocomplete_list@.len() == 0,
            r.autocomplete_idx == 0,
            r.autocomplete_query@.len() == 0,
            r.idx_wf(),
    {
        AppState {
            active_tab: SidebarTab::Channels,
            active_channel_idx: 0,
            active_spawn_idx: 0,
            expanded_spawns: StringSet::new(),
            channels: Vec::new(),
            messages: Vec::new(),
            spawns: Vec::new(),
            last_viewed_message_id: StringMap::new(),
            message_scroll_offset: 0,
            sidebar_scroll_offset: 0,
            selected_spawn_idx: None,
            session_events: Vec::new(),
            session_scroll_offset: 0,
            agents: Vec::new(),
            active_agent_idx: None,
            all_stream: false,
            input_text: String::new(),
            input_history: Vec::new(),
            history_idx: None,
            input_scroll_offset: 0,
            autocomplete_mode: None,
            autocomplete_list: Vec::new(),
            autocomplete_idx: 0,
            autocomplete_query: String::new(),
        }
    }

    /// Flips sidebar focus between the channel and spawn listings and
    /// rewinds the sidebar scroll.
    pub fn switch_tab(&mut self)
        ensures
            *final(self) == (AppState {
                active_tab: if old(self).active_tab is Channels {
                    SidebarTab::Spawns
                } else {
                    SidebarTab::Channels
                },
                sidebar_scroll_offset: 0,
                ..*old(self)
            }),
    {
        self.active_tab = match self.active_tab {
            SidebarTab::Channels => SidebarTab::Spawns,
            SidebarTab::Spawns => SidebarTab::Channels,
        };
        self.sidebar_scroll_offset = 0;
    }

    /// Moves the focused entry of the active sidebar listing one down,
    /// wrapping at the end.
    pub fn next_in_sidebar(&mut self)
        requires
            old(self).idx_wf(),
        ensures
            final(self).idx_wf(),
            old(self).active_tab is Channels && old(self).channels.len() > 0 ==> *final(self) == (
            AppState {
                active_channel_idx: ((old(self).active_channel_idx + 1) as int % old(
                    self,
                ).channels.len() as int) as usize,
                ..*old(self)
            }),
            old(self).active_tab is Spawns && old(self).spawns.len() > 0 ==> *final(self) == (
            AppState {
                active_spawn_idx: ((old(self).active_spawn_idx + 1) as int % old(
                    self,
                ).spawns.len() as int) as usize,
                ..*old(self)
            }),
            old(self).active_tab is Channels && old(self).channels.len() == 0 ==> *final(self)
                == *old(self),
            old(self).active_tab is Spawns && old(self).spawns.len() == 0 ==> *final(self) == *old(
                self,
            ),
    {
        match self.active_tab {
            SidebarTab::Channels => {
                if self.channels.len() > 0 {
                    self.active_channel_idx = (self.active_channel_idx + 1) % self.channels.len();
                }
            },
            SidebarTab::Spawns => {
                if self.spawns.len() > 0 {
                    self.active_spawn_idx = (self.active_spawn_idx + 1) % self.spawns.len();
                }
            },
        }
    }

    /// Moves the focused entry of the active sidebar listing one up,
    /// wrapping at the start.
    pub fn prev_in_sidebar(&mut self)
        requires
            old(self).idx_wf(),
        ensures
            final(self).idx_wf(),
            old(self).active_tab is Channels && old(self).channels.len() > 0 ==> *final(self) == (
            AppState {
                active_channel_idx: if old(self).active_channel_idx == 0 {
                    (old(self).channels.len() - 1) as usize
                } else {
                    (old(self).active_channel_idx - 1) as usize
                },
                ..*old(self)
            }),
            old(self).active_tab is Spawns && old(self).spawns.len() > 0 ==> *final(self) == (
            AppState {
                active_spawn_idx: if old(self).active_spawn_idx == 0 {
                    (old(self).spawns.len() - 1) as usize
                } else {
                    (old(self).active_spawn_idx - 1) as usize
                },
                ..*old(self)
            }),
            old(self).active_tab is Channels && old(self).channels.len() == 0 ==> *final(self)
                == *old(self),
            old(self).active_tab is Spawns && old(self).spawns.len() == 0 ==> *final(self) == *old(
                self,
            ),
    {
        match self.active_tab {
            SidebarTab::Channels => {
                if self.channels.len() > 0 {
                    self.active_channel_idx = if self.active_channel_idx == 0 {
                        self.channels.len() - 1
                    } else {
                        self.active_channel_idx - 1
                    };
                }
            },
            SidebarTab::Spawns => {
                if self.spawns.len() > 0 {
                    self.active_spawn_idx = if self.active_spawn_idx == 0 {
                        self.spawns.len() - 1
                    } else {
                        self.active_spawn_idx - 1
                    };
                }
            },
        }
    }

    /// Expands the focused spawn if it is collapsed, collapses it if
    /// it is expanded.
    pub fn toggle_spawn_expansion(&mut self)
        requires
            old(self).spawns.len() > 0 ==> old(self).active_spawn_idx < old(self).spawns.len(),
        ensures
            old(self).spawns.len() == 0 ==> *final(self) == *old(self),
            old(self).spawns.len() > 0 ==> {
                let sid = old(self).spawns@[old(self).active_spawn_idx as int].id@;
                &&& *final(self) == (AppState {
                    expanded_spawns: final(self).expanded_spawns,
                    ..*old(self)
                })
                &&& forall|y: Seq<char>|
                    final(self).expanded_spawns.has(y) == if old(self).expanded_spawns.has(sid) {
                        old(self).expanded_spawns.has(y) && y != sid
                    } else {
                        old(self).expanded_spawns.has(y) || y == sid
                    }
            },
    {
        if self.spawns.len() > 0 {
            let spawn_id = self.spawns[self.active_spawn_idx].id.clone();
            if self.expanded_spawns.contains(spawn_id.as_str()) {
                self.expanded_spawns.remove(spawn_id.as_str());
            } else {
                self.expanded_spawns.insert(spawn_id);
            }
        }
    }

    /// The channel the sidebar focuses, if there is one.
    pub fn current_channel(&self) -> (r: Option<&Channel>)
        ensures
            match r {
                Some(c) => self.active_channel_idx < self.channels.len() && *c
                    == self.channels@[self.active_channel_idx as int],
                None => self.active_channel_idx >= self.channels.len(),
            },
    {
        if self.active_channel_idx < self.channels.len() {
            Some(&self.channels[self.active_channel_idx])
        } else {
            None
        }
    }

    /// The spawn the sidebar focuses, if there is one.
    pub fn current_spawn(&self) -> (r: Option<&Spawn>)
        ensures
            match r {
                Some(s) => self.active_spawn_idx < self.spawns.len() && *s
                    == self.spawns@[self.active_spawn_idx as int],
                None => self.active_spawn_idx >= self.spawns.len(),
            },
    {
        if self.active_spawn_idx < self.spawns.len() {
            Some(&self.spawns[self.active_spawn_idx])
        } else {
            None
        }
    }

    /// Remembers the newest listed message as read for the focused
    /// channel.
    pub fn mark_channel_read(&mut self)
        ensures
            old(self).active_channel_idx >= old(self).channels.len() || old(self).messages.len()
                == 0 ==> *final(self) == *old(self),
            old(self).active_channel_idx < old(self).channels.len() && old(self).messages.len() > 0
                ==> {
                let cid = old(self).channels@[old(self).active_channel_idx as int].channel_id@;
                let mid = old(self).messages@.last().message_id@;
                &&& *final(self) == (AppState {
                    last_viewed_message_id: final(self).last_viewed_message_id,
                    ..*old(self)
                })
                &&& forall|x: Seq<char>|
                    #[trigger] final(self).last_viewed_message_id.spec_get(x) == if x == cid {
                        Some(mid)
                    } else {
                        old(self).last_viewed_message_id.spec_get(x)
                    }
            },
    {
        if self.active_channel_idx < self.channels.len() && self.messages.len() > 0 {
            let cid = self.channels[self.active_channel_idx].channel_id.clone();
            let mid = self.messages[self.messages.len() - 1].message_id.clone();
            self.last_viewed_message_id.insert(cid, mid);
        }
    }

    /// Whether a channel holds messages newer than the last one read
    /// there; a channel never read counts as unread while it exists.
    pub open spec fn unread_spec(&self, cid: Seq<char>) -> bool {
        match self.last_viewed_message_id.spec_get(cid) {
            Some(lv) => exists|i: int|
                0 <= i < self.messages.len() && (#[trigger] self.messages@[i]).channel_id@ == cid
                    && seq_lt(lv, self.messages@[i].message_id@),
            None => exists|i: int|
                0 <= i < self.channels.len() && (#[trigger] self.channels@[i]).channel_id@ == cid,
        }
    }

    /// Whether the channel has unread messages.
    pub fn is_channel_unread(&self, channel_id: &str) -> (r: bool)
        ensures
            r == self.unread_spec(channel_id@),
    {
        match self.last_viewed_message_id.get(channel_id) {
            Some(last_viewed) => {
                let n = self.messages.len();
                let mut i: usize = 0;
                while i < n
                    invariant
                        n == self.messages.len(),
                        i <= n,
                        self.last_viewed_message_id.spec_get(channel_id@) == Some(last_viewed@),
                        forall|k: int|
                            0 <= k < i ==> !((#[trigger] self.messages@[k]).channel_id@
                                == channel_id@ && seq_lt(last_viewed@, self.messages@[k].message_id@)),
                    decreases n - i,
                {
                    if str_eq(self.messages[i].channel_id.as_str(), channel_id) && str_lt(
                        last_viewed.as_str(),
                        self.messages[i].message_id.as_str(),
                    ) {
                        return true;
                    }
                    i = i + 1;
                }
                false
            },
            None => {
                let n = self.channels.len();
                let mut i: usize = 0;
                while i < n
                    invariant
                        n == self.channels.len(),
                        i <= n,
                        self.last_viewed_message_id.spec_get(channel_id@) is None,
                        forall|k: int|
                            0 <= k < i ==> (#[trigger] self.channels@[k]).channel_id@
                                != channel_id@,
                    decreases n - i,
                {
                    if str_eq(self.channels[i].channel_id.as_str(), channel_id) {
                        return true;
                    }
                    i = i + 1;
                }
                false
            },
        }
    }

    /// Scrolls the message pane one entry down, stopping at the last
    /// message.
    pub fn scroll_messages_down(&mut self)
        ensures
            *final(self) == (AppState {
                message_scroll_offset: {
                    let max = if old(self).messages.len() == 0 {
                        0
                    } else {
                        (old(self).messages.len() - 1) as usize
                    };
                    if old(self).message_scroll_offset < max {
                        (old(self).message_scroll_offset + 1) as usize
                    } else {
                        max
                    }
                },
                ..*old(self)
            }),
    {
        let max_scroll = self.messages.len().saturating_sub(1);
        if self.message_scroll_offset < max_scroll {
            self.message_scroll_offset = self.message_scroll_offset + 1;
        } else {
            self.message_scroll_offset = max_scroll;
        }
    }

    /// Scrolls the message pane one entry up, stopping at the top.
    pub fn scroll_messages_up(&mut self)
        ensures
            *final(self) == (AppState {
                message_scroll_offset: if old(self).message_scroll_offset > 0 {
                    (old(self).message_scroll_offset - 1) as usize
                } else {
                    0
                },
                ..*old(self)
            }),
    {
        self.message_scroll_offset = self.message_scroll_offset.saturating_sub(1);
    }

    /// Rewinds the message pane to the newest message.
    pub fn reset_message_scroll(&mut self)
        ensures
            *final(self) == (AppState { message_scroll_offset: 0, ..*old(self) }),
    {
        self.message_scroll_offset = 0;
    }

    /// Scrolls the session pane one entry down, stopping at the last
    /// event.
    pub fn scroll_session_down(&mut self)
        ensures
            *final(self) == (AppState {
                session_scroll_offset: {
                    let max = if old(self).session_events.len() == 0 {
                        0
                    } else {
                        (old(self).session_events.len() - 1) as usize
                    };
                    if old(self).session_scroll_offset < max {
                        (old(self).session_scroll_offset + 1) as usize
                    } else {
                        max
                    }
                },
                ..*old(self)
            }),
    {
        let max_scroll = self.session_events.len().saturating_sub(1);
        if self.session_scroll_offset < max_scroll {
            self.session_scroll_offset = self.session_scroll_offset + 1;
        } else {
            self.session_scroll_offset = max_scroll;
        }
    }

    /// Scrolls the session pane one entry up, stopping at the top.
    pub fn scroll_session_up(&mut self)
        ensures
            *final(self) == (AppState {
                session_scroll_offset: if old(self).session_scroll_offset > 0 {
                    (old(self).session_scroll_offset - 1) as usize
                } else {
                    0
                },
                ..*old(self)
            }),
    {
        self.session_scroll_offset = self.session_scroll_offset.saturating_sub(1);
    }

    /// Rewinds the session pane to the newest event.
    pub fn reset_session_scroll(&mut self)
        ensures
            *final(self) == (AppState { session_scroll_offset: 0, ..*old(self) }),
    {
        self.session_scroll_offset = 0;
    }

    /// Selects the next spawn over the whole spawn list, starting at
    /// the first when none is selected, wrapping at the end.
    pub fn next_spawn_global(&mut self)
        requires
            old(self).selected_spawn_idx matches Some(i) ==> i < old(self).spawns.len(),
        ensures
            old(self).spawns.len() == 0 ==> *final(self) == *old(self),
            old(self).spawns.len() > 0 ==> *final(self) == (AppState {
                selected_spawn_idx: Some(
                    match old(self).selected_spawn_idx {
                        None => 0 as usize,
                        Some(idx) => ((idx + 1) as int % old(self).spawns.len() as int) as usize,
                    },
                ),
                ..*old(self)
            }),
    {
        if self.spawns.len() > 0 {
            self.selected_spawn_idx = Some(
                match self.selected_spawn_idx {
                    None => 0,
                    Some(idx) => (idx + 1) % self.spawns.len(),
                },
            );
        }
    }

    /// Selects the previous spawn over the whole spawn list, starting
    /// at the last when none is selected, wrapping at the start.
    pub fn prev_spawn_global(&mut self)
        ensures
            old(self).spawns.len() == 0 ==> *final(self) == *old(self),
            old(self).spawns.len() > 0 ==> *final(self) == (AppState {
                selected_spawn_idx: Some(
                    match old(self).selected_spawn_idx {
                        None => (old(self).spawns.len() - 1) as usize,
                        Some(idx) => if idx == 0 {
                            (old(self).spawns.len() - 1) as usize
                        } else {
                            (idx - 1) as usize
                        },
                    },
                ),
                ..*old(self)
            }),
    {
        if self.spawns.len() > 0 {
            self.selected_spawn_idx = Some(
                match self.selected_spawn_idx {
                    None => self.spawns.len() - 1,
                    Some(idx) => if idx == 0 {
                        self.spawns.len() - 1
                    } else {
                        idx - 1
                    },
                },
            );
        }
    }

    /// The globally selected spawn, if one is selected and in range.
    pub fn selected_spawn(&self) -> (r: Option<&Spawn>)
        ensures
            match r {
                Some(s) => {
                    &&& self.selected_spawn_idx matches Some(idx)
                    &&& idx < self.spawns.len()
                    &&& *s == self.spawns@[self.selected_spawn_idx->0 as int]
                },
                None => match self.selected_spawn_idx {
                    None => true,
                    Some(idx) => idx >= self.spawns.len(),
                },
            },
    {
        match self.selected_spawn_idx {
            Some(idx) => {
                if idx < self.spawns.len() {
                    Some(&self.spawns[idx])
                } else {
                    None
                }
            },
            None => None,
        }
    }

    /// Replaces the shown session events with freshly rendered lines;
    /// the caller reads and renders the selected spawn's transcript.
    pub fn load_session_events(&mut self, lines: Vec<SessionLine>)
        ensures
            *final(self) == (AppState { session_events: lines, ..*old(self) }),
    {
        self.session_events = lines;
    }

    /// How many lines the input editor shows, at least one.
    pub fn input_line_count(&self) -> (r: usize)
        ensures
            r as int == if lines_of(self.input_text@).len() == 0 {
                1int
            } else {
                lines_of(self.input_text@).len() as int
            },
    {
        let v = split_lines(self.input_text.as_str());
        if v.len() == 0 {
            1
        } else {
            v.len()
        }
    }
}

/// The stream pane's title: the whole feed, one followed agent's
/// feed, or an unscoped feed, with the entry count.
pub open spec fn stream_title_text(state: AppState, count: nat) -> Seq<char> {
    if state.all_stream {
        "Stream (all, "@ + dec_str(count) + ")"@
    } else if state.active_agent_idx matches Some(idx) && idx < state.agents.len() {
        "Stream ("@ + state.agents@[state.active_agent_idx->0 as int].identity@ + ", "@ + dec_str(
            count,
        ) + ")"@
    } else {
        "Stream ("@ + dec_str(count) + ")"@
    }
}

/// Titles the stream pane for the given entry count.
pub fn stream_title(app_state: &AppState, count: usize) -> (r: String)
    ensures
        r@ == stream_title_text(*app_state, count as nat),
{
    let n = u64_to_string(count as u64);
    if app_state.all_stream {
        let mut t = String::new();
        t.append("Stream (all, ");
        t.append(n.as_str());
        t.append(")");
        proof {
            assert(t@ =~= "Stream (all, "@ + dec_str(count as nat) + ")"@);
        }
        t
    } else {
        match app_state.active_agent() {
            Some(agent) => {
                let mut t = String::new();
                t.append("Stream (");
                t.append(agent.identity.as_str());
                t.append(", ");
                t.append(n.as_str());
                t.append(")");
                proof {
                    assert(t@ =~= "Stream ("@ + app_state.agents@[app_state.active_agent_idx->0
                        as int].identity@ + ", "@ + dec_str(count as nat) + ")"@);
                }
                t
            },
            None => {
                let mut t = String::new();
                t.append("Stream (");
                t.append(n.as_str());
                t.append(")");
                proof {
                    assert(t@ =~= "Stream ("@ + dec_str(count as nat) + ")"@);
                }
                t
            },
        }
    }
}

/// Where the last whitespace-delimited word of `s` begins.
pub open spec fn word_start(s: Seq<char>) -> int
    decreases s.len(),
{
    if s.len() == 0 {
        0
    } else if is_space_char(s.last()) {
        s.len() as int
    } else {
        word_start(s.drop_last())
    }
}

/// Finds where the last word of `s` begins.
fn last_word_start(s: &str) -> (r: usize)
    ensures
        r as int == word_start(s@),
        r <= s@.len(),
{
    let n = s.unicode_len();
    let mut i: usize = n;
    proof {
        assert(s@.take(n as int) =~= s@);
    }
    while i > 0
        invariant
            i <= n,
            n == s@.len(),
            word_start(s@) == word_start(s@.take(i as int)),
        decreases i,
    {
        let c = s.get_char(i - 1);
        proof {
            assert(s@.take(i as int).last() == s@[i - 1]);
            assert(s@.take(i as int).drop_last() =~= s@.take(i - 1));
        }
        if is_space(c) {
            return i;
        }
        i = i - 1;
    }
    proof {
        assert(s@.take(0) =~= Seq::<char>::empty());
    }
    0
}

/// Whether a completion candidate matches the query, ignoring case:
/// its lower-cased text holds the lower-cased query.
pub open spec fn ac_match(it: Seq<char>, q: Seq<char>) -> bool {
    contains_seq(lower_of(it), lower_of(q))
}

/// The candidates that match the query, in their given order.
pub open spec fn ac_filter(items: Seq<Seq<char>>, q: Seq<char>) -> Seq<Seq<char>>
    decreases items.len(),
{
    if items.len() == 0 {
        Seq::empty()
    } else {
        let rest = ac_filter(items.drop_last(), q);
        if ac_match(items.last(), q) {
            rest.push(items.last())
        } else {
            rest
        }
    }
}

impl AppState {
    /// Appends one typed character to the input and leaves history
    /// browsing.
    pub fn add_char(&mut self, ch: char)
        ensures
            *final(self) == (AppState {
                input_text: final(self).input_text,
                history_idx: None,
                ..*old(self)
            }),
            final(self).input_text@ == old(self).input_text@.push(ch),
    {
        push_char(&mut self.input_text, ch);
        self.history_idx = None;
    }

    /// Removes the last input character, if any, and leaves history
    /// browsing.
    pub fn backspace(&mut self)
        ensures
            *final(self) == (AppState {
                input_text: final(self).input_text,
                history_idx: None,
                ..*old(self)
            }),
            final(self).input_text@ == if old(self).input_text@.len() > 0 {
                old(self).input_text@.drop_last()
            } else {
                old(self).input_text@
            },
    {
        let n = self.input_text.as_str().unicode_len();
        if n > 0 {
            let t = self.input_text.as_str().substring_char(0, n - 1).to_owned();
            self.input_text = t;
        }
        self.history_idx = None;
    }

    /// Steps one entry further back in the submission history, loading
    /// it into the input; the oldest entry is kept once reached.
    pub fn history_prev(&mut self)
        ensures
            old(self).input_history.len() == 0 ==> *final(self) == *old(self),
            old(self).input_history.len() > 0 && old(self).history_idx is None ==> *final(self)
                == (AppState {
                history_idx: Some(0usize),
                input_text: final(self).input_text,
                ..*old(self)
            }) && final(self).input_text == old(self).input_history@[0],
            old(self).input_history.len() > 0 ==> match old(self).history_idx {
                None => true,
                Some(i) => if i + 1 < old(self).input_history.len() {
                    &&& *final(self) == (AppState {
                        history_idx: Some((i + 1) as usize),
                        input_text: final(self).input_text,
                        ..*old(self)
                    })
                    &&& final(self).input_text == old(self).input_history@[i as int + 1]
                } else {
                    *final(self) == *old(self)
                },
            },
    {
        if self.input_history.len() == 0 {
            return ;
        }
        match self.history_idx {
            None => {
                self.history_idx = Some(0);
                self.input_text = self.input_history[0].clone();
            },
            Some(idx) => {
                if idx < self.input_history.len() - 1 {
                    self.history_idx = Some(idx + 1);
                    self.input_text = self.input_history[idx + 1].clone();
                }
            },
        }
    }

    /// Steps one entry forward in the submission history; from the
    /// newest entry it clears the input and leaves history browsing.
    pub fn history_next(&mut self)
        requires
            match old(self).history_idx {
                Some(i) => i == 0 || i <= old(self).input_history.len(),
                None => true,
            },
        ensures
            old(self).history_idx is None ==> *final(self) == *old(self),
            match old(self).history_idx {
                None => true,
                Some(i) => if i > 0 {
                    &&& *final(self) == (AppState {
                        history_idx: Some((i - 1) as usize),
                        input_text: final(self).input_text,
                        ..*old(self)
                    })
                    &&& final(self).input_text == old(self).input_history@[i as int - 1]
                } else {
                    &&& *final(self) == (AppState {
                        history_idx: None,
                        input_text: final(self).input_text,
                        ..*old(self)
                    })
                    &&& final(self).input_text@.len() == 0
                },
            },
    {
        match self.history_idx {
            Some(idx) => {
                if idx > 0 {
                    self.history_idx = Some(idx - 1);
                    self.input_text = self.input_history[idx - 1].clone();
                } else {
                    self.history_idx = None;
                    self.input_text = String::new();
                }
            },
            None => {},
        }
    }

    /// Submits the input: a non-empty line is handed back, put in
    /// front of the history, and the editor is reset.
    pub fn submit_input(&mut self) -> (r: Option<String>)
        ensures
            old(self).input_text@.len() == 0 ==> r is None && *final(self) == *old(self),
            old(self).input_text@.len() > 0 ==> {
                &&& r == Some(old(self).input_text)
                &&& *final(self) == (AppState {
                    input_text: final(self).input_text,
                    input_history: final(self).input_history,
                    history_idx: None,
                    input_scroll_offset: 0,
                    ..*old(self)
                })
                &&& final(self).input_text@.len() == 0
                &&& final(self).input_history@ == old(self).input_history@.insert(
                    0,
                    old(self).input_text,
                )
            },
    {
        if self.input_text.as_str().unicode_len() == 0 {
            return None;
        }
        let cmd = self.input_text.clone();
        let entry = cmd.clone();
        self.input_history.insert(0, entry);
        self.input_text = String::new();
        self.history_idx = None;
        self.input_scroll_offset = 0;
        Some(cmd)
    }

    /// Looks at the last word of the input: a word led by `@` offers
    /// agent completion, a word led by `/` with something after it
    /// offers file completion; the query is the word after its lead.
    pub fn detect_and_trigger_autocomplete(&mut self)
        ensures
            ({
                let s = old(self).input_text@;
                let w = s.skip(word_start(s));
                if w.len() > 0 && w[0] == '@' {
                    &&& *final(self) == (AppState {
                        autocomplete_mode: Some(AutocompleteMode::Agent),
                        autocomplete_query: final(self).autocomplete_query,
                        ..*old(self)
                    })
                    &&& final(self).autocomplete_query@ == w.drop_first()
                } else if w.len() > 1 && w[0] == '/' {
                    &&& *final(self) == (AppState {
                        autocomplete_mode: Some(AutocompleteMode::File),
                        autocomplete_query: final(self).autocomplete_query,
                        ..*old(self)
                    })
                    &&& final(self).autocomplete_query@ == w.drop_first()
                } else {
                    *final(self) == *old(self)
                }
            }),
    {
        let n = self.input_text.as_str().unicode_len();
        let start = last_word_start(self.input_text.as_str());
        proof {
            assert(old(self).input_text@.skip(word_start(old(self).input_text@)).len() == n
                - start);
        }
        if start < n {
            let c0 = self.input_text.as_str().get_char(start);
            let ghost w = old(self).input_text@.skip(word_start(old(self).input_text@));
            proof {
                assert(w[0] == old(self).input_text@[start as int]);
            }
            if c0 == '@' {
                let q = self.input_text.as_str().substring_char(start + 1, n).to_owned();
                proof {
                    assert(q@ =~= w.drop_first());
                }
                self.autocomplete_mode = Some(AutocompleteMode::Agent);
                self.autocomplete_query = q;
            } else if c0 == '/' && start + 1 < n {
                let q = self.input_text.as_str().substring_char(start + 1, n).to_owned();
                proof {
                    assert(q@ =~= w.drop_first());
                }
                self.autocomplete_mode = Some(AutocompleteMode::File);
                self.autocomplete_query = q;
            }
        }
    }

    /// Keeps only the completion candidates that match the query,
    /// ignoring case, and rewinds the selection.
    pub fn filter_autocomplete(&mut self)
        ensures
            *final(self) == (AppState {
                autocomplete_list: final(self).autocomplete_list,
                autocomplete_idx: 0,
                ..*old(self)
            }),
            final(self).autocomplete_list.deep_view() == ac_filter(
                old(self).autocomplete_list.deep_view(),
                old(self).autocomplete_query@,
            ),
    {
        let query = lowercase(self.autocomplete_query.as_str());
        let n = self.autocomplete_list.len();
        let mut kept: Vec<String> = Vec::new();
        let mut i: usize = 0;
        proof {
            assert(old(self).autocomplete_list.deep_view().take(0) =~= Seq::<Seq<char>>::empty());
        }
        while i < n
            invariant
                *self == *old(self),
                n == self.autocomplete_list.len(),
                i <= n,
                query@ == lower_of(old(self).autocomplete_query@),
                kept.deep_view() == ac_filter(
                    old(self).autocomplete_list.deep_view().take(i as int),
                    old(self).autocomplete_query@,
                ),
            decreases n - i,
        {
            let ghost dv = old(self).autocomplete_list.deep_view();
            let low = lowercase(self.autocomplete_list[i].as_str());
            let keep = contains_sub(low.as_str(), query.as_str());
            let ghost pre = kept.deep_view();
            if keep {
                let it = self.autocomplete_list[i].clone();
                kept.push(it);
            }
            proof {
                assert(dv.take(i + 1).drop_last() =~= dv.take(i as int));
                assert(dv.take(i + 1).last() == dv[i as int]);
                if keep {
                    assert(kept.deep_view() =~= pre.push(dv[i as int]));
                }
            }
            i = i + 1;
        }
        proof {
            assert(old(self).autocomplete_list.deep_view().take(n as int) =~= old(
                self,
            ).autocomplete_list.deep_view());
        }
        self.autocomplete_list = kept;
        self.autocomplete_idx = 0;
    }

    /// Replaces the completion candidates with the agent names the
    /// caller fetched, then filters them against the query.
    pub fn load_agent_autocomplete(&mut self, candidates: Vec<String>)
        ensures
            *final(self) == (AppState {
                autocomplete_list: final(self).autocomplete_list,
                autocomplete_idx: 0,
                ..*old(self)
            }),
            final(self).autocomplete_list.deep_view() == ac_filter(
                candidates.deep_view(),
                old(self).autocomplete_query@,
            ),
    {
        self.autocomplete_list = candidates;
        self.filter_autocomplete();
    }

    /// Moves the completion selection one down, wrapping at the end.
    pub fn autocomplete_next(&mut self)
        requires
            old(self).autocomplete_list.len() > 0 ==> old(self).autocomplete_idx < old(
                self,
            ).autocomplete_list.len(),
        ensures
            old(self).autocomplete_list.len() == 0 ==> *final(self) == *old(self),
            old(self).autocomplete_list.len() > 0 ==> *final(self) == (AppState {
                autocomplete_idx: ((old(self).autocomplete_idx + 1) as int % old(
                    self,
                ).autocomplete_list.len() as int) as usize,
                ..*old(self)
            }),
    {
        if self.autocomplete_list.len() > 0 {
            self.autocomplete_idx = (self.autocomplete_idx + 1) % self.autocomplete_list.len();
        }
    }

    /// Moves the completion selection one up, wrapping at the start.
    pub fn autocomplete_prev(&mut self)
        ensures
            old(self).autocomplete_list.len() == 0 ==> *final(self) == *old(self),
            old(self).autocomplete_list.len() > 0 ==> *final(self) == (AppState {
                autocomplete_idx: if old(self).autocomplete_idx == 0 {
                    (old(self).autocomplete_list.len() - 1) as usize
                } else {
                    (old(self).autocomplete_idx - 1) as usize
                },
                ..*old(self)
            }),
    {
        if self.autocomplete_list.len() > 0 {
            self.autocomplete_idx = if self.autocomplete_idx == 0 {
                self.autocomplete_list.len() - 1
            } else {
                self.autocomplete_idx - 1
            };
        }
    }

    /// Replaces the last input word with the selected candidate behind
    /// its trigger character, appends a space, and closes completion.
    pub fn autocomplete_select(&mut self)
        requires
            old(self).autocomplete_list.len() > 0 ==> old(self).autocomplete_idx < old(
                self,
            ).autocomplete_list.len(),
        ensures
            old(self).autocomplete_list.len() == 0 || old(self).autocomplete_mode is None
                ==> *final(self) == *old(self),
            old(self).autocomplete_list.len() > 0 && old(self).autocomplete_mode is Some ==> {
                let trig = if old(self).autocomplete_mode == Some(AutocompleteMode::Agent) {
                    '@'
                } else {
                    '/'
                };
                let sel = old(self).autocomplete_list@[old(self).autocomplete_idx as int]@;
                let s = old(self).input_text@;
                &&& *final(self) == (AppState {
                    input_text: final(self).input_text,
                    autocomplete_mode: None,
                    autocomplete_list: final(self).autocomplete_list,
                    autocomplete_idx: 0,
                    autocomplete_query: final(self).autocomplete_query,
                    ..*old(self)
                })
                &&& final(self).input_text@ == s.take(word_start(s)) + seq![trig] + sel + seq![' ']
                &&& final(self).autocomplete_list@.len() == 0
                &&& final(self).autocomplete_query@.len() == 0
            },
    {
        if self.autocomplete_list.len() == 0 {
            return ;
        }
        let trigger_c: char = match self.autocomplete_mode {
            Some(AutocompleteMode::Agent) => '@',
            Some(AutocompleteMode::File) => '/',
            None => {
                return ;
            },
        };
        let selection = self.autocomplete_list[self.autocomplete_idx].clone();
        let start = last_word_start(self.input_text.as_str());
        let mut t = self.input_text.as_str().substring_char(0, start).to_owned();
        push_char(&mut t, trigger_c);
        t.append(selection.as_str());
        push_char(&mut t, ' ');
        proof {
            let s = old(self).input_text@;
            assert(t@ =~= s.take(word_start(s)) + seq![trigger_c] + selection@ + seq![' ']);
        }
        self.input_text = t;
        self.autocomplete_mode = None;
        self.autocomplete_list.clear();
        self.autocomplete_idx = 0;
        self.autocomplete_query = String::new();
    }

    /// The agent the stream view follows, if one is chosen and in
    /// range.
    pub fn active_agent(&self) -> (r: Option<&Agent>)
        ensures
            match r {
                Some(a) => {
                    &&& self.active_agent_idx matches Some(idx)
                    &&& idx < self.agents.len()
                    &&& *a == self.agents@[self.active_agent_idx->0 as int]
                },
                None => match self.active_agent_idx {
                    None => true,
                    Some(idx) => idx >= self.agents.len(),
                },
            },
    {
        match self.active_agent_idx {
            Some(idx) => {
                if idx < self.agents.len() {
                    Some(&self.agents[idx])
                } else {
                    None
                }
            },
            None => None,
        }
    }

    /// Closes completion and forgets its candidates and query.
    pub fn cancel_autocomplete(&mut self)
        ensures
            *final(self) == (AppState {
                autocomplete_mode: None,
                autocomplete_list: final(self).autocomplete_list,
                autocomplete_idx: 0,
                autocomplete_query: final(self).autocomplete_query,
                ..*old(self)
            }),
            final(self).autocomplete_list@.len() == 0,
            final(self).autocomplete_query@.len() == 0,
    {
        self.autocomplete_mode = None;
        self.autocomplete_list.clear();
        self.autocomplete_idx = 0;
        self.autocomplete_query = String::new();
    }
}

} // verus!
