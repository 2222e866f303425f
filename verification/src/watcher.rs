//! Watching session transcript files for growth. The caller walks the
//! directory and reads files; this state machine remembers each file's
//! last size, decides when a file has grown, and turns the newly
//! appended text into one event per non-empty line, queued until they
//! are taken.

use vstd::prelude::*;

use crate::strutil::{lines_of, split_lines};

verus! {

/// One newly appended transcript line, with where it came from.
#[derive(Debug, Clone)]
pub struct SessionEvent {
    pub provider: String,
    pub session_id: String,
    pub line: String,
}

/// The last recorded size of `k`, newest record first.
pub open spec fn size_lookup(entries: Seq<(String, u64)>, k: Seq<char>) -> Option<u64>
    decreases entries.len(),
{
    if entries.len() == 0 {
        None
    } else if entries[0].0@ == k {
        Some(entries[0].1)
    } else {
        size_lookup(entries.drop_first(), k)
    }
}

/// The non-empty lines of newly appended text, in file order.
pub open spec fn event_lines(s: Seq<char>) -> Seq<Seq<char>>
    decreases lines_of(s).len(),
{
    nonempty_of(lines_of(s))
}

/// The non-empty entries of a line listing.
pub open spec fn nonempty_of(ls: Seq<Seq<char>>) -> Seq<Seq<char>>
    decreases ls.len(),
{
    if ls.len() == 0 {
        Seq::empty()
    } else {
        let rest = nonempty_of(ls.drop_last());
        if ls.last().len() > 0 {
            rest.push(ls.last())
        } else {
            rest
        }
    }
}

/// Whether each of the queue's entries past `from` carries one of the
/// `lines`, in order, for the given provider and session.
pub open spec fn events_match(
    pending: Seq<SessionEvent>,
    from: int,
    lines: Seq<Seq<char>>,
    provider: Seq<char>,
    session_id: Seq<char>,
) -> bool {
    &&& pending.len() == from + lines.len()
    &&& forall|i: int|
        0 <= i < lines.len() ==> {
            &&& (#[trigger] pending[from + i]).provider@ == provider
            &&& pending[from + i].session_id@ == session_id
            &&& pending[from + i].line@ == lines[i]
        }
}

/// Tracks transcript files by size and queues growth events.
#[derive(Debug)]
pub struct FileWatcher {
    pub sessions_dir: String,
    pub tracked_files: Vec<(String, u64)>,
    pub pending: Vec<SessionEvent>,
}

impl FileWatcher {
    /// A watcher over the given directory, tracking nothing yet.
    pub fn new(sessions_dir: String) -> (r: FileWatcher)
        ensures
            r.sessions_dir == sessions_dir,
            r.tracked_files@.len() == 0,
            r.pending@.len() == 0,
    {
        FileWatcher { sessions_dir, tracked_files: Vec::new(), pending: Vec::new() }
    }

    /// The size this file was last seen with, if it is tracked.
    pub fn tracked_size(&self, path: &str) -> (r: Option<u64>)
        ensures
            r == size_lookup(self.tracked_files@, path@),
    {
        let n = self.tracked_files.len();
        let mut i: usize = 0;
        proof {
            assert(self.tracked_files@.skip(0) =~= self.tracked_files@);
        }
        loop
            invariant
                n == self.tracked_files.len(),
                i <= n,
                size_lookup(self.tracked_files@, path@) == size_lookup(
                    self.tracked_files@.skip(i as int),
                    path@,
                ),
            decreases n - i,
        {
            if i >= n {
                return None;
            }
            proof {
                assert(self.tracked_files@.skip(i as int)[0] == self.tracked_files@[i as int]);
                assert(self.tracked_files@.skip(i as int).drop_first() =~= self.tracked_files@.skip(
                    i + 1,
                ));
            }
            if crate::strutil::str_eq(self.tracked_files[i].0.as_str(), path) {
                return Some(self.tracked_files[i].1);
            }
            i = i + 1;
        }
    }

    /// Takes in one observation of a session file: a file seen before
    /// with another size has grown, and each non-empty line of the
    /// newly appended text is queued as an event; then the size is
    /// recorded either way.
    pub fn note_file(
        &mut self,
        provider: &str,
        session_id: &str,
        path: &str,
        size: u64,
        appended: &str,
    )
        ensures
            final(self).sessions_dir == old(self).sessions_dir,
            forall|k: Seq<char>|
                #[trigger] size_lookup(final(self).tracked_files@, k) == if k == path@ {
                    Some(size)
                } else {
                    size_lookup(old(self).tracked_files@, k)
                },
            match size_lookup(old(self).tracked_files@, path@) {
                Some(last) => if last != size {
                    events_match(
                        final(self).pending@,
                        old(self).pending@.len() as int,
                        event_lines(appended@),
                        provider@,
                        session_id@,
                    ) && final(self).pending@.take(old(self).pending@.len() as int) == old(
                        self,
                    ).pending@
                } else {
                    final(self).pending@ == old(self).pending@
                },
                None => final(self).pending@ == old(self).pending@,
            },
    {
        let last_size = self.tracked_size(path);
        let emit = match last_size {
            Some(last) => last != size,
            None => false,
        };
        if emit {
            let pieces = split_lines(appended);
            let n = pieces.len();
            let ghost lns = lines_of(appended@);
            let ghost from = self.pending@.len() as int;
            let ghost pre_pending = self.pending@;
            let mut i: usize = 0;
            proof {
                assert(nonempty_of(lns.take(0)) =~= Seq::<Seq<char>>::empty());
            }
            while i < n
                invariant
                    n == pieces.len(),
                    pieces.deep_view() == lns,
                    i <= n,
                    self.sessions_dir == old(self).sessions_dir,
                    self.tracked_files@ == old(self).tracked_files@,
                    self.pending@.take(from) == pre_pending,
                    from == pre_pending.len(),
                    events_match(
                        self.pending@,
                        from,
                        nonempty_of(lns.take(i as int)),
                        provider@,
                        session_id@,
                    ),
                decreases n - i,
            {
                let ghost pre = lns.take(i as int);
                let ghost cur = lns.take(i + 1);
                proof {
                    assert(cur.drop_last() =~= pre);
                    assert(cur.last() == lns[i as int]);
                    assert(pieces.deep_view()[i as int] == pieces@[i as int]@);
                }
                if pieces[i].as_str().unicode_len() > 0 {
                    let ev = SessionEvent {
                        provider: provider.to_owned(),
                        session_id: session_id.to_owned(),
                        line: pieces[i].clone(),
                    };
                    self.pending.push(ev);
                    proof {
                        assert(self.pending@.take(from) =~= pre_pending);
                    }
                }
                i = i + 1;
            }
            proof {
                assert(lns.take(n as int) =~= lns);
            }
        }
        let ghost pre_tracked = self.tracked_files@;
        let entry = (path.to_owned(), size);
        self.tracked_files.insert(0, entry);
        proof {
            assert(self.tracked_files@[0].0@ == path@);
            assert(self.tracked_files@.drop_first() =~= pre_tracked);
            assert forall|k: Seq<char>|
                #[trigger] size_lookup(self.tracked_files@, k) == if k == path@ {
                    Some(size)
                } else {
                    size_lookup(pre_tracked, k)
                } by {}
        }
    }

    /// Hands out the oldest queued event, if any.
    pub fn try_recv(&mut self) -> (r: Option<SessionEvent>)
        ensures
            final(self).sessions_dir == old(self).sessions_dir,
            final(self).tracked_files@ == old(self).tracked_files@,
            match r {
                Some(ev) => old(self).pending@.len() > 0 && ev == old(self).pending@[0]
                    && final(self).pending@ == old(self).pending@.drop_first(),
                None => old(self).pending@.len() == 0
                    && final(self).pending@ == old(self).pending@,
            },
    {
        if self.pending.len() == 0 {
            return None;
        }
        let ev = self.pending.remove(0);
        proof {
            assert(self.pending@ =~= old(self).pending@.drop_first());
        }
        Some(ev)
    }
}

} // verus!
