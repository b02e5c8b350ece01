//! The entry rule: what happens to one visited path. The traversal engine —
//! a tree walk during the initial scan, a debounced event feed during watch —
//! applies this rule to every path it reaches.
//!
//! For a visited path: a hidden final component (a leading dot) prunes the
//! entry silently, but only during the initial scan; otherwise the matcher
//! decides; an actionable path is counted as known when the store already
//! holds the mark, else counted as new and marked (or only reported, in a
//! dry run), and is pruned either way; a non-actionable path is descended
//! into.

use vstd::prelude::*;

use crate::dropbox::Dropbox;
use crate::matcher::{spec_decide, Matcher};

verus! {

/// The final component of a path: what follows the last separator, or the
/// whole path when it has none.
pub open spec fn last_component(path: Seq<char>) -> Seq<char>
    decreases path.len(),
{
    if !path.contains('/') {
        path
    } else {
        last_component(path.skip(1))
    }
}

/// Whether an entry name begins with the hidden-file marker.
pub open spec fn spec_hidden_name(name: Seq<char>) -> bool {
    name.len() > 0 && name[0] == '.'
}

/// Whether a path's final component begins with the hidden-file marker.
pub open spec fn spec_hidden_entry(path: Seq<char>) -> bool {
    spec_hidden_name(last_component(path))
}

/// The last component of a path is its suffix after the last separator.
proof fn lemma_last_component_after_slash(path: Seq<char>, j: int)
    requires
        0 <= j <= path.len(),
        j == 0 || path[j - 1] == '/',
        forall|k: int| j <= k < path.len() ==> path[k] != '/',
    ensures
        last_component(path) == path.skip(j),
    decreases j,
{
    if j == 0 {
        assert(!path.contains('/'));
        assert(path.skip(0) =~= path);
    } else {
        assert(path.contains('/')) by {
            assert(path[j - 1] == '/');
        }
        let tail = path.skip(1);
        assert(forall|k: int| j - 1 <= k < tail.len() ==> tail[k] != '/');
        lemma_last_component_after_slash(tail, j - 1);
        assert(tail.skip(j - 1) =~= path.skip(j));
    }
}

/// Whether the path's final component begins with a dot.
pub fn has_hidden_final_component(path: &str) -> (r: bool)
    ensures
        r == spec_hidden_entry(path@),
{
    let n = path.unicode_len();
    let mut j: usize = n;
    while j > 0 && path.get_char(j - 1) != '/'
        invariant
            j <= n,
            n == path@.len(),
            forall|k: int| j <= k < n ==> path@[k] != '/',
        decreases j,
    {
        j = j - 1;
    }
    proof {
        lemma_last_component_after_slash(path@, j as int);
    }
    j < n && path.get_char(j) == '.'
}

/// The running counters of one scan or watch invocation: entries found
/// already marked, and entries newly marked (or, in a dry run, that would
/// have been marked).
#[derive(Clone, Copy, Debug, PartialEq, Eq, Structural)]
pub struct ScanStats {
    pub known_ignores: u32,
    pub new_ignores: u32,
}

impl ScanStats {
    /// Fresh counters, created at the start of every scan or watch.
    pub fn new() -> (r: ScanStats)
        ensures
            r.known_ignores == 0,
            r.new_ignores == 0,
    {
        ScanStats { known_ignores: 0, new_ignores: 0 }
    }
}

/// What the entry rule did with one visited path.
#[derive(Clone, Copy, Debug, PartialEq, Eq, Structural)]
pub enum EntryOutcome {
    /// Initial scan only: the final component is hidden; the entry was
    /// pruned without consulting the matcher.
    SkippedHidden,
    /// Actionable, and the store already held the mark; pruned.
    AlreadyKnown,
    /// Actionable and unmarked, but this is a dry run: counted, not marked.
    WouldMark,
    /// Actionable and unmarked: the mark was written.
    Marked,
    /// Actionable and unmarked: the mark write failed (counted regardless).
    MarkFailed,
    /// Not actionable: traversal continues into the entry.
    Descend,
}

impl EntryOutcome {
    /// Whether the matcher found the path actionable.
    pub open spec fn spec_actionable(self) -> bool {
        self is AlreadyKnown || self is WouldMark || self is Marked || self is MarkFailed
    }

    /// Whether traversal continues into the entry.
    pub open spec fn spec_descend(self) -> bool {
        self is Descend
    }

    /// Whether traversal continues into the entry.
    pub fn descend(&self) -> (r: bool)
        ensures
            r == self.spec_descend(),
    {
        matches!(self, EntryOutcome::Descend)
    }
}

/// What the entry rule guarantees for one visited path, given whether the
/// matcher found it actionable and whether its final component is hidden:
/// the outcome class and the counter updates. Which of `Marked` and
/// `MarkFailed` comes back depends on the attribute store alone.
pub open spec fn spec_entry_result(
    r: EntryOutcome,
    actionable: bool,
    hidden: bool,
    initial_scan: bool,
    dry_run: bool,
    old_stats: ScanStats,
    new_stats: ScanStats,
) -> bool {
    &&& (r is SkippedHidden <==> (initial_scan && hidden))
    &&& (r is Descend <==> (!(initial_scan && hidden) && !actionable))
    &&& (r.spec_actionable() <==> (!(initial_scan && hidden) && actionable))
    &&& (r is WouldMark ==> dry_run)
    &&& ((r is Marked || r is MarkFailed) ==> !dry_run)
    &&& new_stats.known_ignores == old_stats.known_ignores + (
        if r is AlreadyKnown {
            1int
        } else {
            0int
        }
    )
    &&& new_stats.new_ignores == old_stats.new_ignores + (
        if r is WouldMark || r is Marked || r is MarkFailed {
            1int
        } else {
            0int
        }
    )
}

/// Hidden-entry handling is a traversal-order rule of the initial scan only:
/// during live event handling the guarantee for a path does not depend on
/// whether its final component is hidden.
pub proof fn lemma_live_events_ignore_hidden(
    r: EntryOutcome,
    actionable: bool,
    hidden: bool,
    dry_run: bool,
    old_stats: ScanStats,
    new_stats: ScanStats,
)
    ensures
        spec_entry_result(r, actionable, hidden, false, dry_run, old_stats, new_stats)
            == spec_entry_result(r, actionable, false, false, dry_run, old_stats, new_stats),
{
}

/// One filesystem change notification, reduced to what the engine reads of
/// it: the affected destination path for the kinds of interest, nothing for
/// every other kind.
pub enum ChangeEvent {
    /// An entry was created at the path.
    Created(String),
    /// The path's metadata changed.
    MetadataChanged(String),
    /// Something was renamed to the path.
    RenamedTo(String),
    /// The path was written.
    Written(String),
    /// Any other notification; ignored by the engine.
    Other,
}

/// The path an event asks the engine to re-evaluate, if any.
pub open spec fn spec_event_path(e: &ChangeEvent) -> Option<Seq<char>> {
    match e {
        ChangeEvent::Created(p) => Some(p@),
        ChangeEvent::MetadataChanged(p) => Some(p@),
        ChangeEvent::RenamedTo(p) => Some(p@),
        ChangeEvent::Written(p) => Some(p@),
        ChangeEvent::Other => None,
    }
}

/// The path an event carries, if its kind is of interest.
pub fn relevant_path(e: &ChangeEvent) -> (r: Option<&String>)
    ensures
        match r {
            Some(p) => spec_event_path(e) == Some(p@),
            None => spec_event_path(e) is None,
        },
{
    match e {
        ChangeEvent::Created(p) => Some(p),
        ChangeEvent::MetadataChanged(p) => Some(p),
        ChangeEvent::RenamedTo(p) => Some(p),
        ChangeEvent::Written(p) => Some(p),
        ChangeEvent::Other => None,
    }
}

/// The matcher and the attribute store, shared by a whole scan or watch
/// invocation.
pub struct Scanner {
    pub matcher: Matcher,
    pub dropbox: Dropbox,
}

impl Scanner {
    /// The matcher's glob sets hold the patterns it was built from.
    pub open spec fn wf(&self) -> bool {
        self.matcher.wf()
    }

    /// Builds a scanner from its two collaborators; never fails.
    pub fn new(matcher: Matcher, dropbox: Dropbox) -> (r: Result<Self, String>)
        ensures
            r matches Ok(s) && s.matcher == matcher && s.dropbox == dropbox,
    {
        Ok(Scanner { dropbox, matcher })
    }

    /// Applies the entry rule to one visited path. During the initial scan
    /// (`initial_scan`), a hidden final component prunes the entry before
    /// the matcher is consulted; during watch it does not. An actionable
    /// path is counted and pruned; marking happens only outside a dry run
    /// and only when the store does not already hold the mark.
    pub fn handle_entry(
        &self,
        path: &str,
        initial_scan: bool,
        dry_run: bool,
        stats: &mut ScanStats,
    ) -> (r: EntryOutcome)
        requires
            self.wf(),
            old(stats).known_ignores < u32::MAX,
            old(stats).new_ignores < u32::MAX,
        ensures
            spec_entry_result(
                r,
                spec_decide(self.matcher.spec_ignore(), self.matcher.spec_skip(), path@),
                spec_hidden_entry(path@),
                initial_scan,
                dry_run,
                *old(stats),
                *final(stats),
            ),
    {
        if initial_scan && has_hidden_final_component(path) {
            return EntryOutcome::SkippedHidden;
        }
        let matched = self.matcher.matches(path.to_owned());
        if !matched {
            return EntryOutcome::Descend;
        }
        if self.dropbox.is_ignored(path) {
            stats.known_ignores = stats.known_ignores + 1;
            return EntryOutcome::AlreadyKnown;
        }
        stats.new_ignores = stats.new_ignores + 1;
        if dry_run {
            EntryOutcome::WouldMark
        } else if self.dropbox.ignore(path) {
            EntryOutcome::Marked
        } else {
            EntryOutcome::MarkFailed
        }
    }

    /// Folds one debounced change event into the entry rule: events of
    /// interest have their path re-evaluated exactly as during the scan but
    /// without the hidden-name pruning; every other event is ignored and
    /// leaves the counters untouched.
    pub fn handle_event(
        &self,
        event: &ChangeEvent,
        dry_run: bool,
        stats: &mut ScanStats,
    ) -> (r: Option<EntryOutcome>)
        requires
            self.wf(),
            old(stats).known_ignores < u32::MAX,
            old(stats).new_ignores < u32::MAX,
        ensures
            match spec_event_path(event) {
                Some(p) => r matches Some(o) && spec_entry_result(
                    o,
                    spec_decide(self.matcher.spec_ignore(), self.matcher.spec_skip(), p),
                    spec_hidden_entry(p),
                    false,
                    dry_run,
                    *old(stats),
                    *final(stats),
                ),
                None => r is None && *final(stats) == *old(stats),
            },
    {
        match relevant_path(event) {
            Some(p) => {
                let path = p.clone();
                Some(self.handle_entry(path.as_str(), false, dry_run, stats))
            }
            None => None,
        }
    }
}

} // verus!
