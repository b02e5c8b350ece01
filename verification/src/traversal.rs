//! The tree-walk engine over a modelled directory tree: a pre-order walk
//! that applies the entry rule to every entry, prunes at hidden names and at
//! actionable matches, and threads the mark store through the walk. The
//! walk over the real filesystem performed by the binary follows the same
//! rule path by path; this module is where the rule's guarantees — skip
//! precedence aside — are stated and proved.

use vstd::prelude::*;

use crate::matcher::{spec_decide, Matcher};
use crate::scanner::{spec_hidden_entry, ScanStats};

verus! {

/// One entry of a modelled directory tree: its full path and the entries
/// directly beneath it. An entry without children stands for a file or an
/// empty directory.
pub struct TreeEntry {
    pub path: String,
    pub children: Vec<TreeEntry>,
}

/// What one scan of a (sub)tree produces: the two counters and the mark
/// store as the scan leaves it.
#[verifier::ext_equal]
pub ghost struct SpecScanOutcome {
    pub known: nat,
    pub fresh: nat,
    pub marked: Set<Seq<char>>,
}

/// The number of entries in the subtree rooted at `e`, the root included.
pub open spec fn node_count(e: TreeEntry) -> nat
    decreases e, 1int, 0int,
{
    1 + node_count_from(e, 0)
}

/// The number of entries in the subtrees of `e`'s children from index `i` on.
pub open spec fn node_count_from(e: TreeEntry, i: int) -> nat
    decreases e, 0int, e.children.len() - i,
{
    if i < 0 || i >= e.children.len() {
        0
    } else {
        node_count(e.children[i]) + node_count_from(e, i + 1)
    }
}

/// The scan of one entry, in pre-order: a hidden final component prunes the
/// entry unseen; an actionable path is counted — as known when the store
/// holds its mark, as fresh otherwise, in which case it is marked unless
/// this is a dry run — and pruned; anything else is descended into.
pub open spec fn spec_scan(
    e: TreeEntry,
    ignore: Seq<Seq<char>>,
    skip: Seq<Seq<char>>,
    marked: Set<Seq<char>>,
    dry_run: bool,
) -> SpecScanOutcome
    decreases e, 1int, 0int,
{
    if spec_hidden_entry(e.path@) {
        SpecScanOutcome { known: 0, fresh: 0, marked }
    } else if spec_decide(ignore, skip, e.path@) {
        if marked.contains(e.path@) {
            SpecScanOutcome { known: 1, fresh: 0, marked }
        } else {
            SpecScanOutcome {
                known: 0,
                fresh: 1,
                marked: if dry_run {
                    marked
                } else {
                    marked.insert(e.path@)
                },
            }
        }
    } else {
        spec_scan_from(e, 0, ignore, skip, marked, dry_run)
    }
}

/// The scan of `e`'s children from index `i` on, left to right, threading
/// the mark store and summing the counters.
pub open spec fn spec_scan_from(
    e: TreeEntry,
    i: int,
    ignore: Seq<Seq<char>>,
    skip: Seq<Seq<char>>,
    marked: Set<Seq<char>>,
    dry_run: bool,
) -> SpecScanOutcome
    decreases e, 0int, e.children.len() - i,
{
    if i < 0 || i >= e.children.len() {
        SpecScanOutcome { known: 0, fresh: 0, marked }
    } else {
        let head = spec_scan(e.children[i], ignore, skip, marked, dry_run);
        let rest = spec_scan_from(e, i + 1, ignore, skip, head.marked, dry_run);
        SpecScanOutcome {
            known: head.known + rest.known,
            fresh: head.fresh + rest.fresh,
            marked: rest.marked,
        }
    }
}

/// The paths the scan of `e` finds actionable, in visit order: what a run
/// over the tree marks, or would mark. Independent of the mark store and of
/// whether the run is dry, because an actionable entry prunes its subtree
/// whether its mark was known or fresh.
pub open spec fn spec_candidates(
    e: TreeEntry,
    ignore: Seq<Seq<char>>,
    skip: Seq<Seq<char>>,
) -> Seq<Seq<char>>
    decreases e, 1int, 0int,
{
    if spec_hidden_entry(e.path@) {
        Seq::empty()
    } else if spec_decide(ignore, skip, e.path@) {
        seq![e.path@]
    } else {
        spec_candidates_from(e, 0, ignore, skip)
    }
}

/// The actionable paths found beneath `e`'s children from index `i` on.
pub open spec fn spec_candidates_from(
    e: TreeEntry,
    i: int,
    ignore: Seq<Seq<char>>,
    skip: Seq<Seq<char>>,
) -> Seq<Seq<char>>
    decreases e, 0int, e.children.len() - i,
{
    if i < 0 || i >= e.children.len() {
        Seq::empty()
    } else {
        spec_candidates(e.children[i], ignore, skip) + spec_candidates_from(e, i + 1, ignore, skip)
    }
}

/// Every entry path of the subtree rooted at `e`, in pre-order.
pub open spec fn spec_all_paths(e: TreeEntry) -> Seq<Seq<char>>
    decreases e, 1int, 0int,
{
    seq![e.path@] + spec_all_paths_from(e, 0)
}

/// Every entry path beneath `e`'s children from index `i` on.
pub open spec fn spec_all_paths_from(e: TreeEntry, i: int) -> Seq<Seq<char>>
    decreases e, 0int, e.children.len() - i,
{
    if i < 0 || i >= e.children.len() {
        Seq::empty()
    } else {
        spec_all_paths(e.children[i]) + spec_all_paths_from(e, i + 1)
    }
}

/// The set a concatenation stands for is the union of the parts' sets.
proof fn lemma_to_set_concat(a: Seq<Seq<char>>, b: Seq<Seq<char>>)
    ensures
        (a + b).to_set() == a.to_set().union(b.to_set()),
{
    assert forall|x: Seq<char>| (a + b).to_set().contains(x) implies a.to_set().union(
        b.to_set(),
    ).contains(x) by {
        let i = choose|i: int| 0 <= i < (a + b).len() && (a + b)[i] == x;
        if i < a.len() {
            assert(a[i] == x);
        } else {
            assert(b[i - a.len()] == x);
        }
    }
    assert forall|x: Seq<char>| a.to_set().union(b.to_set()).contains(x) implies (a
        + b).to_set().contains(x) by {
        if a.to_set().contains(x) {
            let i = choose|i: int| 0 <= i < a.len() && a[i] == x;
            assert((a + b)[i] == x);
        } else {
            let i = choose|i: int| 0 <= i < b.len() && b[i] == x;
            assert((a + b)[a.len() + i] == x);
        }
    }
    assert((a + b).to_set() =~= a.to_set().union(b.to_set()));
}

/// Hidden-entry exclusion: an entry whose final component is hidden is never
/// evaluated against any pattern set during the scan — the scan of its
/// subtree counts nothing, marks nothing, and its result does not depend on
/// the patterns at all.
pub proof fn lemma_hidden_never_evaluated(
    e: TreeEntry,
    ignore_a: Seq<Seq<char>>,
    skip_a: Seq<Seq<char>>,
    ignore_b: Seq<Seq<char>>,
    skip_b: Seq<Seq<char>>,
    marked: Set<Seq<char>>,
    dry_run: bool,
)
    requires
        spec_hidden_entry(e.path@),
    ensures
        spec_scan(e, ignore_a, skip_a, marked, dry_run) == spec_scan(
            e,
            ignore_b,
            skip_b,
            marked,
            dry_run,
        ),
        spec_scan(e, ignore_a, skip_a, marked, dry_run) == (SpecScanOutcome {
            known: 0,
            fresh: 0,
            marked,
        }),
{
}

/// Pruning correctness: once an entry's path is actionable, nothing beneath
/// it is evaluated or marked in the same scan — the scan's result does not
/// depend on the entry's children.
pub proof fn lemma_pruning(
    e: TreeEntry,
    other: TreeEntry,
    ignore: Seq<Seq<char>>,
    skip: Seq<Seq<char>>,
    marked: Set<Seq<char>>,
    dry_run: bool,
)
    requires
        other.path == e.path,
        spec_decide(ignore, skip, e.path@),
    ensures
        spec_scan(e, ignore, skip, marked, dry_run) == spec_scan(
            other,
            ignore,
            skip,
            marked,
            dry_run,
        ),
{
}

/// Dry-run non-mutation: a dry run never changes the mark store.
pub proof fn lemma_dry_run_no_mutation(
    e: TreeEntry,
    ignore: Seq<Seq<char>>,
    skip: Seq<Seq<char>>,
    marked: Set<Seq<char>>,
)
    ensures
        spec_scan(e, ignore, skip, marked, true).marked == marked,
    decreases e, 1int, 0int,
{
    lemma_dry_run_no_mutation_from(e, 0, ignore, skip, marked);
}

proof fn lemma_dry_run_no_mutation_from(
    e: TreeEntry,
    i: int,
    ignore: Seq<Seq<char>>,
    skip: Seq<Seq<char>>,
    marked: Set<Seq<char>>,
)
    ensures
        spec_scan_from(e, i, ignore, skip, marked, true).marked == marked,
    decreases e, 0int, e.children.len() - i,
{
    if 0 <= i < e.children.len() {
        lemma_dry_run_no_mutation(e.children[i], ignore, skip, marked);
        let head = spec_scan(e.children[i], ignore, skip, marked, true);
        lemma_dry_run_no_mutation_from(e, i + 1, ignore, skip, head.marked);
    }
}

/// What a scan does to the mark store: a dry run leaves it alone; a real run
/// adds exactly the actionable paths the walk reaches.
pub proof fn lemma_scan_marked(
    e: TreeEntry,
    ignore: Seq<Seq<char>>,
    skip: Seq<Seq<char>>,
    marked: Set<Seq<char>>,
    dry_run: bool,
)
    ensures
        spec_scan(e, ignore, skip, marked, dry_run).marked == (if dry_run {
            marked
        } else {
            marked.union(spec_candidates(e, ignore, skip).to_set())
        }),
    decreases e, 1int, 0int,
{
    if dry_run {
        lemma_dry_run_no_mutation(e, ignore, skip, marked);
    } else {
        let cand = spec_candidates(e, ignore, skip);
        if spec_hidden_entry(e.path@) {
            assert(marked.union(cand.to_set()) =~= marked);
        } else if spec_decide(ignore, skip, e.path@) {
            assert(cand[0] == e.path@);
            if marked.contains(e.path@) {
                assert(marked.union(cand.to_set()) =~= marked);
            } else {
                assert(marked.union(cand.to_set()) =~= marked.insert(e.path@));
            }
        } else {
            lemma_scan_marked_from(e, 0, ignore, skip, marked);
        }
    }
}

proof fn lemma_scan_marked_from(
    e: TreeEntry,
    i: int,
    ignore: Seq<Seq<char>>,
    skip: Seq<Seq<char>>,
    marked: Set<Seq<char>>,
)
    ensures
        spec_scan_from(e, i, ignore, skip, marked, false).marked == marked.union(
            spec_candidates_from(e, i, ignore, skip).to_set(),
        ),
    decreases e, 0int, e.children.len() - i,
{
    if i < 0 || i >= e.children.len() {
        assert(marked.union(Seq::<Seq<char>>::empty().to_set()) =~= marked);
    } else {
        let c_head = spec_candidates(e.children[i], ignore, skip);
        let c_rest = spec_candidates_from(e, i + 1, ignore, skip);
        let head = spec_scan(e.children[i], ignore, skip, marked, false);
        lemma_scan_marked(e.children[i], ignore, skip, marked, false);
        lemma_scan_marked_from(e, i + 1, ignore, skip, head.marked);
        lemma_to_set_concat(c_head, c_rest);
        assert(marked.union(c_head.to_set()).union(c_rest.to_set()) =~= marked.union(
            (c_head + c_rest).to_set(),
        ));
    }
}

/// What a scan counts: known and fresh together count exactly the actionable
/// paths the walk reaches, whatever the store holds and whether or not the
/// run is dry.
pub proof fn lemma_scan_counts(
    e: TreeEntry,
    ignore: Seq<Seq<char>>,
    skip: Seq<Seq<char>>,
    marked: Set<Seq<char>>,
    dry_run: bool,
)
    ensures
        spec_scan(e, ignore, skip, marked, dry_run).known + spec_scan(
            e,
            ignore,
            skip,
            marked,
            dry_run,
        ).fresh == spec_candidates(e, ignore, skip).len(),
    decreases e, 1int, 0int,
{
    if !spec_hidden_entry(e.path@) && !spec_decide(ignore, skip, e.path@) {
        lemma_scan_counts_from(e, 0, ignore, skip, marked, dry_run);
    }
}

proof fn lemma_scan_counts_from(
    e: TreeEntry,
    i: int,
    ignore: Seq<Seq<char>>,
    skip: Seq<Seq<char>>,
    marked: Set<Seq<char>>,
    dry_run: bool,
)
    ensures
        spec_scan_from(e, i, ignore, skip, marked, dry_run).known + spec_scan_from(
            e,
            i,
            ignore,
            skip,
            marked,
            dry_run,
        ).fresh == spec_candidates_from(e, i, ignore, skip).len(),
    decreases e, 0int, e.children.len() - i,
{
    if 0 <= i < e.children.len() {
        let head = spec_scan(e.children[i], ignore, skip, marked, dry_run);
        lemma_scan_counts(e.children[i], ignore, skip, marked, dry_run);
        lemma_scan_counts_from(e, i + 1, ignore, skip, head.marked, dry_run);
    }
}

/// A scan over a store that already holds every actionable path of the tree
/// counts them all as known, counts nothing as fresh, and leaves the store
/// unchanged.
pub proof fn lemma_scan_all_known(
    e: TreeEntry,
    ignore: Seq<Seq<char>>,
    skip: Seq<Seq<char>>,
    marked: Set<Seq<char>>,
    dry_run: bool,
)
    requires
        spec_candidates(e, ignore, skip).to_set().subset_of(marked),
    ensures
        spec_scan(e, ignore, skip, marked, dry_run) == (SpecScanOutcome {
            known: spec_candidates(e, ignore, skip).len(),
            fresh: 0,
            marked,
        }),
    decreases e, 1int, 0int,
{
    let cand = spec_candidates(e, ignore, skip);
    if spec_hidden_entry(e.path@) {
    } else if spec_decide(ignore, skip, e.path@) {
        assert(cand[0] == e.path@);
        assert(cand.to_set().contains(e.path@));
        assert(marked.contains(e.path@));
    } else {
        lemma_scan_all_known_from(e, 0, ignore, skip, marked, dry_run);
    }
}

proof fn lemma_scan_all_known_from(
    e: TreeEntry,
    i: int,
    ignore: Seq<Seq<char>>,
    skip: Seq<Seq<char>>,
    marked: Set<Seq<char>>,
    dry_run: bool,
)
    requires
        spec_candidates_from(e, i, ignore, skip).to_set().subset_of(marked),
    ensures
        spec_scan_from(e, i, ignore, skip, marked, dry_run) == (SpecScanOutcome {
            known: spec_candidates_from(e, i, ignore, skip).len(),
            fresh: 0,
            marked,
        }),
    decreases e, 0int, e.children.len() - i,
{
    if 0 <= i < e.children.len() {
        let c_head = spec_candidates(e.children[i], ignore, skip);
        let c_rest = spec_candidates_from(e, i + 1, ignore, skip);
        lemma_to_set_concat(c_head, c_rest);
        lemma_scan_all_known(e.children[i], ignore, skip, marked, dry_run);
        lemma_scan_all_known_from(e, i + 1, ignore, skip, marked, dry_run);
    }
}

/// Idempotence: running the same scan twice changes nothing the second time.
/// Whatever the store held at first, the second run finds every actionable
/// path already marked: it counts them all as known, marks nothing new, and
/// leaves the store exactly as the first run left it.
pub proof fn lemma_scan_idempotent(
    e: TreeEntry,
    ignore: Seq<Seq<char>>,
    skip: Seq<Seq<char>>,
    marked: Set<Seq<char>>,
)
    ensures
        ({
            let first = spec_scan(e, ignore, skip, marked, false);
            let second = spec_scan(e, ignore, skip, first.marked, false);
            &&& second.known == first.known + first.fresh
            &&& second.fresh == 0
            &&& second.marked == first.marked
        }),
{
    let cand = spec_candidates(e, ignore, skip);
    let first = spec_scan(e, ignore, skip, marked, false);
    lemma_scan_marked(e, ignore, skip, marked, false);
    assert(cand.to_set().subset_of(first.marked));
    lemma_scan_all_known(e, ignore, skip, first.marked, false);
    lemma_scan_counts(e, ignore, skip, marked, false);
}

/// A mark, once set, is never taken away: any path the store holds before a
/// scan it still holds afterwards.
pub proof fn lemma_scan_preserves_marks(
    e: TreeEntry,
    ignore: Seq<Seq<char>>,
    skip: Seq<Seq<char>>,
    marked: Set<Seq<char>>,
    dry_run: bool,
    p: Seq<char>,
)
    requires
        marked.contains(p),
    ensures
        spec_scan(e, ignore, skip, marked, dry_run).marked.contains(p),
{
    lemma_scan_marked(e, ignore, skip, marked, dry_run);
}

/// An element of a concatenation comes from one of the parts, and the other
/// way round.
proof fn lemma_concat_contains(a: Seq<Seq<char>>, b: Seq<Seq<char>>, x: Seq<char>)
    ensures
        (a + b).contains(x) <==> a.contains(x) || b.contains(x),
{
    if (a + b).contains(x) {
        let i = choose|i: int| 0 <= i < (a + b).len() && (a + b)[i] == x;
        if i < a.len() {
            assert(a[i] == x);
        } else {
            assert(b[i - a.len()] == x);
        }
    }
    if a.contains(x) {
        let i = choose|i: int| 0 <= i < a.len() && a[i] == x;
        assert((a + b)[i] == x);
    }
    if b.contains(x) {
        let i = choose|i: int| 0 <= i < b.len() && b[i] == x;
        assert((a + b)[a.len() + i] == x);
    }
}

/// A concatenation without duplicates splits into two parts without
/// duplicates and with no element in common.
proof fn lemma_no_dup_concat_parts(a: Seq<Seq<char>>, b: Seq<Seq<char>>)
    requires
        (a + b).no_duplicates(),
    ensures
        a.no_duplicates(),
        b.no_duplicates(),
        forall|x: Seq<char>| a.contains(x) ==> !b.contains(x),
{
    assert forall|i: int, j: int|
        0 <= i < a.len() && 0 <= j < a.len() && i != j implies a[i] != a[j] by {
        assert((a + b)[i] == a[i]);
        assert((a + b)[j] == a[j]);
    }
    assert forall|i: int, j: int|
        0 <= i < b.len() && 0 <= j < b.len() && i != j implies b[i] != b[j] by {
        assert((a + b)[a.len() + i] == b[i]);
        assert((a + b)[a.len() + j] == b[j]);
    }
    assert forall|x: Seq<char>| a.contains(x) implies !b.contains(x) by {
        if a.contains(x) && b.contains(x) {
            let i = choose|i: int| 0 <= i < a.len() && a[i] == x;
            let j = choose|j: int| 0 <= j < b.len() && b[j] == x;
            assert((a + b)[i] == x);
            assert((a + b)[a.len() + j] == x);
        }
    }
}

/// Every path the scan can mark is a path of the tree.
proof fn lemma_candidates_among_paths(e: TreeEntry, ignore: Seq<Seq<char>>, skip: Seq<Seq<char>>)
    ensures
        forall|x: Seq<char>|
            #[trigger] spec_candidates(e, ignore, skip).contains(x) ==> spec_all_paths(
                e,
            ).contains(x),
    decreases e, 1int, 0int,
{
    if spec_hidden_entry(e.path@) {
    } else if spec_decide(ignore, skip, e.path@) {
        assert forall|x: Seq<char>|
            #[trigger] spec_candidates(e, ignore, skip).contains(x) implies spec_all_paths(
            e,
        ).contains(x) by {
            assert(x == e.path@);
            assert(spec_all_paths(e)[0] == e.path@);
        }
    } else {
        lemma_candidates_among_paths_from(e, 0, ignore, skip);
        assert forall|x: Seq<char>|
            #[trigger] spec_candidates(e, ignore, skip).contains(x) implies spec_all_paths(
            e,
        ).contains(x) by {
            assert(spec_candidates(e, ignore, skip) == spec_candidates_from(e, 0, ignore, skip));
            assert(spec_candidates_from(e, 0, ignore, skip).contains(x));
            assert(spec_all_paths_from(e, 0).contains(x));
            lemma_concat_contains(seq![e.path@], spec_all_paths_from(e, 0), x);
        }
    }
}

proof fn lemma_candidates_among_paths_from(
    e: TreeEntry,
    i: int,
    ignore: Seq<Seq<char>>,
    skip: Seq<Seq<char>>,
)
    ensures
        forall|x: Seq<char>|
            #[trigger] spec_candidates_from(e, i, ignore, skip).contains(x)
                ==> spec_all_paths_from(e, i).contains(x),
    decreases e, 0int, e.children.len() - i,
{
    if 0 <= i < e.children.len() {
        lemma_candidates_among_paths(e.children[i], ignore, skip);
        lemma_candidates_among_paths_from(e, i + 1, ignore, skip);
        assert forall|x: Seq<char>|
            #[trigger] spec_candidates_from(e, i, ignore, skip).contains(x)
                implies spec_all_paths_from(e, i).contains(x) by {
            lemma_concat_contains(
                spec_candidates(e.children[i], ignore, skip),
                spec_candidates_from(e, i + 1, ignore, skip),
                x,
            );
            lemma_concat_contains(
                spec_all_paths(e.children[i]),
                spec_all_paths_from(e, i + 1),
                x,
            );
        }
    }
}

/// Paths that the walk never reaches do not change what it counts: adding
/// them to the store beforehand shifts only the store, not the counters.
proof fn lemma_store_extension(
    e: TreeEntry,
    ignore: Seq<Seq<char>>,
    skip: Seq<Seq<char>>,
    marked: Set<Seq<char>>,
    s: Set<Seq<char>>,
    dry_run: bool,
)
    requires
        forall|p: Seq<char>| s.contains(p) ==> !spec_all_paths(e).contains(p),
    ensures
        ({
            let base = spec_scan(e, ignore, skip, marked, dry_run);
            let ext = spec_scan(e, ignore, skip, marked.union(s), dry_run);
            &&& ext.known == base.known
            &&& ext.fresh == base.fresh
            &&& ext.marked == base.marked.union(s)
        }),
    decreases e, 1int, 0int,
{
    let p = e.path@;
    if spec_hidden_entry(p) {
    } else if spec_decide(ignore, skip, p) {
        assert(spec_all_paths(e)[0] == p);
        assert(spec_all_paths(e).contains(p));
        assert(!s.contains(p));
        if marked.contains(p) {
        } else {
            assert(!marked.union(s).contains(p));
            if !dry_run {
                assert(marked.union(s).insert(p) =~= marked.insert(p).union(s));
            }
        }
    } else {
        assert forall|q: Seq<char>| s.contains(q) implies !spec_all_paths_from(e, 0).contains(
            q,
        ) by {
            lemma_concat_contains(seq![p], spec_all_paths_from(e, 0), q);
        }
        lemma_store_extension_from(e, 0, ignore, skip, marked, s, dry_run);
    }
}

proof fn lemma_store_extension_from(
    e: TreeEntry,
    i: int,
    ignore: Seq<Seq<char>>,
    skip: Seq<Seq<char>>,
    marked: Set<Seq<char>>,
    s: Set<Seq<char>>,
    dry_run: bool,
)
    requires
        forall|p: Seq<char>| s.contains(p) ==> !spec_all_paths_from(e, i).contains(p),
    ensures
        ({
            let base = spec_scan_from(e, i, ignore, skip, marked, dry_run);
            let ext = spec_scan_from(e, i, ignore, skip, marked.union(s), dry_run);
            &&& ext.known == base.known
            &&& ext.fresh == base.fresh
            &&& ext.marked == base.marked.union(s)
        }),
    decreases e, 0int, e.children.len() - i,
{
    if 0 <= i < e.children.len() {
        let child = e.children[i];
        assert forall|q: Seq<char>| s.contains(q) implies !spec_all_paths(child).contains(q)
            && !spec_all_paths_from(e, i + 1).contains(q) by {
            lemma_concat_contains(spec_all_paths(child), spec_all_paths_from(e, i + 1), q);
        }
        let head = spec_scan(child, ignore, skip, marked, dry_run);
        lemma_store_extension(child, ignore, skip, marked, s, dry_run);
        lemma_store_extension_from(e, i + 1, ignore, skip, head.marked, s, dry_run);
    }
}

/// Dry-run counting: over a tree whose entry paths are pairwise distinct —
/// as the paths of a real directory tree are — a dry run reports exactly the
/// counters a real run would have reported; only the store is left alone.
pub proof fn lemma_dry_run_counts(
    e: TreeEntry,
    ignore: Seq<Seq<char>>,
    skip: Seq<Seq<char>>,
    marked: Set<Seq<char>>,
)
    requires
        spec_all_paths(e).no_duplicates(),
    ensures
        spec_scan(e, ignore, skip, marked, true).known == spec_scan(
            e,
            ignore,
            skip,
            marked,
            false,
        ).known,
        spec_scan(e, ignore, skip, marked, true).fresh == spec_scan(
            e,
            ignore,
            skip,
            marked,
            false,
        ).fresh,
    decreases e, 1int, 0int,
{
    if !spec_hidden_entry(e.path@) && !spec_decide(ignore, skip, e.path@) {
        lemma_no_dup_concat_parts(seq![e.path@], spec_all_paths_from(e, 0));
        lemma_dry_run_counts_from(e, 0, ignore, skip, marked);
    }
}

proof fn lemma_dry_run_counts_from(
    e: TreeEntry,
    i: int,
    ignore: Seq<Seq<char>>,
    skip: Seq<Seq<char>>,
    marked: Set<Seq<char>>,
)
    requires
        spec_all_paths_from(e, i).no_duplicates(),
    ensures
        spec_scan_from(e, i, ignore, skip, marked, true).known == spec_scan_from(
            e,
            i,
            ignore,
            skip,
            marked,
            false,
        ).known,
        spec_scan_from(e, i, ignore, skip, marked, true).fresh == spec_scan_from(
            e,
            i,
            ignore,
            skip,
            marked,
            false,
        ).fresh,
    decreases e, 0int, e.children.len() - i,
{
    if 0 <= i < e.children.len() {
        let child = e.children[i];
        lemma_no_dup_concat_parts(spec_all_paths(child), spec_all_paths_from(e, i + 1));
        // The two head scans count alike.
        lemma_dry_run_counts(child, ignore, skip, marked);
        let head_wet = spec_scan(child, ignore, skip, marked, false);
        lemma_dry_run_no_mutation(child, ignore, skip, marked);
        // The wet head extends the store by exactly the child's candidates,
        // none of which is a path of the remaining siblings.
        let s = spec_candidates(child, ignore, skip).to_set();
        lemma_scan_marked(child, ignore, skip, marked, false);
        lemma_candidates_among_paths(child, ignore, skip);
        assert forall|q: Seq<char>| s.contains(q) implies !spec_all_paths_from(e, i + 1).contains(
            q,
        ) by {
            assert(spec_candidates(child, ignore, skip).contains(q));
            assert(spec_all_paths(child).contains(q));
        }
        lemma_store_extension_from(e, i + 1, ignore, skip, marked, s, false);
        assert(head_wet.marked == marked.union(s));
        // The two rest scans count alike as well.
        lemma_dry_run_counts_from(e, i + 1, ignore, skip, marked);
    }
}

/// The set of paths a sequence of path strings stands for: the mark store,
/// as the scan models it.
pub open spec fn marked_set(v: Seq<String>) -> Set<Seq<char>> {
    Set::new(|p: Seq<char>| exists|i: int| 0 <= i < v.len() && v[i]@ == p)
}

/// Whether the store holds the path.
fn store_contains(v: &Vec<String>, path: &String) -> (r: bool)
    ensures
        r == marked_set(v@).contains(path@),
{
    let mut i: usize = 0;
    while i < v.len()
        invariant
            i <= v.len(),
            forall|j: int| 0 <= j < i ==> v@[j]@ != path@,
        decreases v.len() - i,
    {
        if v[i] == *path {
            return true;
        }
        i = i + 1;
    }
    false
}

/// Adding a path to the store adds exactly that path to the set it stands
/// for.
proof fn lemma_marked_set_push(v: Seq<String>, s: String)
    ensures
        marked_set(v.push(s)) == marked_set(v).insert(s@),
{
    assert forall|p: Seq<char>| marked_set(v.push(s)).contains(p) implies marked_set(
        v,
    ).insert(s@).contains(p) by {
        let i = choose|i: int| 0 <= i < v.push(s).len() && v.push(s)[i]@ == p;
        if i < v.len() {
            assert(v[i]@ == p);
        }
    }
    assert forall|p: Seq<char>| marked_set(v).insert(s@).contains(p) implies marked_set(
        v.push(s),
    ).contains(p) by {
        if marked_set(v).contains(p) {
            let i = choose|i: int| 0 <= i < v.len() && v[i]@ == p;
            assert(v.push(s)[i]@ == p);
        } else {
            assert(v.push(s)[v.len() as int]@ == p);
        }
    }
    assert(marked_set(v.push(s)) =~= marked_set(v).insert(s@));
}

/// Scans the tree rooted at `root` against the matcher's patterns: the
/// verified engine behind the one-shot scan. `marked` is the mark store;
/// the scan reads it for every actionable path and, outside a dry run,
/// appends every path it marks. Returns the two counters of this scan,
/// counting from zero. In a dry run the store is left untouched while the
/// fresh counter still counts what would have been marked.
pub fn scan_tree(
    matcher: &Matcher,
    root: &TreeEntry,
    marked: &mut Vec<String>,
    dry_run: bool,
) -> (r: ScanStats)
    requires
        matcher.wf(),
        node_count(*root) <= u32::MAX,
    ensures
        ({
            let res = spec_scan(
                *root,
                matcher.spec_ignore(),
                matcher.spec_skip(),
                marked_set(old(marked)@),
                dry_run,
            );
            &&& r.known_ignores == res.known
            &&& r.new_ignores == res.fresh
            &&& marked_set(final(marked)@) == res.marked
            &&& res.known + res.fresh <= node_count(*root)
            &&& (dry_run ==> final(marked)@ == old(marked)@)
        }),
{
    let mut stats = ScanStats::new();
    scan_entry(matcher, root, marked, dry_run, &mut stats);
    stats
}

/// One step of the verified walk: applies the entry rule to `e` and walks
/// its children when the rule does not prune.
fn scan_entry(
    matcher: &Matcher,
    e: &TreeEntry,
    marked: &mut Vec<String>,
    dry_run: bool,
    stats: &mut ScanStats,
)
    requires
        matcher.wf(),
        old(stats).known_ignores + old(stats).new_ignores + node_count(*e) <= u32::MAX,
    ensures
        ({
            let res = spec_scan(
                *e,
                matcher.spec_ignore(),
                matcher.spec_skip(),
                marked_set(old(marked)@),
                dry_run,
            );
            &&& final(stats).known_ignores == old(stats).known_ignores + res.known
            &&& final(stats).new_ignores == old(stats).new_ignores + res.fresh
            &&& marked_set(final(marked)@) == res.marked
            &&& res.known + res.fresh <= node_count(*e)
            &&& (dry_run ==> final(marked)@ == old(marked)@)
        }),
    decreases *e,
{
    let ghost ig = matcher.spec_ignore();
    let ghost sk = matcher.spec_skip();
    let ghost m0 = marked_set(marked@);
    if crate::scanner::has_hidden_final_component(e.path.as_str()) {
        return ;
    }
    let matched = matcher.matches(e.path.clone());
    if matched {
        if store_contains(marked, &e.path) {
            stats.known_ignores = stats.known_ignores + 1;
        } else {
            stats.new_ignores = stats.new_ignores + 1;
            if !dry_run {
                let ghost before = marked@;
                marked.push(e.path.clone());
                proof {
                    lemma_marked_set_push(before, e.path);
                }
            }
        }
        return ;
    }
    let ghost full = spec_scan_from(*e, 0, ig, sk, m0, dry_run);
    let mut i: usize = 0;
    while i < e.children.len()
        invariant
            matcher.wf(),
            ig == matcher.spec_ignore(),
            sk == matcher.spec_skip(),
            full == spec_scan_from(*e, 0, ig, sk, m0, dry_run),
            i <= e.children.len(),
            old(stats).known_ignores + old(stats).new_ignores + node_count(*e) <= u32::MAX,
            stats.known_ignores + stats.new_ignores + node_count_from(*e, i as int) <= old(
                stats,
            ).known_ignores + old(stats).new_ignores + node_count_from(*e, 0),
            ({
                let rest = spec_scan_from(*e, i as int, ig, sk, marked_set(marked@), dry_run);
                &&& full.known == stats.known_ignores - old(stats).known_ignores + rest.known
                &&& full.fresh == stats.new_ignores - old(stats).new_ignores + rest.fresh
                &&& full.marked == rest.marked
            }),
            dry_run ==> marked@ == old(marked)@,
        decreases e.children.len() - i,
    {
        proof {
            assert(node_count_from(*e, i as int) == node_count(e.children[i as int])
                + node_count_from(*e, i + 1));
        }
        scan_entry(matcher, &e.children[i], marked, dry_run, stats);
        i = i + 1;
    }
}

} // verus!
