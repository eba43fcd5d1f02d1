//! Edit scripts: runs of kept, deleted and inserted entries, and what holds
//! of a script that covers two listings.

use crate::record::{same_entry, LineModel};
use vstd::prelude::*;

verus! {

/// One run of an edit script, by positions in the old and the new listing.
#[derive(Debug, Clone, Copy, PartialEq, Eq, Structural)]
pub enum Run {
    /// `len` entries from `old_index` on are the entries from `new_index` on.
    Equal { old_index: usize, new_index: usize, len: usize },
    /// `old_len` entries from `old_index` on are in the old listing only.
    Delete { old_index: usize, old_len: usize, new_index: usize },
    /// `new_len` entries from `new_index` on are in the new listing only.
    Insert { old_index: usize, new_index: usize, new_len: usize },
    /// `old_len` old entries give way to `new_len` new ones.
    Replace { old_index: usize, old_len: usize, new_index: usize, new_len: usize },
}

impl Run {
    /// How many old entries the run covers.
    pub open spec fn old_span(self) -> int {
        match self {
            Run::Equal { len, .. } => len as int,
            Run::Delete { old_len, .. } => old_len as int,
            Run::Insert { .. } => 0,
            Run::Replace { old_len, .. } => old_len as int,
        }
    }

    /// How many new entries the run covers.
    pub open spec fn new_span(self) -> int {
        match self {
            Run::Equal { len, .. } => len as int,
            Run::Delete { .. } => 0,
            Run::Insert { new_len, .. } => new_len as int,
            Run::Replace { new_len, .. } => new_len as int,
        }
    }

    /// Where the run starts in the old listing.
    pub open spec fn old_start(self) -> int {
        match self {
            Run::Equal { old_index, .. } => old_index as int,
            Run::Delete { old_index, .. } => old_index as int,
            Run::Insert { old_index, .. } => old_index as int,
            Run::Replace { old_index, .. } => old_index as int,
        }
    }

    /// Where the run starts in the new listing.
    pub open spec fn new_start(self) -> int {
        match self {
            Run::Equal { new_index, .. } => new_index as int,
            Run::Delete { new_index, .. } => new_index as int,
            Run::Insert { new_index, .. } => new_index as int,
            Run::Replace { new_index, .. } => new_index as int,
        }
    }

    /// How many entries the run keeps.
    pub open spec fn kept(self) -> int {
        match self {
            Run::Equal { len, .. } => len as int,
            _ => 0,
        }
    }

    /// How many entries the run deletes.
    pub open spec fn deleted(self) -> int {
        self.old_span() - self.kept()
    }

    /// How many entries the run inserts.
    pub open spec fn inserted(self) -> int {
        self.new_span() - self.kept()
    }

    /// The entries that the run covers lie inside listings of these lengths.
    pub open spec fn within(self, old_len: int, new_len: int) -> bool {
        &&& self.old_span() == 0 || self.old_start() + self.old_span() <= old_len
        &&& self.new_span() == 0 || self.new_start() + self.new_span() <= new_len
    }
}

/// The runs cover the first `old_end` old entries and the first `new_end`
/// new ones, in order and without a gap: each run starts, in the listing that
/// it covers entries of, where the run before it stopped.
pub open spec fn tiles(runs: Seq<Run>, old_end: int, new_end: int) -> bool
    decreases runs.len(),
{
    if runs.len() == 0 {
        old_end == 0 && new_end == 0
    } else {
        let last = runs.last();
        let old_from = old_end - last.old_span();
        let new_from = new_end - last.new_span();
        &&& last.old_span() == 0 || last.old_start() == old_from
        &&& last.new_span() == 0 || last.new_start() == new_from
        &&& tiles(runs.drop_last(), old_from, new_from)
    }
}

/// Every run of kept entries pairs entries that are the same entry.
pub open spec fn kept_runs_match(runs: Seq<Run>, old: Seq<LineModel>, new: Seq<LineModel>) -> bool {
    forall|i: int, k: int|
        0 <= i < runs.len() && 0 <= k < (#[trigger] runs[i]).kept() ==> same_entry(
            #[trigger] new[runs[i].new_start() + k],
            old[runs[i].old_start() + k],
        )
}

/// How many entries a script keeps.
pub open spec fn kept(runs: Seq<Run>) -> int
    decreases runs.len(),
{
    if runs.len() == 0 {
        0
    } else {
        kept(runs.drop_last()) + runs.last().kept()
    }
}

/// How many entries a script deletes.
pub open spec fn deleted(runs: Seq<Run>) -> int
    decreases runs.len(),
{
    if runs.len() == 0 {
        0
    } else {
        deleted(runs.drop_last()) + runs.last().deleted()
    }
}

/// How many entries a script inserts.
pub open spec fn inserted(runs: Seq<Run>) -> int
    decreases runs.len(),
{
    if runs.len() == 0 {
        0
    } else {
        inserted(runs.drop_last()) + runs.last().inserted()
    }
}

/// How many leading entries of the two listings are pairwise the same entry.
pub open spec fn common_prefix_len(old: Seq<LineModel>, new: Seq<LineModel>) -> nat
    decreases old.len(),
{
    if old.len() > 0 && new.len() > 0 && same_entry(new[0], old[0]) {
        1 + common_prefix_len(old.drop_first(), new.drop_first())
    } else {
        0
    }
}

/// What holds of a script that turns `old` into `new`: it covers both
/// listings, its kept runs pair same entries, and it keeps at least the
/// common prefix of the two.
pub open spec fn is_script_for(runs: Seq<Run>, old: Seq<LineModel>, new: Seq<LineModel>) -> bool {
    &&& tiles(runs, old.len() as int, new.len() as int)
    &&& kept_runs_match(runs, old, new)
    &&& kept(runs) >= common_prefix_len(old, new)
}

/// Every run lies inside listings of these lengths.
pub open spec fn runs_within(runs: Seq<Run>, old_len: int, new_len: int) -> bool {
    forall|i: int| 0 <= i < runs.len() ==> (#[trigger] runs[i]).within(old_len, new_len)
}

/// A script that covers two listings keeps or deletes every old entry, and
/// keeps or inserts every new one.
pub proof fn lemma_tiles_counts(runs: Seq<Run>, old_end: int, new_end: int)
    requires
        tiles(runs, old_end, new_end),
    ensures
        kept(runs) + deleted(runs) == old_end,
        kept(runs) + inserted(runs) == new_end,
        0 <= kept(runs),
        0 <= deleted(runs),
        0 <= inserted(runs),
    decreases runs.len(),
{
    if runs.len() > 0 {
        let last = runs.last();
        lemma_tiles_counts(runs.drop_last(), old_end - last.old_span(), new_end - last.new_span());
    }
}

/// The runs of a script that covers two listings lie inside them.
pub proof fn lemma_tiles_within(runs: Seq<Run>, old_end: int, new_end: int)
    requires
        tiles(runs, old_end, new_end),
    ensures
        runs_within(runs, old_end, new_end),
    decreases runs.len(),
{
    if runs.len() > 0 {
        let last = runs.last();
        let rest = runs.drop_last();
        lemma_tiles_within(rest, old_end - last.old_span(), new_end - last.new_span());
        lemma_tiles_counts(rest, old_end - last.old_span(), new_end - last.new_span());
        assert forall|i: int| 0 <= i < runs.len() implies (#[trigger] runs[i]).within(
            old_end,
            new_end,
        ) by {
            if i < runs.len() - 1 {
                assert(rest[i] == runs[i]);
                assert(rest[i].within(old_end - last.old_span(), new_end - last.new_span()));
            }
        }
    }
}

/// Listings that agree entry by entry over their first `k` places have a
/// common prefix of `k` entries or more.
pub proof fn lemma_common_prefix_at_least(old: Seq<LineModel>, new: Seq<LineModel>, k: int)
    requires
        0 <= k <= old.len(),
        k <= new.len(),
        forall|i: int| 0 <= i < k ==> same_entry(#[trigger] new[i], old[i]),
    ensures
        common_prefix_len(old, new) >= k,
    decreases k,
{
    if k > 0 {
        assert(same_entry(new[0], old[0]));
        assert forall|i: int| 0 <= i < k - 1 implies same_entry(
            #[trigger] new.drop_first()[i],
            old.drop_first()[i],
        ) by {
            assert(same_entry(new[i + 1], old[i + 1]));
        }
        lemma_common_prefix_at_least(old.drop_first(), new.drop_first(), k - 1);
    }
}

/// Where the last run that inserts anything starts in the new listing.
pub open spec fn insert_place(runs: Seq<Run>) -> int
    decreases runs.len(),
{
    if runs.len() == 0 {
        0
    } else if runs.last().inserted() > 0 {
        runs.last().new_start()
    } else {
        insert_place(runs.drop_last())
    }
}

/// No script keeps, deletes or inserts a negative number of entries.
pub proof fn lemma_counts_nonnegative(runs: Seq<Run>)
    ensures
        0 <= kept(runs),
        0 <= deleted(runs),
        0 <= inserted(runs),
    decreases runs.len(),
{
    if runs.len() > 0 {
        lemma_counts_nonnegative(runs.drop_last());
    }
}

/// The kept runs of a script still match when its last run is left out.
pub proof fn lemma_kept_runs_match_rest(runs: Seq<Run>, old: Seq<LineModel>, new: Seq<LineModel>)
    requires
        runs.len() > 0,
        kept_runs_match(runs, old, new),
    ensures
        kept_runs_match(runs.drop_last(), old, new),
{
    let rest = runs.drop_last();
    assert forall|i: int, k: int|
        0 <= i < rest.len() && 0 <= k < (#[trigger] rest[i]).kept() implies same_entry(
        #[trigger] new[rest[i].new_start() + k],
        old[rest[i].old_start() + k],
    ) by {
        assert(rest[i] == runs[i]);
        assert(0 <= k < runs[i].kept());
    }
}

/// A script that neither deletes nor inserts covers as many old entries as
/// new ones, and they agree place by place.
pub proof fn lemma_unchanged_region(
    runs: Seq<Run>,
    old: Seq<LineModel>,
    new: Seq<LineModel>,
    old_end: int,
    new_end: int,
)
    requires
        tiles(runs, old_end, new_end),
        kept_runs_match(runs, old, new),
        deleted(runs) == 0,
        inserted(runs) == 0,
    ensures
        old_end == new_end,
        forall|i: int| 0 <= i < old_end ==> same_entry(#[trigger] new[i], old[i]),
    decreases runs.len(),
{
    if runs.len() > 0 {
        let last = runs.last();
        let rest = runs.drop_last();
        let old_from = old_end - last.old_span();
        let new_from = new_end - last.new_span();
        lemma_tiles_counts(rest, old_from, new_from);
        lemma_kept_runs_match_rest(runs, old, new);
        lemma_unchanged_region(rest, old, new, old_from, new_from);
        assert forall|i: int| 0 <= i < old_end implies same_entry(#[trigger] new[i], old[i]) by {
            if i >= old_from {
                let k = i - old_from;
                assert(runs[runs.len() - 1] == last);
                assert(0 <= k < last.kept());
                assert(same_entry(new[last.new_start() + k], old[last.old_start() + k]));
            }
        }
    }
}

/// A script that deletes nothing and inserts one entry: the place of that
/// entry in the new listing. Before it the listings agree place by place;
/// from it on, each old entry agrees with the new entry one place further.
pub proof fn lemma_single_insert_place(
    runs: Seq<Run>,
    old: Seq<LineModel>,
    new: Seq<LineModel>,
    old_end: int,
    new_end: int,
) -> (at: int)
    requires
        tiles(runs, old_end, new_end),
        kept_runs_match(runs, old, new),
        deleted(runs) == 0,
        inserted(runs) == 1,
    ensures
        at == insert_place(runs),
        0 <= at <= old_end,
        new_end == old_end + 1,
        forall|i: int| 0 <= i < at ==> same_entry(#[trigger] new[i], old[i]),
        forall|i: int| at <= i < old_end ==> same_entry(new[i + 1], #[trigger] old[i]),
    decreases runs.len(),
{
    let last = runs.last();
    let rest = runs.drop_last();
    let old_from = old_end - last.old_span();
    let new_from = new_end - last.new_span();
    lemma_tiles_counts(rest, old_from, new_from);
    lemma_kept_runs_match_rest(runs, old, new);
    if last.inserted() == 1 {
        lemma_unchanged_region(rest, old, new, old_from, new_from);
        old_end
    } else {
        let at = lemma_single_insert_place(rest, old, new, old_from, new_from);
        assert forall|i: int| at <= i < old_end implies same_entry(new[i + 1], #[trigger] old[i]) by {
            if i >= old_from {
                let k = i - old_from;
                assert(runs[runs.len() - 1] == last);
                assert(0 <= k < last.kept());
                assert(same_entry(new[last.new_start() + k], old[last.old_start() + k]));
            }
        }
        at
    }
}

/// In a listing with one more record at its end, a place from which each
/// entry agrees with the entry after it holds an entry that agrees with the
/// added record.
pub proof fn lemma_shifted_chain(old: Seq<LineModel>, extra: LineModel, at: int)
    requires
        0 <= at <= old.len(),
        forall|i: int| at <= i < old.len() ==> same_entry(old.push(extra)[i + 1], #[trigger] old[i]),
    ensures
        same_entry(old.push(extra)[at], extra),
    decreases old.len() - at,
{
    let new = old.push(extra);
    if at < old.len() {
        lemma_shifted_chain(old, extra, at + 1);
        assert(same_entry(new[at + 1], old[at]));
        assert(new[at] == old[at]);
    }
}

/// A script between two listings that agree entry by entry, under the
/// tolerant equality, deletes nothing and inserts nothing. A listing against
/// itself is the first case of it.
pub proof fn lemma_same_listing_unchanged(
    runs: Seq<Run>,
    old: Seq<LineModel>,
    new: Seq<LineModel>,
)
    requires
        is_script_for(runs, old, new),
        old.len() == new.len(),
        forall|i: int| 0 <= i < old.len() ==> same_entry(#[trigger] new[i], old[i]),
    ensures
        deleted(runs) == 0,
        inserted(runs) == 0,
        kept(runs) == old.len(),
{
    lemma_common_prefix_at_least(old, new, old.len() as int);
    lemma_tiles_counts(runs, old.len() as int, new.len() as int);
}

/// A script from a listing to the same listing with one more entry at its
/// end inserts exactly one entry and deletes none.
pub proof fn lemma_appended_entry_inserted(
    runs: Seq<Run>,
    old: Seq<LineModel>,
    new: Seq<LineModel>,
    extra: LineModel,
)
    requires
        is_script_for(runs, old, new),
        new == old.push(extra),
    ensures
        inserted(runs) == 1,
        deleted(runs) == 0,
        kept(runs) == old.len(),
{
    lemma_common_prefix_at_least(old, new, old.len() as int);
    lemma_tiles_counts(runs, old.len() as int, new.len() as int);
}

} // verus!
