//! What holds of an expanded edit script: how many entries of each kind it
//! has, how many output lines it gives, and what follows for listings that
//! agree and for a listing with one record added.

use crate::diff::{expand_spec, render_spec, run_edits, span_edits, EditModel, Tag};
use crate::record::{same_entry, LineModel};
use crate::script::{
    deleted, insert_place, inserted, is_script_for, kept, lemma_appended_entry_inserted,
    lemma_counts_nonnegative, lemma_same_listing_unchanged, lemma_shifted_chain,
    lemma_single_insert_place, Run,
};
use vstd::prelude::*;

verus! {

/// Two listings agree: they are as long as each other, and hold the same
/// entry at every place.
pub open spec fn agree(old: Seq<LineModel>, new: Seq<LineModel>) -> bool {
    &&& old.len() == new.len()
    &&& forall|i: int| 0 <= i < old.len() ==> same_entry(#[trigger] new[i], old[i])
}

/// The kind of an entry.
pub open spec fn tag_of(edit: EditModel) -> Tag {
    match edit {
        EditModel::Delete(_) => Tag::Delete,
        EditModel::Insert(_) => Tag::Insert,
        EditModel::Equal(_) => Tag::Equal,
    }
}

/// How many entries of one kind an expanded script holds.
pub open spec fn count_tag(edits: Seq<EditModel>, tag: Tag) -> int
    decreases edits.len(),
{
    if edits.len() == 0 {
        0
    } else {
        count_tag(edits.drop_last(), tag) + if tag_of(edits.last()) == tag {
            1int
        } else {
            0int
        }
    }
}

/// Counting entries of one kind goes part by part.
pub proof fn lemma_count_concat(a: Seq<EditModel>, b: Seq<EditModel>, tag: Tag)
    ensures
        count_tag(a + b, tag) == count_tag(a, tag) + count_tag(b, tag),
    decreases b.len(),
{
    if b.len() == 0 {
        assert(a + b =~= a);
    } else {
        assert((a + b).drop_last() =~= a + b.drop_last());
        assert((a + b).last() == b.last());
        lemma_count_concat(a, b.drop_last(), tag);
    }
}

/// A span of entries holds entries of its own kind only.
pub proof fn lemma_count_span(of: Tag, source: Seq<LineModel>, start: int, count: int, tag: Tag)
    requires
        0 <= count,
    ensures
        count_tag(span_edits(of, source, start, count), tag) == if of == tag {
            count
        } else {
            0
        },
    decreases count,
{
    if count > 0 {
        let span = span_edits(of, source, start, count);
        assert(span.drop_last() =~= span_edits(of, source, start, count - 1));
        assert(tag_of(span.last()) == of);
        lemma_count_span(of, source, start, count - 1, tag);
    }
}

/// An expanded script holds as many entries of each kind as its runs keep,
/// delete and insert.
pub proof fn lemma_expand_counts(old: Seq<LineModel>, new: Seq<LineModel>, runs: Seq<Run>)
    ensures
        count_tag(expand_spec(old, new, runs), Tag::Equal) == kept(runs),
        count_tag(expand_spec(old, new, runs), Tag::Delete) == deleted(runs),
        count_tag(expand_spec(old, new, runs), Tag::Insert) == inserted(runs),
    decreases runs.len(),
{
    if runs.len() > 0 {
        let rest = expand_spec(old, new, runs.drop_last());
        let last = run_edits(old, new, runs.last());
        lemma_expand_counts(old, new, runs.drop_last());
        lemma_count_concat(rest, last, Tag::Equal);
        lemma_count_concat(rest, last, Tag::Delete);
        lemma_count_concat(rest, last, Tag::Insert);
        lemma_run_counts(old, new, runs.last());
    }
}

/// The entries of one run, counted by kind.
pub proof fn lemma_run_counts(old: Seq<LineModel>, new: Seq<LineModel>, run: Run)
    ensures
        count_tag(run_edits(old, new, run), Tag::Equal) == run.kept(),
        count_tag(run_edits(old, new, run), Tag::Delete) == run.deleted(),
        count_tag(run_edits(old, new, run), Tag::Insert) == run.inserted(),
{
    match run {
        Run::Equal { old_index, len, .. } => {
            lemma_count_span(Tag::Equal, old, old_index as int, len as int, Tag::Equal);
            lemma_count_span(Tag::Equal, old, old_index as int, len as int, Tag::Delete);
            lemma_count_span(Tag::Equal, old, old_index as int, len as int, Tag::Insert);
        },
        Run::Delete { old_index, old_len, .. } => {
            lemma_count_span(Tag::Delete, old, old_index as int, old_len as int, Tag::Equal);
            lemma_count_span(Tag::Delete, old, old_index as int, old_len as int, Tag::Delete);
            lemma_count_span(Tag::Delete, old, old_index as int, old_len as int, Tag::Insert);
        },
        Run::Insert { new_index, new_len, .. } => {
            lemma_count_span(Tag::Insert, new, new_index as int, new_len as int, Tag::Equal);
            lemma_count_span(Tag::Insert, new, new_index as int, new_len as int, Tag::Delete);
            lemma_count_span(Tag::Insert, new, new_index as int, new_len as int, Tag::Insert);
        },
        Run::Replace { old_index, old_len, new_index, new_len } => {
            let gone = span_edits(Tag::Delete, old, old_index as int, old_len as int);
            let come = span_edits(Tag::Insert, new, new_index as int, new_len as int);
            lemma_count_concat(gone, come, Tag::Equal);
            lemma_count_concat(gone, come, Tag::Delete);
            lemma_count_concat(gone, come, Tag::Insert);
            lemma_count_span(Tag::Delete, old, old_index as int, old_len as int, Tag::Equal);
            lemma_count_span(Tag::Delete, old, old_index as int, old_len as int, Tag::Delete);
            lemma_count_span(Tag::Delete, old, old_index as int, old_len as int, Tag::Insert);
            lemma_count_span(Tag::Insert, new, new_index as int, new_len as int, Tag::Equal);
            lemma_count_span(Tag::Insert, new, new_index as int, new_len as int, Tag::Delete);
            lemma_count_span(Tag::Insert, new, new_index as int, new_len as int, Tag::Insert);
        },
    }
}

/// An expanded script has one entry for each entry that its runs keep,
/// delete or insert.
pub proof fn lemma_expand_len(old: Seq<LineModel>, new: Seq<LineModel>, runs: Seq<Run>)
    ensures
        expand_spec(old, new, runs).len() == kept(runs) + deleted(runs) + inserted(runs),
    decreases runs.len(),
{
    if runs.len() > 0 {
        lemma_expand_len(old, new, runs.drop_last());
    }
}

/// There is one output line for each deleted and each inserted entry.
pub proof fn lemma_render_len(edits: Seq<EditModel>)
    ensures
        render_spec(edits).len() == count_tag(edits, Tag::Delete) + count_tag(edits, Tag::Insert),
        0 <= count_tag(edits, Tag::Delete),
        0 <= count_tag(edits, Tag::Insert),
    decreases edits.len(),
{
    if edits.len() > 0 {
        lemma_render_len(edits.drop_last());
    }
}

/// Diffing a listing against itself, or against one that agrees with it
/// entry by entry under the tolerant equality, gives no deleted and no
/// inserted entry, and so no output line.
pub proof fn lemma_same_listing_no_output(
    runs: Seq<Run>,
    old: Seq<LineModel>,
    new: Seq<LineModel>,
)
    requires
        is_script_for(runs, old, new),
        old.len() == new.len(),
        forall|i: int| 0 <= i < old.len() ==> same_entry(#[trigger] new[i], old[i]),
    ensures
        count_tag(expand_spec(old, new, runs), Tag::Delete) == 0,
        count_tag(expand_spec(old, new, runs), Tag::Insert) == 0,
        count_tag(expand_spec(old, new, runs), Tag::Equal) == old.len(),
        render_spec(expand_spec(old, new, runs)) == Seq::<Seq<char>>::empty(),
{
    lemma_same_listing_unchanged(runs, old, new);
    lemma_expand_counts(old, new, runs);
    lemma_render_len(expand_spec(old, new, runs));
    assert(render_spec(expand_spec(old, new, runs)) =~= Seq::<Seq<char>>::empty());
}

/// Diffing a listing against the same listing with one more record at its
/// end gives exactly one inserted entry and no deleted one, and so one output
/// line.
pub proof fn lemma_appended_record_one_insert(
    runs: Seq<Run>,
    old: Seq<LineModel>,
    new: Seq<LineModel>,
    extra: LineModel,
)
    requires
        is_script_for(runs, old, new),
        new == old.push(extra),
    ensures
        count_tag(expand_spec(old, new, runs), Tag::Insert) == 1,
        count_tag(expand_spec(old, new, runs), Tag::Delete) == 0,
        count_tag(expand_spec(old, new, runs), Tag::Equal) == old.len(),
        render_spec(expand_spec(old, new, runs)).len() == 1,
{
    lemma_appended_entry_inserted(runs, old, new, extra);
    lemma_expand_counts(old, new, runs);
    lemma_render_len(expand_spec(old, new, runs));
}

/// The record of an entry.
pub open spec fn line_of(edit: EditModel) -> LineModel {
    match edit {
        EditModel::Delete(line) => line,
        EditModel::Insert(line) => line,
        EditModel::Equal(line) => line,
    }
}

/// Where no entry of a kind is counted, there is none.
pub proof fn lemma_count_zero(edits: Seq<EditModel>, tag: Tag)
    requires
        count_tag(edits, tag) == 0,
    ensures
        forall|i: int| 0 <= i < edits.len() ==> tag_of(#[trigger] edits[i]) != tag,
    decreases edits.len(),
{
    if edits.len() > 0 {
        lemma_count_nonnegative(edits.drop_last(), tag);
        lemma_count_zero(edits.drop_last(), tag);
        assert forall|i: int| 0 <= i < edits.len() implies tag_of(#[trigger] edits[i]) != tag by {
            if i < edits.len() - 1 {
                assert(edits.drop_last()[i] == edits[i]);
            }
        }
    }
}

/// A count of entries is never negative.
pub proof fn lemma_count_nonnegative(edits: Seq<EditModel>, tag: Tag)
    ensures
        0 <= count_tag(edits, tag),
    decreases edits.len(),
{
    if edits.len() > 0 {
        lemma_count_nonnegative(edits.drop_last(), tag);
    }
}

/// Where a script inserts one entry in all, every inserted entry of its
/// expansion is the record of the new listing at the script's insert place.
pub proof fn lemma_single_insert_entry(old: Seq<LineModel>, new: Seq<LineModel>, runs: Seq<Run>)
    requires
        inserted(runs) == 1,
    ensures
        forall|i: int|
            0 <= i < expand_spec(old, new, runs).len() && tag_of(
                #[trigger] expand_spec(old, new, runs)[i],
            ) == Tag::Insert ==> expand_spec(old, new, runs)[i] == EditModel::Insert(
                new[insert_place(runs)],
            ),
    decreases runs.len(),
{
    let last = runs.last();
    let rest = runs.drop_last();
    let head = expand_spec(old, new, rest);
    let tail = run_edits(old, new, last);
    let all = expand_spec(old, new, runs);
    lemma_counts_nonnegative(rest);
    assert(all == head + tail);
    if last.inserted() == 1 {
        lemma_expand_counts(old, new, rest);
        lemma_count_zero(head, Tag::Insert);
    } else {
        lemma_single_insert_entry(old, new, rest);
    }
    assert forall|i: int| 0 <= i < all.len() && tag_of(#[trigger] all[i]) == Tag::Insert implies all[i]
        == EditModel::Insert(new[insert_place(runs)]) by {
        if i < head.len() {
            assert(all[i] == head[i]);
        } else {
            assert(all[i] == tail[i - head.len()]);
        }
    }
}

/// Diffing a listing against the same listing with one more record at its
/// end: the one entry that is inserted is, under the tolerant equality, the
/// added record.
pub proof fn lemma_appended_record_is_the_insert(
    runs: Seq<Run>,
    old: Seq<LineModel>,
    new: Seq<LineModel>,
    extra: LineModel,
)
    requires
        is_script_for(runs, old, new),
        new == old.push(extra),
    ensures
        forall|i: int|
            0 <= i < expand_spec(old, new, runs).len() && tag_of(
                #[trigger] expand_spec(old, new, runs)[i],
            ) == Tag::Insert ==> same_entry(line_of(expand_spec(old, new, runs)[i]), extra),
{
    lemma_appended_entry_inserted(runs, old, new, extra);
    let at = lemma_single_insert_place(runs, old, new, old.len() as int, new.len() as int);
    lemma_shifted_chain(old, extra, at);
    lemma_single_insert_entry(old, new, runs);
}

} // verus!
