//! The tolerant differ: from two listings to an edit script, entry by entry,
//! and from there to output lines.

use crate::display::display_spec;
use crate::outcome::{
    agree, count_tag, lemma_appended_record_is_the_insert, lemma_appended_record_one_insert,
    lemma_expand_counts, lemma_expand_len, lemma_same_listing_no_output, line_of, tag_of,
};
use crate::record::{same_entry, Line, LineModel};
use crate::script::{is_script_for, lemma_tiles_within, runs_within, Run};
use vstd::prelude::*;
use vstd::string::*;

verus! {

/// One entry of an expanded edit script.
#[derive(Debug)]
pub enum EditOp {
    /// The entry is in the old listing only.
    Delete(Line),
    /// The entry is in the new listing only.
    Insert(Line),
    /// The entry is in both; the old listing's record stands for it.
    Equal(Line),
}

/// What an `EditOp` is, mathematically.
pub ghost enum EditModel {
    Delete(LineModel),
    Insert(LineModel),
    Equal(LineModel),
}

impl View for EditOp {
    type V = EditModel;

    open spec fn view(&self) -> EditModel {
        match self {
            EditOp::Delete(line) => EditModel::Delete(line@),
            EditOp::Insert(line) => EditModel::Insert(line@),
            EditOp::Equal(line) => EditModel::Equal(line@),
        }
    }
}

/// The three kinds of entry in an expanded script.
#[derive(Debug, Clone, Copy, PartialEq, Eq, Structural)]
pub enum Tag {
    Delete,
    Insert,
    Equal,
}

/// The records of a listing, as models.
pub open spec fn models(lines: Seq<Line>) -> Seq<LineModel> {
    lines.map_values(|l: Line| l@)
}

/// The entries of an expanded script, as models.
pub open spec fn edit_models(edits: Seq<EditOp>) -> Seq<EditModel> {
    edits.map_values(|e: EditOp| e@)
}

/// The texts of output lines.
pub open spec fn texts(lines: Seq<String>) -> Seq<Seq<char>> {
    lines.map_values(|s: String| s@)
}

/// An entry of the given kind.
pub open spec fn tagged(tag: Tag, line: LineModel) -> EditModel {
    match tag {
        Tag::Delete => EditModel::Delete(line),
        Tag::Insert => EditModel::Insert(line),
        Tag::Equal => EditModel::Equal(line),
    }
}

/// `count` entries of one kind, for the records of `source` from `start` on.
pub open spec fn span_edits(tag: Tag, source: Seq<LineModel>, start: int, count: int) -> Seq<
    EditModel,
> {
    Seq::new(count as nat, |k: int| tagged(tag, source[start + k]))
}

/// The entries of one run: a kept run gives the old records, a replacement
/// its deletions and then its insertions.
pub open spec fn run_edits(old: Seq<LineModel>, new: Seq<LineModel>, run: Run) -> Seq<EditModel> {
    match run {
        Run::Equal { old_index, len, .. } => span_edits(Tag::Equal, old, old_index as int, len as int),
        Run::Delete { old_index, old_len, .. } => span_edits(
            Tag::Delete,
            old,
            old_index as int,
            old_len as int,
        ),
        Run::Insert { new_index, new_len, .. } => span_edits(
            Tag::Insert,
            new,
            new_index as int,
            new_len as int,
        ),
        Run::Replace { old_index, old_len, new_index, new_len } => span_edits(
            Tag::Delete,
            old,
            old_index as int,
            old_len as int,
        ) + span_edits(Tag::Insert, new, new_index as int, new_len as int),
    }
}

/// The entries of a whole script, run after run.
pub open spec fn expand_spec(old: Seq<LineModel>, new: Seq<LineModel>, runs: Seq<Run>) -> Seq<
    EditModel,
>
    decreases runs.len(),
{
    if runs.len() == 0 {
        Seq::empty()
    } else {
        expand_spec(old, new, runs.drop_last()) + run_edits(old, new, runs.last())
    }
}

/// The output line of an entry: `-` or `+` before the display form, and none
/// for an entry that is in both listings.
pub open spec fn edit_text(edit: EditModel) -> Option<Seq<char>> {
    match edit {
        EditModel::Delete(line) => Some(seq!['-'] + display_spec(line)),
        EditModel::Insert(line) => Some(seq!['+'] + display_spec(line)),
        EditModel::Equal(_) => None,
    }
}

/// The output lines of an expanded script, in order.
pub open spec fn render_spec(edits: Seq<EditModel>) -> Seq<Seq<char>>
    decreases edits.len(),
{
    if edits.len() == 0 {
        Seq::empty()
    } else {
        let rest = render_spec(edits.drop_last());
        match edit_text(edits.last()) {
            Some(text) => rest.push(text),
            None => rest,
        }
    }
}

/// The edit script that the Myers differ gives for two listings, compared by
/// the tolerant equality.
pub uninterp spec fn myers_script(old: Seq<LineModel>, new: Seq<LineModel>) -> Seq<Run>;

/// Calls `similar::capture_diff_slices` with `similar::Algorithm::Myers` and
/// hands its operations back field by field. Claimed of it, and not proved:
/// the operations depend on the two listings alone; they cover both listings
/// in order and without a gap; every run of equal entries pairs entries that
/// `==` on `Line` accepts; and the entries it keeps are no fewer than the
/// common prefix of the listings, which the differ sets aside before it
/// searches.
#[verifier::external_body]
fn myers_runs(old: &Vec<Line>, new: &Vec<Line>) -> (runs: Vec<Run>)
    ensures
        runs@ == myers_script(models(old@), models(new@)),
        is_script_for(runs@, models(old@), models(new@)),
{
    similar::capture_diff_slices(similar::Algorithm::Myers, old, new).into_iter().map(
        |op| match op {
            similar::DiffOp::Equal { old_index, new_index, len } => Run::Equal { old_index, new_index, len },
            similar::DiffOp::Delete { old_index, old_len, new_index } => Run::Delete { old_index, old_len, new_index },
            similar::DiffOp::Insert { old_index, new_index, new_len } => Run::Insert { old_index, new_index, new_len },
            similar::DiffOp::Replace { old_index, old_len, new_index, new_len } => Run::Replace { old_index, old_len, new_index, new_len },
        },
    ).collect()
}

/// Builds an entry of the given kind.
fn make_edit(tag: Tag, line: Line) -> (edit: EditOp)
    ensures
        edit@ == tagged(tag, line@),
{
    match tag {
        Tag::Delete => EditOp::Delete(line),
        Tag::Insert => EditOp::Insert(line),
        Tag::Equal => EditOp::Equal(line),
    }
}

/// Appends `count` entries of one kind, for the records from `start` on.
fn push_span(edits: &mut Vec<EditOp>, tag: Tag, source: &Vec<Line>, start: usize, count: usize)
    requires
        count == 0 || start + count <= source.len(),
    ensures
        edit_models(final(edits)@) == edit_models(old(edits)@) + span_edits(
            tag,
            models(source@),
            start as int,
            count as int,
        ),
{
    let mut k: usize = 0;
    while k < count
        invariant
            k <= count,
            count == 0 || start + count <= source.len(),
            edit_models(edits@) == edit_models(old(edits)@) + span_edits(
                tag,
                models(source@),
                start as int,
                k as int,
            ),
        decreases count - k,
    {
        let ghost before = edits@;
        let edit = make_edit(tag, source[start + k].duplicate());
        edits.push(edit);
        k += 1;
        assert(edit_models(edits@) =~= edit_models(old(edits)@) + span_edits(
            tag,
            models(source@),
            start as int,
            k as int,
        )) by {
            assert(edits@ == before.push(edit));
            assert(edit_models(edits@) =~= edit_models(before).push(edit@));
        }
    }
    assert(edit_models(edits@) =~= edit_models(old(edits)@) + span_edits(
        tag,
        models(source@),
        start as int,
        count as int,
    ));
}

/// Expands a script into its entries, with the records they stand for.
pub fn expand(old: &Vec<Line>, new: &Vec<Line>, runs: &Vec<Run>) -> (edits: Vec<EditOp>)
    requires
        runs_within(runs@, old.len() as int, new.len() as int),
    ensures
        edit_models(edits@) == expand_spec(models(old@), models(new@), runs@),
{
    let mut edits: Vec<EditOp> = Vec::new();
    let mut i: usize = 0;
    assert(runs@.take(0) =~= Seq::<Run>::empty());
    assert(edit_models(edits@) =~= Seq::<EditModel>::empty());
    while i < runs.len()
        invariant
            i <= runs.len(),
            runs_within(runs@, old.len() as int, new.len() as int),
            edit_models(edits@) == expand_spec(models(old@), models(new@), runs@.take(i as int)),
        decreases runs.len() - i,
    {
        let run: Run = runs[i];
        assert(run.within(old.len() as int, new.len() as int));
        let ghost before = edit_models(edits@);
        match run {
            Run::Equal { old_index, len, .. } => {
                push_span(&mut edits, Tag::Equal, old, old_index, len);
            },
            Run::Delete { old_index, old_len, .. } => {
                push_span(&mut edits, Tag::Delete, old, old_index, old_len);
            },
            Run::Insert { new_index, new_len, .. } => {
                push_span(&mut edits, Tag::Insert, new, new_index, new_len);
            },
            Run::Replace { old_index, old_len, new_index, new_len } => {
                push_span(&mut edits, Tag::Delete, old, old_index, old_len);
                push_span(&mut edits, Tag::Insert, new, new_index, new_len);
            },
        }
        assert(edit_models(edits@) =~= before + run_edits(models(old@), models(new@), run));
        assert(runs@.take(i as int + 1).drop_last() =~= runs@.take(i as int));
        assert(runs@.take(i as int + 1).last() == run);
        i += 1;
    }
    assert(runs@.take(runs.len() as int) =~= runs@);
    edits
}

/// Diffs two listings. Records are compared by the tolerant equality; the
/// script comes from the Myers differ, and is expanded entry by entry.
///
/// Listings that agree, a listing and itself among them, give no deleted and
/// no inserted entry. A listing and the same listing with one more record at
/// its end give no deleted entry and one inserted entry, which is the same
/// entry as the added record.
pub fn diff(old: &Vec<Line>, new: &Vec<Line>) -> (edits: Vec<EditOp>)
    ensures
        edit_models(edits@) == expand_spec(
            models(old@),
            models(new@),
            myers_script(models(old@), models(new@)),
        ),
        is_script_for(myers_script(models(old@), models(new@)), models(old@), models(new@)),
        agree(models(old@), models(new@)) ==> {
            &&& count_tag(edit_models(edits@), Tag::Delete) == 0
            &&& count_tag(edit_models(edits@), Tag::Insert) == 0
            &&& edits.len() == old.len()
        },
        new.len() == old.len() + 1 && models(new@).drop_last() == models(old@) ==> {
            &&& count_tag(edit_models(edits@), Tag::Delete) == 0
            &&& count_tag(edit_models(edits@), Tag::Insert) == 1
            &&& edits.len() == new.len()
            &&& forall|i: int|
                0 <= i < edits.len() && tag_of(#[trigger] edit_models(edits@)[i]) == Tag::Insert
                    ==> same_entry(line_of(edit_models(edits@)[i]), models(new@).last())
        },
{
    let runs: Vec<Run> = myers_runs(old, new);
    proof {
        lemma_tiles_within(runs@, old.len() as int, new.len() as int);
    }
    let edits = expand(old, new, &runs);
    proof {
        let a = models(old@);
        let b = models(new@);
        lemma_expand_len(a, b, runs@);
        lemma_expand_counts(a, b, runs@);
        assert(edit_models(edits@).len() == edits.len());
        if agree(a, b) {
            lemma_same_listing_no_output(runs@, a, b);
        }
        if new.len() == old.len() + 1 && b.drop_last() == a {
            assert(b =~= a.push(b.last()));
            lemma_appended_record_one_insert(runs@, a, b, b.last());
            lemma_appended_record_is_the_insert(runs@, a, b, b.last());
        }
    }
    edits
}

/// The output lines of an expanded script: one for each deleted or inserted
/// entry, in order, and none for the others.
pub fn render(edits: &Vec<EditOp>) -> (lines: Vec<String>)
    ensures
        texts(lines@) == render_spec(edit_models(edits@)),
{
    proof {
        reveal_strlit("-");
        reveal_strlit("+");
    }
    let mut lines: Vec<String> = Vec::new();
    let mut i: usize = 0;
    assert(edit_models(edits@).take(0) =~= Seq::<EditModel>::empty());
    assert(texts(lines@) =~= Seq::<Seq<char>>::empty());
    while i < edits.len()
        invariant
            i <= edits.len(),
            "-"@ == seq!['-'],
            "+"@ == seq!['+'],
            texts(lines@) == render_spec(edit_models(edits@).take(i as int)),
        decreases edits.len() - i,
    {
        let ghost before = lines@;
        let ghost prefix = edit_models(edits@).take(i as int + 1);
        assert(prefix.drop_last() =~= edit_models(edits@).take(i as int));
        assert(prefix.last() == edits@[i as int]@);
        match &edits[i] {
            EditOp::Delete(line) => {
                let mut text: String = String::new();
                text.append("-");
                text.append(line.display().as_str());
                assert(text@ =~= seq!['-'] + display_spec(line@));
                lines.push(text);
                assert(texts(lines@) =~= texts(before).push(text@));
            },
            EditOp::Insert(line) => {
                let mut text: String = String::new();
                text.append("+");
                text.append(line.display().as_str());
                assert(text@ =~= seq!['+'] + display_spec(line@));
                lines.push(text);
                assert(texts(lines@) =~= texts(before).push(text@));
            },
            EditOp::Equal(_) => {},
        }
        i += 1;
    }
    assert(edit_models(edits@).take(edits.len() as int) =~= edit_models(edits@));
    lines
}

} // verus!
