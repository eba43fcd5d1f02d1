//! The record that one listing line stands for, and the tolerant equality
//! that the differ compares records by.

use vstd::prelude::*;

verus! {

/// The block quantum: sizes that differ by a multiple of it count as equal.
pub const QUANTUM: i64 = 3584;

/// Columns of leading text per nesting level.
pub const INDENT_WIDTH: usize = 4;

/// One entry of a tree listing.
#[derive(Debug, Clone, Eq, Hash, PartialOrd, Ord)]
pub struct Line {
    pub path: String,
    pub size: i64,
    pub indent: usize,
}

/// What a `Line` is, mathematically.
pub ghost struct LineModel {
    pub path: Seq<char>,
    pub size: int,
    pub indent: nat,
}

impl View for Line {
    type V = LineModel;

    open spec fn view(&self) -> LineModel {
        LineModel { path: self.path@, size: self.size as int, indent: self.indent as nat }
    }
}

/// The tolerant equality: same path, same depth, sizes congruent modulo the
/// block quantum.
pub open spec fn same_entry(a: LineModel, b: LineModel) -> bool {
    &&& a.path == b.path
    &&& a.indent == b.indent
    &&& (a.size - b.size) % 3584 == 0
}

/// The record that stands for a line without an opening bracket.
pub open spec fn empty_model() -> LineModel {
    LineModel { path: Seq::empty(), size: 0, indent: 0 }
}

/// The residue of a size modulo the block quantum, in `0 .. 3584`.
pub fn residue(size: i64) -> (r: i64)
    ensures
        r as int == (size as int) % 3584,
{
    if size >= 0 {
        size % QUANTUM
    } else {
        let below: i64 = -(size + 1);
        (QUANTUM - 1) - below % QUANTUM
    }
}

impl Line {
    /// The empty record: no path, size zero, depth zero.
    pub fn empty() -> (r: Line)
        ensures
            r@ == empty_model(),
    {
        Line { path: String::new(), size: 0, indent: 0 }
    }

    /// A copy of this record, field by field.
    pub fn duplicate(&self) -> (r: Line)
        ensures
            r@ == self@,
    {
        Line { path: self.path.clone(), size: self.size, indent: self.indent }
    }

    /// Whether two records stand for the same entry.
    pub fn matches(&self, other: &Line) -> (r: bool)
        ensures
            r == same_entry(self@, other@),
    {
        self.path == other.path && self.indent == other.indent && residue(self.size) == residue(
            other.size,
        )
    }

    /// Whether two records agree in every field, sizes included.
    pub fn identical(&self, other: &Line) -> (r: bool)
        ensures
            r == (self@ == other@),
    {
        self.path == other.path && self.indent == other.indent && self.size == other.size
    }
}

impl Default for Line {
    fn default() -> (r: Line)
        ensures
            r@ == empty_model(),
    {
        Line::empty()
    }
}

impl PartialEq for Line {
    fn eq(&self, other: &Line) -> (r: bool) {
        self.matches(other)
    }
}

impl vstd::std_specs::cmp::PartialEqSpecImpl for Line {
    open spec fn obeys_eq_spec() -> bool {
        true
    }

    open spec fn eq_spec(&self, other: &Line) -> bool {
        same_entry(self@, other@)
    }
}

/// Every record is the same entry as itself.
pub proof fn lemma_same_entry_reflexive(a: LineModel)
    ensures
        same_entry(a, a),
{
}

/// The tolerant equality does not depend on the order of its arguments.
pub proof fn lemma_same_entry_symmetric(a: LineModel, b: LineModel)
    ensures
        same_entry(a, b) == same_entry(b, a),
{
}

/// The tolerant equality carries over a chain of two.
pub proof fn lemma_same_entry_transitive(a: LineModel, b: LineModel, c: LineModel)
    requires
        same_entry(a, b),
        same_entry(b, c),
    ensures
        same_entry(a, c),
{
}

/// Records with one path and one depth are the same entry whenever their
/// sizes lie a whole number of quanta apart, in either direction.
pub proof fn lemma_quantum_tolerance(a: LineModel, b: LineModel, k: int)
    requires
        a.path == b.path,
        a.indent == b.indent,
        b.size == a.size + k * 3584,
    ensures
        same_entry(a, b),
{
    assert((a.size - (a.size + k * 3584)) % 3584 == 0) by (nonlinear_arith);
}

/// Sizes that lie less than one quantum apart, and are not the same, never
/// make the same entry; a difference of one in particular.
pub proof fn lemma_within_quantum_distinct(a: LineModel, b: LineModel)
    requires
        a.size != b.size,
        -3584 < a.size - b.size < 3584,
    ensures
        !same_entry(a, b),
{
}

} // verus!
