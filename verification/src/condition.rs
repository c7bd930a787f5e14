//! The filter as a tree of conditions, and its evaluation.

use crate::bitmap::bitmap_ids;
use crate::bitmap::copy_bitmap;
use crate::bitmap::difference_of;
use crate::bitmap::empty_bitmap;
use crate::bitmap::intersection_of;
use crate::bitmap::union_of;
use crate::explore::evaluate_number_operator;
use crate::explore::number_docids;
use crate::hierarchy::flat_docids;
use crate::hierarchy::hierarchical_agrees_with_flat;
use crate::hierarchy::is_hierarchy;
use crate::index::string_docids;
use crate::index::FacetIndex;
use crate::index::StringEntry;
use crate::number::FacetNumberOperator;
use crate::number::FloatKey;
use crate::number::NumberKind;
use roaring::RoaringBitmap;
use vstd::prelude::*;

verus! {

/// A comparison of a string field with an operand.
#[derive(Debug, Clone, PartialEq)]
pub enum FacetStringOperator {
    Equal(String),
}

/// A filter: a comparison on one faceted field, or conditions joined by
/// `OR`, `AND` and `NOT`. The field is given by its id.
#[derive(Debug, PartialEq)]
pub enum FacetCondition {
    OperatorI64(u8, FacetNumberOperator<i64>),
    OperatorF64(u8, FacetNumberOperator<FloatKey>),
    OperatorString(u8, FacetStringOperator),
    Or(Box<Self>, Box<Self>),
    And(Box<Self>, Box<Self>),
    Not(Box<Self>),
}

/// The documents that a string operator on a field selects: those indexed
/// under the operand, none where the index does not hold it.
pub open spec fn string_operator_docids(
    strings: Seq<StringEntry>,
    field_id: u8,
    operator: FacetStringOperator,
) -> Set<u32> {
    match operator {
        FacetStringOperator::Equal(value) => match string_docids(strings, field_id, value@) {
            Some(docids) => docids,
            None => Set::empty(),
        },
    }
}

/// The documents that a string operator on a field selects.
pub fn evaluate_string_operator(
    index: &FacetIndex,
    field_id: u8,
    operator: &FacetStringOperator,
) -> (docids: RoaringBitmap)
    ensures
        bitmap_ids(docids) == string_operator_docids(index.strings(), field_id, *operator),
{
    match operator {
        FacetStringOperator::Equal(value) => match index.get_string(field_id, value) {
            Some(docids) => copy_bitmap(docids),
            None => empty_bitmap(),
        },
    }
}

impl Clone for FacetCondition {
    fn clone(&self) -> (copy: Self)
        ensures
            copy == *self,
        decreases self,
    {
        match self {
            FacetCondition::OperatorI64(field_id, operator) => FacetCondition::OperatorI64(
                *field_id,
                *operator,
            ),
            FacetCondition::OperatorF64(field_id, operator) => FacetCondition::OperatorF64(
                *field_id,
                *operator,
            ),
            FacetCondition::OperatorString(field_id, FacetStringOperator::Equal(value)) => {
                FacetCondition::OperatorString(*field_id, FacetStringOperator::Equal(value.clone()))
            },
            FacetCondition::Or(lhs, rhs) => FacetCondition::Or(
                Box::new((**lhs).clone()),
                Box::new((**rhs).clone()),
            ),
            FacetCondition::And(lhs, rhs) => FacetCondition::And(
                Box::new((**lhs).clone()),
                Box::new((**rhs).clone()),
            ),
            FacetCondition::Not(inner) => FacetCondition::Not(Box::new((**inner).clone())),
        }
    }
}

impl FacetCondition {
    /// The documents of an index that satisfy the filter.
    ///
    /// A comparison selects what its operator selects on the field. `OR` is
    /// the union and `AND` the intersection of what the two sides select;
    /// `NOT` is every document of the index but those that the inner
    /// condition selects, so also those that have no value for the field.
    pub open spec fn docids(self, index: FacetIndex) -> Set<u32>
        decreases self,
    {
        match self {
            FacetCondition::OperatorI64(field_id, operator) => number_docids(
                index.levels(),
                NumberKind::Integer,
                field_id,
                operator,
            ),
            FacetCondition::OperatorF64(field_id, operator) => number_docids(
                index.levels(),
                NumberKind::Float,
                field_id,
                operator.keyed(),
            ),
            FacetCondition::OperatorString(field_id, operator) => string_operator_docids(
                index.strings(),
                field_id,
                operator,
            ),
            FacetCondition::Or(lhs, rhs) => (*lhs).docids(index).union((*rhs).docids(index)),
            FacetCondition::And(lhs, rhs) => (*lhs).docids(index).intersect((*rhs).docids(index)),
            FacetCondition::Not(inner) => index.documents().difference((*inner).docids(index)),
        }
    }

    /// Whether the entries of every numeric field that the filter names
    /// form a hierarchy.
    pub open spec fn on_hierarchies(self, index: FacetIndex) -> bool
        decreases self,
    {
        match self {
            FacetCondition::OperatorI64(field_id, _) => is_hierarchy(
                index.levels(),
                NumberKind::Integer,
                field_id,
            ),
            FacetCondition::OperatorF64(field_id, _) => is_hierarchy(
                index.levels(),
                NumberKind::Float,
                field_id,
            ),
            FacetCondition::OperatorString(_, _) => true,
            FacetCondition::Or(lhs, rhs) => (*lhs).on_hierarchies(index) && (*rhs).on_hierarchies(
                index,
            ),
            FacetCondition::And(lhs, rhs) => (*lhs).on_hierarchies(index) && (*rhs).on_hierarchies(
                index,
            ),
            FacetCondition::Not(inner) => (*inner).on_hierarchies(index),
        }
    }

    /// The documents that satisfy the filter, read plainly: a numeric
    /// comparison selects the documents of the values of level 0 that
    /// satisfy it.
    pub open spec fn satisfying(self, index: FacetIndex) -> Set<u32>
        decreases self,
    {
        match self {
            FacetCondition::OperatorI64(field_id, operator) => flat_docids(
                index.levels(),
                field_id,
                operator,
            ),
            FacetCondition::OperatorF64(field_id, operator) => flat_docids(
                index.levels(),
                field_id,
                operator.keyed(),
            ),
            FacetCondition::OperatorString(field_id, operator) => string_operator_docids(
                index.strings(),
                field_id,
                operator,
            ),
            FacetCondition::Or(lhs, rhs) => (*lhs).satisfying(index).union(
                (*rhs).satisfying(index),
            ),
            FacetCondition::And(lhs, rhs) => (*lhs).satisfying(index).intersect(
                (*rhs).satisfying(index),
            ),
            FacetCondition::Not(inner) => index.documents().difference(
                (*inner).satisfying(index),
            ),
        }
    }

    /// The documents of the index that satisfy the filter.
    ///
    /// Where the numeric fields that the filter names are indexed as
    /// hierarchies, these are the documents that satisfy it read plainly.
    pub fn evaluate(&self, index: &FacetIndex) -> (docids: RoaringBitmap)
        ensures
            bitmap_ids(docids) == self.docids(*index),
            self.on_hierarchies(*index) ==> bitmap_ids(docids) == self.satisfying(*index),
        decreases self,
    {
        proof {
            if self.on_hierarchies(*index) {
                evaluation_agrees_with_flat(*self, *index);
            }
        }
        match self {
            FacetCondition::OperatorI64(field_id, operator) => evaluate_number_operator(
                index,
                NumberKind::Integer,
                *field_id,
                *operator,
            ),
            FacetCondition::OperatorF64(field_id, operator) => evaluate_number_operator(
                index,
                NumberKind::Float,
                *field_id,
                operator.to_keys(),
            ),
            FacetCondition::OperatorString(field_id, operator) => evaluate_string_operator(
                index,
                *field_id,
                operator,
            ),
            FacetCondition::Or(lhs, rhs) => {
                let lhs = lhs.evaluate(index);
                let rhs = rhs.evaluate(index);
                union_of(lhs, rhs)
            },
            FacetCondition::And(lhs, rhs) => {
                let lhs = lhs.evaluate(index);
                let rhs = rhs.evaluate(index);
                intersection_of(lhs, rhs)
            },
            FacetCondition::Not(inner) => {
                let all_documents_ids = index.documents_ids();
                let documents_ids = inner.evaluate(index);
                difference_of(all_documents_ids, documents_ids)
            },
        }
    }
}

/// On hierarchies, a filter selects the documents that satisfy it read
/// plainly.
pub proof fn evaluation_agrees_with_flat(condition: FacetCondition, index: FacetIndex)
    requires
        condition.on_hierarchies(index),
    ensures
        condition.docids(index) == condition.satisfying(index),
    decreases condition,
{
    match condition {
        FacetCondition::OperatorI64(field_id, operator) => {
            hierarchical_agrees_with_flat(index.levels(), NumberKind::Integer, field_id, operator);
        },
        FacetCondition::OperatorF64(field_id, operator) => {
            hierarchical_agrees_with_flat(
                index.levels(),
                NumberKind::Float,
                field_id,
                operator.keyed(),
            );
        },
        FacetCondition::OperatorString(_, _) => {},
        FacetCondition::Or(lhs, rhs) => {
            evaluation_agrees_with_flat(*lhs, index);
            evaluation_agrees_with_flat(*rhs, index);
        },
        FacetCondition::And(lhs, rhs) => {
            evaluation_agrees_with_flat(*lhs, index);
            evaluation_agrees_with_flat(*rhs, index);
        },
        FacetCondition::Not(inner) => {
            evaluation_agrees_with_flat(*inner, index);
        },
    }
}

/// `NOT` selects the documents of the index that the inner condition does
/// not select.
pub proof fn not_is_complement(inner: FacetCondition, index: FacetIndex)
    ensures
        FacetCondition::Not(Box::new(inner)).docids(index) == index.documents().difference(
            inner.docids(index),
        ),
{
}

/// `AND` selects what both sides select.
pub proof fn and_is_intersection(lhs: FacetCondition, rhs: FacetCondition, index: FacetIndex)
    ensures
        FacetCondition::And(Box::new(lhs), Box::new(rhs)).docids(index) == lhs.docids(
            index,
        ).intersect(rhs.docids(index)),
{
}

/// `OR` selects what either side selects.
pub proof fn or_is_union(lhs: FacetCondition, rhs: FacetCondition, index: FacetIndex)
    ensures
        FacetCondition::Or(Box::new(lhs), Box::new(rhs)).docids(index) == lhs.docids(index).union(
            rhs.docids(index),
        ),
{
}

/// One read that evaluating a filter asks of the store.
#[derive(Debug, Clone, PartialEq)]
pub enum Lookup {
    /// The documents that a numeric operator on a field selects.
    Numbers { kind: NumberKind, field_id: u8, operator: FacetNumberOperator<i64> },
    /// The documents indexed under a string of a field.
    Strings { field_id: u8, value: String },
    /// All documents.
    Documents,
}

impl Lookup {
    /// What the read yields on an index.
    pub open spec fn docids(self, index: FacetIndex) -> Set<u32> {
        match self {
            Lookup::Numbers { kind, field_id, operator } => number_docids(
                index.levels(),
                kind,
                field_id,
                operator,
            ),
            Lookup::Strings { field_id, value } => string_operator_docids(
                index.strings(),
                field_id,
                FacetStringOperator::Equal(value),
            ),
            Lookup::Documents => index.documents(),
        }
    }

    /// Makes the read on an index held in memory.
    pub fn resolve(&self, index: &FacetIndex) -> (docids: RoaringBitmap)
        ensures
            bitmap_ids(docids) == self.docids(*index),
    {
        match self {
            Lookup::Numbers { kind, field_id, operator } => evaluate_number_operator(
                index,
                *kind,
                *field_id,
                *operator,
            ),
            Lookup::Strings { field_id, value } => match index.get_string(*field_id, value) {
                Some(docids) => copy_bitmap(docids),
                None => empty_bitmap(),
            },
            Lookup::Documents => index.documents_ids(),
        }
    }
}

/// The sets of ids of a sequence of bitmaps.
pub open spec fn sets(found: Seq<RoaringBitmap>) -> Seq<Set<u32>> {
    found.map_values(|bitmap: RoaringBitmap| bitmap_ids(bitmap))
}

impl FacetCondition {
    /// The reads that evaluating the filter asks of the store, in the
    /// order in which the evaluation makes them: one per comparison, and
    /// for each `NOT` all documents, before what it negates.
    pub open spec fn reads(self) -> Seq<Lookup>
        decreases self,
    {
        match self {
            FacetCondition::OperatorI64(field_id, operator) => seq![
                Lookup::Numbers { kind: NumberKind::Integer, field_id, operator },
            ],
            FacetCondition::OperatorF64(field_id, operator) => seq![
                Lookup::Numbers { kind: NumberKind::Float, field_id, operator: operator.keyed() },
            ],
            FacetCondition::OperatorString(field_id, FacetStringOperator::Equal(value)) => seq![
                Lookup::Strings { field_id, value },
            ],
            FacetCondition::Or(lhs, rhs) => (*lhs).reads() + (*rhs).reads(),
            FacetCondition::And(lhs, rhs) => (*lhs).reads() + (*rhs).reads(),
            FacetCondition::Not(inner) => seq![Lookup::Documents] + (*inner).reads(),
        }
    }

    /// The documents that satisfy the filter, given what its reads have
    /// yielded: those of the filter are `found` from the place `from` on.
    pub open spec fn combined(self, found: Seq<Set<u32>>, from: int) -> Set<u32>
        decreases self,
    {
        match self {
            FacetCondition::OperatorI64(_, _) => found[from],
            FacetCondition::OperatorF64(_, _) => found[from],
            FacetCondition::OperatorString(_, _) => found[from],
            FacetCondition::Or(lhs, rhs) => (*lhs).combined(found, from).union(
                (*rhs).combined(found, from + (*lhs).reads().len()),
            ),
            FacetCondition::And(lhs, rhs) => (*lhs).combined(found, from).intersect(
                (*rhs).combined(found, from + (*lhs).reads().len()),
            ),
            FacetCondition::Not(inner) => found[from].difference(
                (*inner).combined(found, from + 1),
            ),
        }
    }

    /// The reads that evaluating the filter asks of the store.
    pub fn lookups(&self) -> (reads: Vec<Lookup>)
        ensures
            reads@ == self.reads(),
    {
        let mut reads: Vec<Lookup> = Vec::new();
        self.list_lookups(&mut reads);
        assert(Seq::<Lookup>::empty() + self.reads() =~= self.reads());
        reads
    }

    fn list_lookups(&self, reads: &mut Vec<Lookup>)
        ensures
            final(reads)@ == old(reads)@ + self.reads(),
        decreases self,
    {
        let ghost before = reads@;
        match self {
            FacetCondition::OperatorI64(field_id, operator) => {
                let read = Lookup::Numbers {
                    kind: NumberKind::Integer,
                    field_id: *field_id,
                    operator: *operator,
                };
                reads.push(read);
                assert(reads@ =~= before + seq![read]);
            },
            FacetCondition::OperatorF64(field_id, operator) => {
                let read = Lookup::Numbers {
                    kind: NumberKind::Float,
                    field_id: *field_id,
                    operator: operator.to_keys(),
                };
                reads.push(read);
                assert(reads@ =~= before + seq![read]);
            },
            FacetCondition::OperatorString(field_id, FacetStringOperator::Equal(value)) => {
                let read = Lookup::Strings { field_id: *field_id, value: value.clone() };
                reads.push(read);
                assert(reads@ =~= before + seq![read]);
            },
            FacetCondition::Or(lhs, rhs) => {
                lhs.list_lookups(reads);
                rhs.list_lookups(reads);
                assert(reads@ =~= before + ((**lhs).reads() + (**rhs).reads()));
            },
            FacetCondition::And(lhs, rhs) => {
                lhs.list_lookups(reads);
                rhs.list_lookups(reads);
                assert(reads@ =~= before + ((**lhs).reads() + (**rhs).reads()));
            },
            FacetCondition::Not(inner) => {
                reads.push(Lookup::Documents);
                inner.list_lookups(reads);
                assert(reads@ =~= before + (seq![Lookup::Documents] + (**inner).reads()));
            },
        }
    }

    /// The documents that satisfy the filter, given what its reads have
    /// yielded, in their order; `None` where `found` is not one bitmap per
    /// read.
    pub fn combine(&self, found: &Vec<RoaringBitmap>) -> (docids: Option<RoaringBitmap>)
        ensures
            docids is Some <==> found@.len() == self.reads().len(),
            docids matches Some(docids) ==> bitmap_ids(docids) == self.combined(sets(found@), 0),
    {
        let needed = self.count_lookups(found.len());
        if needed == Some(found.len()) {
            let (docids, _) = self.combine_from(found, 0);
            Some(docids)
        } else {
            None
        }
    }

    /// The number of reads of the filter, where it is at most `limit`.
    fn count_lookups(&self, limit: usize) -> (count: Option<usize>)
        ensures
            count is Some <==> self.reads().len() <= limit,
            count matches Some(count) ==> count == self.reads().len(),
        decreases self,
    {
        match self {
            FacetCondition::OperatorI64(_, _) => if limit >= 1 {
                Some(1)
            } else {
                None
            },
            FacetCondition::OperatorF64(_, _) => if limit >= 1 {
                Some(1)
            } else {
                None
            },
            FacetCondition::OperatorString(_, FacetStringOperator::Equal(_)) => if limit >= 1 {
                Some(1)
            } else {
                None
            },
            FacetCondition::Or(lhs, rhs) => match lhs.count_lookups(limit) {
                Some(left) => match rhs.count_lookups(limit - left) {
                    Some(right) => Some(left + right),
                    None => None,
                },
                None => None,
            },
            FacetCondition::And(lhs, rhs) => match lhs.count_lookups(limit) {
                Some(left) => match rhs.count_lookups(limit - left) {
                    Some(right) => Some(left + right),
                    None => None,
                },
                None => None,
            },
            FacetCondition::Not(inner) => if limit >= 1 {
                match inner.count_lookups(limit - 1) {
                    Some(count) => Some(count + 1),
                    None => None,
                }
            } else {
                None
            },
        }
    }

    fn combine_from(&self, found: &Vec<RoaringBitmap>, from: usize) -> (combined: (
        RoaringBitmap,
        usize,
    ))
        requires
            from + self.reads().len() <= found@.len(),
        ensures
            bitmap_ids(combined.0) == self.combined(sets(found@), from as int),
            combined.1 == from + self.reads().len(),
        decreases self,
    {
        let total = found.len();
        assert(from + self.reads().len() <= total);
        match self {
            FacetCondition::OperatorI64(_, _) => (copy_bitmap(&found[from]), from + 1),
            FacetCondition::OperatorF64(_, _) => (copy_bitmap(&found[from]), from + 1),
            FacetCondition::OperatorString(_, FacetStringOperator::Equal(_)) => (
                copy_bitmap(&found[from]),
                from + 1,
            ),
            FacetCondition::Or(lhs, rhs) => {
                let (lhs, middle) = lhs.combine_from(found, from);
                let (rhs, next) = rhs.combine_from(found, middle);
                (union_of(lhs, rhs), next)
            },
            FacetCondition::And(lhs, rhs) => {
                let (lhs, middle) = lhs.combine_from(found, from);
                let (rhs, next) = rhs.combine_from(found, middle);
                (intersection_of(lhs, rhs), next)
            },
            FacetCondition::Not(inner) => {
                let all_documents_ids = copy_bitmap(&found[from]);
                let (documents_ids, next) = inner.combine_from(found, from + 1);
                (difference_of(all_documents_ids, documents_ids), next)
            },
        }
    }
}

/// Reading, then combining, is evaluating: where each read of a filter has
/// yielded what it yields on an index, the combination is what the filter
/// selects on that index.
pub proof fn combination_is_evaluation(
    condition: FacetCondition,
    index: FacetIndex,
    found: Seq<Set<u32>>,
    from: int,
)
    requires
        0 <= from,
        from + condition.reads().len() <= found.len(),
        forall|i: int|
            0 <= i < condition.reads().len() ==> found[from + i] == (
            #[trigger] condition.reads()[i]).docids(index),
    ensures
        condition.combined(found, from) == condition.docids(index),
    decreases condition,
{
    match condition {
        FacetCondition::OperatorI64(_, _) => {
            assert(found[from + 0] == condition.reads()[0].docids(index));
        },
        FacetCondition::OperatorF64(_, _) => {
            assert(found[from + 0] == condition.reads()[0].docids(index));
        },
        FacetCondition::OperatorString(_, FacetStringOperator::Equal(_)) => {
            assert(found[from + 0] == condition.reads()[0].docids(index));
        },
        FacetCondition::Or(lhs, rhs) => {
            lemma_reads_of_two(condition, *lhs, *rhs, index, found, from);
            combination_is_evaluation(*lhs, index, found, from);
            combination_is_evaluation(*rhs, index, found, from + (*lhs).reads().len());
        },
        FacetCondition::And(lhs, rhs) => {
            lemma_reads_of_two(condition, *lhs, *rhs, index, found, from);
            combination_is_evaluation(*lhs, index, found, from);
            combination_is_evaluation(*rhs, index, found, from + (*lhs).reads().len());
        },
        FacetCondition::Not(inner) => {
            assert(found[from + 0] == condition.reads()[0].docids(index));
            assert forall|i: int| 0 <= i < (*inner).reads().len() implies found[from + 1 + i] == (
            #[trigger] (*inner).reads()[i]).docids(index) by {
                assert(condition.reads()[i + 1] == (*inner).reads()[i]);
                assert(found[from + (i + 1)] == condition.reads()[i + 1].docids(index));
            }
            combination_is_evaluation(*inner, index, found, from + 1);
        },
    }
}

/// The reads of a condition of two sides are those of the left side, then
/// those of the right.
proof fn lemma_reads_of_two(
    condition: FacetCondition,
    lhs: FacetCondition,
    rhs: FacetCondition,
    index: FacetIndex,
    found: Seq<Set<u32>>,
    from: int,
)
    requires
        condition.reads() == lhs.reads() + rhs.reads(),
        forall|i: int|
            0 <= i < condition.reads().len() ==> found[from + i] == (
            #[trigger] condition.reads()[i]).docids(index),
    ensures
        forall|i: int|
            0 <= i < lhs.reads().len() ==> found[from + i] == (#[trigger] lhs.reads()[i]).docids(
                index,
            ),
        forall|i: int|
            0 <= i < rhs.reads().len() ==> found[from + lhs.reads().len() + i] == (
            #[trigger] rhs.reads()[i]).docids(index),
{
    assert forall|i: int| 0 <= i < lhs.reads().len() implies found[from + i] == (
    #[trigger] lhs.reads()[i]).docids(index) by {
        assert(condition.reads()[i] == lhs.reads()[i]);
    }
    assert forall|i: int| 0 <= i < rhs.reads().len() implies found[from + lhs.reads().len() + i]
        == (#[trigger] rhs.reads()[i]).docids(index) by {
        let at = lhs.reads().len() + i;
        assert(condition.reads()[at] == rhs.reads()[i]);
        assert(found[from + at] == condition.reads()[at].docids(index));
    }
}

} // verus!
