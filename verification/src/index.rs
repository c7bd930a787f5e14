//! The facet index: an ordered store of document-id bitmaps.
//!
//! A numeric facet is indexed on several levels. Level 0 holds one entry per
//! value; an entry of a higher level stands for a run of consecutive entries
//! of the level below and holds the union of their bitmaps. All entries live
//! in one sequence, ordered by `(field, level, low, high)`. A string facet
//! has one entry per value.

use crate::bitmap::bitmap_ids;
use crate::bitmap::copy_bitmap;
use crate::bitmap::empty_bitmap;
use roaring::RoaringBitmap;
use vstd::prelude::*;

verus! {

/// The key of one entry of a numeric facet: the values from `low` to `high`
/// of a field, on one level.
#[derive(Debug, Copy, Clone, PartialEq, Eq)]
pub struct LevelKey {
    pub field_id: u8,
    pub level: u8,
    pub low: i64,
    pub high: i64,
}

/// One entry of a numeric facet: the documents whose value for the field
/// lies in the key's range.
pub struct LevelEntry {
    pub key: LevelKey,
    pub docids: RoaringBitmap,
}

/// One entry of a string facet: the documents whose value for the field is
/// `value`.
pub struct StringEntry {
    pub field_id: u8,
    pub value: String,
    pub docids: RoaringBitmap,
}

impl LevelKey {
    /// The order of the store: by field, then level, then `low`, then `high`.
    pub open spec fn precedes(self, other: LevelKey) -> bool {
        ||| self.field_id < other.field_id
        ||| self.field_id == other.field_id && self.level < other.level
        ||| self.field_id == other.field_id && self.level == other.level && self.low < other.low
        ||| self.field_id == other.field_id && self.level == other.level && self.low == other.low
            && self.high < other.high
    }

    /// Whether the key lies before a boundary at `pivot`: before the pivot
    /// itself, or, where `strict`, not after it.
    pub open spec fn lies_before(self, pivot: LevelKey, strict: bool) -> bool {
        if strict {
            !pivot.precedes(self)
        } else {
            self.precedes(pivot)
        }
    }

    /// Whether the key comes before another in the order of the store.
    pub fn is_before(&self, other: &LevelKey) -> (b: bool)
        ensures
            b == self.precedes(*other),
    {
        if self.field_id != other.field_id {
            self.field_id < other.field_id
        } else if self.level != other.level {
            self.level < other.level
        } else if self.low != other.low {
            self.low < other.low
        } else {
            self.high < other.high
        }
    }

    /// Whether the key is the same as another.
    pub fn is_same(&self, other: &LevelKey) -> (b: bool)
        ensures
            b == (*self == *other),
    {
        self.field_id == other.field_id && self.level == other.level && self.low == other.low
            && self.high == other.high
    }
}

/// Whether the keys of a sequence of entries strictly ascend.
pub open spec fn ascending(entries: Seq<LevelEntry>) -> bool {
    forall|i: int, j: int|
        #![trigger entries[i], entries[j]]
        0 <= i < j < entries.len() ==> entries[i].key.precedes(entries[j].key)
}

/// The first position at or after `from` whose key does not lie before the
/// boundary.
pub open spec fn skip_before(
    entries: Seq<LevelEntry>,
    from: int,
    pivot: LevelKey,
    strict: bool,
) -> int
    decreases entries.len() - from,
{
    if 0 <= from < entries.len() && entries[from].key.lies_before(pivot, strict) {
        skip_before(entries, from + 1, pivot, strict)
    } else {
        from
    }
}

/// The position of the first entry beyond a boundary at `pivot`: the first
/// whose key is not less than the pivot, or, where `strict`, greater.
pub open spec fn first_beyond(entries: Seq<LevelEntry>, pivot: LevelKey, strict: bool) -> int {
    skip_before(entries, 0, pivot, strict)
}

/// The entry with the greatest key that is not greater than `key`.
pub open spec fn greatest_at_most(entries: Seq<LevelEntry>, key: LevelKey) -> Option<LevelEntry> {
    let beyond = first_beyond(entries, key, true);
    if beyond > 0 {
        Some(entries[beyond - 1])
    } else {
        None
    }
}

/// The sequence with `entry` put at its key: in place of the entry of that
/// key, or else between its neighbours.
pub open spec fn with_entry(entries: Seq<LevelEntry>, entry: LevelEntry) -> Seq<LevelEntry> {
    let at = first_beyond(entries, entry.key, false);
    if at < entries.len() && entries[at].key == entry.key {
        entries.update(at, entry)
    } else {
        entries.insert(at, entry)
    }
}

/// The first position at or after `from` that holds the string `value` of
/// the field, or the length where none does.
pub open spec fn string_position(
    strings: Seq<StringEntry>,
    from: int,
    field_id: u8,
    value: Seq<char>,
) -> int
    decreases strings.len() - from,
{
    if 0 <= from < strings.len() && !(strings[from].field_id == field_id && strings[from].value@
        == value) {
        string_position(strings, from + 1, field_id, value)
    } else {
        from
    }
}

/// The documents indexed under the string `value` of the field, if any.
pub open spec fn string_docids(strings: Seq<StringEntry>, field_id: u8, value: Seq<char>) -> Option<
    Set<u32>,
> {
    let at = string_position(strings, 0, field_id, value);
    if at < strings.len() {
        Some(bitmap_ids(strings[at].docids))
    } else {
        None
    }
}

/// The sequence with `entry` put at its field and value: in place of the
/// first entry of that field and value, or else at the end.
pub open spec fn with_string(strings: Seq<StringEntry>, entry: StringEntry) -> Seq<StringEntry> {
    let at = string_position(strings, 0, entry.field_id, entry.value@);
    if at < strings.len() {
        strings.update(at, entry)
    } else {
        strings.push(entry)
    }
}

/// What `skip_before` skips lies before the boundary, and where it stops
/// the sequence ends or the key does not.
pub proof fn lemma_skip_before_stops(
    entries: Seq<LevelEntry>,
    from: int,
    pivot: LevelKey,
    strict: bool,
)
    requires
        0 <= from <= entries.len(),
    ensures
        from <= skip_before(entries, from, pivot, strict) <= entries.len(),
        forall|i: int|
            from <= i < skip_before(entries, from, pivot, strict) ==> (#[trigger] entries[i]).key.lies_before(
                pivot,
                strict,
            ),
        skip_before(entries, from, pivot, strict) < entries.len() ==> !entries[skip_before(
            entries,
            from,
            pivot,
            strict,
        )].key.lies_before(pivot, strict),
    decreases entries.len() - from,
{
    if from < entries.len() && entries[from].key.lies_before(pivot, strict) {
        lemma_skip_before_stops(entries, from + 1, pivot, strict);
    }
}

/// In an ascending sequence the boundary splits the entries: those before
/// it lie before the pivot, those from it on do not.
pub proof fn lemma_first_beyond_splits(entries: Seq<LevelEntry>, pivot: LevelKey, strict: bool)
    requires
        ascending(entries),
    ensures
        0 <= first_beyond(entries, pivot, strict) <= entries.len(),
        forall|i: int|
            0 <= i < entries.len() ==> ((#[trigger] entries[i]).key.lies_before(pivot, strict) <==> i
                < first_beyond(entries, pivot, strict)),
{
    lemma_skip_before_stops(entries, 0, pivot, strict);
    let at = first_beyond(entries, pivot, strict);
    assert forall|i: int| at <= i < entries.len() implies !(#[trigger] entries[i]).key.lies_before(
        pivot,
        strict,
    ) by {
        if at < i {
            assert(entries[at].key.precedes(entries[i].key));
        }
    }
}

/// A position that splits the entries as the boundary does is the boundary.
pub proof fn lemma_first_beyond_is(
    entries: Seq<LevelEntry>,
    pivot: LevelKey,
    strict: bool,
    at: int,
)
    requires
        0 <= at <= entries.len(),
        forall|i: int| 0 <= i < at ==> (#[trigger] entries[i]).key.lies_before(pivot, strict),
        at < entries.len() ==> !entries[at].key.lies_before(pivot, strict),
    ensures
        first_beyond(entries, pivot, strict) == at,
{
    lemma_skip_before_is(entries, 0, pivot, strict, at);
}

proof fn lemma_skip_before_is(
    entries: Seq<LevelEntry>,
    from: int,
    pivot: LevelKey,
    strict: bool,
    at: int,
)
    requires
        0 <= from <= at <= entries.len(),
        forall|i: int| from <= i < at ==> (#[trigger] entries[i]).key.lies_before(pivot, strict),
        at < entries.len() ==> !entries[at].key.lies_before(pivot, strict),
    ensures
        skip_before(entries, from, pivot, strict) == at,
    decreases at - from,
{
    if from < at {
        lemma_skip_before_is(entries, from + 1, pivot, strict, at);
    }
}

/// `with_entry` keeps an ascending sequence ascending.
pub proof fn lemma_with_entry_ascending(entries: Seq<LevelEntry>, entry: LevelEntry)
    requires
        ascending(entries),
    ensures
        ascending(with_entry(entries, entry)),
{
    lemma_first_beyond_splits(entries, entry.key, false);
    let at = first_beyond(entries, entry.key, false);
    let result = with_entry(entries, entry);
    assert forall|i: int, j: int| 0 <= i < j < result.len() implies (#[trigger] result[i]).key.precedes(
        (#[trigger] result[j]).key,
    ) by {
        if at < entries.len() && entries[at].key == entry.key {
            assert(result[i].key == entries[i].key);
            assert(result[j].key == entries[j].key);
            assert(entries[i].key.precedes(entries[j].key));
        } else {
            let before_i = if i < at { i } else { i - 1 };
            let before_j = if j < at { j } else { j - 1 };
            if i == at {
                assert(result[j] == entries[before_j]);
                assert(!entries[before_j].key.lies_before(entry.key, false));
                if at < before_j {
                    assert(entries[at].key.precedes(entries[before_j].key));
                }
            } else if j == at {
                assert(result[i] == entries[before_i]);
                assert(entries[before_i].key.lies_before(entry.key, false));
            } else {
                assert(result[i] == entries[before_i]);
                assert(result[j] == entries[before_j]);
                assert(entries[before_i].key.precedes(entries[before_j].key));
            }
        }
    }
}

/// A facet index held in memory: the entries of the numeric facets in key
/// order, those of the string facets, and the ids of all documents.
pub struct FacetIndex {
    levels: Vec<LevelEntry>,
    strings: Vec<StringEntry>,
    documents: RoaringBitmap,
}

impl FacetIndex {
    #[verifier::type_invariant]
    spec fn keys_ascend(self) -> bool {
        ascending(self.levels@)
    }

    /// The entries of the numeric facets, in key order.
    pub closed spec fn levels(&self) -> Seq<LevelEntry> {
        self.levels@
    }

    /// The entries of the string facets.
    pub closed spec fn strings(&self) -> Seq<StringEntry> {
        self.strings@
    }

    /// The ids of all documents of the index.
    pub closed spec fn documents(&self) -> Set<u32> {
        bitmap_ids(self.documents)
    }

    /// An index of the given documents, with no facet entry yet.
    pub fn new(documents: RoaringBitmap) -> (index: FacetIndex)
        ensures
            index.levels() == Seq::<LevelEntry>::empty(),
            index.strings() == Seq::<StringEntry>::empty(),
            index.documents() == bitmap_ids(documents),
    {
        FacetIndex { levels: Vec::new(), strings: Vec::new(), documents }
    }

    /// The number of numeric entries, whose keys strictly ascend.
    pub fn level_count(&self) -> (count: usize)
        ensures
            count == self.levels().len(),
            ascending(self.levels()),
    {
        proof {
            use_type_invariant(self);
        }
        self.levels.len()
    }

    /// The numeric entry at a position in key order, if there is one.
    pub fn level_entry(&self, position: usize) -> (found: Option<&LevelEntry>)
        ensures
            found is Some <==> position < self.levels().len(),
            found matches Some(entry) ==> *entry == self.levels()[position as int],
    {
        if position < self.levels.len() {
            Some(&self.levels[position])
        } else {
            None
        }
    }

    pub(crate) fn entry_at(&self, position: usize) -> (entry: &LevelEntry)
        requires
            position < self.levels().len(),
        ensures
            *entry == self.levels()[position as int],
    {
        &self.levels[position]
    }

    /// The position of the first numeric entry beyond a boundary at `pivot`,
    /// found by bisection.
    pub fn position_beyond(&self, pivot: &LevelKey, strict: bool) -> (at: usize)
        ensures
            at == first_beyond(self.levels(), *pivot, strict),
            at <= self.levels().len(),
    {
        proof {
            use_type_invariant(self);
        }
        let mut low: usize = 0;
        let mut high: usize = self.levels.len();
        while low < high
            invariant
                0 <= low <= high <= self.levels@.len(),
                ascending(self.levels@),
                forall|i: int| 0 <= i < low ==> (#[trigger] self.levels@[i]).key.lies_before(*pivot, strict),
                forall|i: int|
                    high <= i < self.levels@.len() ==> !(#[trigger] self.levels@[i]).key.lies_before(
                        *pivot,
                        strict,
                    ),
            decreases high - low,
        {
            let middle: usize = low + (high - low) / 2;
            let key = &self.levels[middle].key;
            let before = if strict {
                !pivot.is_before(key)
            } else {
                key.is_before(pivot)
            };
            if before {
                assert forall|i: int| 0 <= i < middle + 1 implies (#[trigger] self.levels@[i]).key.lies_before(
                    *pivot,
                    strict,
                ) by {
                    if i < middle {
                        assert(self.levels@[i].key.precedes(self.levels@[middle as int].key));
                    }
                }
                low = middle + 1;
            } else {
                assert forall|i: int| middle <= i < self.levels@.len() implies !(
                #[trigger] self.levels@[i]).key.lies_before(*pivot, strict) by {
                    if middle < i {
                        assert(self.levels@[middle as int].key.precedes(self.levels@[i].key));
                    }
                }
                high = middle;
            }
        }
        proof {
            lemma_first_beyond_is(self.levels@, *pivot, strict, low as int);
        }
        low
    }

    /// The numeric entry with the greatest key that is not greater than
    /// `key`, if there is one.
    pub fn get_lower_than_or_equal_to(&self, key: &LevelKey) -> (found: Option<&LevelEntry>)
        ensures
            found is Some <==> greatest_at_most(self.levels(), *key) is Some,
            found matches Some(entry) ==> Some(*entry) == greatest_at_most(self.levels(), *key),
    {
        let beyond = self.position_beyond(key, true);
        if beyond > 0 {
            Some(&self.levels[beyond - 1])
        } else {
            None
        }
    }

    /// Puts a numeric entry at its key, in place of the entry that had the
    /// key, if any.
    pub fn put_level(&mut self, key: LevelKey, docids: RoaringBitmap)
        ensures
            final(self).levels() == with_entry(old(self).levels(), LevelEntry { key, docids }),
            final(self).strings() == old(self).strings(),
            final(self).documents() == old(self).documents(),
    {
        proof {
            use_type_invariant(&*self);
            lemma_with_entry_ascending(self.levels@, LevelEntry { key, docids });
        }
        let at = self.position_beyond(&key, false);
        let replace = at < self.levels.len() && self.levels[at].key.is_same(&key);
        let FacetIndex { mut levels, strings, documents } = self.take();
        if replace {
            levels.set(at, LevelEntry { key, docids });
        } else {
            levels.insert(at, LevelEntry { key, docids });
        }
        *self = FacetIndex { levels, strings, documents };
    }

    /// Moves the index out, leaving an empty one.
    fn take(&mut self) -> (taken: FacetIndex)
        ensures
            taken == *old(self),
    {
        let mut taken = FacetIndex::new(empty_bitmap());
        core::mem::swap(self, &mut taken);
        taken
    }

    /// The bitmap indexed under the string `value` of a field, if any.
    pub fn get_string(&self, field_id: u8, value: &String) -> (found: Option<&RoaringBitmap>)
        ensures
            found is Some <==> string_docids(self.strings(), field_id, value@) is Some,
            found matches Some(docids) ==> Some(bitmap_ids(*docids)) == string_docids(
                self.strings(),
                field_id,
                value@,
            ),
    {
        let at = self.string_index(field_id, value);
        if at < self.strings.len() {
            Some(&self.strings[at].docids)
        } else {
            None
        }
    }

    fn string_index(&self, field_id: u8, value: &String) -> (at: usize)
        ensures
            at == string_position(self.strings@, 0, field_id, value@),
            at <= self.strings@.len(),
    {
        let mut at: usize = 0;
        while at < self.strings.len()
            invariant
                0 <= at <= self.strings@.len(),
                string_position(self.strings@, 0, field_id, value@) == string_position(
                    self.strings@,
                    at as int,
                    field_id,
                    value@,
                ),
            decreases self.strings@.len() - at,
        {
            let entry = &self.strings[at];
            if entry.field_id == field_id && entry.value == *value {
                return at;
            }
            at += 1;
        }
        at
    }

    /// Puts a string entry at its field and value, in place of the entry
    /// that was there, if any.
    pub fn put_string(&mut self, field_id: u8, value: String, docids: RoaringBitmap)
        ensures
            final(self).strings() == with_string(
                old(self).strings(),
                StringEntry { field_id, value, docids },
            ),
            final(self).levels() == old(self).levels(),
            final(self).documents() == old(self).documents(),
    {
        proof {
            use_type_invariant(&*self);
        }
        let at = self.string_index(field_id, &value);
        let FacetIndex { levels, mut strings, documents } = self.take();
        if at < strings.len() {
            strings.set(at, StringEntry { field_id, value, docids });
        } else {
            strings.push(StringEntry { field_id, value, docids });
        }
        *self = FacetIndex { levels, strings, documents };
    }

    /// The ids of all documents of the index.
    pub fn documents_ids(&self) -> (all: RoaringBitmap)
        ensures
            bitmap_ids(all) == self.documents(),
    {
        copy_bitmap(&self.documents)
    }
}

} // verus!
