//! Collecting the distinct values of one string field over the documents a
//! query matches, keeping only the value-extreme `limit` of them.
//!
//! The query drives one filtered pass over each segment; per matched document
//! the segment collector reads the field's term ordinal and records it. Term
//! ordinals are dictionary-sorted, so the `limit` smallest (ascending) or
//! largest (descending) distinct ordinals are the value-extreme strings; only
//! those are resolved to text.

use std::collections::HashSet;
use tantivy::columnar::StrColumn;
use tantivy::{SegmentReader, TantivyError};
use vstd::hash_set::StringHashSet;
use vstd::prelude::*;

use crate::select::{is_value_extreme, precedes, lemma_push_distinct, lemma_value_extreme_unique, select_extreme};

verus! {

broadcast use {
    vstd::std_specs::hash::group_hash_axioms,
    vstd::seq_lib::group_seq_properties,
    vstd::hash_set::group_hash_set_axioms,
};

/// A segment of a tantivy index, as the searcher hands it to a collector.
#[verifier::external_type_specification]
#[verifier::external_body]
pub struct ExSegmentReader(SegmentReader);

/// A dictionary-encoded string fast-field column of one segment.
#[verifier::external_type_specification]
#[verifier::external_body]
pub struct ExStrColumn(StrColumn);

/// The error tantivy reports when a fast field cannot be opened.
#[verifier::external_type_specification]
#[verifier::external_body]
pub struct ExTantivyError(TantivyError);

/// The error the term dictionary reports when it cannot be read.
#[verifier::external_type_specification]
#[verifier::external_body]
pub struct ExIoError(std::io::Error);

/// Opens the string fast-field column `field` of `segment` through
/// tantivy's `FastFieldReaders::str`, on the readers that
/// `SegmentReader::fast_fields` hands out. `Ok(None)` means that the segment has
/// no such column. Nothing is claimed of which outcome comes back: it depends
/// on what the segment holds.
#[verifier::external_body]
fn open_str_column(segment: &SegmentReader, field: &str) -> (r: Result<Option<StrColumn>, TantivyError>) {
    segment.fast_fields().str(field)
}

/// What a string column holds, by term ordinal: the terms of its dictionary,
/// `None` for a term whose stored bytes do not read (a block that does not
/// decode, or bytes that are not UTF-8). The dictionary lies in memory once
/// the column is open, so which terms read is fixed by the column.
pub uninterp spec fn column_terms(col: StrColumn) -> Seq<Option<Seq<char>>>;

/// What a string column holds, by document: the first term ordinal of each
/// document, `None` for a document without a value.
pub uninterp spec fn column_first_ords(col: StrColumn) -> Seq<Option<u64>>;

/// The number of documents of `col`, through tantivy's `Column::num_docs`
/// on the column of ordinals that `StrColumn::ords` hands out. Claimed: it is
/// the number of documents that `column_first_ords` gives an entry for.
#[verifier::external_body]
fn column_doc_count(col: &StrColumn) -> (r: u32)
    ensures
        r == column_first_ords(*col).len(),
{
    col.ords().num_docs()
}

/// The first term ordinal that document `doc` holds in `col`, through
/// tantivy's `Column::first` on the column of ordinals that `StrColumn::ords`
/// hands out; `None` when the document has no value. The document must lie
/// within the column: `first` reads past the column's rows for a document
/// beyond them. Claimed: the result is that document's entry of
/// `column_first_ords`.
#[verifier::external_body]
fn first_term_ord(col: &StrColumn, doc: u32) -> (r: Option<u64>)
    requires
        doc < column_first_ords(*col).len(),
    ensures
        r == column_first_ords(*col)[doc as int],
{
    col.ords().first(doc)
}

/// Writes the term of ordinal `ord` into `output`, through tantivy's
/// `StrColumn::ord_to_str`, which reads the term from the column's
/// dictionary, held in memory. Claimed, as the crate documents and its source
/// shows: `Ok(true)` comes exactly for an ordinal whose term reads, with that
/// term in `output`; `Ok(false)` only for an ordinal past the dictionary;
/// otherwise `output` is left empty. Not claimed: whether an ordinal past the
/// dictionary gives `Ok(false)` or an error, which depends on whether the
/// dictionary's last block decodes.
#[verifier::external_body]
fn term_of_ord(col: &StrColumn, ord: u64, output: &mut String) -> (r: Result<bool, std::io::Error>)
    ensures
        r matches Ok(true) <==> readable_term(column_terms(*col), ord) is Some,
        r matches Ok(true) ==> final(output)@ == readable_term(column_terms(*col), ord)->Some_0,
        r matches Ok(false) ==> ord >= column_terms(*col).len(),
        !(r matches Ok(true)) ==> final(output)@ == Seq::<char>::empty(),
{
    col.ord_to_str(ord, output)
}

/// A segment's string column of the field, with its number of documents.
pub struct FieldColumn {
    column: StrColumn,
    num_docs: u32,
}

impl FieldColumn {
    #[verifier::type_invariant]
    spec fn counts_its_documents(self) -> bool {
        self.num_docs == column_first_ords(self.column).len()
    }

    /// The column.
    pub closed spec fn column(&self) -> StrColumn {
        self.column
    }

    /// The number of documents of the column.
    pub closed spec fn doc_count(&self) -> u32 {
        self.num_docs
    }

    /// Holds `column` together with its number of documents.
    pub fn new(column: StrColumn) -> (r: FieldColumn)
        ensures
            r.column() == column,
            r.doc_count() == column_first_ords(column).len(),
    {
        let num_docs = column_doc_count(&column);
        FieldColumn { column, num_docs }
    }

    /// The number of documents of the column.
    pub fn num_docs(&self) -> (r: u32)
        ensures
            r == self.doc_count(),
    {
        self.num_docs
    }

    /// The first term ordinal of document `doc`.
    fn first_ord(&self, doc: u32) -> (r: Option<u64>)
        requires
            doc < self.doc_count(),
        ensures
            r == column_first_ords(self.column())[doc as int],
    {
        proof {
            use_type_invariant(self);
        }
        first_term_ord(&self.column, doc)
    }
}

/// Why a segment could not be prepared for collection.
pub enum DistinctError {
    /// The field's fast-field column could not be opened.
    FastField(TantivyError),
}

/// The texts of a sequence of strings.
pub open spec fn texts(v: Seq<String>) -> Seq<Seq<char>> {
    v.map_values(|s: String| s@)
}

/// Collects the distinct values of one string field, keeping the
/// value-extreme `limit` of them in each segment.
pub struct SimpleDistinctCollector {
    pub field: String,
    pub limit: usize,
    pub ascend: bool,
}

/// The per-segment state: the field's column (`None` when the segment lacks
/// it) and the distinct term ordinals seen so far.
pub struct SimpleDistinctSegmentCollector {
    pub col: Option<FieldColumn>,
    pub limit: usize,
    pub ascend: bool,
    pub ords: HashSet<u64>,
}

/// Appends `s` to `out` unless a string with the same text is already there;
/// `seen` holds the texts of `out`.
fn push_unique(out: &mut Vec<String>, seen: &mut StringHashSet, s: String)
    requires
        texts(old(out)@).no_duplicates(),
        old(seen)@ == texts(old(out)@).to_set(),
    ensures
        texts(final(out)@).no_duplicates(),
        final(seen)@ == texts(final(out)@).to_set(),
        texts(final(out)@).to_set() == texts(old(out)@).to_set().insert(s@),
        final(out)@.len() <= old(out)@.len() + 1,
{
    if !seen.contains(s.as_str()) {
        let ghost before = texts(out@);
        seen.insert(s.clone());
        out.push(s);
        proof {
            assert(texts(out@) =~= before.push(s@));
            assert forall|i: int, j: int|
                0 <= i < j < texts(out@).len() implies texts(out@)[i] != texts(out@)[j] by {
                if j == before.len() {
                    assert(before.contains(before[i]));
                }
            }
            assert(texts(out@).to_set() =~= before.to_set().insert(s@));
        }
    } else {
        proof {
            assert(texts(out@).to_set() =~= texts(out@).to_set().insert(s@));
        }
    }
}

impl SimpleDistinctCollector {
    pub fn new(field: String, limit: usize, ascend: bool) -> (r: Self)
        ensures
            r.field == field,
            r.limit == limit,
            r.ascend == ascend,
    {
        SimpleDistinctCollector { field, limit, ascend }
    }

    /// The collector for one segment, from the outcome of opening the
    /// field's column there.
    pub fn segment_collector(&self, column: Result<Option<StrColumn>, TantivyError>) -> (r: Result<
        SimpleDistinctSegmentCollector,
        DistinctError,
    >)
        ensures
            match column {
                Ok(col) => r matches Ok(c) && c.limit == self.limit && c.ascend == self.ascend
                    && c.ords@ == Set::<u64>::empty() && match col {
                    Some(x) => c.col matches Some(fc) && fc.column() == x,
                    None => c.col is None,
                },
                Err(e) => r matches Err(DistinctError::FastField(e2)) && e2 == e,
            },
    {
        match column {
            Ok(col) => Ok(
                SimpleDistinctSegmentCollector {
                    col: match col {
                        Some(x) => Some(FieldColumn::new(x)),
                        None => None,
                    },
                    limit: self.limit,
                    ascend: self.ascend,
                    ords: HashSet::new(),
                },
            ),
            Err(e) => Err(DistinctError::FastField(e)),
        }
    }

    /// Prepares the collection of `segment`: opens the field's column there.
    pub fn for_segment(&self, segment: &SegmentReader) -> (r: Result<
        SimpleDistinctSegmentCollector,
        DistinctError,
    >)
        ensures
            r matches Ok(c) ==> c.limit == self.limit && c.ascend == self.ascend && c.ords@
                == Set::<u64>::empty(),
    {
        let column = open_str_column(segment, self.field.as_str());
        self.segment_collector(column)
    }

    /// Scores play no part in the collection.
    pub fn requires_scoring(&self) -> (r: bool)
        ensures
            !r,
    {
        false
    }

    /// Unites the values found in each segment; each text comes out once.
    pub fn merge_fruits(&self, segment_fruits: Vec<Vec<String>>) -> (r: Vec<String>)
        ensures
            texts(r@).no_duplicates(),
            forall|t: Seq<char>|
                #[trigger] texts(r@).contains(t) <==> exists|i: int|
                    0 <= i < segment_fruits@.len() && #[trigger] texts(
                        segment_fruits@[i]@,
                    ).contains(t),
    {
        let mut out: Vec<String> = Vec::new();
        let mut seen = StringHashSet::new();
        let n = segment_fruits.len();
        let mut i: usize = 0;
        proof {
            assert(texts(out@).to_set() =~= Set::<Seq<char>>::empty());
        }
        while i < n
            invariant
                n == segment_fruits@.len(),
                0 <= i <= n,
                texts(out@).no_duplicates(),
                seen@ == texts(out@).to_set(),
                forall|t: Seq<char>|
                    #[trigger] texts(out@).contains(t) <==> exists|a: int|
                        0 <= a < i && #[trigger] texts(segment_fruits@[a]@).contains(t),
            decreases n - i,
        {
            let fruit = &segment_fruits[i];
            let m = fruit.len();
            let mut j: usize = 0;
            while j < m
                invariant
                    n == segment_fruits@.len(),
                    0 <= i < n,
                    fruit == segment_fruits@[i as int],
                    m == fruit@.len(),
                    0 <= j <= m,
                    texts(out@).no_duplicates(),
                    seen@ == texts(out@).to_set(),
                    forall|t: Seq<char>|
                        #[trigger] texts(out@).contains(t) <==> ((exists|a: int|
                            0 <= a < i && #[trigger] texts(segment_fruits@[a]@).contains(t))
                            || texts(fruit@).subrange(0, j as int).contains(t)),
                decreases m - j,
            {
                let ghost prev = texts(out@);
                push_unique(&mut out, &mut seen, fruit[j].clone());
                proof {
                    assert(texts(fruit@).subrange(0, j + 1) =~= texts(fruit@).subrange(
                        0,
                        j as int,
                    ).push(fruit@[j as int]@));
                    assert forall|t: Seq<char>|
                        #[trigger] texts(out@).contains(t) <==> prev.contains(t) || t
                            == fruit@[j as int]@ by {
                        assert(texts(out@).to_set().contains(t) == texts(out@).contains(t));
                        assert(prev.to_set().contains(t) == prev.contains(t));
                    }
                }
                j = j + 1;
            }
            proof {
                assert(texts(fruit@).subrange(0, m as int) =~= texts(fruit@));
                assert forall|t: Seq<char>|
                    #[trigger] texts(out@).contains(t) <==> exists|a: int|
                        0 <= a < i + 1 && #[trigger] texts(segment_fruits@[a]@).contains(t) by {
                    if texts(fruit@).contains(t) {
                        assert(texts(segment_fruits@[i as int]@).contains(t));
                    }
                }
            }
            i = i + 1;
        }
        out
    }
}

/// The term that the dictionary `terms` gives for ordinal `o`: `None` past
/// the dictionary, or where the term's bytes do not read.
pub open spec fn readable_term(terms: Seq<Option<Seq<char>>>, o: u64) -> Option<Seq<char>> {
    if o < terms.len() {
        terms[o as int]
    } else {
        None
    }
}

/// Each `(ordinal, term)` pair with its term taken as text.
pub open spec fn pair_views(pairs: Seq<(u64, String)>) -> Seq<(u64, Seq<char>)> {
    pairs.map_values(|p: (u64, String)| (p.0, p.1@))
}

/// The ordinals of `ords` that have a readable term in `terms`, each with
/// that term, in the order of `ords`.
pub open spec fn resolved(ords: Seq<u64>, terms: Seq<Option<Seq<char>>>) -> Seq<(u64, Seq<char>)>
    decreases ords.len(),
{
    if ords.len() == 0 {
        Seq::empty()
    } else {
        let earlier = resolved(ords.drop_last(), terms);
        match readable_term(terms, ords.last()) {
            Some(t) => earlier.push((ords.last(), t)),
            None => earlier,
        }
    }
}

/// A pair is resolved from `ords` exactly when its ordinal is among them and
/// its term is the one the dictionary gives for it.
pub proof fn lemma_resolved_contains(ords: Seq<u64>, terms: Seq<Option<Seq<char>>>, o: u64, t: Seq<char>)
    ensures
        resolved(ords, terms).contains((o, t)) <==> ords.contains(o) && readable_term(terms, o)
            == Some(t),
    decreases ords.len(),
{
    if ords.len() > 0 {
        let rest = ords.drop_last();
        lemma_resolved_contains(rest, terms, o, t);
        assert(ords =~= rest.push(ords.last()));
        if ords.contains(o) && !rest.contains(o) {
            let i = choose|i: int| 0 <= i < ords.len() && ords[i] == o;
            if i < rest.len() {
                assert(rest[i] == o);
            }
        }
        if rest.contains(o) {
            let i = choose|i: int| 0 <= i < rest.len() && rest[i] == o;
            assert(ords[i] == o);
        }
        let earlier = resolved(rest, terms);
        match readable_term(terms, ords.last()) {
            Some(u) => {
                let r = earlier.push((ords.last(), u));
                if r.contains((o, t)) && !earlier.contains((o, t)) {
                    let k = choose|k: int| 0 <= k < r.len() && r[k] == (o, t);
                    if k < earlier.len() {
                        assert(earlier[k] == (o, t));
                    }
                }
                if earlier.contains((o, t)) {
                    let k = choose|k: int| 0 <= k < earlier.len() && earlier[k] == (o, t);
                    assert(r[k] == (o, t));
                }
                assert(r[earlier.len() as int] == (ords.last(), u));
            },
            None => {},
        }
    }
}

/// The texts of the readable terms of the ordinals `chosen`.
pub open spec fn term_texts(terms: Seq<Option<Seq<char>>>, chosen: Set<u64>) -> Set<Seq<char>> {
    Set::new(|t: Seq<char>| exists|o: u64| chosen.contains(o) && readable_term(terms, o) == Some(t))
}

/// The value-extreme `k` ordinals of `pool`.
pub open spec fn value_extreme_ords(pool: Set<u64>, k: nat, ascend: bool) -> Set<u64> {
    choose|s: Set<u64>| is_value_extreme(s, pool, k, ascend)
}

/// The set of ordinals after recording the outcome `ord` of one document.
pub open spec fn record_one(ords: Set<u64>, ord: Option<u64>) -> Set<u64> {
    match ord {
        Some(o) => ords.insert(o),
        None => ords,
    }
}

/// The set of ordinals after recording the outcomes `outcomes`, in order.
pub open spec fn recorded(ords: Set<u64>, outcomes: Seq<Option<u64>>) -> Set<u64>
    decreases outcomes.len(),
{
    if outcomes.len() == 0 {
        ords
    } else {
        record_one(recorded(ords, outcomes.drop_last()), outcomes.last())
    }
}

/// Recording a sequence of outcomes adds exactly the ordinals found in it.
pub proof fn lemma_recorded_is_union(ords: Set<u64>, outcomes: Seq<Option<u64>>)
    ensures
        recorded(ords, outcomes) == ords.union(Set::new(|o: u64| outcomes.contains(Some(o)))),
    decreases outcomes.len(),
{
    if outcomes.len() > 0 {
        let rest = outcomes.drop_last();
        lemma_recorded_is_union(ords, rest);
        assert(outcomes =~= rest.push(outcomes.last()));
        assert(recorded(ords, outcomes) =~= ords.union(Set::new(|o: u64| outcomes.contains(Some(o)))));
    } else {
        assert(recorded(ords, outcomes) =~= ords.union(Set::new(|o: u64| outcomes.contains(Some(o)))));
    }
}

/// The ordinals recorded do not depend on the order in which the documents
/// are collected, nor on how often each comes: two sequences of outcomes
/// with the same elements record the same set.
pub proof fn lemma_recording_order_irrelevant(ords: Set<u64>, a: Seq<Option<u64>>, b: Seq<Option<u64>>)
    requires
        forall|x: Option<u64>| a.contains(x) <==> b.contains(x),
    ensures
        recorded(ords, a) == recorded(ords, b),
{
    lemma_recorded_is_union(ords, a);
    lemma_recorded_is_union(ords, b);
    assert(Set::new(|o: u64| a.contains(Some(o))) =~= Set::new(|o: u64| b.contains(Some(o))));
}

/// The set of ordinals after collecting the documents `docs` of `col`, in
/// order.
pub open spec fn collected(ords: Set<u64>, col: StrColumn, docs: Seq<u32>) -> Set<u64> {
    recorded(ords, docs.map_values(|d: u32| column_first_ords(col)[d as int]))
}

/// Collecting one more document records its first ordinal: a run of
/// `collect` calls over `docs` leaves `collected(ords, col, docs)`.
pub proof fn lemma_collected_push(ords: Set<u64>, col: StrColumn, docs: Seq<u32>, doc: u32)
    ensures
        collected(ords, col, docs.push(doc)) == record_one(
            collected(ords, col, docs),
            column_first_ords(col)[doc as int],
        ),
{
    let f = |d: u32| column_first_ords(col)[d as int];
    assert(docs.push(doc).map_values(f).drop_last() =~= docs.map_values(f));
}

/// The ordinals collected do not depend on the order in which the documents
/// come, nor on how often each comes: two sequences of documents with the
/// same elements collect the same set.
pub proof fn lemma_collecting_order_irrelevant(ords: Set<u64>, col: StrColumn, a: Seq<u32>, b: Seq<u32>)
    requires
        forall|d: u32| a.contains(d) <==> b.contains(d),
    ensures
        collected(ords, col, a) == collected(ords, col, b),
{
    let f = |d: u32| column_first_ords(col)[d as int];
    let oa = a.map_values(f);
    let ob = b.map_values(f);
    assert forall|x: Option<u64>| oa.contains(x) implies ob.contains(x) by {
        let i = choose|i: int| 0 <= i < oa.len() && oa[i] == x;
        assert(a.contains(a[i]));
        let j = choose|j: int| 0 <= j < b.len() && b[j] == a[i];
        assert(ob[j] == x);
    }
    assert forall|x: Option<u64>| ob.contains(x) implies oa.contains(x) by {
        let j = choose|j: int| 0 <= j < ob.len() && ob[j] == x;
        assert(b.contains(b[j]));
        let i = choose|i: int| 0 <= i < a.len() && a[i] == b[j];
        assert(oa[i] == x);
    }
    lemma_recording_order_irrelevant(ords, oa, ob);
}

/// Resolves each ordinal of `ords` to its term in `col`, keeping the pairs
/// whose term reads, in the order of `ords`.
pub fn resolve_ords(col: &StrColumn, ords: &Vec<u64>) -> (r: Vec<(u64, String)>)
    ensures
        pair_views(r@) == resolved(ords@, column_terms(*col)),
{
    let mut out: Vec<(u64, String)> = Vec::new();
    let n = ords.len();
    let mut i: usize = 0;
    proof {
        assert(pair_views(out@) =~= resolved(ords@.subrange(0, 0), column_terms(*col)));
    }
    while i < n
        invariant
            n == ords@.len(),
            0 <= i <= n,
            pair_views(out@) == resolved(ords@.subrange(0, i as int), column_terms(*col)),
        decreases n - i,
    {
        let o = ords[i];
        let mut term = String::new();
        let found = term_of_ord(col, o, &mut term);
        let ghost prev = out@;
        proof {
            assert(ords@.subrange(0, i + 1).drop_last() =~= ords@.subrange(0, i as int));
            assert(ords@.subrange(0, i + 1).last() == o);
        }
        if let Ok(true) = found {
            out.push((o, term));
            proof {
                assert(pair_views(out@) =~= pair_views(prev).push((o, term@)));
            }
        }
        i = i + 1;
    }
    proof {
        assert(ords@.subrange(0, n as int) =~= ords@);
    }
    out
}

/// The terms of `pairs`, each text once, in the order of first occurrence.
pub fn distinct_terms(pairs: &Vec<(u64, String)>) -> (r: Vec<String>)
    ensures
        texts(r@).no_duplicates(),
        r.len() <= pairs.len(),
        forall|t: Seq<char>|
            #[trigger] texts(r@).contains(t) <==> exists|k: int|
                0 <= k < pairs@.len() && (#[trigger] pairs@[k]).1@ == t,
{
    let mut out: Vec<String> = Vec::new();
    let mut seen = StringHashSet::new();
    let m = pairs.len();
    let mut k: usize = 0;
    proof {
        assert(texts(out@).to_set() =~= Set::<Seq<char>>::empty());
    }
    while k < m
        invariant
            m == pairs.len(),
            0 <= k <= m,
            out.len() <= k,
            texts(out@).no_duplicates(),
            seen@ == texts(out@).to_set(),
            forall|t: Seq<char>|
                #[trigger] texts(out@).contains(t) <==> exists|j: int|
                    0 <= j < k && (#[trigger] pairs@[j]).1@ == t,
        decreases m - k,
    {
        let ghost prev = texts(out@);
        push_unique(&mut out, &mut seen, pairs[k].1.clone());
        proof {
            assert forall|t: Seq<char>|
                #[trigger] texts(out@).contains(t) <==> exists|j: int|
                    0 <= j < k + 1 && (#[trigger] pairs@[j]).1@ == t by {
                assert(texts(out@).to_set().contains(t) == texts(out@).contains(t));
                assert(prev.to_set().contains(t) == prev.contains(t));
                if t == pairs@[k as int].1@ {
                    assert(pairs@[k as int].1@ == t);
                }
            }
        }
        k = k + 1;
    }
    out
}

impl SimpleDistinctSegmentCollector {
    /// Records the term ordinal read for a matched document, if there is one.
    pub fn record_ord(&mut self, ord: Option<u64>)
        ensures
            final(self).col == old(self).col,
            final(self).limit == old(self).limit,
            final(self).ascend == old(self).ascend,
            final(self).ords@ == record_one(old(self).ords@, ord),
    {
        if let Some(o) = ord {
            self.ords.insert(o);
        }
    }

    /// Records the field's term ordinal in `doc`, when the segment has the
    /// column and the document a value.
    pub fn collect(&mut self, doc: u32)
        requires
            old(self).col matches Some(c) ==> doc < c.doc_count(),
        ensures
            final(self).col == old(self).col,
            final(self).limit == old(self).limit,
            final(self).ascend == old(self).ascend,
            final(self).ords@ == match old(self).col {
                Some(c) => record_one(old(self).ords@, column_first_ords(c.column())[doc as int]),
                None => old(self).ords@,
            },
    {
        let ord = match &self.col {
            Some(column) => column.first_ord(doc),
            None => None,
        };
        self.record_ord(ord);
    }

    /// The value-extreme `limit` distinct ordinals recorded so far: the
    /// smallest when ascending, the largest when descending, all of them when
    /// there are no more than `limit`.
    pub fn selected_ords(&self) -> (r: Vec<u64>)
        ensures
            self.ords@.finite(),
            r@.no_duplicates(),
            is_value_extreme(r@.to_set(), self.ords@, self.limit as nat, self.ascend),
    {
        let mut all: Vec<u64> = Vec::new();
        for o in it: self.ords.iter()
            invariant
                all.len() == it.index(),
                forall|k: int| 0 <= k < all.len() ==> all@[k] == *it.seq()[k],
                it.seq().unref().to_set() == self.ords@,
                it.seq().no_duplicates(),
                it.seq().len() == self.ords@.len(),
                all@.no_duplicates(),
                forall|x: u64| all@.contains(x) ==> self.ords@.contains(x),
        {
            proof {
                assert(it.seq().unref().contains(*o));
                assert forall|k: int| 0 <= k < all.len() implies all@[k] != *o by {
                    assert(it.seq()[k] != it.seq()[it.index()]);
                }
                lemma_push_distinct(all@, *o);
            }
            all.push(*o);
        }
        proof {
            all@.unique_seq_to_set();
            vstd::set_lib::lemma_subset_equality(all@.to_set(), self.ords@);
        }
        let n = all.len();
        if n <= self.limit {
            all
        } else {
            let r = select_extreme(all, self.limit, self.ascend);
            proof {
                r@.unique_seq_to_set();
            }
            r
        }
    }

    /// The texts of the value-extreme `limit` distinct ordinals, each once;
    /// nothing when the segment lacks the field's column.
    pub fn harvest(self) -> (r: Vec<String>)
        ensures
            self.col is None ==> r.len() == 0,
            texts(r@).no_duplicates(),
            self.col matches Some(c) ==> is_value_extreme(
                value_extreme_ords(self.ords@, self.limit as nat, self.ascend),
                self.ords@,
                self.limit as nat,
                self.ascend,
            ) && texts(r@).to_set() == term_texts(
                column_terms(c.column()),
                value_extreme_ords(self.ords@, self.limit as nat, self.ascend),
            ),
    {
        match &self.col {
            None => Vec::new(),
            Some(col) => {
                let selected = self.selected_ords();
                let pairs = resolve_ords(&col.column, &selected);
                let r = distinct_terms(&pairs);
                proof {
                    let terms = column_terms(col.column());
                    let chosen = value_extreme_ords(self.ords@, self.limit as nat, self.ascend);
                    lemma_value_extreme_unique(
                        chosen,
                        selected@.to_set(),
                        self.ords@,
                        self.limit as nat,
                        self.ascend,
                    );
                    assert forall|t: Seq<char>|
                        texts(r@).to_set().contains(t) <==> #[trigger] term_texts(terms, chosen).contains(t) by {
                        assert(texts(r@).to_set().contains(t) == texts(r@).contains(t));
                        if texts(r@).contains(t) {
                            let k = choose|k: int| 0 <= k < pairs@.len() && (#[trigger] pairs@[k]).1@ == t;
                            let o = pairs@[k].0;
                            assert(pair_views(pairs@)[k] == (o, t));
                            assert(resolved(selected@, terms).contains((o, t)));
                            lemma_resolved_contains(selected@, terms, o, t);
                            assert(selected@.to_set().contains(o));
                        }
                        if term_texts(terms, chosen).contains(t) {
                            let o = choose|o: u64| chosen.contains(o) && readable_term(terms, o) == Some(t);
                            assert(selected@.to_set().contains(o));
                            lemma_resolved_contains(selected@, terms, o, t);
                            let k = choose|k: int|
                                0 <= k < pair_views(pairs@).len() && pair_views(pairs@)[k] == (o, t);
                            assert(pairs@[k].1@ == t);
                        }
                    }
                    assert(texts(r@).to_set() =~= term_texts(terms, chosen));
                }
                r
            },
        }
    }
}

/// The texts a harvest gives do not depend on the order in which the
/// documents were collected, nor on how often each came.
pub proof fn lemma_harvest_order_irrelevant(
    ords: Set<u64>,
    col: StrColumn,
    a: Seq<u32>,
    b: Seq<u32>,
    limit: nat,
    ascend: bool,
)
    requires
        forall|d: u32| a.contains(d) <==> b.contains(d),
    ensures
        term_texts(column_terms(col), value_extreme_ords(collected(ords, col, a), limit, ascend))
            == term_texts(column_terms(col), value_extreme_ords(collected(ords, col, b), limit, ascend)),
{
    lemma_collecting_order_irrelevant(ords, col, a, b);
}

/// `a` comes before `b` in the order of a term dictionary: by the code
/// points of their characters, which is the order of their UTF-8 bytes, a
/// proper prefix first.
pub open spec fn text_before(a: Seq<char>, b: Seq<char>) -> bool
    decreases a.len(),
{
    if b.len() == 0 {
        false
    } else if a.len() == 0 {
        true
    } else if a[0] != b[0] {
        (a[0] as u32) < (b[0] as u32)
    } else {
        text_before(a.drop_first(), b.drop_first())
    }
}

/// The readable terms of `terms` come in ascending order of their ordinals,
/// as the terms of a dictionary do.
pub open spec fn terms_ascending(terms: Seq<Option<Seq<char>>>) -> bool {
    forall|i: int, j: int|
        0 <= i < j < terms.len() && terms[i] is Some && terms[j] is Some ==> text_before(
            #[trigger] terms[i]->Some_0,
            #[trigger] terms[j]->Some_0,
        )
}

/// In a dictionary sorted by ordinal, the terms of the value-extreme
/// ordinals are the value-extreme texts: each comes before (ascending) or
/// after (descending) every other readable term of the pool.
pub proof fn lemma_extreme_ords_give_extreme_texts(
    terms: Seq<Option<Seq<char>>>,
    chosen: Set<u64>,
    pool: Set<u64>,
    k: nat,
    ascend: bool,
    t: Seq<char>,
    o: u64,
    u: Seq<char>,
)
    requires
        terms_ascending(terms),
        is_value_extreme(chosen, pool, k, ascend),
        term_texts(terms, chosen).contains(t),
        pool.contains(o),
        readable_term(terms, o) == Some(u),
        !term_texts(terms, chosen).contains(u),
    ensures
        if ascend {
            text_before(t, u)
        } else {
            text_before(u, t)
        },
{
    let x = choose|x: u64| chosen.contains(x) && readable_term(terms, x) == Some(t);
    if chosen.contains(o) {
        assert(term_texts(terms, chosen).contains(u));
    }
    assert(precedes(x, o, ascend));
    if ascend {
        assert(terms[x as int]->Some_0 == t && terms[o as int]->Some_0 == u);
    } else {
        assert(terms[o as int]->Some_0 == u && terms[x as int]->Some_0 == t);
    }
}

} // verus!
