use std::collections::HashSet;
use std::ops::Bound;

use openobserve::distinct::{
    distinct_terms, resolve_ords, DistinctError, FieldColumn, SimpleDistinctCollector,
    SimpleDistinctSegmentCollector,
};
use tantivy::collector::{Collector, SegmentCollector};
use tantivy::query::RangeQuery;
use tantivy::schema::{IndexRecordOption, SchemaBuilder, TextFieldIndexing, TextOptions, FAST};
use tantivy::{DocId, Index, Score, Searcher, SegmentOrdinal, SegmentReader, TantivyDocument, Term};

/// Drives the library's collector from tantivy's search loop.
struct Distinct(SimpleDistinctCollector);

struct DistinctSegment(SimpleDistinctSegmentCollector);

impl Collector for Distinct {
    type Fruit = HashSet<String>;
    type Child = DistinctSegment;

    fn for_segment(
        &self,
        _segment_local_id: SegmentOrdinal,
        segment: &SegmentReader,
    ) -> tantivy::Result<DistinctSegment> {
        match self.0.for_segment(segment) {
            Ok(c) => Ok(DistinctSegment(c)),
            Err(DistinctError::FastField(e)) => Err(e),
        }
    }

    fn requires_scoring(&self) -> bool {
        self.0.requires_scoring()
    }

    fn merge_fruits(&self, segment_fruits: Vec<HashSet<String>>) -> tantivy::Result<HashSet<String>> {
        let fruits = segment_fruits.into_iter().map(|f| f.into_iter().collect()).collect();
        Ok(self.0.merge_fruits(fruits).into_iter().collect())
    }
}

impl SegmentCollector for DistinctSegment {
    type Fruit = HashSet<String>;

    fn collect(&mut self, doc: DocId, _score: Score) {
        if let Some(column) = &self.0.col {
            assert!(doc < column.num_docs());
        }
        self.0.collect(doc);
    }

    fn harvest(self) -> HashSet<String> {
        self.0.harvest().into_iter().collect()
    }
}

/// Single-segment in-RAM index of `(timestamp, name)` rows, where `name` is
/// a raw-tokenized fast text field and `_timestamp` is an i64 fast field.
fn build_index(rows: &[(i64, &str)]) -> Searcher {
    let mut sb = SchemaBuilder::new();
    let ts = sb.add_i64_field("_timestamp", FAST);
    let name = sb.add_text_field(
        "name",
        TextOptions::default()
            .set_indexing_options(
                TextFieldIndexing::default()
                    .set_index_option(IndexRecordOption::Basic)
                    .set_tokenizer("raw"),
            )
            .set_fast("raw"),
    );
    let index = Index::create_in_ram(sb.build());
    let mut writer = index.writer_with_num_threads(1, 15_000_000).unwrap();
    for (timestamp, value) in rows {
        let mut doc = TantivyDocument::default();
        doc.add_i64(ts, *timestamp);
        doc.add_text(name, *value);
        writer.add_document(doc).unwrap();
    }
    writer.commit().unwrap();
    index.reader().unwrap().searcher()
}

/// Runs the collector over docs with `_timestamp` in `[start, end)`.
fn distinct(searcher: &Searcher, start: i64, end: i64, limit: usize, ascend: bool) -> HashSet<String> {
    let ts = searcher.schema().get_field("_timestamp").unwrap();
    let query = RangeQuery::new(
        Bound::Included(Term::from_field_i64(ts, start)),
        Bound::Excluded(Term::from_field_i64(ts, end)),
    );
    searcher
        .search(
            &query,
            &Distinct(SimpleDistinctCollector::new("name".to_string(), limit, ascend)),
        )
        .unwrap()
}

fn set(values: &[&str]) -> HashSet<String> {
    values.iter().map(|v| v.to_string()).collect()
}

#[test]
fn filters_by_time_range() {
    let s = build_index(&[(30, "c"), (20, "b"), (10, "a")]);
    // [15, 35) keeps b (20) and c (30), drops a (10)
    assert_eq!(
        distinct(&s, 15, 35, 10, false),
        HashSet::from(["b".to_string(), "c".to_string()])
    );
}

#[test]
fn end_is_exclusive() {
    let s = build_index(&[(30, "c"), (20, "b"), (10, "a")]);
    // [10, 30): start inclusive keeps a (10), end exclusive drops c (30)
    assert_eq!(
        distinct(&s, 10, 30, 10, false),
        HashSet::from(["a".to_string(), "b".to_string()])
    );
}

#[test]
fn dedups_repeated_values() {
    // "b" appears both in and out of range (one in-range doc is enough),
    // "a" only out of range
    let s = build_index(&[(25, "b"), (20, "b"), (5, "a")]);
    assert_eq!(
        distinct(&s, 15, 30, 10, false),
        HashSet::from(["b".to_string()])
    );
}

#[test]
fn limit_keeps_value_extreme() {
    let s = build_index(&[(50, "e"), (40, "d"), (30, "c"), (20, "b"), (10, "a")]);
    // ascend keeps the 2 smallest values, descend the 2 largest
    assert_eq!(
        distinct(&s, 0, 100, 2, true),
        HashSet::from(["a".to_string(), "b".to_string()])
    );
    assert_eq!(
        distinct(&s, 0, 100, 2, false),
        HashSet::from(["d".to_string(), "e".to_string()])
    );
}

#[test]
fn limit_one_keeps_single_extreme() {
    let s = build_index(&[(1, "m"), (2, "z"), (3, "a"), (4, "q")]);
    assert_eq!(distinct(&s, 0, 10, 1, true), set(&["a"]));
    assert_eq!(distinct(&s, 0, 10, 1, false), set(&["z"]));
}

#[test]
fn empty_range_yields_nothing() {
    let s = build_index(&[(30, "c"), (20, "b")]);
    assert_eq!(distinct(&s, 100, 200, 5, true), HashSet::new());
}

#[test]
fn missing_field_column_yields_nothing() {
    let s = build_index(&[(30, "c"), (20, "b")]);
    let ts = s.schema().get_field("_timestamp").unwrap();
    let query = RangeQuery::new(
        Bound::Included(Term::from_field_i64(ts, 0)),
        Bound::Excluded(Term::from_field_i64(ts, 100)),
    );
    let found = s
        .search(
            &query,
            &Distinct(SimpleDistinctCollector::new("no_such_field".to_string(), 3, true)),
        )
        .unwrap();
    assert_eq!(found, HashSet::new());
}

#[test]
fn limit_larger_than_values_keeps_all() {
    let s = build_index(&[(1, "x"), (2, "y"), (3, "x")]);
    assert_eq!(distinct(&s, 0, 10, 100, true), set(&["x", "y"]));
    assert_eq!(distinct(&s, 0, 10, 2, false), set(&["x", "y"]));
}

#[test]
fn new_keeps_its_arguments() {
    let c = SimpleDistinctCollector::new("host".to_string(), 7, true);
    assert_eq!(c.field, "host");
    assert_eq!(c.limit, 7);
    assert!(c.ascend);
    assert!(!c.requires_scoring());
}

#[test]
fn merge_fruits_unites_and_dedups() {
    let c = SimpleDistinctCollector::new("name".to_string(), 3, true);
    let merged = c.merge_fruits(vec![
        vec!["a".to_string(), "b".to_string()],
        vec![],
        vec!["b".to_string(), "c".to_string(), "a".to_string()],
    ]);
    assert_eq!(merged.len(), 3);
    let as_set: HashSet<String> = merged.into_iter().collect();
    assert_eq!(as_set, set(&["a", "b", "c"]));
}

fn segment_with(ords: &[u64], limit: usize, ascend: bool) -> SimpleDistinctSegmentCollector {
    let mut seg = SimpleDistinctSegmentCollector {
        col: None,
        limit,
        ascend,
        ords: HashSet::new(),
    };
    for o in ords {
        seg.record_ord(Some(*o));
    }
    seg.record_ord(None);
    seg
}

#[test]
fn selected_ords_ascending_and_descending() {
    let seg = segment_with(&[9, 3, 7, 3, 1, 12, 5], 3, true);
    assert_eq!(seg.ords.len(), 6);
    let mut got = seg.selected_ords();
    got.sort();
    assert_eq!(got, vec![1, 3, 5]);

    let seg = segment_with(&[9, 3, 7, 3, 1, 12, 5], 3, false);
    let mut got = seg.selected_ords();
    got.sort();
    assert_eq!(got, vec![7, 9, 12]);
}

#[test]
fn selected_ords_small_pool_keeps_all() {
    let seg = segment_with(&[4, 2], 5, false);
    let mut got = seg.selected_ords();
    got.sort();
    assert_eq!(got, vec![2, 4]);
}

#[test]
fn harvest_without_column_is_empty() {
    let seg = segment_with(&[4, 2, 8], 2, true);
    assert!(seg.harvest().is_empty());
}

#[test]
fn collect_without_column_records_nothing() {
    let mut seg = segment_with(&[], 2, true);
    seg.collect(0);
    seg.collect(5);
    assert!(seg.ords.is_empty());
}

#[test]
fn distinct_terms_keeps_first_occurrences() {
    let pairs = vec![
        (3u64, "b".to_string()),
        (1u64, "a".to_string()),
        (7u64, "b".to_string()),
        (9u64, "c".to_string()),
    ];
    assert_eq!(distinct_terms(&pairs), vec!["b".to_string(), "a".to_string(), "c".to_string()]);
    assert!(distinct_terms(&Vec::new()).is_empty());
}

#[test]
fn limit_zero_keeps_nothing() {
    let s = build_index(&[(50, "e"), (40, "d"), (30, "c")]);
    assert_eq!(distinct(&s, 0, 100, 0, true), HashSet::new());
    assert_eq!(distinct(&s, 0, 100, 0, false), HashSet::new());
}

#[test]
fn recording_order_and_repetition_do_not_matter() {
    let mut a = segment_with(&[], 3, true);
    let mut b = segment_with(&[], 3, true);
    for o in [5u64, 1, 5, 9, 1] {
        a.record_ord(Some(o));
    }
    for o in [9u64, 9, 1, 5] {
        b.record_ord(Some(o));
    }
    assert_eq!(a.ords, b.ords);
}

fn name_column(s: &Searcher) -> tantivy::columnar::StrColumn {
    s.segment_reader(0).fast_fields().str("name").unwrap().unwrap()
}

#[test]
fn resolve_ords_gives_dictionary_terms() {
    let s = build_index(&[(1, "pear"), (2, "apple"), (3, "fig")]);
    let col = name_column(&s);
    // the dictionary is sorted: apple, fig, pear
    let pairs = resolve_ords(&col, &vec![2, 0, 7, 1]);
    let got: Vec<(u64, String)> = pairs;
    assert_eq!(
        got,
        vec![(2, "pear".to_string()), (0, "apple".to_string()), (1, "fig".to_string())]
    );
}

#[test]
fn collecting_documents_in_any_order_records_the_same_ordinals() {
    let s = build_index(&[(1, "pear"), (2, "apple"), (3, "fig"), (4, "apple")]);
    let collector = SimpleDistinctCollector::new("name".to_string(), 10, true);
    let mut a = match collector.segment_collector(Ok(Some(name_column(&s)))) {
        Ok(c) => c,
        Err(_) => panic!("no collector"),
    };
    let mut b = match collector.segment_collector(Ok(Some(name_column(&s)))) {
        Ok(c) => c,
        Err(_) => panic!("no collector"),
    };
    assert_eq!(a.col.as_ref().map(FieldColumn::num_docs), Some(4));
    for d in [0u32, 1, 2, 3] {
        a.collect(d);
    }
    for d in [3u32, 3, 0, 2] {
        b.collect(d);
    }
    assert_eq!(a.ords, b.ords);
    assert_eq!(a.ords.len(), 3);
    let mut texts = a.harvest();
    texts.sort();
    assert_eq!(texts, vec!["apple".to_string(), "fig".to_string(), "pear".to_string()]);
}
