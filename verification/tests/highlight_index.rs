use ovim_core::highlight_index::{query_cached_index, HighlightRangeCache, LineHighlightIndex};
use ovim_core::syntax::HighlightGroup;

#[test]
fn interval_query_is_bounded_and_preserves_original_precedence_order() {
    let index = LineHighlightIndex::new(vec![
        (0..100, HighlightGroup::String),
        (80..90, HighlightGroup::Comment),
        (20..30, HighlightGroup::Keyword),
        (25..85, HighlightGroup::Type),
    ]);
    assert_eq!(
        index.query(82..84),
        vec![
            (0..100, HighlightGroup::String),
            (80..90, HighlightGroup::Comment),
            (25..85, HighlightGroup::Type),
        ]
    );
}

#[test]
fn query_leaves_out_empty_and_touching_highlights() {
    let index = LineHighlightIndex::new(vec![
        (3..3, HighlightGroup::String),
        (0..5, HighlightGroup::Comment),
        (5..9, HighlightGroup::Keyword),
    ]);
    assert_eq!(index.query(5..6), vec![(5..9, HighlightGroup::Keyword)]);
    assert_eq!(index.query(4..5), vec![(0..5, HighlightGroup::Comment)]);
    assert!(index.query(9..20).is_empty());
}

#[test]
fn cache_forgets_other_generations() {
    let mut cache = HighlightRangeCache::new();
    cache.insert(4, (1, 1), vec![(0..2, HighlightGroup::Type)]);
    let found = cache.get(4, (1, 1)).map(|index| query_cached_index(index, 0..1));
    assert_eq!(found, Some(vec![(0..2, HighlightGroup::Type)]));
    assert!(cache.get(5, (1, 1)).is_none());
    assert!(cache.get(4, (2, 1)).is_none());
}
