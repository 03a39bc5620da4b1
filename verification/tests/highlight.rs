use papyro::highlight::{highlighted_segments, HighlightSegment};
use papyro::search::SearchHighlight;

#[test]
fn highlighted_segments_split_plain_and_matched_text() {
    assert_eq!(
        highlighted_segments(
            "release search plan",
            &[
                SearchHighlight { start: 0, end: 7 },
                SearchHighlight { start: 8, end: 14 },
            ],
        ),
        vec![
            HighlightSegment {
                text: "release".to_string(),
                is_match: true,
            },
            HighlightSegment {
                text: " ".to_string(),
                is_match: false,
            },
            HighlightSegment {
                text: "search".to_string(),
                is_match: true,
            },
            HighlightSegment {
                text: " plan".to_string(),
                is_match: false,
            },
        ]
    );
}

#[test]
fn highlighted_segments_merge_overlapping_ranges() {
    assert_eq!(
        highlighted_segments(
            "release",
            &[
                SearchHighlight { start: 0, end: 4 },
                SearchHighlight { start: 3, end: 7 },
            ],
        ),
        vec![HighlightSegment {
            text: "release".to_string(),
            is_match: true,
        }]
    );
}

#[test]
fn highlighted_segments_ignore_invalid_boundaries() {
    assert_eq!(
        highlighted_segments("计划", &[SearchHighlight { start: 1, end: 2 }]),
        vec![HighlightSegment {
            text: "计划".to_string(),
            is_match: false,
        }]
    );
}

fn texts(segments: &[HighlightSegment]) -> String {
    segments.iter().map(|s| s.text.as_str()).collect()
}

#[test]
fn highlighted_segments_sort_merge_touching_and_keep_text() {
    let value = "alpha beta gamma";
    let segments = highlighted_segments(
        value,
        &[
            SearchHighlight { start: 11, end: 16 },
            SearchHighlight { start: 0, end: 5 },
            SearchHighlight { start: 5, end: 6 },
            SearchHighlight { start: 3, end: 3 },
            SearchHighlight { start: 10, end: 40 },
        ],
    );
    assert_eq!(texts(&segments), value);
    assert_eq!(
        segments,
        vec![
            HighlightSegment { text: "alpha ".to_string(), is_match: true },
            HighlightSegment { text: "beta ".to_string(), is_match: false },
            HighlightSegment { text: "gamma".to_string(), is_match: true },
        ]
    );
}

#[test]
fn highlighted_segments_use_byte_offsets_on_multibyte_text() {
    let value = "计划 plan";
    let segments = highlighted_segments(value, &[SearchHighlight { start: 3, end: 6 }]);
    assert_eq!(
        segments,
        vec![
            HighlightSegment { text: "计".to_string(), is_match: false },
            HighlightSegment { text: "划".to_string(), is_match: true },
            HighlightSegment { text: " plan".to_string(), is_match: false },
        ]
    );
    assert_eq!(texts(&segments), value);
    assert_eq!(
        highlighted_segments("", &[]),
        vec![HighlightSegment { text: String::new(), is_match: false }]
    );
}
