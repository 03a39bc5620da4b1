use papyro::quick_open::{filter_quick_open_items, QuickOpenItemViewModel};

#[test]
fn quick_open_filter_matches_title_and_path_tokens() {
    let items = vec![
        QuickOpenItemViewModel {
            path: "workspace/journal/today.md".to_string(),
            title: "today".to_string(),
            path_label: "journal/today.md".to_string(),
        },
        QuickOpenItemViewModel {
            path: "workspace/work/release-plan.md".to_string(),
            title: "release-plan".to_string(),
            path_label: "work/release-plan.md".to_string(),
        },
    ];

    assert_eq!(
        filter_quick_open_items(&items, "work plan")
            .iter()
            .map(|item| item.title.as_str())
            .collect::<Vec<_>>(),
        vec!["release-plan"]
    );
    assert!(filter_quick_open_items(&items, "missing").is_empty());
}

#[test]
fn quick_open_lists_at_most_the_limit_without_a_query() {
    let items: Vec<QuickOpenItemViewModel> = (0..30)
        .map(|i| QuickOpenItemViewModel {
            path: format!("w/n{i}.md"),
            title: format!("Note {i}"),
            path_label: format!("n{i}.md"),
        })
        .collect();
    let all = filter_quick_open_items(&items, "");
    assert_eq!(all.len(), 24);
    assert_eq!(all[23].title, "Note 23");
    let upper = filter_quick_open_items(&items, "NOTE 2");
    assert_eq!(upper[0].title, "Note 2");
    assert_eq!(upper.len(), 12);
}

use papyro::quick_open::{active_result_index, result_list_key, ResultListAction, ResultListKey};

#[test]
fn result_list_keys_move_and_choose_the_highlighted_row() {
    assert_eq!(active_result_index(5, 3), 2);
    assert_eq!(active_result_index(1, 3), 1);
    assert_eq!(active_result_index(4, 0), 0);
    assert_eq!(result_list_key(0, 3, ResultListKey::ArrowDown), ResultListAction::Highlight(1));
    assert_eq!(result_list_key(2, 3, ResultListKey::ArrowDown), ResultListAction::Highlight(2));
    assert_eq!(result_list_key(9, 3, ResultListKey::ArrowDown), ResultListAction::Highlight(2));
    assert_eq!(result_list_key(0, 0, ResultListKey::ArrowDown), ResultListAction::Nothing);
    assert_eq!(result_list_key(0, 3, ResultListKey::ArrowUp), ResultListAction::Highlight(0));
    assert_eq!(result_list_key(2, 3, ResultListKey::ArrowUp), ResultListAction::Highlight(1));
    assert_eq!(result_list_key(7, 3, ResultListKey::Enter), ResultListAction::Choose(2));
    assert_eq!(result_list_key(0, 0, ResultListKey::Enter), ResultListAction::Nothing);
    assert_eq!(result_list_key(1, 3, ResultListKey::Escape), ResultListAction::Close);
    assert_eq!(result_list_key(1, 3, ResultListKey::Other), ResultListAction::Nothing);
}
