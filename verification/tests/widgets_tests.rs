use vortex::widgets::{
    filter_row_height, label_gap, pair_half_width, right_width, row_height, scrollbar_plan, sparkline_data,
    sparkline_width, thumb_arith_ok, thumb_geometry, wrap_cmd, wrapped_line_count, DetailRow, HelpEntry, KeyHint,
};

fn base_geometry(selected: usize) -> (usize, usize) {
    thumb_geometry(10, 20, 5, selected)
}

#[test]
fn thumb_fills_track_when_all_content_visible() {
    let (len, top) = thumb_geometry(8, 5, 10, 0);
    assert_eq!(len, 8, "thumb_len should equal track_cells");
    assert_eq!(top, 0);
}

#[test]
fn thumb_length_constant_while_scrolling() {
    let (len0, _) = base_geometry(0);
    let (len_mid, _) = base_geometry(10);
    let (len_last, _) = base_geometry(19);
    assert_eq!(len0, len_mid);
    assert_eq!(len0, len_last);
}

#[test]
fn thumb_at_top_for_first_item() {
    let (_, top) = base_geometry(0);
    assert_eq!(top, 0, "first item should place thumb at track top");
}

#[test]
fn thumb_at_bottom_for_last_item() {
    let (len, top) = base_geometry(19);
    let travel = 10 - len;
    assert_eq!(top, travel, "last item should place thumb at track bottom");
}

#[test]
fn thumb_clamped_to_at_least_one_cell() {
    let (len, _) = thumb_geometry(5, 10_000, 1, 0);
    assert!(len >= 1);
}

#[test]
fn single_item_list_thumb_fills_track_and_stays_at_top() {
    let (len, top) = thumb_geometry(6, 1, 1, 0);
    assert_eq!(len, 6);
    assert_eq!(top, 0);
}

#[test]
fn thumb_rounds_to_nearest() {
    // 10 cells for 5 of 20 items: 2.5 rounds up to 3; item 10 of 19 at
    // 10 * 7 / 19 = 3.68, rounded to 4.
    assert_eq!(thumb_geometry(10, 20, 5, 10), (3, 4));
    assert_eq!(thumb_geometry(10, 20, 0, 0).0, 1);
}

#[test]
fn scrollbar_plan_needs_track_and_content() {
    assert_eq!(scrollbar_plan(3, 1, 5, 5, 0), None);
    assert_eq!(scrollbar_plan(20, 1, 0, 5, 0), None);
    assert_eq!(scrollbar_plan(13, 1, 20, 5, 19), Some((10, 3, 7)));
}

#[test]
fn filter_row_height_follows_filter() {
    assert_eq!(filter_row_height(""), 0);
    assert_eq!(filter_row_height("tcp"), 1);
}

#[test]
fn right_width_counts_characters() {
    assert_eq!(right_width(None), 0);
    assert_eq!(right_width(Some("↑ 1 B/s")), 8);
}

#[test]
fn key_hint_and_help_entry_hold_their_texts() {
    let h = KeyHint::new("q", "quit");
    assert_eq!((h.key, h.action), ("q", "quit"));
    let e = HelpEntry::new("?", "toggle this help");
    assert_eq!((e.key, e.description), ("?", "toggle this help"));
}

#[test]
fn wrapped_line_count_matches_greedy_layout() {
    assert_eq!(wrapped_line_count("", 10), 1);
    assert_eq!(wrapped_line_count("aaa bbb ccc", 7), 2);
    assert_eq!(wrapped_line_count("abcdefghij", 4), 3);
    assert_eq!(wrapped_line_count("x", 0), 1);
}

#[test]
fn row_height_of_each_shape() {
    let data = [1u64, 2, 3];
    assert_eq!(row_height(&DetailRow::Sparkline { label: "history", data: &data }, 80), 2);
    assert_eq!(row_height(&DetailRow::Blank, 80), 1);
    let long = DetailRow::Wrapped { label: "cmd", value: "aaaa bbbb cccc".to_string() };
    assert_eq!(row_height(&long, 16 + 9), 2);
}

#[test]
fn wrap_cmd_breaks_on_spaces_and_splits_long_words() {
    assert_eq!(wrap_cmd("ls -la /tmp", 6), vec!["ls -la", "/tmp"]);
    assert_eq!(wrap_cmd("abcdefgh", 3), vec!["abc", "def", "gh"]);
    assert_eq!(wrap_cmd("", 5), vec![""]);
    assert_eq!(wrap_cmd("keep as is", 0), vec!["keep as is"]);
    for line in wrap_cmd("/usr/bin/python3 -m http.server --bind 127.0.0.1 8000", 12) {
        assert!(line.chars().count() <= 12);
    }
}

#[test]
fn detail_layout_widths() {
    assert_eq!(pair_half_width(0), 16);
    assert_eq!(pair_half_width(81), 40);
    assert_eq!(pair_half_width(500), 56);
    assert_eq!(sparkline_width(10), 0);
    assert_eq!(sparkline_width(40), 24);
    assert_eq!(sparkline_width(200), 50);
    assert_eq!(label_gap("port"), 10);
    assert_eq!(label_gap("a label too long"), 2);
}

#[test]
fn sparkline_keeps_newest_samples_right_aligned() {
    assert_eq!(sparkline_data(&[1, 2, 3, 4], 2), (0, vec![3, 4]));
    assert_eq!(sparkline_data(&[1, 2], 5), (3, vec![1, 2]));
    assert_eq!(sparkline_data(&[], 0), (0, vec![]));
}

#[test]
fn thumb_arith_ok_edges() {
    assert!(thumb_arith_ok(10, 20, 5, 19));
    assert!(thumb_arith_ok(0, 3, 5, 1));
    assert!(!thumb_arith_ok(0, 30, 5, 1));
    assert!(!thumb_arith_ok(usize::MAX, 30, 5, 1));
    assert!(thumb_arith_ok(usize::MAX, 3, 5, 1));
}
