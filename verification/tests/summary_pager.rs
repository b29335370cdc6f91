use fixdecoder::ansi::visible_width;
use fixdecoder::colours::ColourPalette;
use fixdecoder::message_groups::classify_message_bucket;
use fixdecoder::slicing::{slice_ansi, split_lines};
use fixdecoder::summary_pager::{
    handle_key, render, PagerKey, PagerModel, PagerState, Screen, SummaryPagerContent,
    SummaryPagerMessageCount, SummaryPagerSection,
};

fn section(
    summary: &str,
    detail: &str,
    terminal: bool,
    counts: &[(&str, &str, usize)],
) -> SummaryPagerSection {
    SummaryPagerSection {
        summary: summary.into(),
        detail: detail.into(),
        terminal,
        message_counts: counts
            .iter()
            .map(|(msg_type, label, count)| SummaryPagerMessageCount {
                msg_type: (*msg_type).into(),
                label: Some((*label).into()),
                count: *count,
                bucket: classify_message_bucket(msg_type, Some(label), None),
            })
            .collect(),
    }
}

fn count(msg_type: &str, label: &str, count: usize, msg_cat: &str) -> SummaryPagerMessageCount {
    SummaryPagerMessageCount {
        msg_type: msg_type.into(),
        label: Some(label.into()),
        count,
        bucket: classify_message_bucket(msg_type, Some(label), Some(msg_cat)),
    }
}

#[test]
fn slice_ansi_respects_visible_offsets() {
    let text = "\u{001b}[31mAB\u{001b}[0mCD";
    let slice = slice_ansi(text, 1, 2);
    assert_eq!(visible_width(&slice), 2);
    assert!(slice.contains('B'));
    assert!(slice.contains('C'));
}

#[test]
fn slice_ansi_offsets_ignore_control_characters() {
    let text = "8=FIX.4.4\u{0001}9=169\u{0001}35=D";
    let slice = slice_ansi(text, 9, 5);
    let visible: String = slice.chars().filter(|ch| !ch.is_control()).collect();
    assert_eq!(visible, "9=169");
    assert_eq!(visible_width(&slice), 5);
}

#[test]
fn section_index_tracks_scroll_position() {
    let model = PagerModel::from_content(SummaryPagerContent {
        message_counts: vec![
            count("A", "LOGON", 1, "admin"),
            count("D", "New Order Single", 1, "app"),
            count("8", "Execution Report", 2, "app"),
        ],
        sections: vec![
            section(
                "one",
                "d1\nd2",
                false,
                &[("A", "LOGON", 1), ("D", "New Order Single", 1)],
            ),
            section(
                "two",
                "d3\nd4",
                true,
                &[
                    ("A", "LOGON", 1),
                    ("D", "New Order Single", 1),
                    ("8", "Execution Report", 2),
                ],
            ),
        ],
    }, ColourPalette::plain());

    assert_eq!(model.section_index_for_line(0), Some(0));
    assert_eq!(model.section_index_for_line(2), Some(0));
    assert_eq!(model.section_index_for_line(3), Some(1));
}

#[test]
fn cumulative_summary_tracks_bottom_of_visible_pane() {
    let model = PagerModel::from_content(SummaryPagerContent {
        message_counts: vec![
            count("A", "LOGON", 1, "admin"),
            count("D", "New Order Single", 1, "app"),
            count("8", "Execution Report", 2, "app"),
        ],
        sections: vec![
            section(
                "first summary",
                "first detail",
                false,
                &[("A", "LOGON", 1), ("D", "New Order Single", 1)],
            ),
            section(
                "second summary",
                "second detail",
                true,
                &[
                    ("A", "LOGON", 1),
                    ("D", "New Order Single", 1),
                    ("8", "Execution Report", 2),
                ],
            ),
        ],
    }, ColourPalette::plain());

    let left = model.left_lines(Some(0), model.visible_section_index(0, 3));
    assert!(left.iter().any(|line| line.contains("first summary")));
    assert!(left.iter().any(|line| line.contains("1 open, 2 total")));
    assert!(left.iter().any(|line| line.contains("Session/Admin")));
    assert!(left.iter().any(|line| line.contains("LOGON")));
    assert!(left.iter().any(|line| line.contains("D")));
    assert!(left.iter().any(|line| line.contains("8")));
}

// ---------------------------------------------------------------------------
// Further cases

fn two_sections() -> PagerModel {
    PagerModel::from_content(
        SummaryPagerContent {
            sections: vec![
                section("one", "d1\nd2", false, &[]),
                section("two", "d3\nd4", true, &[]),
            ],
            message_counts: vec![count("D", "New Order Single", 3, "app")],
        },
        ColourPalette::plain(),
    )
}

#[test]
fn lines_belong_to_their_order() {
    let model = two_sections();
    assert_eq!(model.right_lines, vec!["d1", "d2", "", "d3", "d4"]);
    assert_eq!(model.sections[1].detail_start, 3);
    for (line, expected) in [(0, 0), (1, 0), (2, 0), (3, 1), (4, 1), (9, 1)] {
        assert_eq!(model.section_index_for_line(line), Some(expected));
    }
}

#[test]
fn empty_content_says_so() {
    let model = PagerModel::from_content(
        SummaryPagerContent {
            sections: Vec::new(),
            message_counts: Vec::new(),
        },
        ColourPalette::plain(),
    );
    assert_eq!(model.right_lines, vec!["No order-flow messages captured."]);
    assert_eq!(model.section_index_for_line(0), None);
    assert_eq!(
        model.left_lines(None, None),
        vec!["Order Summary (0 open, 0 total, to fill: 0/0)"]
    );
}

#[test]
fn panes_fit_into_the_terminal() {
    let model = two_sections();
    for width in 4..200 {
        let left = model.left_width(width);
        assert!(left >= 1 && left + 3 <= width, "width {width}: {left}");
    }
}

#[test]
fn keys_move_within_the_lines() {
    let model = two_sections();
    let mut state = PagerState {
        scroll_x: 0,
        scroll_y: 0,
    };
    assert!(!handle_key(&model, &mut state, PagerKey::Down, 4));
    assert!(!handle_key(&model, &mut state, PagerKey::Char('j'), 4));
    assert_eq!(state.scroll_y, 1);
    handle_key(&model, &mut state, PagerKey::PageUp, 4);
    assert_eq!(state.scroll_y, 0);
    handle_key(&model, &mut state, PagerKey::End, 2);
    assert_eq!(state.scroll_y, 3);
    handle_key(&model, &mut state, PagerKey::Right, 2);
    assert_eq!(state.scroll_x, 1);
    handle_key(&model, &mut state, PagerKey::Home, 2);
    assert_eq!((state.scroll_x, state.scroll_y), (0, 0));
    assert!(handle_key(&model, &mut state, PagerKey::Esc, 2));
    assert!(handle_key(&model, &mut state, PagerKey::Char('q'), 2));
}

#[test]
fn screens_show_both_sides() {
    let model = PagerModel::from_content(
        SummaryPagerContent {
            sections: vec![
                section("first order", "d1\nd2", false, &[]),
                section("second order", "d3 of the second order\nd4", true, &[]),
            ],
            message_counts: Vec::new(),
        },
        ColourPalette::plain(),
    );
    let mut state = PagerState {
        scroll_x: 7,
        scroll_y: 9,
    };
    match render(&model, &mut state, 100, 2, ColourPalette::plain()) {
        Screen::Rows(rows) => {
            assert_eq!(rows.len(), 2);
            assert!(rows[0].starts_with("second order "), "{rows:?}");
            assert!(rows[0].ends_with(" | d3 of the second order"), "{rows:?}");
            assert!(rows[1].ends_with(" | d4"));
        }
        Screen::TooSmall(text) => panic!("{text}"),
    }
    assert_eq!((state.scroll_x, state.scroll_y), (0, 3));
    match render(&model, &mut state, 12, 2, ColourPalette::plain()) {
        Screen::Rows(_) => panic!("screen is too small"),
        Screen::TooSmall(text) => assert!(text.starts_with("Terminal too small")),
    }
}

#[test]
fn slices_keep_their_style() {
    let text = "\u{1b}[31mABCD\u{1b}[0mEF";
    assert_eq!(slice_ansi(text, 1, 2), "\u{1b}[31mBC\u{1b}[0m");
    assert_eq!(slice_ansi(text, 5, 9), "F\u{1b}[0m");
    assert_eq!(slice_ansi(text, 0, 0), "");
    assert_eq!(slice_ansi("plain", 1, 3), "lai");
    for offset in 0..7 {
        for width in 0..7 {
            assert!(visible_width(&slice_ansi(text, offset, width)) <= width);
        }
    }
}

#[test]
fn ends_of_lines_open_no_line() {
    assert_eq!(split_lines("a\r\nb\n"), vec!["a", "b"]);
    assert_eq!(split_lines("a\n\nb\r"), vec!["a", "", "b\r"]);
    assert!(split_lines("").is_empty());
}
