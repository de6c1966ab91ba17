use booktui::layout::{
    centered_rect, compute_layout, contains, hit_test, input_popup, ratio_from_gauge_click,
    transport_sections, Fraction, HitTarget, Rect,
};

fn rect(x: u16, y: u16, width: u16, height: u16) -> Rect {
    Rect {
        x,
        y,
        width,
        height,
    }
}

#[test]
fn usual_terminal_has_three_bands() {
    let layout = compute_layout(rect(0, 0, 80, 24));
    assert_eq!(layout.library, rect(0, 0, 80, 15));
    assert_eq!(layout.details, None);
    assert_eq!(layout.transport, rect(0, 15, 80, 7));
    assert_eq!(layout.status, rect(0, 22, 80, 2));
}

#[test]
fn wide_terminal_shows_details() {
    let layout = compute_layout(rect(0, 0, 120, 40));
    assert_eq!(layout.library, rect(0, 0, 55, 31));
    assert_eq!(layout.details, Some(rect(55, 0, 65, 31)));
    assert_eq!(layout.transport, rect(0, 31, 120, 7));
    let odd = compute_layout(rect(0, 0, 101, 30));
    assert_eq!(odd.library, rect(0, 0, 46, 21));
    assert_eq!(odd.details, Some(rect(46, 0, 55, 21)));
}

#[test]
fn huge_terminal_is_divided_alike() {
    let layout = compute_layout(rect(0, 0, 400, 300));
    assert_eq!(layout.top, rect(0, 0, 400, 291));
    assert_eq!(layout.library, rect(0, 0, 184, 291));
    assert_eq!(layout.details, Some(rect(184, 0, 216, 291)));
    assert_eq!(layout.transport, rect(0, 291, 400, 7));
    assert_eq!(layout.status, rect(0, 298, 400, 2));
}

#[test]
fn low_terminal_has_shorter_controls() {
    let layout = compute_layout(rect(0, 0, 120, 14));
    assert_eq!(layout.library, rect(0, 0, 120, 6));
    assert_eq!(layout.details, None);
    assert_eq!(layout.transport, rect(0, 6, 120, 6));
    assert_eq!(layout.status, rect(0, 12, 120, 2));
}

#[test]
fn cramped_terminal_is_still_divided() {
    for y in [0, 5, 31, 1_000, 65_000] {
        for height in 0..14 {
            let layout = compute_layout(rect(3, y, 30, height));
            let rest = height.saturating_sub(6);
            let status = (rest / 2).min(2);
            let top = height.min(6);
            assert_eq!(layout.library, rect(3, y, 30, top));
            assert_eq!(layout.transport, rect(3, y + top, 30, rest - status));
            assert_eq!(layout.status, rect(3, y + top + rest - status, 30, status));
        }
    }
    for row in 0..6 {
        assert_eq!(hit_test(rect(0, 0, 80, 6), 10, row), None);
    }
    let low = rect(0, 0, 80, 11);
    let timeline = Some(HitTarget::Timeline {
        area: rect(0, 6, 80, 2),
    });
    let volume = Some(HitTarget::Volume {
        area: rect(0, 8, 80, 1),
    });
    let hits: Vec<Option<HitTarget>> = (5..10).map(|row| hit_test(low, 4, row)).collect();
    assert_eq!(hits, [None, timeline, timeline, volume, None]);
}

#[test]
fn terminal_at_the_last_rows_is_divided() {
    for room in 0..14 {
        let y = u16::MAX - room;
        let layout = compute_layout(rect(0, y, 30, 40));
        let rest = room.saturating_sub(6);
        let status = (rest / 2).min(2);
        assert_eq!(layout.top, rect(0, y, 30, room.min(6)));
        assert_eq!(layout.transport.height, rest - status);
        assert_eq!(layout.status.height, status);
    }
}

#[test]
fn every_terminal_is_divided() {
    for height in 14..200 {
        let layout = compute_layout(rect(0, 0, 80, height));
        let controls = if height >= 18 { 7 } else { 6 };
        assert_eq!(layout.library, rect(0, 0, 80, height - controls - 2));
        assert_eq!(layout.transport, rect(0, height - controls - 2, 80, controls));
        assert_eq!(layout.status, rect(0, height - 2, 80, 2));
    }
}

#[test]
fn cramped_controls_are_divided() {
    for y in [0, 9, 33, 2_000, 65_000] {
        for height in 0..7 {
            let sections = transport_sections(rect(0, y, 20, height));
            let volume = (height / 2).min(3);
            let timeline = (height - height / 2).min(3);
            assert_eq!(sections.timeline, rect(0, y, 20, timeline));
            assert_eq!(sections.volume, rect(0, y + timeline, 20, volume));
            assert_eq!(sections.help, None);
        }
    }
    let heights = [(0, 0, 0), (0, 1, 0), (1, 0, 1), (1, 1, 1), (2, 1, 1), (2, 2, 1), (3, 2, 1)];
    for (room, (timeline, volume, help)) in heights.into_iter().enumerate() {
        let y = u16::MAX - room as u16;
        let sections = transport_sections(rect(0, y, 20, 9));
        assert_eq!(sections.timeline, rect(0, y, 20, timeline));
        assert_eq!(sections.volume, rect(0, y + timeline, 20, volume));
        assert_eq!(sections.help, Some(rect(0, y + timeline + volume, 20, help)));
    }
}

#[test]
fn controls_are_divided() {
    let tall = transport_sections(rect(2, 10, 50, 7));
    assert_eq!(tall.timeline, rect(2, 10, 50, 3));
    assert_eq!(tall.volume, rect(2, 13, 50, 3));
    assert_eq!(tall.help, Some(rect(2, 16, 50, 1)));
    let short = transport_sections(rect(2, 10, 50, 6));
    assert_eq!(short.timeline, rect(2, 10, 50, 3));
    assert_eq!(short.volume, rect(2, 13, 50, 3));
    assert_eq!(short.help, None);
}

#[test]
fn clicks_hit_the_bars() {
    let screen = rect(0, 0, 80, 24);
    let timeline = Some(HitTarget::Timeline {
        area: rect(0, 15, 80, 3),
    });
    let volume = Some(HitTarget::Volume {
        area: rect(0, 18, 80, 3),
    });
    assert_eq!(hit_test(screen, 0, 15), timeline);
    assert_eq!(hit_test(screen, 79, 17), timeline);
    assert_eq!(hit_test(screen, 40, 18), volume);
    assert_eq!(hit_test(screen, 40, 20), volume);
    assert_eq!(hit_test(screen, 40, 21), None);
    assert_eq!(hit_test(screen, 40, 14), None);
    assert_eq!(hit_test(screen, 80, 16), None);
}

#[test]
fn areas_contain_their_cells() {
    let area = rect(3, 4, 2, 2);
    assert!(contains(area, 3, 4));
    assert!(contains(area, 4, 5));
    assert!(!contains(area, 5, 5));
    assert!(!contains(area, 4, 6));
    assert!(!contains(area, 2, 4));
    assert!(!contains(rect(u16::MAX, 0, 5, 5), u16::MAX, 0));
    assert_eq!(rect(u16::MAX, 0, 5, 5).right(), u16::MAX);
    assert_eq!(area.bottom(), 6);
}

#[test]
fn clicks_along_a_bar_are_shares() {
    let bar = rect(0, 15, 80, 3);
    let share = |column: u16| ratio_from_gauge_click(bar, column);
    assert_eq!(share(0), Fraction { part: 0, whole: 77 });
    assert_eq!(share(1), Fraction { part: 0, whole: 77 });
    assert_eq!(share(40), Fraction { part: 39, whole: 77 });
    assert_eq!(share(78), Fraction { part: 77, whole: 77 });
    assert_eq!(share(79), Fraction { part: 77, whole: 77 });
    assert_eq!(
        ratio_from_gauge_click(rect(0, 0, 3, 3), 1),
        Fraction { part: 0, whole: 0 }
    );
    assert_eq!(
        ratio_from_gauge_click(rect(0, 0, 0, 3), 1),
        Fraction { part: 0, whole: 0 }
    );
}

#[test]
fn dialogs_are_centered() {
    assert_eq!(centered_rect(70, 7, rect(0, 0, 80, 24)), rect(12, 9, 56, 7));
    let popup = input_popup(rect(0, 0, 80, 24));
    assert_eq!(popup.area, rect(12, 9, 56, 7));
    assert_eq!(popup.line, rect(12, 9, 56, 3));
    assert_eq!(popup.hint, Some(rect(12, 12, 56, 4)));
    let small = input_popup(rect(0, 0, 80, 11));
    assert_eq!(small.area, rect(12, 3, 56, 5));
    assert_eq!(small.hint, None);
}

#[test]
fn dialogs_are_centered_on_every_screen() {
    for height in 0..60 {
        for rows in [0, 1, 5, 7, 20] {
            let middle = centered_rect(70, rows, rect(4, 8, 80, height));
            assert_eq!((middle.x, middle.width), (16, 56));
            if rows + 2 <= height {
                assert_eq!(middle.y, 8 + (height - rows + 1) / 2);
                assert_eq!(middle.height, rows);
            } else if height >= 2 {
                assert_eq!((middle.y, middle.height), (9, height - 2));
            } else {
                assert_eq!(middle.height, 0);
            }
        }
    }
    for percent in 0..=100 {
        for width in [0, 1, 7, 80, 101, 233] {
            let middle = centered_rect(percent, 7, rect(5, 0, width, 24));
            let side = (100 - percent) / 2;
            let share = |of: u16| ((of as u32 * width as u32 + 50) / 100) as u16;
            assert_eq!(middle.x, 5 + share(side));
            assert_eq!(middle.x + middle.width, 5 + share(side + percent));
        }
    }
}
