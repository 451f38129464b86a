use desktopinator::tiling::centered::CenteredMasterLayout;
use desktopinator::tiling::column::ColumnLayout;
use desktopinator::tiling::dwindle::DwindleLayout;
use desktopinator::tiling::grid;
use desktopinator::tiling::monocle::MonocleLayout;
use desktopinator::tiling::ratio::Ratio;
use desktopinator::tiling::stacked::StackedLayout;
use desktopinator::tiling::{Layout, Placement, Rect, WindowId};

fn ratio(r: f64) -> Ratio {
    Ratio { units: (r * (1u64 << 57) as f64) as u64 }
}

fn as_real(r: Ratio) -> f64 {
    r.units as f64 / (1u64 << 57) as f64
}

fn no_gap_layout(main_ratio: f64) -> ColumnLayout {
    ColumnLayout { main_ratio: ratio(main_ratio), gap: 0 }
}

fn numbered(n: u64) -> Vec<WindowId> {
    (1..=n).map(WindowId).collect()
}

fn assert_apart(placements: &[Placement], area: Rect) {
    for (i, a) in placements.iter().enumerate() {
        let a = a.rect;
        assert!(a.x >= area.x && a.y >= area.y);
        assert!(a.x + a.width <= area.x + area.width);
        assert!(a.y + a.height <= area.y + area.height);
        for b in &placements[i + 1..] {
            let b = b.rect;
            assert!(
                a.x + a.width <= b.x
                    || b.x + b.width <= a.x
                    || a.y + a.height <= b.y
                    || b.y + b.height <= a.y
            );
        }
    }
}

#[test]
fn empty_layout() {
    let layout = no_gap_layout(0.55);
    let result = layout.arrange(&[], Rect { x: 0, y: 0, width: 1920, height: 1080 });
    assert!(result.is_empty());
}

#[test]
fn single_window_fills_area() {
    let layout = no_gap_layout(0.55);
    let area = Rect { x: 0, y: 0, width: 1920, height: 1080 };
    let result = layout.arrange(&[WindowId(1)], area);
    assert_eq!(result.len(), 1);
    assert_eq!(result[0].rect, area);
}

#[test]
fn two_windows_split() {
    let layout = no_gap_layout(0.5);
    let area = Rect { x: 0, y: 0, width: 1000, height: 500 };
    let result = layout.arrange(&[WindowId(1), WindowId(2)], area);

    assert_eq!(result.len(), 2);
    assert_eq!(result[0].rect, Rect { x: 0, y: 0, width: 500, height: 500 });
    assert_eq!(result[1].rect, Rect { x: 500, y: 0, width: 500, height: 500 });
}

#[test]
fn three_windows_master_plus_stack() {
    let layout = no_gap_layout(0.5);
    let area = Rect { x: 0, y: 0, width: 1000, height: 600 };
    let result = layout.arrange(&[WindowId(1), WindowId(2), WindowId(3)], area);

    assert_eq!(result.len(), 3);
    assert_eq!(result[0].rect, Rect { x: 0, y: 0, width: 500, height: 600 });
    assert_eq!(result[1].rect, Rect { x: 500, y: 0, width: 500, height: 300 });
    assert_eq!(result[2].rect, Rect { x: 500, y: 300, width: 500, height: 300 });
}

#[test]
fn dwindle_four_windows() {
    let layout = DwindleLayout { main_ratio: ratio(0.5), gap: 0 };
    let area = Rect { x: 0, y: 0, width: 1000, height: 1000 };
    let windows = vec![WindowId(1), WindowId(2), WindowId(3), WindowId(4)];
    let result = layout.arrange(&windows, area);

    assert_eq!(result.len(), 4);
    // First: left half
    assert_eq!(result[0].rect, Rect { x: 0, y: 0, width: 500, height: 1000 });
    // Second: top-right
    assert_eq!(result[1].rect, Rect { x: 500, y: 0, width: 500, height: 500 });
    // Third: bottom-right-left
    assert_eq!(result[2].rect, Rect { x: 500, y: 500, width: 250, height: 500 });
    // Fourth: bottom-right-right (remaining)
    assert_eq!(result[3].rect, Rect { x: 750, y: 500, width: 250, height: 500 });
}

#[test]
fn centered_three_windows() {
    let layout = CenteredMasterLayout { main_ratio: ratio(0.5), gap: 0 };
    let area = Rect { x: 0, y: 0, width: 1000, height: 500 };
    let windows = vec![WindowId(1), WindowId(2), WindowId(3)];
    let result = layout.arrange(&windows, area);

    assert_eq!(result.len(), 3);
    // Master: centered
    assert_eq!(result[0].rect.x, 250);
    assert_eq!(result[0].rect.width, 500);
    // Left stack (window 2)
    assert_eq!(result[1].rect.x, 0);
    assert_eq!(result[1].rect.width, 250);
    // Right stack (window 3)
    assert_eq!(result[2].rect.x, 750);
    assert_eq!(result[2].rect.width, 250);
}

#[test]
fn gaps_applied() {
    let layout = ColumnLayout { main_ratio: ratio(0.5), gap: 10 };
    let area = Rect { x: 0, y: 0, width: 1000, height: 500 };
    let result = layout.arrange(&[WindowId(1), WindowId(2)], area);

    assert_eq!(result.len(), 2);
    // Master: 10px from left, 10px gap to stack
    assert_eq!(result[0].rect.x, 10);
    assert_eq!(result[0].rect.y, 10);
    assert_eq!(result[0].rect.width, 485); // (1000 - 30) * 0.5
    assert_eq!(result[0].rect.height, 480); // 500 - 20
    // Stack: after master + gap, 10px from right
    assert_eq!(result[1].rect.x, 10 + 485 + 10);
    assert_eq!(result[1].rect.width, 485);
}

#[test]
fn default_ratios_are_the_nearest_doubles() {
    assert_eq!(as_real(ColumnLayout::default().main_ratio), 0.55);
    assert_eq!(as_real(DwindleLayout::default().main_ratio), 0.55);
    assert_eq!(as_real(CenteredMasterLayout::default().main_ratio), 0.5);
}

#[test]
fn ratios_step_like_doubles() {
    let mut layout = ColumnLayout::default();
    let mut expected = 0.55f64;
    for _ in 0..12 {
        let changed = layout.grow_master();
        assert_eq!(changed, expected < 0.8);
        if changed {
            expected = (expected + 0.05).min(0.8);
        }
        assert_eq!(as_real(layout.main_ratio), expected);
    }
    for _ in 0..30 {
        let changed = layout.shrink_master();
        assert_eq!(changed, expected > 0.2);
        if changed {
            expected = (expected - 0.05).max(0.2);
        }
        assert_eq!(as_real(layout.main_ratio), expected);
    }
}

#[test]
fn master_width_is_that_of_doubles() {
    for width in [1, 7, 640, 1366, 1919, 1920, 2559, 3840, 7680] {
        for r in [0.1, 0.3, 0.45, 0.55, 0.6, 0.9] {
            let area = Rect { x: 0, y: 0, width, height: 1000 };
            let result = no_gap_layout(r).arrange(&numbered(2), area);
            assert_eq!(result[0].rect.width, (width as f64 * r) as i32);
        }
    }
}

#[test]
fn windows_lie_apart_and_inside() {
    let area = Rect { x: 100, y: 50, width: 1920, height: 1080 };
    for n in 2..9 {
        let windows = numbered(n);
        assert_apart(&ColumnLayout::default().arrange(&windows, area), area);
        assert_apart(&DwindleLayout::default().arrange(&windows, area), area);
        assert_apart(&CenteredMasterLayout::default().arrange(&windows, area), area);
        assert_apart(&StackedLayout::default().arrange(&windows, area), area);
        assert_apart(&grid::arrange(&windows, area), area);
    }
}

#[test]
fn centered_gives_every_window_one_place() {
    let area = Rect { x: 0, y: 0, width: 1920, height: 1080 };
    for n in 1..12 {
        let mut ids: Vec<u64> = CenteredMasterLayout::default()
            .arrange(&numbered(n), area)
            .iter()
            .map(|p| p.id.0)
            .collect();
        ids.sort();
        assert_eq!(ids, (1..=n).collect::<Vec<u64>>());
    }
}

#[test]
fn monocle_gives_every_window_the_area() {
    let area = Rect { x: 0, y: 0, width: 800, height: 600 };
    let layout = MonocleLayout { gap: 5 };
    for p in layout.arrange(&numbered(3), area) {
        assert_eq!(p.rect, Rect { x: 5, y: 5, width: 790, height: 590 });
    }
    assert_eq!(layout.name(), "monocle");
}

#[test]
fn stacked_shows_title_bars_above_the_first_window() {
    let area = Rect { x: 0, y: 0, width: 800, height: 600 };
    let layout = StackedLayout { tab_height: 24, gap: 4 };
    let result = layout.arrange(&numbered(3), area);
    assert_eq!(result[0].rect, Rect { x: 4, y: 52, width: 792, height: 544 });
    assert_eq!(result[1].rect, Rect { x: 4, y: 4, width: 792, height: 24 });
    assert_eq!(result[2].rect, Rect { x: 4, y: 28, width: 792, height: 24 });
}

#[test]
fn grid_stretches_the_last_row() {
    let area = Rect { x: 0, y: 0, width: 1012, height: 1012 };
    let one = grid::arrange(&numbered(1), area);
    assert_eq!(one[0].rect, Rect { x: 4, y: 4, width: 1004, height: 1004 });
    let three = grid::arrange(&numbered(3), area);
    assert_eq!(three[0].rect, Rect { x: 4, y: 4, width: 500, height: 500 });
    assert_eq!(three[1].rect, Rect { x: 508, y: 4, width: 500, height: 500 });
    assert_eq!(three[2].rect, Rect { x: 4, y: 508, width: 1004, height: 500 });
    assert!(grid::arrange(&[], area).is_empty());
}

#[test]
fn grid_refuses_what_cannot_be_written_down() {
    let area = Rect { x: i32::MAX, y: 0, width: 100, height: 100 };
    assert!(!grid::can_arrange(1, area));
    assert!(grid::can_arrange(1, Rect { x: 0, ..area }));
}

#[test]
fn gaps_and_ratios_can_be_asked_for() {
    let mut layout = DwindleLayout::default();
    assert!(layout.set_gap(9));
    assert!(!layout.set_gap(9));
    assert_eq!(layout.gap(), 9);
    assert_eq!(layout.master_ratio(), Some(layout.main_ratio));
    assert_eq!(MonocleLayout { gap: 0 }.master_ratio(), None);
}
