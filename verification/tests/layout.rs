use vallis::layout::{mono_stack, primary_share, stack, standard_tile};
use vallis::options::Layout;
use vallis::view::View;

fn view(x: i32, y: i32, width: u32, height: u32) -> View {
    View { x, y, width, height }
}

fn tiled(ratio: u32, gap: u32, count: u32, width: u32, height: u32) -> Vec<View> {
    let mut views = Vec::new();
    standard_tile(&mut views, ratio, gap, count, width, height);
    views
}

fn stacked(ratio: u32, gap: u32, count: u32, width: u32, height: u32) -> Vec<View> {
    let mut views = Vec::new();
    stack(&mut views, ratio, gap, count, width, height);
    views
}

fn cascaded(gap: u32, count: u32, width: u32, height: u32) -> Vec<View> {
    let mut views = Vec::new();
    mono_stack(&mut views, 600_000, gap, count, width, height);
    views
}

#[test]
fn tile_single_view_takes_whole_area() {
    assert_eq!(tiled(600_000, 4, 1, 1920, 1080), vec![view(0, 0, 1920, 1080)]);
}

#[test]
fn tile_three_views() {
    assert_eq!(
        tiled(600_000, 4, 3, 1920, 1080),
        vec![view(0, 0, 1148, 1080), view(1152, 0, 768, 538), view(1152, 542, 768, 538)]
    );
}

#[test]
fn tile_two_views_second_takes_whole_column() {
    assert_eq!(
        tiled(600_000, 4, 2, 1920, 1080),
        vec![view(0, 0, 1148, 1080), view(1152, 0, 768, 1080)]
    );
}

#[test]
fn tile_no_view_yields_whole_area() {
    assert_eq!(tiled(600_000, 4, 0, 1920, 1080), vec![view(0, 0, 1920, 1080)]);
}

#[test]
fn tile_last_row_takes_remainder() {
    // 1000 / 3 = 333; the last row starts at 2 * 333 and is 334 high.
    assert_eq!(
        tiled(500_000, 0, 4, 800, 1000),
        vec![
            view(0, 0, 400, 1000),
            view(400, 0, 400, 333),
            view(400, 333, 400, 333),
            view(400, 666, 400, 334),
        ]
    );
}

#[test]
fn tile_heights_sum_to_usable_height_without_gap() {
    for count in [1u32, 2, 3, 10] {
        for height in [0u32, 1, 7, 599, 600, 1080, 1081, 4321] {
            for gap in [0u32, 1] {
                let views = tiled(600_000, gap, count, 1920, height);
                assert_eq!(views.len() as u32, count);
                let column = if count == 1 { &views[..] } else { &views[1..] };
                let sum: u64 = column.iter().map(|v| v.height as u64).sum();
                assert_eq!(sum, height as u64, "count {count} height {height} gap {gap}");
            }
        }
    }
}

#[test]
fn tile_column_reaches_bottom_with_gap() {
    for count in [2u32, 3, 10] {
        for height in [600u32, 1080, 1081, 4321] {
            let views = tiled(600_000, 4, count, 1920, height);
            assert_eq!(views.len() as u32, count);
            let last = views[views.len() - 1];
            assert_eq!(last.y as i64 + last.height as i64, height as i64);
            for pair in views[1..].windows(2) {
                assert_eq!(pair[0].y as i64 + pair[0].height as i64 + 4, pair[1].y as i64);
            }
        }
    }
}

#[test]
fn tile_heights_with_gap_fall_short_of_usable_height() {
    let views = tiled(600_000, 4, 3, 1920, 1080);
    let sum: u32 = views[1..].iter().map(|v| v.height).sum();
    assert_eq!(sum, 1076);
}

#[test]
fn tile_sizes_never_wrap() {
    // The gap is wider than the area: widths fall to zero.
    assert_eq!(
        tiled(600_000, 100, 3, 50, 20),
        vec![view(0, 0, 0, 20), view(100, 0, 0, 0), view(100, 60, 0, 0)]
    );
}

#[test]
fn share_rounds_up() {
    assert_eq!(primary_share(1920, 600_000), 1152);
    assert_eq!(primary_share(1001, 500_000), 501);
    assert_eq!(primary_share(1000, 333_333), 334);
    assert_eq!(primary_share(0, 900_000), 0);
    assert_eq!(primary_share(3, 1), 1);
    assert_eq!(primary_share(u32::MAX, u32::MAX), u32::MAX);
}

#[test]
fn stack_single_view_takes_whole_area() {
    assert_eq!(stacked(600_000, 4, 1, 1920, 1080), vec![view(0, 0, 1920, 1080)]);
}

#[test]
fn stack_cascades_from_last_to_first() {
    assert_eq!(
        stacked(600_000, 4, 4, 1920, 1080),
        vec![
            view(0, 0, 1148, 1080),
            view(1152, 16, 768, 1064),
            view(1152, 8, 768, 1064),
            view(1152, 0, 768, 1064),
        ]
    );
}

#[test]
fn stack_height_never_wraps() {
    assert_eq!(
        stacked(500_000, 10, 3, 100, 15),
        vec![view(0, 0, 40, 15), view(50, 20, 50, 0), view(50, 0, 50, 0)]
    );
}

#[test]
fn stack_yields_view_count_views() {
    for count in [1u32, 2, 3, 10, 100] {
        assert_eq!(stacked(600_000, 4, count, 1920, 1080).len() as u32, count);
        assert_eq!(tiled(600_000, 4, count, 1920, 1080).len() as u32, count);
    }
}

#[test]
fn mono_stack_three_views() {
    assert_eq!(
        cascaded(2, 3, 800, 600),
        vec![view(0, 8, 800, 592), view(0, 4, 800, 592), view(0, 0, 800, 592)]
    );
}

#[test]
fn mono_stack_no_view() {
    assert_eq!(cascaded(2, 0, 800, 600), Vec::<View>::new());
}

#[test]
fn mono_stack_ignores_ratio() {
    let mut a = Vec::new();
    mono_stack(&mut a, 100_000, 3, 2, 640, 480);
    let mut b = Vec::new();
    mono_stack(&mut b, 900_000, 3, 2, 640, 480);
    assert_eq!(a, b);
    assert_eq!(a, vec![view(0, 6, 640, 474), view(0, 0, 640, 474)]);
}

#[test]
fn arrangements_append_to_what_is_there() {
    let mut views = vec![view(1, 2, 3, 4)];
    standard_tile(&mut views, 600_000, 4, 1, 10, 10);
    stack(&mut views, 600_000, 4, 1, 20, 20);
    mono_stack(&mut views, 600_000, 4, 1, 30, 30);
    assert_eq!(
        views,
        vec![view(1, 2, 3, 4), view(0, 0, 10, 10), view(0, 0, 20, 20), view(0, 0, 30, 30)]
    );
}

#[test]
fn layout_arrange_dispatches() {
    let mut views = Vec::new();
    Layout::Tile.arrange(&mut views, 600_000, 4, 3, 1920, 1080);
    assert_eq!(views, tiled(600_000, 4, 3, 1920, 1080));
    let mut views = Vec::new();
    Layout::Stack.arrange(&mut views, 600_000, 4, 3, 1920, 1080);
    assert_eq!(views, stacked(600_000, 4, 3, 1920, 1080));
    let mut views = Vec::new();
    Layout::MonoStack.arrange(&mut views, 600_000, 4, 3, 1920, 1080);
    assert_eq!(views, cascaded(4, 3, 1920, 1080));
}

#[test]
fn layout_can_arrange_tells_positions_in_range() {
    assert!(Layout::Tile.can_arrange(600_000, 4, 3, 1920, 1080));
    assert!(Layout::Stack.can_arrange(600_000, 4, 3, 1920, 1080));
    assert!(Layout::MonoStack.can_arrange(600_000, 4, 3, 1920, 1080));
    // The column would begin beyond the largest position.
    assert!(!Layout::Tile.can_arrange(900_000, 0, 2, u32::MAX, 10));
    assert!(!Layout::Stack.can_arrange(900_000, 0, 2, u32::MAX, 10));
    assert!(Layout::Tile.can_arrange(900_000, 0, 1, u32::MAX, 10));
    // The last row would begin beyond the largest position.
    assert!(!Layout::Tile.can_arrange(600_000, 100, 100_000_000, 1920, 1080));
    assert!(!Layout::Stack.can_arrange(600_000, 100, 100_000_000, 1920, 1080));
    assert!(!Layout::MonoStack.can_arrange(600_000, 100, 100_000_000, 1920, 1080));
    assert!(Layout::MonoStack.can_arrange(600_000, 0, u32::MAX, 1920, 1080));
    assert!(Layout::MonoStack.can_arrange(600_000, u32::MAX, 1, 1920, 1080));
    assert!(!Layout::MonoStack.can_arrange(600_000, u32::MAX, 2, 1920, 1080));
    // Exactly at the limit: 2 * gap * (count - 1) == i32::MAX is impossible
    // (the product is even), so take the nearest values on both sides.
    assert!(Layout::MonoStack.can_arrange(600_000, 1_073_741_823, 2, 1, 1));
    assert!(!Layout::MonoStack.can_arrange(600_000, 1_073_741_824, 2, 1, 1));
}

#[test]
fn layout_from_name() {
    assert_eq!(Layout::from_name("tile"), Some(Layout::Tile));
    assert_eq!(Layout::from_name("stack"), Some(Layout::Stack));
    assert_eq!(Layout::from_name("mono_stack"), Some(Layout::MonoStack));
    assert_eq!(Layout::from_name("Tile"), None);
    assert_eq!(Layout::from_name(""), None);
    assert_eq!(Layout::from_name("tile "), None);
}
