//! The arrangements: where each window goes.
//!
//! Every arrangement is a function of the primary ratio (in millionths), the
//! gap, the number of windows and the size of the usable area. It yields one
//! rectangle for each window, the primary window's first. Widths and heights
//! that would fall below zero are zero.

use crate::options::{Layout, RATIO_ONE};
use crate::text::{chars_of, word_is};
use crate::view::{self, rects, Rect};
use vstd::prelude::*;

verus! {

/// `a - b`, or zero where `b` is the larger.
pub open spec fn minus(a: int, b: int) -> int {
    if a >= b {
        a - b
    } else {
        0
    }
}

/// The share `primary_ratio` of `usable_width`, rounded up to whole pixels
/// and no more than 32 bits can hold.
pub open spec fn share(usable_width: u32, primary_ratio: u32) -> int {
    let pixels = (usable_width * primary_ratio + (RATIO_ONE - 1)) / (RATIO_ONE as int);
    if pixels > u32::MAX {
        u32::MAX as int
    } else {
        pixels
    }
}

/// The width of the primary window beside a column of others.
pub open spec fn primary_width(primary_ratio: u32, gap: u32, usable_width: u32) -> int {
    minus(share(usable_width, primary_ratio), gap as int)
}

/// Where the column beside the primary window begins.
pub open spec fn secondary_offset(primary_ratio: u32, gap: u32, usable_width: u32) -> int {
    primary_width(primary_ratio, gap, usable_width) + gap
}

/// The width of the column beside the primary window.
pub open spec fn secondary_width(primary_ratio: u32, gap: u32, usable_width: u32) -> int {
    minus(minus(usable_width as int, primary_width(primary_ratio, gap, usable_width)), gap as int)
}

/// The whole usable area.
pub open spec fn whole_area(usable_width: u32, usable_height: u32) -> Rect {
    Rect { x: 0, y: 0, width: usable_width as int, height: usable_height as int }
}

/// The primary window beside a column of others.
pub open spec fn primary_area(
    primary_ratio: u32,
    gap: u32,
    usable_width: u32,
    usable_height: u32,
) -> Rect {
    Rect {
        x: 0,
        y: 0,
        width: primary_width(primary_ratio, gap, usable_width),
        height: usable_height as int,
    }
}

/// The distance from the top of one tiled row to the top of the next: the
/// height divided evenly among `rows`, and half of the gap.
pub open spec fn row_stride(gap: u32, rows: int, usable_height: u32) -> int {
    usable_height as int / rows + gap as int / 2
}

/// Row `row` of the tiled column, counted from the top. Every row but the
/// last has the even share of the height less half of the gap; the last one
/// reaches from its top to the bottom of the usable area.
pub open spec fn tile_row(
    primary_ratio: u32,
    gap: u32,
    view_count: u32,
    usable_width: u32,
    usable_height: u32,
    row: int,
) -> Rect {
    let rows = view_count - 1;
    let stride = row_stride(gap, rows, usable_height);
    Rect {
        x: secondary_offset(primary_ratio, gap, usable_width),
        y: stride * row,
        width: secondary_width(primary_ratio, gap, usable_width),
        height: if row < rows - 1 {
            minus(usable_height as int / rows, gap as int / 2)
        } else {
            minus(usable_height as int, stride * (rows - 1))
        },
    }
}

/// The tiled arrangement: one window takes the whole area; of several, the
/// first takes the primary area and the others the rows of the column beside
/// it, from the top down.
pub open spec fn tile(
    primary_ratio: u32,
    gap: u32,
    view_count: u32,
    usable_width: u32,
    usable_height: u32,
) -> Seq<Rect> {
    if view_count <= 1 {
        seq![whole_area(usable_width, usable_height)]
    } else {
        seq![primary_area(primary_ratio, gap, usable_width, usable_height)] + Seq::new(
            (view_count - 1) as nat,
            |row: int| tile_row(primary_ratio, gap, view_count, usable_width, usable_height, row),
        )
    }
}

/// Every position of the tiled arrangement is one that a view can hold.
pub open spec fn tile_fits(
    primary_ratio: u32,
    gap: u32,
    view_count: u32,
    usable_width: u32,
    usable_height: u32,
) -> bool {
    view_count >= 2 ==> {
        &&& secondary_offset(primary_ratio, gap, usable_width) <= i32::MAX
        &&& row_stride(gap, view_count - 1, usable_height) * (view_count - 2) <= i32::MAX
    }
}

/// The height of every window of a cascade of `count`: what is left of the
/// usable height when each window lies twice the gap below the one before.
pub open spec fn cascade_height(gap: u32, count: int, usable_height: u32) -> int {
    minus(usable_height as int, 2 * gap * (count - 1))
}

/// The window of the stacked column that is emitted at `position`. The
/// column is emitted from the bottom up: the window at the top comes last.
pub open spec fn stack_row(
    primary_ratio: u32,
    gap: u32,
    view_count: u32,
    usable_width: u32,
    usable_height: u32,
    position: int,
) -> Rect {
    let rows = view_count - 1;
    Rect {
        x: secondary_offset(primary_ratio, gap, usable_width),
        y: 2 * gap * (rows - 1 - position),
        width: secondary_width(primary_ratio, gap, usable_width),
        height: cascade_height(gap, rows, usable_height),
    }
}

/// The stacked arrangement: one window takes the whole area; of several, the
/// first takes the primary area and the others cascade in the column beside
/// it, overlapping, the lowest first.
pub open spec fn stack_of(
    primary_ratio: u32,
    gap: u32,
    view_count: u32,
    usable_width: u32,
    usable_height: u32,
) -> Seq<Rect> {
    if view_count <= 1 {
        seq![whole_area(usable_width, usable_height)]
    } else {
        seq![primary_area(primary_ratio, gap, usable_width, usable_height)] + Seq::new(
            (view_count - 1) as nat,
            |position: int|
                stack_row(primary_ratio, gap, view_count, usable_width, usable_height, position),
        )
    }
}

/// Every position of the stacked arrangement is one that a view can hold.
pub open spec fn stack_fits(
    primary_ratio: u32,
    gap: u32,
    view_count: u32,
    usable_width: u32,
) -> bool {
    view_count >= 2 ==> {
        &&& secondary_offset(primary_ratio, gap, usable_width) <= i32::MAX
        &&& 2 * gap * (view_count - 2) <= i32::MAX
    }
}

/// The window of the full-width cascade that is emitted at `position`, the
/// lowest first.
pub open spec fn mono_row(
    gap: u32,
    view_count: u32,
    usable_width: u32,
    usable_height: u32,
    position: int,
) -> Rect {
    Rect {
        x: 0,
        y: 2 * gap * (view_count - 1 - position),
        width: usable_width as int,
        height: cascade_height(gap, view_count as int, usable_height),
    }
}

/// The full-width cascade: every window as wide as the usable area, each
/// twice the gap below the next one emitted.
pub open spec fn mono_stack_of(
    gap: u32,
    view_count: u32,
    usable_width: u32,
    usable_height: u32,
) -> Seq<Rect> {
    Seq::new(
        view_count as nat,
        |position: int| mono_row(gap, view_count, usable_width, usable_height, position),
    )
}

/// Every position of the full-width cascade is one that a view can hold.
pub open spec fn mono_stack_fits(gap: u32, view_count: u32) -> bool {
    view_count >= 1 ==> 2 * gap * (view_count - 1) <= i32::MAX
}

/// The heights of `rects`, added up.
pub open spec fn total_height(rects: Seq<Rect>) -> int
    decreases rects.len(),
{
    if rects.len() == 0 {
        0
    } else {
        total_height(rects.drop_last()) + rects.last().height
    }
}

/// The tiled column: the rows beside the primary window, from the top down.
pub open spec fn tile_column(
    primary_ratio: u32,
    gap: u32,
    view_count: u32,
    usable_width: u32,
    usable_height: u32,
) -> Seq<Rect> {
    tile(primary_ratio, gap, view_count, usable_width, usable_height).skip(1)
}

/// The share of a width is the least number of pixels that holds the exact
/// share, as long as 32 bits hold it.
pub proof fn lemma_share_rounds_up(usable_width: u32, primary_ratio: u32)
    ensures
        0 <= share(usable_width, primary_ratio) <= u32::MAX,
        share(usable_width, primary_ratio) < u32::MAX ==> {
            &&& share(usable_width, primary_ratio) * RATIO_ONE >= usable_width * primary_ratio
            &&& (share(usable_width, primary_ratio) - 1) * RATIO_ONE < usable_width
                * primary_ratio
        },
        primary_ratio <= RATIO_ONE ==> share(usable_width, primary_ratio) <= usable_width,
{
    let exact = usable_width * primary_ratio;
    lemma_product_of_u32(usable_width, primary_ratio);
    if primary_ratio <= RATIO_ONE {
        lemma_product_grows(usable_width as int, primary_ratio as int, RATIO_ONE as int);
    }
}

/// The tiled and the stacked arrangement hold as many rectangles as there
/// are windows, and one where there is no window; the full-width cascade
/// holds as many as there are windows.
pub proof fn lemma_counts(
    primary_ratio: u32,
    gap: u32,
    view_count: u32,
    usable_width: u32,
    usable_height: u32,
)
    ensures
        view_count >= 1 ==> tile(
            primary_ratio,
            gap,
            view_count,
            usable_width,
            usable_height,
        ).len() == view_count,
        view_count >= 1 ==> stack_of(
            primary_ratio,
            gap,
            view_count,
            usable_width,
            usable_height,
        ).len() == view_count,
        tile(primary_ratio, gap, 0, usable_width, usable_height).len() == 1,
        stack_of(primary_ratio, gap, 0, usable_width, usable_height).len() == 1,
        mono_stack_of(gap, view_count, usable_width, usable_height).len() == view_count,
{
}

/// A window that is tiled alone is as high as the usable area.
pub proof fn lemma_tile_alone_fills_height(
    primary_ratio: u32,
    gap: u32,
    usable_width: u32,
    usable_height: u32,
)
    ensures
        total_height(tile(primary_ratio, gap, 1, usable_width, usable_height)) == usable_height,
{
    let alone = tile(primary_ratio, gap, 1, usable_width, usable_height);
    assert(alone.drop_last().len() == 0);
    reveal_with_fuel(total_height, 2);
}

/// Rectangles of one height add up to that height times their number.
proof fn lemma_total_of_equal_heights(rects: Seq<Rect>, height: int)
    requires
        forall|i: int| 0 <= i < rects.len() ==> (#[trigger] rects[i]).height == height,
    ensures
        total_height(rects) == rects.len() * height,
    decreases rects.len(),
{
    if rects.len() > 0 {
        lemma_total_of_equal_heights(rects.drop_last(), height);
        assert((rects.len() - 1) * height + height == rects.len() * height)
            by (nonlinear_arith);
    }
}

/// The heights of the tiled column add up to the usable height exactly where
/// half of the gap is nothing, where the column is one row, or where there is
/// no height to share. Everywhere else they fall short of it: what is
/// missing lies between the rows.
pub proof fn lemma_tile_column_heights(
    primary_ratio: u32,
    gap: u32,
    view_count: u32,
    usable_width: u32,
    usable_height: u32,
)
    requires
        view_count >= 2,
    ensures
        total_height(tile_column(primary_ratio, gap, view_count, usable_width, usable_height))
            <= usable_height,
        total_height(tile_column(primary_ratio, gap, view_count, usable_width, usable_height))
            == usable_height <==> (gap / 2 == 0 || view_count == 2 || usable_height == 0),
{
    let column = tile_column(primary_ratio, gap, view_count, usable_width, usable_height);
    let rows = view_count - 1;
    let even = usable_height as int / rows;
    let half = gap as int / 2;
    let stride = row_stride(gap, rows, usable_height);
    let upper = column.drop_last();
    let row_height = minus(even, half);
    let last_height = minus(usable_height as int, stride * (rows - 1));
    assert(column.len() == rows);
    assert(column.last() == tile_row(
        primary_ratio,
        gap,
        view_count,
        usable_width,
        usable_height,
        rows - 1,
    ));
    assert forall|i: int| 0 <= i < upper.len() implies (#[trigger] upper[i]).height
        == row_height by {
        assert(upper[i] == tile_row(
            primary_ratio,
            gap,
            view_count,
            usable_width,
            usable_height,
            i,
        ));
    }
    lemma_total_of_equal_heights(upper, row_height);
    let above = rows - 1;
    assert(total_height(column) == above * row_height + last_height);
    assert(even * rows <= usable_height && 0 <= even) by (nonlinear_arith)
        requires
            rows > 0,
            usable_height >= 0,
            even == usable_height as int / rows,
    ;
    assert(stride * above == even * above + half * above) by (nonlinear_arith)
        requires
            stride == even + half,
    ;
    assert(even * rows == even * above + even) by (nonlinear_arith)
        requires
            rows == above + 1,
    ;
    assert(0 <= above * row_height <= even * above) by (nonlinear_arith)
        requires
            0 <= above,
            0 <= row_height <= even,
    ;
    assert(0 <= half * above) by (nonlinear_arith)
        requires
            0 <= above,
            0 <= half,
    ;
    let total = above * row_height + last_height;
    if above == 0 {
        assert(stride * above == 0) by (nonlinear_arith)
            requires
                above == 0,
        ;
        assert(above * row_height == 0) by (nonlinear_arith)
            requires
                above == 0,
        ;
        assert(total == usable_height);
    } else if usable_height == 0 {
        assert(even == 0);
        assert(above * row_height == 0) by (nonlinear_arith)
            requires
                row_height == 0,
        ;
        assert(total == 0);
    } else if half == 0 {
        assert(half * above == 0) by (nonlinear_arith)
            requires
                half == 0,
        ;
        assert(above * row_height == even * above) by (nonlinear_arith)
            requires
                row_height == even,
        ;
        assert(total == usable_height);
    } else {
        assert(half * above >= 1) by (nonlinear_arith)
            requires
                above >= 1,
                half >= 1,
        ;
        if row_height > 0 {
            assert(above * row_height < even * above) by (nonlinear_arith)
                requires
                    above >= 1,
                    row_height < even,
            ;
        }
        assert(total < usable_height);
    }
}

/// The rows of the tiled column never overlap: each ends before the next one
/// begins.
pub proof fn lemma_tile_rows_apart(
    primary_ratio: u32,
    gap: u32,
    view_count: u32,
    usable_width: u32,
    usable_height: u32,
    upper: int,
    lower: int,
)
    requires
        0 <= upper < lower < view_count - 1,
    ensures
        tile_row(primary_ratio, gap, view_count, usable_width, usable_height, upper).y + tile_row(
            primary_ratio,
            gap,
            view_count,
            usable_width,
            usable_height,
            upper,
        ).height <= tile_row(
            primary_ratio,
            gap,
            view_count,
            usable_width,
            usable_height,
            lower,
        ).y,
{
    let rows = view_count - 1;
    let stride = row_stride(gap, rows, usable_height);
    assert(0 <= usable_height as int / rows) by (nonlinear_arith)
        requires
            rows > 0,
            usable_height >= 0,
    ;
    lemma_product_grows(stride, upper + 1, lower);
    assert(stride * (upper + 1) == stride * upper + stride) by (nonlinear_arith);
}

/// Where the last row of the tiled column begins within the usable height
/// and half of the gap is no more than a row's even share, the rows lie
/// twice half of the gap apart, and the last one ends at the bottom of the
/// usable area.
pub proof fn lemma_tile_rows_adjoin(
    primary_ratio: u32,
    gap: u32,
    view_count: u32,
    usable_width: u32,
    usable_height: u32,
    row: int,
)
    requires
        view_count >= 2,
        0 <= row < view_count - 1,
        gap as int / 2 <= usable_height as int / (view_count - 1),
        row_stride(gap, view_count - 1, usable_height) * (view_count - 2) <= usable_height,
    ensures
        row < view_count - 2 ==> tile_row(
            primary_ratio,
            gap,
            view_count,
            usable_width,
            usable_height,
            row,
        ).y + tile_row(primary_ratio, gap, view_count, usable_width, usable_height, row).height
            + 2 * (gap / 2) == tile_row(
            primary_ratio,
            gap,
            view_count,
            usable_width,
            usable_height,
            row + 1,
        ).y,
        row == view_count - 2 ==> tile_row(
            primary_ratio,
            gap,
            view_count,
            usable_width,
            usable_height,
            row,
        ).y + tile_row(primary_ratio, gap, view_count, usable_width, usable_height, row).height
            == usable_height,
{
    let rows = view_count - 1;
    let stride = row_stride(gap, rows, usable_height);
    assert(stride * (row + 1) == stride * row + stride) by (nonlinear_arith);
}

/// Where the ratio is no more than one and the gap no more than the primary
/// share, the primary window, the gap and the column beside it fill the
/// usable width exactly.
pub proof fn lemma_columns_fill_width(primary_ratio: u32, gap: u32, usable_width: u32)
    requires
        primary_ratio <= RATIO_ONE,
        gap <= share(usable_width, primary_ratio),
    ensures
        primary_width(primary_ratio, gap, usable_width) + gap + secondary_width(
            primary_ratio,
            gap,
            usable_width,
        ) == usable_width,
        secondary_offset(primary_ratio, gap, usable_width) == share(usable_width, primary_ratio),
{
    lemma_share_rounds_up(usable_width, primary_ratio);
}

/// The windows of a cascade are emitted from the lowest up: each lies twice
/// the gap above the one emitted before it, and the last lies at the top.
/// This holds of the stacked column and of the full-width cascade.
pub proof fn lemma_cascade_steps(
    primary_ratio: u32,
    gap: u32,
    view_count: u32,
    usable_width: u32,
    usable_height: u32,
    position: int,
)
    requires
        0 <= position,
    ensures
        position < view_count - 2 ==> stack_row(
            primary_ratio,
            gap,
            view_count,
            usable_width,
            usable_height,
            position,
        ).y == stack_row(
            primary_ratio,
            gap,
            view_count,
            usable_width,
            usable_height,
            position + 1,
        ).y + 2 * gap,
        position == view_count - 2 ==> stack_row(
            primary_ratio,
            gap,
            view_count,
            usable_width,
            usable_height,
            position,
        ).y == 0,
        position < view_count - 1 ==> mono_row(
            gap,
            view_count,
            usable_width,
            usable_height,
            position,
        ).y == mono_row(gap, view_count, usable_width, usable_height, position + 1).y + 2 * gap,
        position == view_count - 1 ==> mono_row(
            gap,
            view_count,
            usable_width,
            usable_height,
            position,
        ).y == 0,
{
    let step = 2 * gap;
    assert(step * (view_count - 2 - position) == step * (view_count - 3 - position) + step)
        by (nonlinear_arith);
    assert(step * (view_count - 1 - position) == step * (view_count - 2 - position) + step)
        by (nonlinear_arith);
    assert(step * 0 == 0) by (nonlinear_arith);
}

/// A product of two numbers of 32 bits, and what follows for a sum with such
/// a product.
proof fn lemma_product_of_u32(a: u32, b: u32)
    ensures
        0 <= a * b <= 0xffff_fffe_0000_0001,
{
    assert(0 <= a * b <= 0xffff_fffe_0000_0001) by (nonlinear_arith)
        requires
            0 <= a <= 0xffff_ffff,
            0 <= b <= 0xffff_ffff,
    ;
}

/// A product grows with its second factor.
proof fn lemma_product_grows(a: int, b: int, c: int)
    requires
        0 <= a,
        0 <= b <= c,
    ensures
        0 <= a * b <= a * c,
{
    assert(0 <= a * b <= a * c) by (nonlinear_arith)
        requires
            0 <= a,
            0 <= b <= c,
    ;
}

/// Views that were appended one by one, each denoting the rectangle wanted at
/// its place, denote together the rectangles wanted.
proof fn lemma_appended(before: Seq<view::View>, now: Seq<view::View>, wanted: Seq<Rect>)
    requires
        now.len() == before.len() + wanted.len(),
        forall|k: int|
            0 <= k < wanted.len() ==> (#[trigger] now[before.len() + k]).rect() == wanted[k],
    ensures
        rects(now.skip(before.len() as int)) == wanted,
{
    let added = now.skip(before.len() as int);
    assert forall|k: int| 0 <= k < added.len() implies rects(added)[k] == wanted[k] by {
        assert(added[k] == now[before.len() + k]);
    }
    assert(rects(added) =~= wanted);
}

/// The share `primary_ratio` of `usable_width`, rounded up to whole pixels.
pub fn primary_share(usable_width: u32, primary_ratio: u32) -> (pixels: u32)
    ensures
        pixels == share(usable_width, primary_ratio),
{
    proof {
        lemma_product_of_u32(usable_width, primary_ratio);
    }
    let pixels: u64 = (usable_width as u64 * primary_ratio as u64 + (RATIO_ONE as u64 - 1))
        / RATIO_ONE as u64;
    if pixels > u32::MAX as u64 {
        u32::MAX
    } else {
        pixels as u32
    }
}

/// Appends the tiled arrangement of `view_count` windows to `views`.
pub fn standard_tile(
    views: &mut Vec<view::View>,
    primary_ratio: u32,
    gap: u32,
    view_count: u32,
    usable_width: u32,
    usable_height: u32,
)
    requires
        tile_fits(primary_ratio, gap, view_count, usable_width, usable_height),
    ensures
        final(views)@.len() == old(views)@.len() + tile(
            primary_ratio,
            gap,
            view_count,
            usable_width,
            usable_height,
        ).len(),
        final(views)@.take(old(views)@.len() as int) == old(views)@,
        rects(final(views)@.skip(old(views)@.len() as int)) == tile(
            primary_ratio,
            gap,
            view_count,
            usable_width,
            usable_height,
        ),
        view_count >= 1 ==> final(views)@.len() == old(views)@.len() + view_count,
{
    let ghost wanted = tile(primary_ratio, gap, view_count, usable_width, usable_height);
    let ghost before = views@;
    let secondary_count = view_count.saturating_sub(1);
    if secondary_count == 0 {
        views.push(view::View { x: 0, y: 0, width: usable_width, height: usable_height });
        assert(views@.take(before.len() as int) =~= before);
        proof {
            lemma_appended(before, views@, wanted);
        }
        return ;
    }
    let primary = primary_share(usable_width, primary_ratio).saturating_sub(gap);
    let secondary_width = usable_width.saturating_sub(primary).saturating_sub(gap);
    let secondary_offset = (primary + gap) as i32;
    let secondary_height = usable_height / secondary_count;
    let half_gap = gap / 2;
    let stride: u64 = secondary_height as u64 + half_gap as u64;
    views.push(view::View { x: 0, y: 0, width: primary, height: usable_height });
    let mut row: u32 = 0;
    while row < secondary_count - 1
        invariant
            row <= secondary_count - 1,
            secondary_count == view_count - 1,
            secondary_count >= 1,
            stride == row_stride(gap, secondary_count as int, usable_height),
            stride * (secondary_count - 1) <= i32::MAX,
            secondary_height == usable_height as int / (secondary_count as int),
            half_gap == gap as int / 2,
            secondary_offset == self::secondary_offset(primary_ratio, gap, usable_width),
            secondary_width == self::secondary_width(primary_ratio, gap, usable_width),
            wanted == tile(primary_ratio, gap, view_count, usable_width, usable_height),
            views@.len() == before.len() + 1 + row,
            views@.take(before.len() as int) == before,
            forall|k: int|
                0 <= k < 1 + row ==> (#[trigger] views@[before.len() + k]).rect() == wanted[k],
        decreases secondary_count - 1 - row,
    {
        proof {
            lemma_product_grows(stride as int, row as int, secondary_count - 1);
        }
        let ghost earlier = views@;
        views.push(
            view::View {
                x: secondary_offset,
                y: (stride * row as u64) as i32,
                width: secondary_width,
                height: secondary_height.saturating_sub(half_gap),
            },
        );
        proof {
            assert(views@.take(before.len() as int) =~= earlier.take(before.len() as int));
            assert forall|k: int| 0 <= k < 2 + row implies (#[trigger] views@[before.len()
                + k]).rect() == wanted[k] by {
                if k < 1 + row {
                    assert(views@[before.len() + k] == earlier[before.len() + k]);
                }
            }
        }
        row = row + 1;
    }
    let top: u64 = stride * (secondary_count - 1) as u64;
    let height: u32 = if top <= usable_height as u64 {
        (usable_height as u64 - top) as u32
    } else {
        0
    };
    let ghost earlier = views@;
    views.push(
        view::View { x: secondary_offset, y: top as i32, width: secondary_width, height },
    );
    proof {
        assert(views@.take(before.len() as int) =~= earlier.take(before.len() as int));
        assert forall|k: int| 0 <= k < view_count implies (#[trigger] views@[before.len()
            + k]).rect() == wanted[k] by {
            if k < view_count - 1 {
                assert(views@[before.len() + k] == earlier[before.len() + k]);
            }
        }
        lemma_appended(before, views@, wanted);
    }
}

/// Appends the stacked arrangement of `view_count` windows to `views`.
pub fn stack(
    views: &mut Vec<view::View>,
    primary_ratio: u32,
    gap: u32,
    view_count: u32,
    usable_width: u32,
    usable_height: u32,
)
    requires
        stack_fits(primary_ratio, gap, view_count, usable_width),
    ensures
        final(views)@.len() == old(views)@.len() + stack_of(
            primary_ratio,
            gap,
            view_count,
            usable_width,
            usable_height,
        ).len(),
        final(views)@.take(old(views)@.len() as int) == old(views)@,
        rects(final(views)@.skip(old(views)@.len() as int)) == stack_of(
            primary_ratio,
            gap,
            view_count,
            usable_width,
            usable_height,
        ),
        view_count >= 1 ==> final(views)@.len() == old(views)@.len() + view_count,
{
    let ghost wanted = stack_of(primary_ratio, gap, view_count, usable_width, usable_height);
    let ghost before = views@;
    let secondary_count = view_count.saturating_sub(1);
    if secondary_count == 0 {
        views.push(view::View { x: 0, y: 0, width: usable_width, height: usable_height });
        assert(views@.take(before.len() as int) =~= before);
        proof {
            lemma_appended(before, views@, wanted);
        }
        return ;
    }
    let primary = primary_share(usable_width, primary_ratio).saturating_sub(gap);
    let secondary_width = usable_width.saturating_sub(primary).saturating_sub(gap);
    let secondary_offset = (primary + gap) as i32;
    let step: u64 = 2 * gap as u64;
    let lowest: u64 = step * (secondary_count - 1) as u64;
    let secondary_height: u32 = if lowest <= usable_height as u64 {
        (usable_height as u64 - lowest) as u32
    } else {
        0
    };
    views.push(view::View { x: 0, y: 0, width: primary, height: usable_height });
    let mut row: u32 = secondary_count;
    while row > 0
        invariant
            row <= secondary_count,
            secondary_count == view_count - 1,
            secondary_count >= 1,
            step == 2 * gap,
            step * (secondary_count - 1) <= i32::MAX,
            secondary_height == cascade_height(gap, secondary_count as int, usable_height),
            secondary_offset == self::secondary_offset(primary_ratio, gap, usable_width),
            secondary_width == self::secondary_width(primary_ratio, gap, usable_width),
            wanted == stack_of(primary_ratio, gap, view_count, usable_width, usable_height),
            views@.len() == before.len() + 1 + (secondary_count - row),
            views@.take(before.len() as int) == before,
            forall|k: int|
                0 <= k < 1 + (secondary_count - row) ==> (#[trigger] views@[before.len()
                    + k]).rect() == wanted[k],
        decreases row,
    {
        row = row - 1;
        proof {
            lemma_product_grows(step as int, row as int, secondary_count - 1);
        }
        let ghost earlier = views@;
        views.push(
            view::View {
                x: secondary_offset,
                y: (step * row as u64) as i32,
                width: secondary_width,
                height: secondary_height,
            },
        );
        proof {
            assert(views@.take(before.len() as int) =~= earlier.take(before.len() as int));
            assert forall|k: int| 0 <= k < 1 + (secondary_count - row) implies (
            #[trigger] views@[before.len() + k]).rect() == wanted[k] by {
                if k < secondary_count - row {
                    assert(views@[before.len() + k] == earlier[before.len() + k]);
                }
            }
        }
    }
    proof {
        lemma_appended(before, views@, wanted);
    }
}

/// Appends the full-width cascade of `view_count` windows to `views`. The
/// primary ratio plays no part in it.
pub fn mono_stack(
    views: &mut Vec<view::View>,
    _primary_ratio: u32,
    gap: u32,
    view_count: u32,
    usable_width: u32,
    usable_height: u32,
)
    requires
        mono_stack_fits(gap, view_count),
    ensures
        final(views)@.len() == old(views)@.len() + view_count,
        final(views)@.take(old(views)@.len() as int) == old(views)@,
        rects(final(views)@.skip(old(views)@.len() as int)) == mono_stack_of(
            gap,
            view_count,
            usable_width,
            usable_height,
        ),
{
    let ghost wanted = mono_stack_of(gap, view_count, usable_width, usable_height);
    let ghost before = views@;
    assert(views@.take(before.len() as int) =~= before);
    if view_count == 0 {
        proof {
            lemma_appended(before, views@, wanted);
        }
        return ;
    }
    let step: u64 = 2 * gap as u64;
    let lowest: u64 = step * (view_count - 1) as u64;
    let height: u32 = if lowest <= usable_height as u64 {
        (usable_height as u64 - lowest) as u32
    } else {
        0
    };
    let mut row: u32 = view_count;
    while row > 0
        invariant
            row <= view_count,
            view_count >= 1,
            step == 2 * gap,
            step * (view_count - 1) <= i32::MAX,
            height == cascade_height(gap, view_count as int, usable_height),
            wanted == mono_stack_of(gap, view_count, usable_width, usable_height),
            views@.len() == before.len() + (view_count - row),
            views@.take(before.len() as int) == before,
            forall|k: int|
                0 <= k < view_count - row ==> (#[trigger] views@[before.len() + k]).rect()
                    == wanted[k],
        decreases row,
    {
        row = row - 1;
        proof {
            lemma_product_grows(step as int, row as int, view_count - 1);
        }
        let ghost earlier = views@;
        views.push(
            view::View { x: 0, y: (step * row as u64) as i32, width: usable_width, height },
        );
        proof {
            assert(views@.take(before.len() as int) =~= earlier.take(before.len() as int));
            assert forall|k: int| 0 <= k < view_count - row implies (#[trigger] views@[before.len()
                + k]).rect() == wanted[k] by {
                if k < view_count - row - 1 {
                    assert(views@[before.len() + k] == earlier[before.len() + k]);
                }
            }
        }
    }
    proof {
        lemma_appended(before, views@, wanted);
    }
}

impl Layout {
    /// The rectangles of this arrangement, the primary window's first.
    pub open spec fn rects(
        self,
        primary_ratio: u32,
        gap: u32,
        view_count: u32,
        usable_width: u32,
        usable_height: u32,
    ) -> Seq<Rect> {
        match self {
            Layout::Tile => tile(primary_ratio, gap, view_count, usable_width, usable_height),
            Layout::Stack => stack_of(
                primary_ratio,
                gap,
                view_count,
                usable_width,
                usable_height,
            ),
            Layout::MonoStack => mono_stack_of(gap, view_count, usable_width, usable_height),
        }
    }

    /// Every position of this arrangement is one that a view can hold.
    pub open spec fn fits(
        self,
        primary_ratio: u32,
        gap: u32,
        view_count: u32,
        usable_width: u32,
        usable_height: u32,
    ) -> bool {
        match self {
            Layout::Tile => tile_fits(primary_ratio, gap, view_count, usable_width, usable_height),
            Layout::Stack => stack_fits(primary_ratio, gap, view_count, usable_width),
            Layout::MonoStack => mono_stack_fits(gap, view_count),
        }
    }

    /// Whether every position of this arrangement is one that a view can
    /// hold.
    pub fn can_arrange(
        self,
        primary_ratio: u32,
        gap: u32,
        view_count: u32,
        usable_width: u32,
        usable_height: u32,
    ) -> (fits: bool)
        ensures
            fits == self.fits(primary_ratio, gap, view_count, usable_width, usable_height),
    {
        let limit: u128 = i32::MAX as u128;
        let rows: u32 = view_count.saturating_sub(1);
        let offset: u64 = primary_share(usable_width, primary_ratio).saturating_sub(gap) as u64
            + gap as u64;
        match self {
            Layout::Tile => {
                if rows == 0 {
                    return true;
                }
                let stride: u64 = (usable_height / rows) as u64 + (gap / 2) as u64;
                proof {
                    lemma_product_grows(stride as int, rows - 1, 0xffff_ffff);
                }
                offset <= i32::MAX as u64 && stride as u128 * (rows - 1) as u128 <= limit
            },
            Layout::Stack => {
                if rows == 0 {
                    return true;
                }
                let step: u64 = 2 * gap as u64;
                proof {
                    lemma_product_grows(step as int, rows - 1, 0xffff_ffff);
                }
                offset <= i32::MAX as u64 && step as u128 * (rows - 1) as u128 <= limit
            },
            Layout::MonoStack => {
                if view_count == 0 {
                    return true;
                }
                let step: u64 = 2 * gap as u64;
                proof {
                    lemma_product_grows(step as int, view_count - 1, 0xffff_ffff);
                }
                step as u128 * (view_count - 1) as u128 <= limit
            },
        }
    }

    /// Appends this arrangement of `view_count` windows to `views`.
    pub fn arrange(
        self,
        views: &mut Vec<view::View>,
        primary_ratio: u32,
        gap: u32,
        view_count: u32,
        usable_width: u32,
        usable_height: u32,
    )
        requires
            self.fits(primary_ratio, gap, view_count, usable_width, usable_height),
        ensures
            final(views)@.len() == old(views)@.len() + self.rects(
                primary_ratio,
                gap,
                view_count,
                usable_width,
                usable_height,
            ).len(),
            final(views)@.take(old(views)@.len() as int) == old(views)@,
            rects(final(views)@.skip(old(views)@.len() as int)) == self.rects(
                primary_ratio,
                gap,
                view_count,
                usable_width,
                usable_height,
            ),
    {
        match self {
            Layout::Tile => standard_tile(
                views,
                primary_ratio,
                gap,
                view_count,
                usable_width,
                usable_height,
            ),
            Layout::Stack => stack(
                views,
                primary_ratio,
                gap,
                view_count,
                usable_width,
                usable_height,
            ),
            Layout::MonoStack => mono_stack(
                views,
                primary_ratio,
                gap,
                view_count,
                usable_width,
                usable_height,
            ),
        }
    }

    /// The arrangement called `name`: `tile`, `stack` or `mono_stack`.
    pub fn from_name(name: &str) -> (layout: Option<Layout>)
        ensures
            layout == Layout::named(name@),
    {
        let text = chars_of(name);
        let end = text.len();
        assert(text@.subrange(0, end as int) =~= name@);
        if word_is(&text, 0, end, "tile") {
            Some(Layout::Tile)
        } else if word_is(&text, 0, end, "stack") {
            Some(Layout::Stack)
        } else if word_is(&text, 0, end, "mono_stack") {
            Some(Layout::MonoStack)
        } else {
            None
        }
    }

    /// The arrangement called `name`, if there is one.
    pub open spec fn named(name: Seq<char>) -> Option<Layout> {
        if name == "tile"@ {
            Some(Layout::Tile)
        } else if name == "stack"@ {
            Some(Layout::Stack)
        } else if name == "mono_stack"@ {
            Some(Layout::MonoStack)
        } else {
            None
        }
    }
}

} // verus!
