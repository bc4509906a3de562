//! Triangles into coverage.
//!
//! Every pixel a triangle's box holds is asked at a few points whether the triangle covers them.
//! The asking is the caller's; which points are asked, and what coverage they make, is settled
//! here.

use vstd::arithmetic::div_mod::lemma_fundamental_div_mod_converse;
use vstd::prelude::*;

use crate::geom::max;
use crate::geom::min;
use crate::path::FULL;
use crate::path::MAX_SIDE;

verus! {

/// A triangle's box in whole pixels, rounded outwards, and whether the triangle covers anything.
#[derive(Clone, Copy, Debug, PartialEq, Eq, Structural)]
pub struct TriangleBox {
    pub degenerate: bool,
    pub left: i32,
    pub top: i32,
    pub right: i32,
    pub bottom: i32,
}

/// A point that is asked about: which triangle, which pixel, and which of the pixel's points.
#[derive(Clone, Copy, Debug, PartialEq, Eq, Structural)]
pub struct Sample {
    pub triangle: usize,
    pub row: i32,
    pub column: i32,
    pub sub_y: i32,
    pub sub_x: i32,
}

impl TriangleBox {
    /// Whether the triangle can cover a point of the pixel.
    pub open spec fn reaches(self, row: int, column: int) -> bool {
        &&& !self.degenerate
        &&& self.left <= column < self.right
        &&& self.top <= row < self.bottom
    }
}

/// One where the point is covered, and otherwise zero.
pub open spec fn covered<F: Fn(Sample) -> bool>(covers: F, sample: Sample) -> nat {
    if covers.ensures((sample,), true) {
        1
    } else {
        0
    }
}

/// How many points of a pixel a triangle covers.
pub open spec fn hits<F: Fn(Sample) -> bool>(
    covers: F,
    boxes: Seq<TriangleBox>,
    triangle: int,
    row: int,
    column: int,
) -> nat {
    if boxes[triangle].reaches(row, column) {
        let at = |sub_y: int, sub_x: int|
            Sample {
                triangle: triangle as usize,
                row: row as i32,
                column: column as i32,
                sub_y: sub_y as i32,
                sub_x: sub_x as i32,
            };
        covered(covers, at(0, 0)) + covered(covers, at(0, 1)) + covered(covers, at(1, 0))
            + covered(covers, at(1, 1))
    } else {
        0
    }
}

/// How many points of a pixel the first so many triangles cover, each counted for every triangle
/// that covers it.
pub open spec fn total_hits<F: Fn(Sample) -> bool>(
    covers: F,
    boxes: Seq<TriangleBox>,
    upto: nat,
    row: int,
    column: int,
) -> nat
    decreases upto,
{
    if upto == 0 {
        0
    } else {
        total_hits(covers, boxes, (upto - 1) as nat, row, column) + hits(
            covers,
            boxes,
            upto - 1,
            row,
            column,
        )
    }
}

/// The coverage of a pixel of which so many points are covered, out of two hundred and fifty-five.
pub open spec fn coverage(points: nat) -> u8 {
    if points == 0 {
        0
    } else if points == 1 {
        64
    } else if points == 2 {
        128
    } else if points == 3 {
        191
    } else {
        255
    }
}

/// Whether asking is a function of the point: it always answers, and never both ways.
pub open spec fn decides<F: Fn(Sample) -> bool>(covers: F) -> bool {
    &&& forall|sample: Sample| #[trigger] covers.requires((sample,))
    &&& forall|sample: Sample|
        !(#[trigger] covers.ensures((sample,), true) && covers.ensures((sample,), false))
}

/// Whether a point is asked about: one of a pixel of the mask that a triangle's box reaches.
pub open spec fn asked(boxes: Seq<TriangleBox>, width: i32, height: i32, sample: Sample) -> bool {
    &&& sample.triangle < boxes.len()
    &&& 0 <= sample.row < height
    &&& 0 <= sample.column < width
    &&& boxes[sample.triangle as int].reaches(sample.row as int, sample.column as int)
    &&& 0 <= sample.sub_y < 2
    &&& 0 <= sample.sub_x < 2
}

/// Whether asking about the point gave an answer.
pub open spec fn answered<F: Fn(Sample) -> bool>(covers: F, sample: Sample) -> bool {
    covers.ensures((sample,), true) || covers.ensures((sample,), false)
}

/// Whether every point of a pixel that a triangle's box reaches was answered.
spec fn answered_at<F: Fn(Sample) -> bool>(
    covers: F,
    triangle: usize,
    row: i32,
    column: i32,
) -> bool {
    forall|sample: Sample|
        sample.triangle == triangle && sample.row == row && sample.column == column && 0
            <= sample.sub_y < 2 && 0 <= sample.sub_x < 2 ==> #[trigger] answered(covers, sample)
}

/// What is counted for a pixel, which no more than full coverage is.
spec fn counted(points: nat) -> nat {
    if points < FULL {
        points
    } else {
        FULL as nat
    }
}

fn ask<F: Fn(Sample) -> bool>(covers: &F, sample: Sample) -> (points: u8)
    requires
        decides(*covers),
    ensures
        points == covered(*covers, sample),
        answered(*covers, sample),
{
    if covers(sample) {
        1
    } else {
        0
    }
}

/// How many points of a pixel a triangle covers.
fn count_hits<F: Fn(Sample) -> bool>(
    covers: &F,
    boxes: &Vec<TriangleBox>,
    triangle: usize,
    row: i32,
    column: i32,
) -> (points: u8)
    requires
        decides(*covers),
        triangle < boxes@.len(),
        boxes@[triangle as int].reaches(row as int, column as int),
    ensures
        points == hits(*covers, boxes@, triangle as int, row as int, column as int),
        points <= FULL,
        answered_at(*covers, triangle, row, column),
{
    let first = ask(covers, Sample { triangle, row, column, sub_y: 0, sub_x: 0 });
    let second = ask(covers, Sample { triangle, row, column, sub_y: 0, sub_x: 1 });
    let third = ask(covers, Sample { triangle, row, column, sub_y: 1, sub_x: 0 });
    let fourth = ask(covers, Sample { triangle, row, column, sub_y: 1, sub_x: 1 });
    first + second + third + fourth
}

/// What each pixel counts when the pixels before `row` and, in it, before `column` have been
/// asked about a triangle.
spec fn after_some<F: Fn(Sample) -> bool>(
    covers: F,
    boxes: Seq<TriangleBox>,
    triangle: int,
    width: int,
    before: Seq<u8>,
    row: int,
    column: int,
    i: int,
) -> nat {
    let (r, c) = (i / width, i % width);
    if r < row || (r == row && c < column) {
        counted(before[i] as nat + hits(covers, boxes, triangle, r, c))
    } else {
        before[i] as nat
    }
}

/// Adds what one triangle covers to every pixel's count.
fn add_triangle<F: Fn(Sample) -> bool>(
    counts: &mut Vec<u8>,
    covers: &F,
    boxes: &Vec<TriangleBox>,
    triangle: usize,
    width: i32,
    height: i32,
)
    requires
        decides(*covers),
        triangle < boxes@.len(),
        0 < width <= MAX_SIDE,
        0 < height <= MAX_SIDE,
        old(counts)@.len() == width * height,
        forall|i: int| 0 <= i < old(counts)@.len() ==> #[trigger] old(counts)@[i] <= FULL,
    ensures
        final(counts)@.len() == width * height,
        forall|i: int|
            0 <= i < final(counts)@.len() ==> #[trigger] final(counts)@[i] == counted(
                old(counts)@[i] as nat + hits(
                    *covers,
                    boxes@,
                    triangle as int,
                    i / (width as int),
                    i % (width as int),
                ),
            ),
        forall|sample: Sample|
            sample.triangle == triangle && asked(boxes@, width, height, sample)
                ==> #[trigger] answered(*covers, sample),
{
    let bounds = boxes[triangle];
    if bounds.degenerate {
        return ;
    }
    let left: i32 = if bounds.left > 0 {
        bounds.left
    } else {
        0
    };
    let right: i32 = if bounds.right < width {
        bounds.right
    } else {
        width
    };
    let top: i32 = if bounds.top > 0 {
        bounds.top
    } else {
        0
    };
    let bottom: i32 = if bounds.bottom < height {
        bounds.bottom
    } else {
        height
    };
    let ghost before = counts@;
    let ghost w = width as int;
    let mut row: i32 = top;
    proof {
        assert forall|i: int| 0 <= i < counts@.len() implies #[trigger] counts@[i] == after_some(
            *covers,
            boxes@,
            triangle as int,
            w,
            before,
            row as int,
            0,
            i,
        ) by {
            lemma_place(i, w, height as int);
        }
    }
    while row < bottom
        invariant
            decides(*covers),
            triangle < boxes@.len(),
            bounds == boxes@[triangle as int],
            !bounds.degenerate,
            w == width,
            0 < width <= MAX_SIDE,
            0 < height <= MAX_SIDE,
            left == max(bounds.left as int, 0),
            right == min(bounds.right as int, width as int),
            top == max(bounds.top as int, 0),
            bottom == min(bounds.bottom as int, height as int),
            top <= row,
            bottom > top ==> row <= bottom,
            before.len() == width * height,
            counts@.len() == width * height,
            forall|i: int| 0 <= i < before.len() ==> #[trigger] before[i] <= FULL,
            forall|i: int|
                0 <= i < counts@.len() ==> #[trigger] counts@[i] == after_some(
                    *covers,
                    boxes@,
                    triangle as int,
                    w,
                    before,
                    row as int,
                    0,
                    i,
                ),
            forall|sample: Sample|
                sample.triangle == triangle && sample.row < row && asked(
                    boxes@,
                    width,
                    height,
                    sample,
                ) ==> #[trigger] answered(*covers, sample),
        decreases bottom - row,
    {
        let mut column: i32 = left;
        proof {
            assert forall|i: int| 0 <= i < counts@.len() implies #[trigger] counts@[i]
                == after_some(
                *covers,
                boxes@,
                triangle as int,
                w,
                before,
                row as int,
                column as int,
                i,
            ) by {
                lemma_place(i, w, height as int);
            }
        }
        while column < right
            invariant
                decides(*covers),
                triangle < boxes@.len(),
                bounds == boxes@[triangle as int],
                !bounds.degenerate,
                w == width,
                0 < width <= MAX_SIDE,
                0 < height <= MAX_SIDE,
                left == max(bounds.left as int, 0),
                right == min(bounds.right as int, width as int),
                top == max(bounds.top as int, 0),
                bottom == min(bounds.bottom as int, height as int),
                top <= row < bottom,
                left <= column,
                right > left ==> column <= right,
                before.len() == width * height,
                counts@.len() == width * height,
                forall|i: int| 0 <= i < before.len() ==> #[trigger] before[i] <= FULL,
                forall|i: int|
                    0 <= i < counts@.len() ==> #[trigger] counts@[i] == after_some(
                        *covers,
                        boxes@,
                        triangle as int,
                        w,
                        before,
                        row as int,
                        column as int,
                        i,
                    ),
                forall|sample: Sample|
                    sample.triangle == triangle && (sample.row < row || (sample.row == row
                        && sample.column < column)) && asked(boxes@, width, height, sample)
                        ==> #[trigger] answered(*covers, sample),
            decreases right - column,
        {
            let points = count_hits(covers, boxes, triangle, row, column);
            proof {
                lemma_index(row as int, column as int, w, height as int);
                assert(0 <= row * width <= 2048 * 2048) by (nonlinear_arith)
                    requires
                        0 <= row <= 2048,
                        0 <= width <= 2048,
                ;
            }
            let at: usize = (row * width + column) as usize;
            let ghost step = counts@;
            if points > 0 {
                let so_far = counts[at];
                let sum: u8 = so_far + points;
                counts.set(
                    at,
                    if sum < FULL {
                        sum
                    } else {
                        FULL
                    },
                );
            }
            proof {
                assert forall|i: int| 0 <= i < counts@.len() implies #[trigger] counts@[i]
                    == after_some(
                    *covers,
                    boxes@,
                    triangle as int,
                    w,
                    before,
                    row as int,
                    column + 1,
                    i,
                ) by {
                    assert(step[i] == after_some(
                        *covers,
                        boxes@,
                        triangle as int,
                        w,
                        before,
                        row as int,
                        column as int,
                        i,
                    ));
                    if i / w == row && i % w == column {
                        lemma_same_place(i, row as int, column as int, w);
                        assert(i == at);
                    } else if i == at {
                        assert(false);
                    }
                }
            }
            column = column + 1;
        }
        proof {
            assert forall|i: int| 0 <= i < counts@.len() implies #[trigger] counts@[i]
                == after_some(
                *covers,
                boxes@,
                triangle as int,
                w,
                before,
                row + 1,
                0,
                i,
            ) by {
                lemma_place(i, w, height as int);
            }
        }
        row = row + 1;
    }
    proof {
        assert forall|i: int| 0 <= i < counts@.len() implies #[trigger] counts@[i] == counted(
            before[i] as nat + hits(*covers, boxes@, triangle as int, i / w, i % w),
        ) by {
            lemma_place(i, w, height as int);
        }
    }
}

/// A pixel's place is within the mask.
proof fn lemma_place(i: int, width: int, height: int)
    requires
        0 <= i < width * height,
        0 < width,
        0 < height,
    ensures
        0 <= i / width < height,
        0 <= i % width < width,
{
    assert(0 <= i / width < height && 0 <= i % width < width) by (nonlinear_arith)
        requires
            0 <= i < width * height,
            0 < width,
            0 < height,
    ;
}

/// A place within the mask is a pixel's, and that of one pixel only.
proof fn lemma_index(row: int, column: int, width: int, height: int)
    requires
        0 <= row < height,
        0 <= column < width,
    ensures
        0 <= row * width + column < width * height,
        (row * width + column) / width == row,
        (row * width + column) % width == column,
{
    assert(0 <= row * width + column < width * height) by (nonlinear_arith)
        requires
            0 <= row < height,
            0 <= column < width,
    ;
    lemma_fundamental_div_mod_converse(row * width + column, width, row, column);
}

proof fn lemma_same_place(i: int, row: int, column: int, width: int)
    requires
        0 < width,
        i / width == row,
        i % width == column,
    ensures
        i == row * width + column,
{
    vstd::arithmetic::div_mod::lemma_fundamental_div_mod(i, width);
    assert(width * (i / width) == row * width) by (nonlinear_arith)
        requires
            i / width == row,
    ;
}

/// Rasterises triangles into single-channel coverage, row by row.
///
/// Coverage saturates: triangles inside a shape meet edge to edge, and one along a curve overlaps
/// the inside it completes.
pub fn raster<F: Fn(Sample) -> bool>(
    boxes: &Vec<TriangleBox>,
    width: i32,
    height: i32,
    covers: F,
) -> (bytes: Vec<u8>)
    requires
        decides(covers),
        0 < width <= MAX_SIDE,
        0 < height <= MAX_SIDE,
    ensures
        bytes@.len() == width * height,
        forall|i: int|
            0 <= i < bytes@.len() ==> #[trigger] bytes@[i] == coverage(
                total_hits(
                    covers,
                    boxes@,
                    boxes@.len(),
                    i / (width as int),
                    i % (width as int),
                ),
            ),
        forall|sample: Sample| #[trigger]
            asked(boxes@, width, height, sample) ==> answered(covers, sample),
{
    proof {
        assert(0 < width * height <= 2048 * 2048) by (nonlinear_arith)
            requires
                0 < width <= 2048,
                0 < height <= 2048,
        ;
    }
    let len: usize = (width * height) as usize;
    let ghost w = width as int;
    let mut counts: Vec<u8> = vec![0u8; len];
    let mut triangle: usize = 0;
    while triangle < boxes.len()
        invariant
            decides(covers),
            w == width,
            0 < width <= MAX_SIDE,
            0 < height <= MAX_SIDE,
            triangle <= boxes@.len(),
            counts@.len() == width * height,
            forall|i: int|
                0 <= i < counts@.len() ==> #[trigger] counts@[i] == counted(
                    total_hits(covers, boxes@, triangle as nat, i / w, i % w),
                ),
            forall|sample: Sample|
                sample.triangle < triangle && asked(boxes@, width, height, sample)
                    ==> #[trigger] answered(covers, sample),
        decreases boxes@.len() - triangle,
    {
        let ghost before = counts@;
        add_triangle(&mut counts, &covers, boxes, triangle, width, height);
        proof {
            assert forall|i: int| 0 <= i < counts@.len() implies #[trigger] counts@[i] == counted(
                total_hits(covers, boxes@, (triangle + 1) as nat, i / w, i % w),
            ) by {
                assert(before[i] == counted(
                    total_hits(covers, boxes@, triangle as nat, i / w, i % w),
                ));
            }
        }
        triangle = triangle + 1;
    }
    let ghost total = counts@;
    let mut at: usize = 0;
    while at < counts.len()
        invariant
            w == width,
            at <= counts@.len(),
            counts@.len() == width * height,
            total.len() == counts@.len(),
            triangle == boxes@.len(),
            forall|sample: Sample|
                sample.triangle < triangle && asked(boxes@, width, height, sample)
                    ==> #[trigger] answered(covers, sample),
            forall|i: int|
                0 <= i < total.len() ==> #[trigger] total[i] == counted(
                    total_hits(covers, boxes@, boxes@.len(), i / w, i % w),
                ),
            forall|i: int| at <= i < counts@.len() ==> #[trigger] counts@[i] == total[i],
            forall|i: int|
                0 <= i < at ==> #[trigger] counts@[i] == coverage(
                    total_hits(covers, boxes@, boxes@.len(), i / w, i % w),
                ),
        decreases counts@.len() - at,
    {
        let points = counts[at];
        proof {
            assert(total[at as int] == counted(
                total_hits(covers, boxes@, boxes@.len(), at as int / w, at as int % w),
            ));
        }
        counts.set(
            at,
            match points {
                0 => 0,
                1 => 64,
                2 => 128,
                3 => 191,
                _ => 255,
            },
        );
        at = at + 1;
    }
    counts
}

/// More triangles never take coverage away.
pub proof fn law_coverage_only_grows<F: Fn(Sample) -> bool>(
    covers: F,
    boxes: Seq<TriangleBox>,
    some: nat,
    more: nat,
    row: int,
    column: int,
)
    requires
        some <= more,
    ensures
        coverage(total_hits(covers, boxes, some, row, column)) <= coverage(
            total_hits(covers, boxes, more, row, column),
        ),
    decreases more,
{
    lemma_hits_only_grow(covers, boxes, some, more, row, column);
}

proof fn lemma_hits_only_grow<F: Fn(Sample) -> bool>(
    covers: F,
    boxes: Seq<TriangleBox>,
    some: nat,
    more: nat,
    row: int,
    column: int,
)
    requires
        some <= more,
    ensures
        total_hits(covers, boxes, some, row, column) <= total_hits(
            covers,
            boxes,
            more,
            row,
            column,
        ),
    decreases more,
{
    if some < more {
        lemma_hits_only_grow(covers, boxes, some, (more - 1) as nat, row, column);
    }
}

/// Whether the triangle at `one` of a list and the triangle at `two` of another are the same: their
/// boxes are, and they cover the same points.
pub open spec fn same_triangle<F: Fn(Sample) -> bool, G: Fn(Sample) -> bool>(
    covers: F,
    boxes: Seq<TriangleBox>,
    one: int,
    others: G,
    other_boxes: Seq<TriangleBox>,
    two: int,
) -> bool {
    &&& boxes[one] == other_boxes[two]
    &&& forall|row: i32, column: i32, sub_y: i32, sub_x: i32|
        covered(covers, Sample { triangle: one as usize, row, column, sub_y, sub_x })
            == #[trigger] covered(
            others,
            Sample { triangle: two as usize, row, column, sub_y, sub_x },
        )
}

/// Whether `order` lists each of so many triangles once.
pub open spec fn lists_each_once(order: Seq<int>, count: nat) -> bool {
    &&& order.len() == count
    &&& order.no_duplicates()
    &&& forall|i: int| 0 <= i < order.len() ==> 0 <= #[trigger] order[i] < count
    &&& forall|triangle: int| 0 <= triangle < count ==> #[trigger] order.contains(triangle)
}

/// The points of a pixel that the triangles `order` names cover, each counted for every triangle.
spec fn hits_along<F: Fn(Sample) -> bool>(
    covers: F,
    boxes: Seq<TriangleBox>,
    order: Seq<int>,
    row: int,
    column: int,
) -> nat
    decreases order.len(),
{
    if order.len() == 0 {
        0
    } else {
        hits_along(covers, boxes, order.drop_last(), row, column) + hits(
            covers,
            boxes,
            order.last(),
            row,
            column,
        )
    }
}

/// Leaving one triangle out leaves out what it covers.
proof fn lemma_hits_without<F: Fn(Sample) -> bool>(
    covers: F,
    boxes: Seq<TriangleBox>,
    order: Seq<int>,
    at: int,
    row: int,
    column: int,
)
    requires
        0 <= at < order.len(),
    ensures
        hits_along(covers, boxes, order, row, column) == hits_along(
            covers,
            boxes,
            order.remove(at),
            row,
            column,
        ) + hits(covers, boxes, order[at], row, column),
    decreases order.len(),
{
    if at == order.len() - 1 {
        assert(order.remove(at) =~= order.drop_last());
    } else {
        lemma_hits_without(covers, boxes, order.drop_last(), at, row, column);
        assert(order.remove(at).drop_last() =~= order.drop_last().remove(at));
        assert(order.remove(at).last() == order.last());
    }
}

/// Counting along a list that names each triangle once is counting them all.
proof fn lemma_hits_in_any_order<F: Fn(Sample) -> bool>(
    covers: F,
    boxes: Seq<TriangleBox>,
    order: Seq<int>,
    count: nat,
    row: int,
    column: int,
)
    requires
        lists_each_once(order, count),
    ensures
        hits_along(covers, boxes, order, row, column) == total_hits(
            covers,
            boxes,
            count,
            row,
            column,
        ),
    decreases count,
{
    if count > 0 {
        let last = count - 1;
        assert(order.contains(last));
        let at = choose|at: int| 0 <= at < order.len() && order[at] == last;
        let rest = order.remove(at);
        lemma_hits_without(covers, boxes, order, at, row, column);
        assert forall|i: int| 0 <= i < rest.len() implies 0 <= #[trigger] rest[i] < last by {
            if i < at {
                assert(rest[i] == order[i]);
            } else {
                assert(rest[i] == order[i + 1]);
            }
        }
        assert forall|triangle: int| 0 <= triangle < last implies #[trigger] rest.contains(
            triangle,
        ) by {
            assert(order.contains(triangle));
            let i = choose|i: int| 0 <= i < order.len() && order[i] == triangle;
            if i < at {
                assert(rest[i] == triangle);
            } else {
                assert(rest[i - 1] == triangle);
            }
        }
        assert(rest.no_duplicates()) by {
            assert forall|i: int, j: int|
                0 <= i < rest.len() && 0 <= j < rest.len() && i != j implies rest[i] != rest[j] by {
                let k = if i < at { i } else { i + 1 };
                let l = if j < at { j } else { j + 1 };
                assert(rest[i] == order[k] && rest[j] == order[l]);
            }
        }
        lemma_hits_in_any_order(covers, boxes, rest, last as nat, row, column);
    }
}

/// The first so many triangles of a list that is in another order cover what the ones it names do.
proof fn lemma_hits_of_named<F: Fn(Sample) -> bool, G: Fn(Sample) -> bool>(
    covers: F,
    boxes: Seq<TriangleBox>,
    others: G,
    other_boxes: Seq<TriangleBox>,
    order: Seq<int>,
    upto: nat,
    row: int,
    column: int,
)
    requires
        upto <= order.len(),
        forall|i: int|
            0 <= i < order.len() ==> same_triangle(
                covers,
                boxes,
                #[trigger] order[i],
                others,
                other_boxes,
                i,
            ),
    ensures
        total_hits(others, other_boxes, upto, row, column) == hits_along(
            covers,
            boxes,
            order.take(upto as int),
            row,
            column,
        ),
    decreases upto,
{
    if upto > 0 {
        lemma_hits_of_named(
            covers,
            boxes,
            others,
            other_boxes,
            order,
            (upto - 1) as nat,
            row,
            column,
        );
        assert(order.take(upto as int).drop_last() =~= order.take(upto - 1));
        assert(same_triangle(covers, boxes, order[upto - 1], others, other_boxes, upto - 1));
    }
}

/// The order of the triangles does not matter: listed in another order they cover every pixel as
/// they did.
pub proof fn law_order_of_triangles_is_irrelevant<F: Fn(Sample) -> bool, G: Fn(Sample) -> bool>(
    covers: F,
    boxes: Seq<TriangleBox>,
    others: G,
    other_boxes: Seq<TriangleBox>,
    order: Seq<int>,
    row: int,
    column: int,
)
    requires
        other_boxes.len() == boxes.len(),
        lists_each_once(order, boxes.len()),
        forall|i: int|
            0 <= i < order.len() ==> same_triangle(
                covers,
                boxes,
                #[trigger] order[i],
                others,
                other_boxes,
                i,
            ),
    ensures
        coverage(total_hits(others, other_boxes, other_boxes.len(), row, column)) == coverage(
            total_hits(covers, boxes, boxes.len(), row, column),
        ),
{
    lemma_hits_of_named(
        covers,
        boxes,
        others,
        other_boxes,
        order,
        other_boxes.len(),
        row,
        column,
    );
    assert(order.take(other_boxes.len() as int) =~= order);
    lemma_hits_in_any_order(covers, boxes, order, boxes.len(), row, column);
}

/// Where the triangle at `i` stands once another was put in at `at`.
pub open spec fn place_past(i: int, at: int) -> int {
    if i < at {
        i
    } else {
        i + 1
    }
}

/// A triangle without area adds nothing, wherever in the list it stands.
pub proof fn law_flat_triangle_adds_nothing<F: Fn(Sample) -> bool, G: Fn(Sample) -> bool>(
    covers: F,
    boxes: Seq<TriangleBox>,
    others: G,
    other_boxes: Seq<TriangleBox>,
    at: int,
    row: int,
    column: int,
)
    requires
        0 <= at <= boxes.len(),
        other_boxes.len() == boxes.len() + 1,
        other_boxes[at].degenerate,
        forall|i: int|
            0 <= i < boxes.len() ==> same_triangle(
                covers,
                boxes,
                i,
                others,
                other_boxes,
                #[trigger] place_past(i, at),
            ),
    ensures
        coverage(total_hits(others, other_boxes, other_boxes.len(), row, column)) == coverage(
            total_hits(covers, boxes, boxes.len(), row, column),
        ),
{
    lemma_hits_past_flat(
        covers,
        boxes,
        others,
        other_boxes,
        at,
        other_boxes.len(),
        row,
        column,
    );
}

/// The first so many triangles of a list with a flat one in it cover what those before and after it
/// do.
proof fn lemma_hits_past_flat<F: Fn(Sample) -> bool, G: Fn(Sample) -> bool>(
    covers: F,
    boxes: Seq<TriangleBox>,
    others: G,
    other_boxes: Seq<TriangleBox>,
    at: int,
    upto: nat,
    row: int,
    column: int,
)
    requires
        0 <= at <= boxes.len(),
        other_boxes.len() == boxes.len() + 1,
        other_boxes[at].degenerate,
        upto <= other_boxes.len(),
        forall|i: int|
            0 <= i < boxes.len() ==> same_triangle(
                covers,
                boxes,
                i,
                others,
                other_boxes,
                #[trigger] place_past(i, at),
            ),
    ensures
        total_hits(others, other_boxes, upto, row, column) == total_hits(
            covers,
            boxes,
            if upto <= at {
                upto
            } else {
                (upto - 1) as nat
            },
            row,
            column,
        ),
    decreases upto,
{
    if upto > 0 {
        lemma_hits_past_flat(
            covers,
            boxes,
            others,
            other_boxes,
            at,
            (upto - 1) as nat,
            row,
            column,
        );
        let last = upto - 1;
        if last < at {
            assert(place_past(last, at) == last);
        } else if last > at {
            assert(place_past(last - 1, at) == last);
        }
    }
}

/// A pixel of which no point lies in a triangle is clear.
pub proof fn law_uncovered_pixel_is_clear<F: Fn(Sample) -> bool>(
    covers: F,
    boxes: Seq<TriangleBox>,
    upto: nat,
    row: int,
    column: int,
)
    requires
        forall|triangle: usize, sub_y: i32, sub_x: i32|
            triangle < upto ==> #[trigger] covered(
                covers,
                Sample { triangle, row: row as i32, column: column as i32, sub_y, sub_x },
            ) == 0,
        upto <= usize::MAX,
    ensures
        coverage(total_hits(covers, boxes, upto, row, column)) == 0,
    decreases upto,
{
    if upto > 0 {
        law_uncovered_pixel_is_clear(covers, boxes, (upto - 1) as nat, row, column);
        assert(total_hits(covers, boxes, (upto - 1) as nat, row, column) == 0);
    }
}

/// Coverage is the share of a pixel's four points that are covered, out of two hundred and
/// fifty-five and rounded to the nearest: nothing for none, everything for all, and no more for
/// points that several triangles cover.
pub proof fn law_coverage_is_the_share_of_points(points: nat)
    ensures
        points <= 4 ==> -2 <= 4 * coverage(points) - 255 * points <= 2,
        points > 4 ==> coverage(points) == 255,
        coverage(0) == 0 && coverage(4) == 255,
        points > 0 ==> coverage(points) > coverage((points - 1) as nat) || points > 4,
{
}

/// A triangle reaches a pixel exactly where it covers anything at all and the pixel lies in its
/// box, whose right and bottom edges are past the last pixel.
pub proof fn law_triangles_reach_their_box(bounds: TriangleBox, row: int, column: int)
    ensures
        bounds.degenerate ==> !bounds.reaches(row, column),
        !bounds.degenerate ==> (bounds.reaches(row, column) <==> bounds.left <= column
            <= bounds.right - 1 && bounds.top <= row <= bounds.bottom - 1),
{
}

/// A pixel all of whose points one triangle covers is fully covered, whatever the other triangles
/// do; and of a pixel that it reaches, each of the four points counts once.
pub proof fn law_covered_pixel_is_full<F: Fn(Sample) -> bool>(
    covers: F,
    boxes: Seq<TriangleBox>,
    upto: nat,
    triangle: usize,
    row: i32,
    column: i32,
)
    requires
        triangle < upto <= boxes.len(),
        boxes[triangle as int].reaches(row as int, column as int),
        forall|sub_y: i32, sub_x: i32|
            0 <= sub_y < 2 && 0 <= sub_x < 2 ==> #[trigger] covered(
                covers,
                Sample { triangle, row, column, sub_y, sub_x },
            ) == 1,
    ensures
        hits(covers, boxes, triangle as int, row as int, column as int) == 4,
        coverage(total_hits(covers, boxes, upto, row as int, column as int)) == 255,
{
    assert(covered(covers, Sample { triangle, row, column, sub_y: 0, sub_x: 0 }) == 1);
    assert(covered(covers, Sample { triangle, row, column, sub_y: 0, sub_x: 1 }) == 1);
    assert(covered(covers, Sample { triangle, row, column, sub_y: 1, sub_x: 0 }) == 1);
    assert(covered(covers, Sample { triangle, row, column, sub_y: 1, sub_x: 1 }) == 1);
    lemma_hits_only_grow(covers, boxes, (triangle + 1) as nat, upto, row as int, column as int);
}

/// A point that a triangle covers shows: a pixel with one is not clear.
pub proof fn law_touched_pixel_is_not_clear<F: Fn(Sample) -> bool>(
    covers: F,
    boxes: Seq<TriangleBox>,
    upto: nat,
    sample: Sample,
)
    requires
        sample.triangle < upto <= boxes.len(),
        boxes[sample.triangle as int].reaches(sample.row as int, sample.column as int),
        0 <= sample.sub_y < 2,
        0 <= sample.sub_x < 2,
        covers.ensures((sample,), true),
    ensures
        coverage(total_hits(covers, boxes, upto, sample.row as int, sample.column as int)) >= 64,
{
    let (row, column, triangle) = (sample.row, sample.column, sample.triangle);
    assert(covered(covers, sample) == 1);
    assert(sample == Sample { triangle, row, column, sub_y: sample.sub_y, sub_x: sample.sub_x });
    assert(hits(covers, boxes, triangle as int, row as int, column as int) >= 1);
    lemma_hits_only_grow(covers, boxes, (triangle + 1) as nat, upto, row as int, column as int);
}

/// A pixel counts at most four points to each triangle, and none to one that does not reach it.
pub proof fn law_four_points_to_a_triangle<F: Fn(Sample) -> bool>(
    covers: F,
    boxes: Seq<TriangleBox>,
    triangle: int,
    row: int,
    column: int,
)
    ensures
        hits(covers, boxes, triangle, row, column) <= 4,
        !boxes[triangle].reaches(row, column) ==> hits(covers, boxes, triangle, row, column) == 0,
        FULL == 4,
{
}

/// The points asked about are the four of every pixel of the mask that a triangle's box reaches,
/// and no others.
pub proof fn law_points_asked_are_those_reached(
    boxes: Seq<TriangleBox>,
    width: i32,
    height: i32,
    sample: Sample,
)
    requires
        sample.triangle < boxes.len(),
    ensures
        asked(boxes, width, height, sample) <==> {
            &&& boxes[sample.triangle as int].reaches(sample.row as int, sample.column as int)
            &&& 0 <= sample.row <= height - 1 && 0 <= sample.column <= width - 1
            &&& (sample.sub_y == 0 || sample.sub_y == 1) && (sample.sub_x == 0 || sample.sub_x
                == 1)
        },
{
}

} // verus!
