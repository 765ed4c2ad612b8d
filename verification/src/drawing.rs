//! Shapes drawn with stars, one line of text for each row.

use vstd::prelude::*;

verus! {

/// A row of `n` stars.
pub open spec fn stars(n: int) -> Seq<char> {
    Seq::new(n as nat, |i: int| '*')
}

/// Row `y` of a disc of radius `radius`, rows and columns counted from the
/// centre: a star wherever the point lies within the radius, a blank
/// elsewhere.
pub open spec fn disc_row(radius: int, y: int) -> Seq<char> {
    Seq::new(
        (2 * radius + 1) as nat,
        |i: int|
            if (i - radius) * (i - radius) + y * y <= radius * radius {
                '*'
            } else {
                ' '
            },
    )
}

fn star_row(n: usize) -> (r: String)
    ensures
        r@ == stars(n as int),
{
    let mut row = String::new();
    let mut i: usize = 0;
    while i < n
        invariant
            i <= n,
            row@ == stars(i as int),
        decreases n - i,
    {
        row.push('*');
        assert(row@ =~= stars(i + 1));
        i = i + 1;
    }
    row
}

/// A rectangle: `height` rows of `width` stars.
pub fn draw_rectangle(width: u32, height: u32) -> (r: Vec<String>)
    ensures
        r.len() == height,
        forall|i: int| 0 <= i < r.len() ==> (#[trigger] r[i])@ == stars(width as int),
{
    let mut rows: Vec<String> = Vec::new();
    let mut i: u32 = 0;
    while i < height
        invariant
            i <= height,
            rows.len() == i,
            forall|k: int| 0 <= k < rows.len() ==> (#[trigger] rows[k])@ == stars(width as int),
        decreases height - i,
    {
        rows.push(star_row(width as usize));
        i = i + 1;
    }
    rows
}

/// A triangle: `height` rows, the first of one star and each of one more
/// than the row before.
pub fn draw_triangle(height: u32) -> (r: Vec<String>)
    ensures
        r.len() == height,
        forall|i: int| 0 <= i < r.len() ==> (#[trigger] r[i])@ == stars(i + 1),
{
    let mut rows: Vec<String> = Vec::new();
    let mut i: u32 = 0;
    while i < height
        invariant
            i <= height,
            rows.len() == i,
            forall|k: int| 0 <= k < rows.len() ==> (#[trigger] rows[k])@ == stars(k + 1),
        decreases height - i,
    {
        rows.push(star_row(i as usize + 1));
        i = i + 1;
    }
    rows
}

fn square(a: u32) -> (r: u64)
    ensures
        r == a * a,
{
    assert(a * a <= 0xFFFF_FFFF * 0xFFFF_FFFF) by (nonlinear_arith)
        requires
            a <= 0xFFFF_FFFF,
    ;
    (a as u64) * (a as u64)
}

fn distance(a: u32, b: u32) -> (r: u32)
    ensures
        r == if a <= b {
            b - a
        } else {
            a - b
        },
{
    if a <= b {
        b - a
    } else {
        a - b
    }
}

fn draw_disc_row(radius: u32, row: u32) -> (r: String)
    requires
        row <= 2 * radius,
        2 * radius + 1 <= u32::MAX,
    ensures
        r@ == disc_row(radius as int, row - radius),
{
    let width: u32 = 2 * radius + 1;
    let limit: u64 = square(radius);
    let dy: u64 = square(distance(row, radius));
    assert(dy == (row - radius) * (row - radius)) by (nonlinear_arith)
        requires
            dy == (row - radius) * (row - radius) || dy == (radius - row) * (radius - row),
    ;
    let mut out = String::new();
    let mut i: u32 = 0;
    while i < width
        invariant
            i <= width,
            width == 2 * radius + 1,
            limit == radius * radius,
            dy == (row - radius) * (row - radius),
            out@ == disc_row(radius as int, row - radius).take(i as int),
        decreases width - i,
    {
        let dx: u64 = square(distance(i, radius));
        assert(dx == (i - radius) * (i - radius)) by (nonlinear_arith)
            requires
                dx == (i - radius) * (i - radius) || dx == (radius - i) * (radius - i),
        ;
        let inside = dx as u128 + dy as u128 <= limit as u128;
        out.push(if inside {
            '*'
        } else {
            ' '
        });
        assert(out@ =~= disc_row(radius as int, row - radius).take(i + 1));
        i = i + 1;
    }
    assert(disc_row(radius as int, row - radius).take(width as int) =~= disc_row(
        radius as int,
        row - radius,
    ));
    out
}

/// A disc, near enough a circle: `2 * radius + 1` rows of as many columns.
pub fn draw_circle(radius: u32) -> (r: Vec<String>)
    requires
        2 * radius + 1 <= u32::MAX,
    ensures
        r.len() == 2 * radius + 1,
        forall|i: int| 0 <= i < r.len() ==> (#[trigger] r[i])@ == disc_row(radius as int, i - radius),
{
    let height: u32 = 2 * radius + 1;
    let mut rows: Vec<String> = Vec::new();
    let mut i: u32 = 0;
    while i < height
        invariant
            i <= height,
            height == 2 * radius + 1,
            rows.len() == i,
            forall|k: int|
                0 <= k < rows.len() ==> (#[trigger] rows[k])@ == disc_row(radius as int, k - radius),
        decreases height - i,
    {
        rows.push(draw_disc_row(radius, i));
        i = i + 1;
    }
    rows
}

} // verus!
