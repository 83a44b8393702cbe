//! The integer side of math rendering: decoded RGBA images of typeset
//! formulas, and the horizontal runs of identical pixels a renderer draws
//! them with. Typesetting and rasterizing run outside. Also the `$`/`$$`
//! math spans of a line of text.
use vstd::prelude::*;
use vstd::string::StringSliceAdditionalSpecFns;
use crate::bytes::{find_byte, find_pat, has_at, lemma_find_byte, lemma_find_byte_shift, lemma_find_pat, DOLLAR};

verus! {

/// A decoded formula image: RGBA pixels, row by row, and its pixel runs.
pub struct MathImage {
    pub width: u32,
    pub height: u32,
    /// Baseline measured from the top edge of the image.
    pub baseline: u32,
    pub pixels: Vec<u8>,
    /// Horizontal runs of identical RGBA pixels, prepared once at rasterize time.
    pub runs: Vec<MathRun>,
}

/// A horizontal run of `width` pixels of one color starting at `(x, y)`.
#[derive(Clone, Copy)]
pub struct MathRun {
    pub x: u32,
    pub y: u32,
    pub width: u32,
    pub rgba: [u8; 4],
}

/// A color with its coverage (alpha) rounded to a multiple of 16, capped at 255.
pub type Rgba = (u8, u8, u8, u8);

/// Coverage rounded to the nearest multiple of 16 (capped at 255): a small
/// palette keeps the number of runs low while keeping edge shapes.
pub open spec fn quantize_alpha(a: u8) -> u8 {
    let q = ((a + 8) / 16) * 16;
    if q > 255 {
        255
    } else {
        q as u8
    }
}

/// The color of pixel `(x, y)` with quantized coverage.
pub open spec fn pixel_at(p: Seq<u8>, width: int, x: int, y: int) -> Rgba {
    let i = (y * width + x) * 4;
    (p[i], p[i + 1], p[i + 2], quantize_alpha(p[i + 3]))
}

/// End of the run of pixels of color `c` on row `y` from column `x`.
pub open spec fn spec_run_end(p: Seq<u8>, width: int, y: int, x: int, c: Rgba) -> int
    decreases width - x,
{
    if 0 <= x < width && pixel_at(p, width, x, y) == c {
        spec_run_end(p, width, y, x + 1, c)
    } else {
        x
    }
}

/// A run of one color never ends before it starts.
pub proof fn lemma_run_end_ge(p: Seq<u8>, width: int, y: int, x: int, c: Rgba)
    ensures
        spec_run_end(p, width, y, x, c) >= x,
        x <= width ==> spec_run_end(p, width, y, x, c) <= width,
        0 <= x && spec_run_end(p, width, y, x, c) < width ==> pixel_at(p, width, spec_run_end(p, width, y, x, c), y) != c,
    decreases width - x,
{
    if 0 <= x < width && pixel_at(p, width, x, y) == c {
        lemma_run_end_ge(p, width, y, x + 1, c);
    }
}

/// The runs of row `y` from column `x`: maximal stretches of one color,
/// skipping fully transparent pixels; each as `(x, y, width, color)`.
pub open spec fn spec_row_runs(p: Seq<u8>, width: int, y: int, x: int) -> Seq<(int, int, int, Rgba)>
    decreases width - x,
{
    if x < 0 || x >= width {
        Seq::empty()
    } else {
        let c = pixel_at(p, width, x, y);
        if c.3 == 0 {
            spec_row_runs(p, width, y, x + 1)
        } else {
            let e = spec_run_end(p, width, y, x + 1, c);
            proof {
                lemma_run_end_ge(p, width, y, x + 1, c);
            }
            seq![(x, y, e - x, c)] + spec_row_runs(p, width, y, e)
        }
    }
}

/// The runs of rows `y..height`, row by row.
pub open spec fn spec_runs(p: Seq<u8>, width: int, height: int, y: int) -> Seq<(int, int, int, Rgba)>
    decreases height - y,
{
    if y < 0 || y >= height {
        Seq::empty()
    } else {
        spec_row_runs(p, width, y, 0) + spec_runs(p, width, height, y + 1)
    }
}

/// Every pixel of a run of color `c` has that color.
proof fn lemma_run_end_same(p: Seq<u8>, width: int, y: int, x: int, c: Rgba, j: int)
    requires
        x <= j < spec_run_end(p, width, y, x, c),
    ensures
        pixel_at(p, width, j, y) == c,
        0 <= j < width,
    decreases width - x,
{
    if 0 <= x < width && pixel_at(p, width, x, y) == c {
        if j > x {
            lemma_run_end_same(p, width, y, x + 1, c, j);
        }
    }
}

/// Run `k` of `runs` covers column `j`.
pub open spec fn run_covers(runs: Seq<(int, int, int, Rgba)>, k: int, j: int) -> bool {
    runs[k].0 <= j < runs[k].0 + runs[k].2
}

/// A run as drawn: at least one pixel wide, inside the row, of a color that
/// is not fully transparent, and as long as it can be: the pixel after it
/// (if any) has another color.
pub open spec fn run_ok(p: Seq<u8>, width: int, r: (int, int, int, Rgba)) -> bool {
    &&& r.2 > 0
    &&& 0 <= r.0
    &&& r.0 + r.2 <= width
    &&& r.3.3 != 0
    &&& r.0 + r.2 < width ==> pixel_at(p, width, r.0 + r.2, r.1) != r.3
}

/// Run `a` comes before run `b` in reading order, without overlapping it.
pub open spec fn run_before(a: (int, int, int, Rgba), b: (int, int, int, Rgba)) -> bool {
    a.1 < b.1 || (a.1 == b.1 && a.0 + a.2 <= b.0)
}

/// The runs of a row from column `x` lie inside `[x, width)`, are non-empty,
/// sit on row `y`, and come in order without overlapping.
proof fn lemma_row_runs_shape(p: Seq<u8>, width: int, y: int, x: int)
    requires
        0 <= x,
    ensures
        forall|k: int| 0 <= k < spec_row_runs(p, width, y, x).len() ==> {
            let r = #[trigger] spec_row_runs(p, width, y, x)[k];
            x <= r.0 && r.2 > 0 && r.0 + r.2 <= width && r.1 == y && run_ok(p, width, r)
        },
        forall|i: int, j: int|
            #![trigger spec_row_runs(p, width, y, x)[i], spec_row_runs(p, width, y, x)[j]]
            0 <= i < j < spec_row_runs(p, width, y, x).len() ==>
            spec_row_runs(p, width, y, x)[i].0 + spec_row_runs(p, width, y, x)[i].2
                <= spec_row_runs(p, width, y, x)[j].0,
    decreases width - x,
{
    let all = spec_row_runs(p, width, y, x);
    if 0 <= x < width {
        let c = pixel_at(p, width, x, y);
        if c.3 == 0 {
            lemma_row_runs_shape(p, width, y, x + 1);
            assert(all =~= spec_row_runs(p, width, y, x + 1));
        } else {
            let e = spec_run_end(p, width, y, x + 1, c);
            lemma_run_end_ge(p, width, y, x + 1, c);
            lemma_row_runs_shape(p, width, y, e);
            let rest = spec_row_runs(p, width, y, e);
            assert(all == seq![(x, y, e - x, c)] + rest);
            assert forall|k: int| 0 <= k < all.len() implies {
                let r = #[trigger] all[k];
                x <= r.0 && r.2 > 0 && r.0 + r.2 <= width && r.1 == y && run_ok(p, width, r)
            } by {
                if k > 0 {
                    assert(all[k] == rest[k - 1]);
                }
            }
            assert forall|i: int, j: int| 0 <= i < j < all.len() implies #[trigger] all[i].0 + all[i].2
                <= #[trigger] all[j].0 by {
                assert(all[j] == rest[j - 1]);
                if i > 0 {
                    assert(all[i] == rest[i - 1]);
                }
            }
        }
    } else {
        assert(all =~= Seq::<(int, int, int, Rgba)>::empty());
    }
}

/// Drawing the runs of a row reproduces the row: a column from `x` on is
/// covered by a run exactly when its pixel is not fully transparent (after
/// quantization), and every run covering it has the pixel's color.
pub proof fn lemma_row_runs_cover(p: Seq<u8>, width: int, y: int, x: int, j: int)
    requires
        0 <= x <= j < width,
    ensures
        (exists|k: int| 0 <= k < spec_row_runs(p, width, y, x).len() && #[trigger] run_covers(spec_row_runs(p, width, y, x), k, j))
            <==> pixel_at(p, width, j, y).3 != 0,
        forall|k: int| 0 <= k < spec_row_runs(p, width, y, x).len() && #[trigger] run_covers(spec_row_runs(p, width, y, x), k, j)
            ==> spec_row_runs(p, width, y, x)[k].3 == pixel_at(p, width, j, y),
    decreases width - x,
{
    let all = spec_row_runs(p, width, y, x);
    let c = pixel_at(p, width, x, y);
    if c.3 == 0 {
        let rest = spec_row_runs(p, width, y, x + 1);
        assert(all == rest);
        if j > x {
            lemma_row_runs_cover(p, width, y, x + 1, j);
        } else {
            lemma_row_runs_shape(p, width, y, x + 1);
            assert forall|k: int| 0 <= k < all.len() implies !#[trigger] run_covers(all, k, j) by {
                assert(all[k] == rest[k]);
            }
        }
    } else {
        let e = spec_run_end(p, width, y, x + 1, c);
        lemma_run_end_ge(p, width, y, x + 1, c);
        let rest = spec_row_runs(p, width, y, e);
        assert(all == seq![(x, y, e - x, c)] + rest);
        lemma_row_runs_shape(p, width, y, e);
        if j < e {
            if j > x {
                lemma_run_end_same(p, width, y, x + 1, c, j);
            }
            assert(run_covers(all, 0, j));
            assert forall|k: int| 0 <= k < all.len() && #[trigger] run_covers(all, k, j) implies all[k].3 == pixel_at(p, width, j, y) by {
                if k > 0 {
                    assert(all[k] == rest[k - 1]);
                }
            }
        } else {
            lemma_row_runs_cover(p, width, y, e, j);
            assert(!run_covers(all, 0, j));
            assert forall|k: int| 0 <= k < all.len() && #[trigger] run_covers(all, k, j) implies all[k].3 == pixel_at(p, width, j, y) by {
                assert(k > 0);
                assert(all[k] == rest[k - 1]);
                assert(run_covers(rest, k - 1, j));
            }
            if pixel_at(p, width, j, y).3 != 0 {
                let k = choose|k: int| 0 <= k < rest.len() && #[trigger] run_covers(rest, k, j);
                assert(all[k + 1] == rest[k]);
                assert(run_covers(all, k + 1, j));
            } else {
                assert forall|k: int| 0 <= k < all.len() implies !#[trigger] run_covers(all, k, j) by {
                    if k > 0 {
                        assert(all[k] == rest[k - 1]);
                        assert(!run_covers(rest, k - 1, j));
                    }
                }
            }
        }
    }
}

/// Run `k` of `runs` covers pixel `(j, y)`.
pub open spec fn run_covers_pixel(runs: Seq<(int, int, int, Rgba)>, k: int, j: int, y: int) -> bool {
    runs[k].1 == y && runs[k].0 <= j < runs[k].0 + runs[k].2
}

/// The runs of rows `y0..height` lie on those rows.
proof fn lemma_runs_rows(p: Seq<u8>, width: int, height: int, y0: int)
    requires
        0 <= y0,
    ensures
        forall|k: int| 0 <= k < spec_runs(p, width, height, y0).len() ==>
            y0 <= (#[trigger] spec_runs(p, width, height, y0)[k]).1 < height
            && run_ok(p, width, spec_runs(p, width, height, y0)[k]),
        forall|i: int, j: int|
            #![trigger spec_runs(p, width, height, y0)[i], spec_runs(p, width, height, y0)[j]]
            0 <= i < j < spec_runs(p, width, height, y0).len() ==>
            run_before(spec_runs(p, width, height, y0)[i], spec_runs(p, width, height, y0)[j]),
    decreases height - y0,
{
    let all = spec_runs(p, width, height, y0);
    if y0 < height {
        lemma_row_runs_shape(p, width, y0, 0);
        lemma_runs_rows(p, width, height, y0 + 1);
        let row = spec_row_runs(p, width, y0, 0);
        let rest = spec_runs(p, width, height, y0 + 1);
        assert(all == row + rest);
        assert forall|k: int| 0 <= k < all.len() implies y0 <= (#[trigger] all[k]).1 < height
            && run_ok(p, width, all[k]) by {
            if k < row.len() {
                assert(all[k] == row[k]);
            } else {
                assert(all[k] == rest[k - row.len()]);
            }
        }
        assert forall|i: int, j: int| 0 <= i < j < all.len() implies run_before(#[trigger] all[i], #[trigger] all[j]) by {
            if j < row.len() {
                assert(all[i] == row[i] && all[j] == row[j]);
            } else if i < row.len() {
                assert(all[i] == row[i] && all[j] == rest[j - row.len()]);
            } else {
                assert(all[i] == rest[i - row.len()] && all[j] == rest[j - row.len()]);
            }
        }
    } else {
        assert(all =~= Seq::<(int, int, int, Rgba)>::empty());
    }
}

/// Drawing the runs of rows `y0..height` reproduces those rows: a pixel is
/// covered by a run exactly when it is not fully transparent (after
/// quantization), and every run covering it has its color.
proof fn lemma_runs_cover_from(p: Seq<u8>, width: int, height: int, y0: int, j: int, y: int)
    requires
        0 <= y0 <= y < height,
        0 <= j < width,
    ensures
        (exists|k: int| 0 <= k < spec_runs(p, width, height, y0).len()
            && #[trigger] run_covers_pixel(spec_runs(p, width, height, y0), k, j, y))
            <==> pixel_at(p, width, j, y).3 != 0,
        forall|k: int| 0 <= k < spec_runs(p, width, height, y0).len()
            && #[trigger] run_covers_pixel(spec_runs(p, width, height, y0), k, j, y)
            ==> spec_runs(p, width, height, y0)[k].3 == pixel_at(p, width, j, y),
    decreases height - y0,
{
    let all = spec_runs(p, width, height, y0);
    let row = spec_row_runs(p, width, y0, 0);
    let rest = spec_runs(p, width, height, y0 + 1);
    assert(all == row + rest);
    lemma_row_runs_shape(p, width, y0, 0);
    lemma_runs_rows(p, width, height, y0 + 1);
    if y == y0 {
        lemma_row_runs_cover(p, width, y, 0, j);
        assert forall|k: int| 0 <= k < all.len() && #[trigger] run_covers_pixel(all, k, j, y) implies
            k < row.len() && run_covers(row, k, j) by {
            if k >= row.len() {
                assert(all[k] == rest[k - row.len()]);
            } else {
                assert(all[k] == row[k]);
            }
        }
        if pixel_at(p, width, j, y).3 != 0 {
            let k = choose|k: int| 0 <= k < row.len() && #[trigger] run_covers(row, k, j);
            assert(all[k] == row[k]);
            assert(run_covers_pixel(all, k, j, y));
        }
        assert forall|k: int| 0 <= k < all.len() && #[trigger] run_covers_pixel(all, k, j, y) implies
            all[k].3 == pixel_at(p, width, j, y) by {
            assert(all[k] == row[k]);
        }
    } else {
        lemma_runs_cover_from(p, width, height, y0 + 1, j, y);
        assert forall|k: int| 0 <= k < all.len() && #[trigger] run_covers_pixel(all, k, j, y) implies
            k >= row.len() && run_covers_pixel(rest, k - row.len(), j, y) by {
            if k < row.len() {
                assert(all[k] == row[k]);
            } else {
                assert(all[k] == rest[k - row.len()]);
            }
        }
        if pixel_at(p, width, j, y).3 != 0 {
            let k = choose|k: int| 0 <= k < rest.len() && #[trigger] run_covers_pixel(rest, k, j, y);
            assert(all[k + row.len()] == rest[k]);
            assert(run_covers_pixel(all, k + row.len(), j, y));
        }
        assert forall|k: int| 0 <= k < all.len() && #[trigger] run_covers_pixel(all, k, j, y) implies
            all[k].3 == pixel_at(p, width, j, y) by {
            assert(all[k] == rest[k - row.len()]);
            assert(run_covers_pixel(rest, k - row.len(), j, y));
        }
    }
}

/// Drawing the runs of an image reproduces it: every pixel is covered by a
/// run exactly when it is not fully transparent (after quantization), by one
/// run only, and every run covering it has its color. Runs lie inside the
/// image, come in reading order, and are as long as they can be.
pub proof fn lemma_image_runs_cover(p: Seq<u8>, width: int, height: int, j: int, y: int)
    requires
        0 <= y < height,
        0 <= j < width,
    ensures
        (exists|k: int| 0 <= k < spec_runs(p, width, height, 0).len()
            && #[trigger] run_covers_pixel(spec_runs(p, width, height, 0), k, j, y))
            <==> pixel_at(p, width, j, y).3 != 0,
        forall|k: int| 0 <= k < spec_runs(p, width, height, 0).len()
            && #[trigger] run_covers_pixel(spec_runs(p, width, height, 0), k, j, y)
            ==> spec_runs(p, width, height, 0)[k].3 == pixel_at(p, width, j, y),
        forall|k: int| 0 <= k < spec_runs(p, width, height, 0).len() ==>
            0 <= (#[trigger] spec_runs(p, width, height, 0)[k]).1 < height
            && run_ok(p, width, spec_runs(p, width, height, 0)[k]),
        forall|i: int, j: int|
            #![trigger spec_runs(p, width, height, 0)[i], spec_runs(p, width, height, 0)[j]]
            0 <= i < j < spec_runs(p, width, height, 0).len() ==>
            run_before(spec_runs(p, width, height, 0)[i], spec_runs(p, width, height, 0)[j]),
        forall|i: int, k: int|
            0 <= i < spec_runs(p, width, height, 0).len() && 0 <= k < spec_runs(p, width, height, 0).len()
            && #[trigger] run_covers_pixel(spec_runs(p, width, height, 0), i, j, y)
            && #[trigger] run_covers_pixel(spec_runs(p, width, height, 0), k, j, y) ==> i == k,
{
    lemma_runs_cover_from(p, width, height, 0, j, y);
    lemma_runs_rows(p, width, height, 0);
    let all = spec_runs(p, width, height, 0);
    assert forall|i: int, k: int|
        0 <= i < all.len() && 0 <= k < all.len() && #[trigger] run_covers_pixel(all, i, j, y)
        && #[trigger] run_covers_pixel(all, k, j, y) implies i == k by {
        if i < k {
            assert(run_before(all[i], all[k]));
        } else if k < i {
            assert(run_before(all[k], all[i]));
        }
    }
}

/// A run as `(x, y, width, color)`.
pub open spec fn run_model(r: MathRun) -> (int, int, int, Rgba) {
    (r.x as int, r.y as int, r.width as int, (r.rgba@[0], r.rgba@[1], r.rgba@[2], r.rgba@[3]))
}

/// Runs as `(x, y, width, color)`.
pub open spec fn runs_model(rs: Seq<MathRun>) -> Seq<(int, int, int, Rgba)> {
    rs.map_values(|r: MathRun| run_model(r))
}

proof fn lemma_index_bound(width: int, height: int, x: int, y: int)
    by (nonlinear_arith)
    requires
        0 <= x < width,
        0 <= y < height,
    ensures
        0 <= (y * width + x) * 4,
        (y * width + x) * 4 + 4 <= width * height * 4,
{
    assert(y * width + x < y * width + width);
    assert(y * width + width == (y + 1) * width);
    assert((y + 1) * width <= height * width);
}

fn quantize(a: u8) -> (r: u8)
    ensures
        r == quantize_alpha(a),
{
    let q: u16 = ((a as u16 + 8) / 16) * 16;
    if q > 255 {
        255
    } else {
        q as u8
    }
}

fn pixel(pixels: &[u8], width: u32, height: u32, x: u32, y: u32) -> (r: Rgba)
    requires
        x < width,
        y < height,
        (width as int) * (height as int) * 4 <= pixels.len(),
    ensures
        r == pixel_at(pixels@, width as int, x as int, y as int),
{
    proof {
        lemma_index_bound(width as int, height as int, x as int, y as int);
    }
    let i = ((y as usize) * (width as usize) + (x as usize)) * 4;
    (pixels[i], pixels[i + 1], pixels[i + 2], quantize(pixels[i + 3]))
}

fn same_color(a: Rgba, b: Rgba) -> (r: bool)
    ensures
        r == (a == b),
{
    a.0 == b.0 && a.1 == b.1 && a.2 == b.2 && a.3 == b.3
}

/// The runs of identical, not fully transparent pixels of a `width` by
/// `height` RGBA image, row by row, with coverage quantized.
pub fn build_runs(width: u32, height: u32, pixels: &[u8]) -> (r: Vec<MathRun>)
    requires
        (width as int) * (height as int) * 4 <= pixels.len(),
    ensures
        runs_model(r@) == spec_runs(pixels@, width as int, height as int, 0),
{
    let mut runs: Vec<MathRun> = Vec::new();
    let mut y: u32 = 0;
    assert(runs_model(runs@) =~= Seq::<(int, int, int, Rgba)>::empty());
    while y < height
        invariant
            y <= height,
            (width as int) * (height as int) * 4 <= pixels.len(),
            spec_runs(pixels@, width as int, height as int, 0)
                == runs_model(runs@) + spec_runs(pixels@, width as int, height as int, y as int),
        decreases height - y,
    {
        let mut x: u32 = 0;
        let ghost row_start = runs@;
        assert(runs_model(runs@) + spec_runs(pixels@, width as int, height as int, y as int)
            =~= runs_model(runs@) + spec_row_runs(pixels@, width as int, y as int, 0)
                + spec_runs(pixels@, width as int, height as int, y + 1));
        while x < width
            invariant
                x <= width,
                y < height,
                (width as int) * (height as int) * 4 <= pixels.len(),
                spec_runs(pixels@, width as int, height as int, 0)
                    == runs_model(runs@) + spec_row_runs(pixels@, width as int, y as int, x as int)
                        + spec_runs(pixels@, width as int, height as int, y + 1),
            decreases width - x,
        {
            let c = pixel(pixels, width, height, x, y);
            if c.3 == 0 {
                x = x + 1;
            } else {
                let start = x;
                x = x + 1;
                while x < width && same_color(pixel(pixels, width, height, x, y), c)
                    invariant
                        start < x <= width,
                        y < height,
                        (width as int) * (height as int) * 4 <= pixels.len(),
                        spec_run_end(pixels@, width as int, y as int, start + 1, c)
                            == spec_run_end(pixels@, width as int, y as int, x as int, c),
                    decreases width - x,
                {
                    x = x + 1;
                }
                let run = MathRun { x: start, y, width: x - start, rgba: [c.0, c.1, c.2, c.3] };
                let ghost before = runs@;
                runs.push(run);
                assert(runs_model(runs@) =~= runs_model(before).push(run_model(run)));
                assert(run_model(run) == (start as int, y as int, (x - start) as int, c));
                assert(runs_model(before) + spec_row_runs(pixels@, width as int, y as int, start as int)
                    =~= runs_model(runs@) + spec_row_runs(pixels@, width as int, y as int, x as int));
            }
        }
        assert(spec_row_runs(pixels@, width as int, y as int, x as int) =~= Seq::<(int, int, int, Rgba)>::empty());
        assert(runs_model(runs@) + Seq::<(int, int, int, Rgba)>::empty()
            + spec_runs(pixels@, width as int, height as int, y + 1)
            =~= runs_model(runs@) + spec_runs(pixels@, width as int, height as int, y + 1));
        y = y + 1;
    }
    assert(runs_model(runs@) + spec_runs(pixels@, width as int, height as int, y as int)
        =~= runs_model(runs@));
    runs
}

/// RGB pixels with an opaque alpha channel added.
pub open spec fn spec_rgb_to_rgba(rgb: Seq<u8>) -> Seq<u8> {
    Seq::new((rgb.len() / 3) * 4, |i: int| if i % 4 == 3 { 255u8 } else { rgb[(i / 4) * 3 + i % 4] })
}

/// Expand RGB pixels to RGBA (fully opaque); a trailing partial pixel is dropped.
pub fn rgb_to_rgba(rgb: &[u8]) -> (r: Vec<u8>)
    ensures
        r@ == spec_rgb_to_rgba(rgb@),
{
    let n = rgb.len() / 3;
    let mut out: Vec<u8> = Vec::new();
    let mut k: usize = 0;
    while k < n
        invariant
            n == rgb.len() / 3,
            k <= n,
            out@.len() == k * 4,
            forall|i: int| 0 <= i < k * 4 ==> #[trigger] out@[i] == (if i % 4 == 3 { 255u8 } else {
                rgb@[(i / 4) * 3 + i % 4]
            }),
        decreases n - k,
    {
        assert(k * 3 + 3 <= rgb.len()) by (nonlinear_arith)
            requires
                k < n,
                n == rgb.len() / 3,
        ;
        out.push(rgb[k * 3]);
        out.push(rgb[k * 3 + 1]);
        out.push(rgb[k * 3 + 2]);
        out.push(255);
        assert forall|i: int| k * 4 <= i < k * 4 + 4 implies #[trigger] out@[i] == (if i % 4 == 3 { 255u8 } else {
            rgb@[(i / 4) * 3 + i % 4]
        }) by {
            assert(i / 4 == k as int) by (nonlinear_arith)
                requires
                    k * 4 <= i < k * 4 + 4,
            ;
            assert(i % 4 == i - k * 4) by (nonlinear_arith)
                requires
                    k * 4 <= i < k * 4 + 4,
            ;
        }
        k = k + 1;
    }
    assert(out@ =~= spec_rgb_to_rgba(rgb@));
    out
}

/// The color layout of a decoded PNG frame.
#[derive(Clone, Copy, Debug, PartialEq, Eq, Structural)]
pub enum PngColor {
    Grayscale,
    Rgb,
    Indexed,
    GrayscaleAlpha,
    Rgba,
}

/// What decoding a PNG frame reports: its size, its color layout and how many
/// bytes of the output buffer hold it.
#[derive(Clone, Copy, Debug, PartialEq, Eq, Structural)]
pub struct PngFrame {
    pub width: u32,
    pub height: u32,
    pub color: PngColor,
    pub buffer_size: usize,
}

/// Why a formula image could not be decoded.
#[derive(Clone, Copy, Debug, PartialEq, Eq, Structural)]
pub enum MathError {
    /// The frame is neither RGB nor RGBA.
    UnsupportedColor(PngColor),
    /// The decoder reported a frame larger than its output buffer.
    FrameTooLarge,
}

/// The RGBA pixels of a decoded frame held in `buffer`: RGBA frames as they
/// are, RGB frames made opaque; other layouts are refused.
pub open spec fn spec_frame_pixels(frame: PngFrame, buffer: Seq<u8>) -> Result<Seq<u8>, MathError> {
    if frame.buffer_size > buffer.len() {
        Err(MathError::FrameTooLarge)
    } else {
        let source = buffer.take(frame.buffer_size as int);
        match frame.color {
            PngColor::Rgba => Ok(source),
            PngColor::Rgb => Ok(spec_rgb_to_rgba(source)),
            other => Err(MathError::UnsupportedColor(other)),
        }
    }
}

/// The RGBA pixels of a decoded frame.
pub fn frame_pixels(frame: PngFrame, buffer: &[u8]) -> (r: Result<Vec<u8>, MathError>)
    ensures
        match r {
            Ok(p) => spec_frame_pixels(frame, buffer@) == Ok::<Seq<u8>, MathError>(p@),
            Err(e) => spec_frame_pixels(frame, buffer@) == Err::<Seq<u8>, MathError>(e),
        },
{
    if frame.buffer_size > buffer.len() {
        return Err(MathError::FrameTooLarge);
    }
    let source = crate::scan::slice_range(buffer, 0, frame.buffer_size);
    assert(source@ == buffer@.take(frame.buffer_size as int));
    match frame.color {
        PngColor::Rgba => Ok(vstd::slice::slice_to_vec(source)),
        PngColor::Rgb => Ok(rgb_to_rgba(source)),
        other => Err(MathError::UnsupportedColor(other)),
    }
}

/// What the `png` crate's decoder makes of `bytes`, with palette and low bit
/// depths expanded and 16-bit samples stripped to 8: the first frame's size,
/// color layout and byte count, and the output buffer holding it; `None`
/// when the header or the frame cannot be decoded.
pub uninterp spec fn png_decoded(bytes: Seq<u8>) -> Option<(PngFrame, Seq<u8>)>;

/// Wraps `png::Decoder::new`, `Decoder::set_transformations` (`EXPAND |
/// STRIP_16`), `Decoder::read_info`, `Reader::output_buffer_size` and
/// `Reader::next_frame`: claims only that the frame report and buffer are
/// `png_decoded(bytes)`, and that a header or frame error gives `None`.
#[verifier::external_body]
fn decode_png_frame(bytes: &[u8]) -> (r: Option<(PngFrame, Vec<u8>)>)
    ensures
        match r {
            None => png_decoded(bytes@) is None,
            Some(fb) => png_decoded(bytes@) == Some((fb.0, fb.1@)),
        },
{
    let mut decoder = png::Decoder::new(bytes);
    decoder.set_transformations(png::Transformations::EXPAND | png::Transformations::STRIP_16);
    let mut reader = decoder.read_info().ok()?;
    let mut buffer = vec![0u8; reader.output_buffer_size()];
    let info = reader.next_frame(&mut buffer).ok()?;
    let color = match info.color_type {
        png::ColorType::Grayscale => PngColor::Grayscale,
        png::ColorType::Rgb => PngColor::Rgb,
        png::ColorType::Indexed => PngColor::Indexed,
        png::ColorType::GrayscaleAlpha => PngColor::GrayscaleAlpha,
        png::ColorType::Rgba => PngColor::Rgba,
    };
    Some((PngFrame { width: info.width, height: info.height, color, buffer_size: info.buffer_size() }, buffer))
}

/// The image decoding `bytes` gives, with `baseline` measured from the top
/// (capped at the height): `Err(None)` when the PNG cannot be decoded;
/// otherwise the frame's RGBA pixels (see `spec_frame_pixels`) with the
/// frame's size and no drawing runs yet, or the reason they cannot be had.
pub open spec fn spec_decoded_image(r: Result<MathImage, Option<MathError>>, bytes: Seq<u8>, baseline: u32) -> bool {
    match png_decoded(bytes) {
        None => r == Err::<MathImage, Option<MathError>>(None),
        Some((frame, buffer)) => match spec_frame_pixels(frame, buffer) {
            Ok(p) => match r {
                Ok(img) => img.width == frame.width && img.height == frame.height
                    && img.baseline == (if baseline < frame.height { baseline } else { frame.height })
                    && img.pixels@ == p && img.runs@.len() == 0,
                Err(_) => false,
            },
            Err(e) => r == Err::<MathImage, Option<MathError>>(Some(e)),
        },
    }
}

/// Decode a typeset formula's PNG into an RGBA image.
pub fn decode_png(bytes: &[u8], baseline: u32) -> (r: Result<MathImage, Option<MathError>>)
    ensures
        spec_decoded_image(r, bytes@, baseline),
{
    let (frame, buffer) = match decode_png_frame(bytes) {
        Some(fb) => fb,
        None => {
            return Err(None);
        },
    };
    match frame_pixels(frame, buffer.as_slice()) {
        Ok(pixels) => Ok(MathImage {
            width: frame.width,
            height: frame.height,
            baseline: if baseline < frame.height { baseline } else { frame.height },
            pixels,
            runs: Vec::new(),
        }),
        Err(e) => Err(Some(e)),
    }
}

/// The math spans of `s` from byte `i` on, as `(start, end, display)`: each
/// opens at the next `$` (`$$` opens display math), and closes at the next
/// occurrence of the same delimiter; an unclosed opener ends the search.
pub open spec fn spec_math_spans(s: Seq<u8>, i: int) -> Seq<(int, int, bool)>
    decreases s.len() - i,
{
    if i < 0 || i > s.len() {
        Seq::empty()
    } else {
        let open = find_byte(s, i, DOLLAR);
        if open >= s.len() {
            Seq::empty()
        } else {
            let display = has_at(s, open, seq![DOLLAR, DOLLAR]);
            let delimiter = if display { seq![DOLLAR, DOLLAR] } else { seq![DOLLAR] };
            let start = open + delimiter.len();
            match find_pat(s, start, delimiter) {
                None => Seq::empty(),
                Some(close) => {
                    proof {
                        lemma_find_byte(s, i, DOLLAR);
                        lemma_find_pat(s, start, delimiter);
                    }
                    seq![(start, close, display)] + spec_math_spans(s, close + delimiter.len())
                },
            }
        }
    }
}

/// Spans moved `d` bytes further on.
pub open spec fn shift_spans(spans: Seq<(int, int, bool)>, d: int) -> Seq<(int, int, bool)> {
    spans.map_values(|x: (int, int, bool)| (x.0 + d, x.1 + d, x.2))
}

/// The math of a line as text: each span's text and whether it is display
/// math.
pub open spec fn math_texts(s: Seq<u8>) -> Seq<(Seq<u8>, bool)> {
    spec_math_spans(s, 0).map_values(|x: (int, int, bool)| (s.subrange(x.0, x.1), x.2))
}

proof fn lemma_has_at_shift(p: Seq<u8>, t: Seq<u8>, o: int, pat: Seq<u8>)
    requires
        0 <= o,
    ensures
        has_at(p + t, p.len() + o, pat) == has_at(t, o, pat),
{
    if o + pat.len() <= t.len() {
        assert((p + t).subrange(p.len() + o, p.len() + o + pat.len()) =~= t.subrange(o, o + pat.len()));
    }
}

proof fn lemma_find_pat_shift(p: Seq<u8>, t: Seq<u8>, j: int, pat: Seq<u8>)
    requires
        0 <= j,
    ensures
        find_pat(p + t, p.len() + j, pat) == match find_pat(t, j, pat) {
            Some(k) => Some(k + p.len()),
            None => None,
        },
    decreases t.len() + 1 - j,
{
    if j + pat.len() <= t.len() {
        lemma_has_at_shift(p, t, j, pat);
        if !has_at(t, j, pat) {
            lemma_find_pat_shift(p, t, j + 1, pat);
        }
    }
}

/// The math spans of a line do not depend on what comes before the point
/// where scanning starts: they are those of the rest, moved along.
proof fn lemma_math_spans_shift(p: Seq<u8>, t: Seq<u8>, i: int)
    requires
        0 <= i <= t.len(),
    ensures
        spec_math_spans(p + t, p.len() + i) == shift_spans(spec_math_spans(t, i), p.len() as int),
    decreases t.len() - i,
{
    let s = p + t;
    let n = p.len() as int;
    lemma_find_byte_shift(p, t, i, DOLLAR);
    lemma_find_byte(t, i, DOLLAR);
    let open = find_byte(t, i, DOLLAR);
    if open < t.len() {
        lemma_has_at_shift(p, t, open, seq![DOLLAR, DOLLAR]);
        let display = has_at(t, open, seq![DOLLAR, DOLLAR]);
        let delimiter = if display { seq![DOLLAR, DOLLAR] } else { seq![DOLLAR] };
        let start = open + delimiter.len();
        lemma_find_pat_shift(p, t, start, delimiter);
        lemma_find_pat(t, start, delimiter);
        match find_pat(t, start, delimiter) {
            None => {
                assert(shift_spans(Seq::<(int, int, bool)>::empty(), n) =~= Seq::<(int, int, bool)>::empty());
            },
            Some(close) => {
                lemma_math_spans_shift(p, t, close + delimiter.len());
                let rest = spec_math_spans(t, close + delimiter.len());
                assert(shift_spans(seq![(start, close, display)] + rest, n)
                    =~= seq![(start + n, close + n, display)] + shift_spans(rest, n));
            },
        }
    } else {
        assert(shift_spans(Seq::<(int, int, bool)>::empty(), n) =~= Seq::<(int, int, bool)>::empty());
    }
}

/// `find_pat` finds a delimiter first seen at `k`, when no byte before it
/// from `j` on starts the delimiter.
proof fn lemma_find_pat_at(s: Seq<u8>, j: int, k: int, pat: Seq<u8>)
    requires
        0 <= j <= k,
        pat.len() > 0,
        has_at(s, k, pat),
        forall|m: int| j <= m < k ==> s[m] != pat[0],
    ensures
        find_pat(s, j, pat) == Some(k),
    decreases k - j,
{
    if j < k {
        assert(!has_at(s, j, pat)) by {
            if has_at(s, j, pat) {
                assert(s.subrange(j, j + pat.len())[0] == pat[0]);
            }
        }
        lemma_find_pat_at(s, j + 1, k, pat);
    }
}

/// Scanning resumes after the whole closing delimiter: for a formula `a`
/// without `$` and any rest `t`, the math of `$$a$$t` is `a` as display
/// math followed by the math of `t`, and the math of `$a$t` (`a` not empty)
/// is `a` as inline math followed by the math of `t`.
pub proof fn lemma_math_resumes_after_delimiter(a: Seq<u8>, t: Seq<u8>)
    requires
        forall|k: int| 0 <= k < a.len() ==> a[k] != DOLLAR,
    ensures
        math_texts(seq![DOLLAR, DOLLAR] + a + seq![DOLLAR, DOLLAR] + t) == seq![(a, true)] + math_texts(t),
        a.len() > 0 ==> math_texts(seq![DOLLAR] + a + seq![DOLLAR] + t) == seq![(a, false)] + math_texts(t),
{
    let n = a.len() as int;
    // Display math.
    let dd = seq![DOLLAR, DOLLAR];
    let p = dd + a + dd;
    let s = p + t;
    assert(s =~= dd + a + dd + t);
    assert(find_byte(s, 0, DOLLAR) == 0);
    assert(has_at(s, 0, dd)) by {
        assert(s.subrange(0, 2) =~= dd);
    }
    assert(has_at(s, 2 + n, dd)) by {
        assert(s.subrange(2 + n, 4 + n) =~= dd);
    }
    assert forall|m: int| 2 <= m < 2 + n implies s[m] != dd[0] by {
        assert(s[m] == a[m - 2]);
    }
    lemma_find_pat_at(s, 2, 2 + n, dd);
    assert(p.len() == 4 + n);
    lemma_math_spans_shift(p, t, 0);
    assert(spec_math_spans(s, 0) == seq![(2, 2 + n, true)] + spec_math_spans(s, 4 + n));
    let rest = spec_math_spans(t, 0);
    assert(math_texts(s) =~= seq![(a, true)] + math_texts(t)) by {
        assert(s.subrange(2, 2 + n) =~= a);
        assert forall|k: int| 0 <= k < rest.len() implies s.subrange(rest[k].0 + p.len(), rest[k].1 + p.len())
            == t.subrange(rest[k].0, rest[k].1) by {
            lemma_math_spans_bounds(t, 0, k);
            assert(s.subrange(rest[k].0 + p.len(), rest[k].1 + p.len()) =~= t.subrange(rest[k].0, rest[k].1));
        }
    }
    // Inline math.
    if n > 0 {
        let d = seq![DOLLAR];
        let p1 = d + a + d;
        let s1 = p1 + t;
        assert(s1 =~= d + a + d + t);
        assert(find_byte(s1, 0, DOLLAR) == 0);
        assert(!has_at(s1, 0, dd)) by {
            assert(s1[1] == a[0]);
            if has_at(s1, 0, dd) {
                assert(s1.subrange(0, 2)[1] == s1[1]);
            }
        }
        assert(has_at(s1, 1 + n, d)) by {
            assert(s1.subrange(1 + n, 2 + n) =~= d);
        }
        assert forall|m: int| 1 <= m < 1 + n implies s1[m] != d[0] by {
            assert(s1[m] == a[m - 1]);
        }
        lemma_find_pat_at(s1, 1, 1 + n, d);
        assert(p1.len() == 2 + n);
        lemma_math_spans_shift(p1, t, 0);
        assert(spec_math_spans(s1, 0) == seq![(1, 1 + n, false)] + spec_math_spans(s1, 2 + n));
        assert(math_texts(s1) =~= seq![(a, false)] + math_texts(t)) by {
            assert(s1.subrange(1, 1 + n) =~= a);
            assert forall|k: int| 0 <= k < rest.len() implies s1.subrange(rest[k].0 + p1.len(), rest[k].1 + p1.len())
                == t.subrange(rest[k].0, rest[k].1) by {
                lemma_math_spans_bounds(t, 0, k);
                assert(s1.subrange(rest[k].0 + p1.len(), rest[k].1 + p1.len()) =~= t.subrange(rest[k].0, rest[k].1));
            }
        }
    }
}

/// `find_pat` finds nothing in a stretch that never holds the delimiter's
/// first byte.
proof fn lemma_find_pat_none(s: Seq<u8>, j: int, pat: Seq<u8>)
    requires
        0 <= j,
        pat.len() > 0,
        forall|m: int| j <= m < s.len() ==> s[m] != pat[0],
    ensures
        find_pat(s, j, pat) is None,
    decreases s.len() + 1 - j,
{
    if j + pat.len() <= s.len() {
        assert(!has_at(s, j, pat)) by {
            assert(s.subrange(j, j + pat.len())[0] == s[j]);
        }
        lemma_find_pat_none(s, j + 1, pat);
    }
}

/// Text without `$` holds no math, and an opening `$` or `$$` that is never
/// closed opens no span.
pub proof fn lemma_math_needs_both_delimiters(a: Seq<u8>)
    requires
        forall|k: int| 0 <= k < a.len() ==> a[k] != DOLLAR,
    ensures
        math_texts(a).len() == 0,
        math_texts(seq![DOLLAR] + a).len() == 0,
        math_texts(seq![DOLLAR, DOLLAR] + a).len() == 0,
{
    lemma_find_byte(a, 0, DOLLAR);
    let s1 = seq![DOLLAR] + a;
    assert(find_byte(s1, 0, DOLLAR) == 0);
    if a.len() > 0 {
        assert(s1[1] == a[0]);
        assert(!has_at(s1, 0, seq![DOLLAR, DOLLAR])) by {
            if has_at(s1, 0, seq![DOLLAR, DOLLAR]) {
                assert(s1.subrange(0, 2)[1] == s1[1]);
            }
        }
    }
    assert forall|m: int| 1 <= m < s1.len() implies s1[m] != seq![DOLLAR][0] by {
        assert(s1[m] == a[m - 1]);
    }
    lemma_find_pat_none(s1, 1, seq![DOLLAR]);
    let s2 = seq![DOLLAR, DOLLAR] + a;
    assert(find_byte(s2, 0, DOLLAR) == 0);
    assert(has_at(s2, 0, seq![DOLLAR, DOLLAR])) by {
        assert(s2.subrange(0, 2) =~= seq![DOLLAR, DOLLAR]);
    }
    assert forall|m: int| 2 <= m < s2.len() implies s2[m] != seq![DOLLAR, DOLLAR][0] by {
        assert(s2[m] == a[m - 2]);
    }
    lemma_find_pat_none(s2, 2, seq![DOLLAR, DOLLAR]);
}

/// Every math span lies inside the line.
proof fn lemma_math_spans_bounds(s: Seq<u8>, i: int, k: int)
    requires
        0 <= i <= s.len(),
        0 <= k < spec_math_spans(s, i).len(),
    ensures
        i <= spec_math_spans(s, i)[k].0 <= spec_math_spans(s, i)[k].1 <= s.len(),
    decreases s.len() - i,
{
    lemma_find_byte(s, i, DOLLAR);
    let open = find_byte(s, i, DOLLAR);
    if open < s.len() {
        let display = has_at(s, open, seq![DOLLAR, DOLLAR]);
        let delimiter = if display { seq![DOLLAR, DOLLAR] } else { seq![DOLLAR] };
        let start = open + delimiter.len();
        lemma_find_pat(s, start, delimiter);
        if let Some(close) = find_pat(s, start, delimiter) {
            if k > 0 {
                lemma_math_spans_bounds(s, close + delimiter.len(), k - 1);
                let rest = spec_math_spans(s, close + delimiter.len());
                assert(spec_math_spans(s, i)[k] == rest[k - 1]);
            }
        }
    }
}

/// The inline (`$...$`) and display (`$$...$$`) math spans of a line, in
/// order: the text between the delimiters, and whether it is display math.
pub fn math_spans(text: &str) -> (r: Vec<(&str, bool)>)
    ensures
        r@.len() == spec_math_spans(text.spec_bytes(), 0).len(),
        forall|k: int| 0 <= k < r@.len() ==> {
            let (a, b, d) = #[trigger] spec_math_spans(text.spec_bytes(), 0)[k];
            r@[k].0.spec_bytes() == text.spec_bytes().subrange(a, b) && r@[k].1 == d
        },
{
    let s = text.as_bytes();
    let ghost sb = text.spec_bytes();
    proof {
        vstd::utf8::encode_utf8_valid_utf8(text@);
    }
    assert(s@ == sb);
    let one: [u8; 1] = [DOLLAR];
    let two: [u8; 2] = [DOLLAR, DOLLAR];
    assert(one@ =~= seq![DOLLAR]);
    assert(two@ =~= seq![DOLLAR, DOLLAR]);
    let mut out: Vec<(&str, bool)> = Vec::new();
    let mut pos: usize = 0;
    while pos <= s.len()
        invariant
            pos <= s@.len() + 1,
            s@ == sb,
            sb == text.spec_bytes(),
            vstd::utf8::valid_utf8(sb),
            one@ == seq![DOLLAR],
            two@ == seq![DOLLAR, DOLLAR],
            pos <= s@.len() ==> spec_math_spans(sb, 0) == {
                let done = spec_math_spans(sb, 0).take(out@.len() as int);
                done + spec_math_spans(sb, pos as int)
            },
            pos > s@.len() ==> spec_math_spans(sb, 0).len() == out@.len(),
            out@.len() <= spec_math_spans(sb, 0).len(),
            forall|k: int| 0 <= k < out@.len() ==> {
                let (a, b, d) = #[trigger] spec_math_spans(sb, 0)[k];
                out@[k].0.spec_bytes() == sb.subrange(a, b) && out@[k].1 == d
            },
        ensures
            spec_math_spans(sb, 0).len() == out@.len(),
            forall|k: int| 0 <= k < out@.len() ==> {
                let (a, b, d) = #[trigger] spec_math_spans(sb, 0)[k];
                out@[k].0.spec_bytes() == sb.subrange(a, b) && out@[k].1 == d
            },
        decreases s@.len() + 1 - pos,
    {
        let open = crate::bytes::find_byte_from(s, pos, DOLLAR);
        proof {
            lemma_find_byte(sb, pos as int, DOLLAR);
        }
        if open >= s.len() {
            proof {
                assert(spec_math_spans(sb, pos as int).len() == 0);
                assert(spec_math_spans(sb, 0) =~= spec_math_spans(sb, 0).take(out@.len() as int));
            }
            break;
        }
        let display = crate::bytes::starts_at(s, open, two.as_slice());
        let delimiter: &[u8] = if display { two.as_slice() } else { one.as_slice() };
        let start = open + delimiter.len();
        let found = crate::bytes::find_pat_from(s, start, delimiter);
        proof {
            lemma_find_pat(sb, start as int, delimiter@);
        }
        let close = match found {
            None => {
                proof {
                    assert(spec_math_spans(sb, pos as int).len() == 0);
                    assert(spec_math_spans(sb, 0) =~= spec_math_spans(sb, 0).take(out@.len() as int));
                }
                break;
            },
            Some(c) => c,
        };
        proof {
            assert(sb[open as int] == DOLLAR);
            crate::bytes::lemma_ascii_boundaries(sb, open as int);
            if display {
                assert(sb.subrange(open as int, open + 2)[1] == sb[open + 1]);
                crate::bytes::lemma_ascii_boundaries(sb, open as int + 1);
            }
            assert(sb.subrange(close as int, close + delimiter@.len())[0] == sb[close as int]);
            crate::bytes::lemma_ascii_boundaries(sb, close as int);
        }
        let piece = crate::code::text_of(text, start, close);
        let ghost before = out@;
        out.push((piece, display));
        proof {
            let total = spec_math_spans(sb, 0);
            let rest = spec_math_spans(sb, pos as int);
            assert(rest[0] == (start as int, close as int, display));
            assert(total[before.len() as int] == rest[0]);
            assert(total.take(before.len() as int + 1) =~= total.take(before.len() as int).push(rest[0]));
            assert(rest =~= seq![rest[0]] + spec_math_spans(sb, close + delimiter@.len()));
            assert(total =~= total.take(out@.len() as int) + spec_math_spans(sb, close + delimiter@.len()));
            assert forall|k: int| 0 <= k < out@.len() implies {
                let (a, b, d) = #[trigger] total[k];
                out@[k].0.spec_bytes() == sb.subrange(a, b) && out@[k].1 == d
            } by {
                if k < before.len() {
                    assert(out@[k] == before[k]);
                } else {
                    assert(out@[k] == (piece, display));
                }
            }
        }
        pos = close + delimiter.len();
    }
    out
}

} // verus!
