//! The corner-rounding core: radius resolution, the per-corner coordinate
//! transforms, and the compositor that drives the rasterizer once per corner.

use vstd::prelude::*;

use crate::buffer::Pixel;
use crate::buffer::PixelBuffer;
use crate::buffer::pix_index;
use crate::buffer::with_alpha;
use crate::error::ErrorResponse;
use crate::mask::coverage_grid;
use crate::mask::corner_coverage;
use crate::mask::gat;
use crate::mask::lemma_coverage_props;

verus! {

/// One of the four corners of a buffer. Each names the reflection that maps
/// the canonical quarter-circle coordinates onto that corner, so a single
/// rasterizer serves all four.
#[derive(Clone, Copy, PartialEq, Eq, Structural, Debug)]
pub enum Corner {
    TopLeft,
    TopRight,
    BottomLeft,
    BottomRight,
}

/// Buffer column holding canonical column `i` of this corner's `r x r` block.
/// Canonical `(0, 0)` sits next to the circle's centre; the extreme corner
/// pixel is canonical `(r - 1, r - 1)`.
pub open spec fn corner_bx(c: Corner, w: int, r: int, i: int) -> int {
    match c {
        Corner::TopLeft => r - 1 - i,
        Corner::BottomLeft => r - 1 - i,
        Corner::TopRight => w - r + i,
        Corner::BottomRight => w - r + i,
    }
}

/// Buffer row holding canonical row `j` of this corner's block.
pub open spec fn corner_by(c: Corner, h: int, r: int, j: int) -> int {
    match c {
        Corner::TopLeft => r - 1 - j,
        Corner::TopRight => r - 1 - j,
        Corner::BottomLeft => h - r + j,
        Corner::BottomRight => h - r + j,
    }
}

/// Whether buffer pixel `(bx, by)` lies in this corner's `r x r` block.
pub open spec fn in_corner(c: Corner, w: int, h: int, r: int, bx: int, by: int) -> bool {
    match c {
        Corner::TopLeft => bx < r && by < r,
        Corner::TopRight => bx >= w - r && by < r,
        Corner::BottomLeft => bx < r && by >= h - r,
        Corner::BottomRight => bx >= w - r && by >= h - r,
    }
}

/// Canonical column of buffer column `bx` (the inverse of `corner_bx`).
pub open spec fn canon_i(c: Corner, w: int, r: int, bx: int) -> int {
    match c {
        Corner::TopLeft => r - 1 - bx,
        Corner::BottomLeft => r - 1 - bx,
        Corner::TopRight => bx - (w - r),
        Corner::BottomRight => bx - (w - r),
    }
}

/// Canonical row of buffer row `by` (the inverse of `corner_by`).
pub open spec fn canon_j(c: Corner, h: int, r: int, by: int) -> int {
    match c {
        Corner::TopLeft => r - 1 - by,
        Corner::TopRight => r - 1 - by,
        Corner::BottomLeft => by - (h - r),
        Corner::BottomRight => by - (h - r),
    }
}

/// A coverage weight in `[0, 256]` multiplied into an alpha value, rounding
/// half up: weight 256 keeps the alpha exactly, weight 0 clears it.
pub open spec fn blend(cov: int, a: u8) -> int {
    (cov * a + 128) / 256
}

/// The blended alpha fits a channel again whenever the weight is in range.
pub proof fn lemma_blend_range(cov: int, a: u8)
    by (nonlinear_arith)
    requires
        0 <= cov <= 256,
    ensures
        0 <= blend(cov, a) <= 255,
        cov == 256 ==> blend(cov, a) == a,
        cov == 0 ==> blend(cov, a) == 0,
{
}

/// A larger coverage weight never yields a smaller alpha.
pub proof fn lemma_blend_monotone(c1: int, c2: int, a: u8)
    by (nonlinear_arith)
    requires
        0 <= c1 <= c2 <= 256,
    ensures
        blend(c1, a) <= blend(c2, a),
{
}

/// What one corner's rasterization makes of pixel `k`: pixels in the
/// corner's block get their alpha blended with the coverage weight of their
/// canonical cell; everything else is untouched.
pub open spec fn target_px(bv: Seq<Pixel>, w: int, h: int, r: int, c: Corner, k: int) -> Pixel {
    let bx = k % w;
    let by = k / w;
    if in_corner(c, w, h, r, bx, by) {
        with_alpha(
            bv[k],
            (blend(
                gat(coverage_grid(r), r, canon_i(c, w, r, bx), canon_j(c, h, r, by)) as int,
                bv[k].a,
            )) as u8,
        )
    } else {
        bv[k]
    }
}

/// The whole buffer after rasterizing one corner with radius `r`;
/// radius 0 keeps the corner square and the buffer untouched.
pub open spec fn corner_applied(bv: Seq<Pixel>, w: int, h: int, r: int, c: Corner) -> Seq<Pixel> {
    if r == 0 {
        bv
    } else {
        Seq::new(bv.len(), |k: int| target_px(bv, w, h, r, c, k))
    }
}

/// Row-major decomposition of a pixel position.
pub proof fn lemma_decompose(w: int, h: int, k: int)
    by (nonlinear_arith)
    requires
        w >= 1,
        0 <= k < w * h,
    ensures
        0 <= k % w < w,
        0 <= k / w < h,
        k == (k / w) * w + k % w,
{
}

/// Row-major composition of a pixel position.
pub proof fn lemma_compose(w: int, bx: int, by: int)
    by (nonlinear_arith)
    requires
        w >= 1,
        0 <= bx < w,
        0 <= by,
    ensures
        (by * w + bx) % w == bx,
        (by * w + bx) / w == by,
{
}

/// Blend a coverage weight into an alpha value.
fn blend_px(cov: u16, a: u8) -> (res: u8)
    requires
        cov <= 256,
    ensures
        res as int == blend(cov as int, a),
{
    proof {
        lemma_blend_range(cov as int, a);
        assert((cov as int) * (a as int) + 128 <= u32::MAX) by (nonlinear_arith)
            requires
                cov <= 256,
                a <= 255;
    }
    let v: u32 = ((cov as u32) * (a as u32) + 128) / 256;
    v as u8
}

/// Read entry `(i, j)` of a coverage grid.
fn cov_at(g: &Vec<u16>, r: u32, i: u32, j: u32) -> (v: u16)
    requires
        g@.len() == (r as int) * (r as int),
        i < r,
        j < r,
    ensures
        v == gat(g@, r as int, i as int, j as int),
{
    proof {
        crate::buffer::lemma_pix_index_bounds(r as int, r as int, j as int, i as int);
        assert((i as int) * (r as int) + (j as int) <= u64::MAX) by (nonlinear_arith)
            requires
                i < r,
                j < r,
                r <= u32::MAX;
    }
    let len: usize = g.len();
    let wide: u64 = (i as u64) * (r as u64) + (j as u64);
    let idx: usize = wide as usize;
    g[idx]
}

/// Rasterize one corner: blend the corner's `r x r` block of alpha values
/// with the circular coverage grid, touching nothing else.
pub fn border_radius(img: &mut PixelBuffer, r: u32, corner: Corner)
    requires
        old(img).wf(),
        r <= old(img).spec_width(),
        r <= old(img).spec_height(),
    ensures
        final(img).wf(),
        final(img).spec_width() == old(img).spec_width(),
        final(img).spec_height() == old(img).spec_height(),
        final(img)@ == corner_applied(
            old(img)@,
            old(img).spec_width() as int,
            old(img).spec_height() as int,
            r as int,
            corner,
        ),
{
    if r == 0 {
        return ;
    }
    let ghost w = img.spec_width() as int;
    let ghost h = img.spec_height() as int;
    let ghost rr = r as int;
    let ghost orig = img@;
    let wid = img.width();
    let hei = img.height();
    let grid = corner_coverage(r);
    proof {
        lemma_coverage_props(rr);
    }
    let mut i: u32 = 0;
    while i < r
        invariant
            img.wf(),
            img.spec_width() == wid,
            img.spec_height() == hei,
            w == wid as int,
            h == hei as int,
            rr == r as int,
            1 <= r,
            r <= wid,
            r <= hei,
            i <= r,
            orig.len() == w * h,
            img@.len() == orig.len(),
            grid@.len() == rr * rr,
            grid@ == coverage_grid(rr),
            forall|a: int, b: int|
                0 <= a < rr && 0 <= b < rr ==> gat(grid@, rr, a, b) <= 256,
            forall|k: int|
                0 <= k < orig.len() ==> img@[k] == (if in_corner(corner, w, h, rr, k % w, k / w)
                    && canon_i(corner, w, rr, k % w) < i {
                    target_px(orig, w, h, rr, corner, k)
                } else {
                    orig[k]
                }),
        decreases r - i,
    {
        let mut j: u32 = 0;
        while j < r
            invariant
                img.wf(),
                img.spec_width() == wid,
                img.spec_height() == hei,
                w == wid as int,
                h == hei as int,
                rr == r as int,
                1 <= r,
                r <= wid,
                r <= hei,
                i < r,
                j <= r,
                orig.len() == w * h,
                img@.len() == orig.len(),
                grid@.len() == rr * rr,
                grid@ == coverage_grid(rr),
                forall|a: int, b: int|
                    0 <= a < rr && 0 <= b < rr ==> gat(grid@, rr, a, b) <= 256,
                forall|k: int|
                    0 <= k < orig.len() ==> img@[k] == (if in_corner(
                        corner,
                        w,
                        h,
                        rr,
                        k % w,
                        k / w,
                    ) && (canon_i(corner, w, rr, k % w) < i || (canon_i(corner, w, rr, k % w) == i
                        && canon_j(corner, h, rr, k / w) < j)) {
                        target_px(orig, w, h, rr, corner, k)
                    } else {
                        orig[k]
                    }),
            decreases r - j,
        {
            let bx: u32 = match corner {
                Corner::TopLeft => r - 1 - i,
                Corner::BottomLeft => r - 1 - i,
                Corner::TopRight => wid - r + i,
                Corner::BottomRight => wid - r + i,
            };
            let by: u32 = match corner {
                Corner::TopLeft => r - 1 - j,
                Corner::TopRight => r - 1 - j,
                Corner::BottomLeft => hei - r + j,
                Corner::BottomRight => hei - r + j,
            };
            proof {
                assert(bx as int == corner_bx(corner, w, rr, i as int));
                assert(by as int == corner_by(corner, h, rr, j as int));
            }
            let cov: u16 = cov_at(&grid, r, i, j);
            let px = img.get(bx, by);
            let na: u8 = blend_px(cov, px.a);
            let ghost pre = img@;
            img.set_alpha(bx, by, na);
            proof {
                let k0 = pix_index(w, bx as int, by as int);
                lemma_compose(w, bx as int, by as int);
                assert(0 <= k0 < orig.len()) by {
                    crate::buffer::lemma_pix_index_bounds(w, h, bx as int, by as int);
                }
                assert(in_corner(corner, w, h, rr, bx as int, by as int));
                assert(canon_i(corner, w, rr, bx as int) == i as int);
                assert(canon_j(corner, h, rr, by as int) == j as int);
                assert(pre[k0] == orig[k0]);
                assert(img@ == pre.update(k0, with_alpha(orig[k0], na)));
                assert forall|k: int| 0 <= k < orig.len() implies img@[k] == (if in_corner(
                    corner,
                    w,
                    h,
                    rr,
                    k % w,
                    k / w,
                ) && (canon_i(corner, w, rr, k % w) < i || (canon_i(corner, w, rr, k % w)
                    == i as int && canon_j(corner, h, rr, k / w) < j + 1)) {
                    target_px(orig, w, h, rr, corner, k)
                } else {
                    orig[k]
                }) by {
                    lemma_decompose(w, h, k);
                    if k == k0 {
                        assert(img@[k] == with_alpha(orig[k0], na));
                        assert(target_px(orig, w, h, rr, corner, k0) == with_alpha(
                            orig[k0],
                            (blend(
                                gat(coverage_grid(rr), rr, i as int, j as int) as int,
                                orig[k0].a,
                            )) as u8,
                        ));
                        assert(na as int == blend(cov as int, orig[k0].a));
                        lemma_blend_range(cov as int, orig[k0].a);
                    } else {
                        assert(img@[k] == pre[k]);
                        if in_corner(corner, w, h, rr, k % w, k / w) && canon_i(
                            corner,
                            w,
                            rr,
                            k % w,
                        ) == i as int && canon_j(corner, h, rr, k / w) == j as int {
                            assert(k % w == bx as int);
                            assert(k / w == by as int);
                            assert(k == k0);
                            assert(false);
                        }
                    }
                }
            }
            j = j + 1;
        }
        proof {
            assert forall|k: int| 0 <= k < orig.len() implies img@[k] == (if in_corner(
                corner,
                w,
                h,
                rr,
                k % w,
                k / w,
            ) && canon_i(corner, w, rr, k % w) < i + 1 {
                target_px(orig, w, h, rr, corner, k)
            } else {
                orig[k]
            }) by {
                lemma_decompose(w, h, k);
            }
        }
        i = i + 1;
    }
    proof {
        assert(img@ =~= corner_applied(orig, w, h, rr, corner));
    }
}

/// Default shared corner radius when none is given.
pub fn radius() -> (r: u32)
    ensures
        r == 3,
{
    3
}

/// Default mode: radii are taken from the query, not derived automatically.
pub fn auto() -> (a: bool)
    ensures
        a == false,
{
    false
}

/// The rounding request: either automatic radii, or a shared radius with
/// optional per-corner overrides.
#[derive(Debug)]
pub struct RoundImageQueryParams {
    /// Where the image comes from; opaque to the core.
    pub url: String,
    /// When set, every radius becomes `min(width, height) / 2` and the
    /// per-corner values are ignored.
    pub auto: bool,
    /// Shared radius used for every corner without an explicit override.
    pub corner_radius: u32,
    pub top_left: Option<u32>,
    pub top_right: Option<u32>,
    pub bottom_left: Option<u32>,
    pub bottom_right: Option<u32>,
}

impl RoundImageQueryParams {
    pub open spec fn spec_corner_radius(&self) -> u32 {
        self.corner_radius
    }

    pub open spec fn spec_top_left(&self) -> u32 {
        match self.top_left {
            Some(v) => v,
            None => self.corner_radius,
        }
    }

    pub open spec fn spec_top_right(&self) -> u32 {
        match self.top_right {
            Some(v) => v,
            None => self.corner_radius,
        }
    }

    pub open spec fn spec_bottom_left(&self) -> u32 {
        match self.bottom_left {
            Some(v) => v,
            None => self.corner_radius,
        }
    }

    pub open spec fn spec_bottom_right(&self) -> u32 {
        match self.bottom_right {
            Some(v) => v,
            None => self.corner_radius,
        }
    }

    pub fn new(
        url: String,
        auto: bool,
        corner_radius: u32,
        top_left: Option<u32>,
        top_right: Option<u32>,
        bottom_left: Option<u32>,
        bottom_right: Option<u32>,
    ) -> (s: Self)
        ensures
            s.url@ == url@,
            s.auto == auto,
            s.spec_corner_radius() == corner_radius,
            s.spec_top_left() == (match top_left {
                Some(v) => v,
                None => corner_radius,
            }),
            s.spec_top_right() == (match top_right {
                Some(v) => v,
                None => corner_radius,
            }),
            s.spec_bottom_left() == (match bottom_left {
                Some(v) => v,
                None => corner_radius,
            }),
            s.spec_bottom_right() == (match bottom_right {
                Some(v) => v,
                None => corner_radius,
            }),
    {
        RoundImageQueryParams {
            url,
            auto,
            corner_radius,
            top_left,
            top_right,
            bottom_left,
            bottom_right,
        }
    }

    /// The top-left radius: its override if present, else the shared radius.
    pub fn top_left(&self) -> (v: u32)
        ensures
            v == self.spec_top_left(),
    {
        match self.top_left {
            Some(v) => v,
            None => self.corner_radius,
        }
    }

    /// The top-right radius: its override if present, else the shared radius.
    pub fn top_right(&self) -> (v: u32)
        ensures
            v == self.spec_top_right(),
    {
        match self.top_right {
            Some(v) => v,
            None => self.corner_radius,
        }
    }

    /// The bottom-left radius: its override if present, else the shared radius.
    pub fn bottom_left(&self) -> (v: u32)
        ensures
            v == self.spec_bottom_left(),
    {
        match self.bottom_left {
            Some(v) => v,
            None => self.corner_radius,
        }
    }

    /// The bottom-right radius: its override if present, else the shared radius.
    pub fn bottom_right(&self) -> (v: u32)
        ensures
            v == self.spec_bottom_right(),
    {
        match self.bottom_right {
            Some(v) => v,
            None => self.corner_radius,
        }
    }

    /// All four resolved radii, in reading order.
    pub fn list_corners(&self) -> (q: (u32, u32, u32, u32))
        ensures
            q == (self.spec_top_left(), self.spec_top_right(), self.spec_bottom_left(),
            self.spec_bottom_right()),
    {
        (self.top_left(), self.top_right(), self.bottom_left(), self.bottom_right())
    }
}

/// Half the smaller dimension: the automatic radius.
pub open spec fn spec_min_half(w: u32, h: u32) -> u32 {
    (if w < h {
        w
    } else {
        h
    }) / 2
}

/// Adjacent corners sharing an edge must not have radii summing past that
/// edge's length.
pub open spec fn spec_feasible(tl: u32, tr: u32, bl: u32, br: u32, w: u32, h: u32) -> bool {
    &&& tl + tr <= w
    &&& bl + br <= w
    &&& tl + bl <= h
    &&& tr + br <= h
}

/// The four radii the request resolves to on a `w x h` buffer, in the order
/// top-left, top-right, bottom-left, bottom-right.
pub open spec fn spec_resolved(params: RoundImageQueryParams, w: u32, h: u32) -> (
    u32,
    u32,
    u32,
    u32,
) {
    if params.auto {
        (spec_min_half(w, h), spec_min_half(w, h), spec_min_half(w, h), spec_min_half(w, h))
    } else {
        (params.spec_top_left(), params.spec_top_right(), params.spec_bottom_left(),
        params.spec_bottom_right())
    }
}

/// Turn a request into four concrete radii for a `width x height` buffer.
/// In automatic mode every radius is half the smaller dimension; in manual
/// mode the radii are taken from the request and checked for feasibility,
/// and an infeasible combination is rejected before anything is touched.
pub fn resolve_radii(width: u32, height: u32, params: &RoundImageQueryParams) -> (res: Result<
    (u32, u32, u32, u32),
    ErrorResponse,
>)
    requires
        width >= 1,
        height >= 1,
    ensures
        match res {
            Ok(q) => {
                &&& q == spec_resolved(*params, width, height)
                &&& params.auto || spec_feasible(
                    params.spec_top_left(),
                    params.spec_top_right(),
                    params.spec_bottom_left(),
                    params.spec_bottom_right(),
                    width,
                    height,
                )
                &&& q.0 <= width && q.0 <= height
                &&& q.1 <= width && q.1 <= height
                &&& q.2 <= width && q.2 <= height
                &&& q.3 <= width && q.3 <= height
            },
            Err(e) => {
                &&& !params.auto
                &&& !spec_feasible(
                    params.spec_top_left(),
                    params.spec_top_right(),
                    params.spec_bottom_left(),
                    params.spec_bottom_right(),
                    width,
                    height,
                )
                &&& e.spec_code() == 400
                &&& e.spec_message() == "Radius out of range!"@
            },
        },
{
    if params.auto {
        let smaller = if width < height {
            width
        } else {
            height
        };
        let m = smaller / 2;
        Ok((m, m, m, m))
    } else {
        let (tl, tr, bl, br) = params.list_corners();
        if (tl as u64) + (tr as u64) > (width as u64) || (bl as u64) + (br as u64)
            > (width as u64) || (tl as u64) + (bl as u64) > (height as u64) || (tr as u64)
            + (br as u64) > (height as u64) {
            Err(ErrorResponse::new(400, "Radius out of range!"))
        } else {
            Ok((tl, tr, bl, br))
        }
    }
}

/// The buffer after all four corners are rasterized, in the order top-left,
/// top-right, bottom-left, bottom-right.
pub open spec fn all_corners_applied(
    bv: Seq<Pixel>,
    w: int,
    h: int,
    tl: int,
    tr: int,
    bl: int,
    br: int,
) -> Seq<Pixel> {
    corner_applied(
        corner_applied(
            corner_applied(
                corner_applied(bv, w, h, tl, Corner::TopLeft),
                w,
                h,
                tr,
                Corner::TopRight,
            ),
            w,
            h,
            bl,
            Corner::BottomLeft,
        ),
        w,
        h,
        br,
        Corner::BottomRight,
    )
}

/// Round the buffer's corners as the request asks. On success the alpha
/// channel of each corner block carries the circular mask; an infeasible
/// manual request is rejected with a code-400 error and the buffer is left
/// exactly as it was.
pub fn round(img: &mut PixelBuffer, params: RoundImageQueryParams) -> (res: Result<
    (),
    ErrorResponse,
>)
    requires
        old(img).wf(),
    ensures
        final(img).wf(),
        final(img).spec_width() == old(img).spec_width(),
        final(img).spec_height() == old(img).spec_height(),
        match res {
            Ok(_) => ({
                let q = spec_resolved(
                    params,
                    old(img).spec_width(),
                    old(img).spec_height(),
                );
                &&& (params.auto || spec_feasible(
                    params.spec_top_left(),
                    params.spec_top_right(),
                    params.spec_bottom_left(),
                    params.spec_bottom_right(),
                    old(img).spec_width(),
                    old(img).spec_height(),
                ))
                &&& final(img)@ == all_corners_applied(
                    old(img)@,
                    old(img).spec_width() as int,
                    old(img).spec_height() as int,
                    q.0 as int,
                    q.1 as int,
                    q.2 as int,
                    q.3 as int,
                )
            }),
            Err(e) => {
                &&& !params.auto
                &&& !spec_feasible(
                    params.spec_top_left(),
                    params.spec_top_right(),
                    params.spec_bottom_left(),
                    params.spec_bottom_right(),
                    old(img).spec_width(),
                    old(img).spec_height(),
                )
                &&& e.spec_code() == 400
                &&& e.spec_message() == "Radius out of range!"@
                &&& final(img)@ == old(img)@
            },
        },
{
    let width = img.width();
    let height = img.height();
    match resolve_radii(width, height, &params) {
        Err(e) => Err(e),
        Ok((tl, tr, bl, br)) => {
            border_radius(img, tl, Corner::TopLeft);
            border_radius(img, tr, Corner::TopRight);
            border_radius(img, bl, Corner::BottomLeft);
            border_radius(img, br, Corner::BottomRight);
            Ok(())
        },
    }
}

/// Rasterizing a corner with radius 0 changes nothing: the corner stays
/// square and every pixel keeps its value.
pub proof fn lemma_zero_radius(bv: Seq<Pixel>, w: int, h: int, c: Corner)
    ensures
        corner_applied(bv, w, h, 0, c) == bv,
{
}

/// Row-major position of the buffer's extreme pixel at the given corner
/// (the literal geometric corner, e.g. `(0, 0)` for the top-left).
pub open spec fn extreme_corner_index(c: Corner, w: int, h: int) -> int {
    match c {
        Corner::TopLeft => pix_index(w, 0, 0),
        Corner::TopRight => pix_index(w, w - 1, 0),
        Corner::BottomLeft => pix_index(w, 0, h - 1),
        Corner::BottomRight => pix_index(w, w - 1, h - 1),
    }
}

/// For every radius of at least 4, rasterizing a corner makes the buffer's
/// extreme pixel at that corner fully transparent. (For radii 1 to 3 the
/// extreme pixel still overlaps the quarter-disk, so it keeps partial alpha.)
pub proof fn lemma_extreme_corner_cleared(bv: Seq<Pixel>, w: int, h: int, r: int, c: Corner)
    requires
        1 <= w,
        1 <= h,
        bv.len() == w * h,
        4 <= r,
        r <= w,
        r <= h,
    ensures
        corner_applied(bv, w, h, r, c)[extreme_corner_index(c, w, h)].a == 0,
{
    lemma_coverage_props(r);
    let k = extreme_corner_index(c, w, h);
    let bx: int = match c {
        Corner::TopLeft => 0,
        Corner::BottomLeft => 0,
        Corner::TopRight => w - 1,
        Corner::BottomRight => w - 1,
    };
    let by: int = match c {
        Corner::TopLeft => 0,
        Corner::TopRight => 0,
        Corner::BottomLeft => h - 1,
        Corner::BottomRight => h - 1,
    };
    crate::buffer::lemma_pix_index_bounds(w, h, bx, by);
    lemma_compose(w, bx, by);
    assert(k == by * w + bx);
    assert(in_corner(c, w, h, r, bx, by));
    assert(canon_i(c, w, r, bx) == r - 1);
    assert(canon_j(c, h, r, by) == r - 1);
    assert(gat(coverage_grid(r), r, r - 1, r - 1) == 0);
    lemma_blend_range(0, bv[k].a);
    assert(corner_applied(bv, w, h, r, c)[k] == target_px(bv, w, h, r, c, k));
}

/// Walking outward along the diagonal of a corner's block (from the circle's
/// centre toward the corner), the resulting alpha values are non-increasing,
/// whenever the two pixels started from the same alpha.
pub proof fn lemma_diagonal_alpha_monotone(
    bv: Seq<Pixel>,
    w: int,
    h: int,
    r: int,
    c: Corner,
    k1: int,
    k2: int,
)
    requires
        1 <= r,
        r <= w,
        r <= h,
        bv.len() == w * h,
        0 <= k1 <= k2 < r,
        bv[pix_index(w, corner_bx(c, w, r, k1), corner_by(c, h, r, k1))].a == bv[pix_index(
            w,
            corner_bx(c, w, r, k2),
            corner_by(c, h, r, k2),
        )].a,
    ensures
        corner_applied(bv, w, h, r, c)[pix_index(
            w,
            corner_bx(c, w, r, k1),
            corner_by(c, h, r, k1),
        )].a >= corner_applied(bv, w, h, r, c)[pix_index(
            w,
            corner_bx(c, w, r, k2),
            corner_by(c, h, r, k2),
        )].a,
{
    lemma_coverage_props(r);
    let bx1 = corner_bx(c, w, r, k1);
    let by1 = corner_by(c, h, r, k1);
    let bx2 = corner_bx(c, w, r, k2);
    let by2 = corner_by(c, h, r, k2);
    let p1 = pix_index(w, bx1, by1);
    let p2 = pix_index(w, bx2, by2);
    crate::buffer::lemma_pix_index_bounds(w, h, bx1, by1);
    crate::buffer::lemma_pix_index_bounds(w, h, bx2, by2);
    lemma_compose(w, bx1, by1);
    lemma_compose(w, bx2, by2);
    assert(in_corner(c, w, h, r, bx1, by1));
    assert(in_corner(c, w, h, r, bx2, by2));
    assert(canon_i(c, w, r, bx1) == k1 && canon_j(c, h, r, by1) == k1);
    assert(canon_i(c, w, r, bx2) == k2 && canon_j(c, h, r, by2) == k2);
    let c1 = gat(coverage_grid(r), r, k1, k1) as int;
    let c2 = gat(coverage_grid(r), r, k2, k2) as int;
    assert(c2 <= c1);
    let a = bv[p1].a;
    lemma_blend_monotone(c2, c1, a);
    lemma_blend_range(c1, a);
    lemma_blend_range(c2, a);
    assert(corner_applied(bv, w, h, r, c)[p1] == target_px(bv, w, h, r, c, p1));
    assert(corner_applied(bv, w, h, r, c)[p2] == target_px(bv, w, h, r, c, p2));
}

/// The buffer turned a quarter turn clockwise: the pixel at `(bx, by)` of
/// the result is the pixel at `(by, n - 1 - bx)` of the source.
pub open spec fn rot90(bv: Seq<Pixel>, n: int) -> Seq<Pixel> {
    Seq::new(bv.len(), |k: int| bv[(n - 1 - (k % n)) * n + k / n])
}

/// On a square buffer, rounding the top-left corner and then rotating the
/// result a quarter turn clockwise is the same as rotating first and
/// rounding the top-right corner with the same radius: the four transforms
/// are reflections of one coverage grid, and the grid is symmetric.
pub proof fn lemma_rotation_symmetry(bv: Seq<Pixel>, n: int, r: int)
    requires
        1 <= n,
        0 <= r <= n,
        bv.len() == n * n,
    ensures
        rot90(corner_applied(bv, n, n, r, Corner::TopLeft), n) =~= corner_applied(
            rot90(bv, n),
            n,
            n,
            r,
            Corner::TopRight,
        ),
{
    if r == 0 {
    } else {
        lemma_coverage_props(r);
        let tlres = corner_applied(bv, n, n, r, Corner::TopLeft);
        let lhs = rot90(tlres, n);
        let rhs = corner_applied(rot90(bv, n), n, n, r, Corner::TopRight);
        assert(lhs.len() == n * n);
        assert(rhs.len() == n * n);
        assert forall|k: int| 0 <= k < n * n implies lhs[k] == rhs[k] by {
            lemma_decompose(n, n, k);
            let bx = k % n;
            let by = k / n;
            let sk = (n - 1 - bx) * n + by;
            crate::buffer::lemma_pix_index_bounds(n, n, by, n - 1 - bx);
            lemma_compose(n, by, n - 1 - bx);
            assert(sk % n == by && sk / n == n - 1 - bx);
            assert(lhs[k] == tlres[sk]);
            assert(tlres[sk] == target_px(bv, n, n, r, Corner::TopLeft, sk));
            assert(rot90(bv, n)[k] == bv[sk]);
            assert(rhs[k] == target_px(rot90(bv, n), n, n, r, Corner::TopRight, k));
            if in_corner(Corner::TopRight, n, n, r, bx, by) {
                let ci = canon_i(Corner::TopRight, n, r, bx);
                let cj = canon_j(Corner::TopRight, n, r, by);
                assert(in_corner(Corner::TopLeft, n, n, r, by, n - 1 - bx));
                assert(canon_i(Corner::TopLeft, n, r, by) == cj);
                assert(canon_j(Corner::TopLeft, n, r, n - 1 - bx) == ci);
                assert(0 <= ci < r && 0 <= cj < r);
                assert(gat(coverage_grid(r), r, cj, ci) == gat(coverage_grid(r), r, ci, cj));
            } else {
                assert(!in_corner(Corner::TopLeft, n, n, r, by, n - 1 - bx));
            }
        }
    }
}

} // verus!