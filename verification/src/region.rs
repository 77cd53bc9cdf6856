use vstd::prelude::*;

verus! {

/// An axis-aligned rectangular window inside a pixel grid: the half-open
/// rectangle `[x, x + width) x [y, y + height)`.
#[derive(Clone, Copy, PartialEq, Eq, Structural, Debug)]
pub struct Region {
    pub x: u32,
    pub y: u32,
    pub width: u32,
    pub height: u32,
}

/// A region lies fully inside a grid of `w` by `h` pixels.
pub open spec fn region_fits(r: Region, w: u32, h: u32) -> bool {
    &&& r.x + r.width <= w
    &&& r.y + r.height <= h
}

/// The stride between consecutive candidate origins along one axis: half the
/// target extent along that axis, and never less than one.
pub open spec fn step_of(t: u32) -> int {
    if t / 2 >= 1 {
        (t / 2) as int
    } else {
        1
    }
}

/// How many candidate origins the stride yields over the half-open range
/// `[0, o - t)`: the least `n` with `n * step_of(t) >= o - t`.
pub open spec fn axis_count(o: u32, t: u32) -> int
    recommends
        1 <= t <= o,
{
    (o - t + step_of(t) - 1) / step_of(t)
}

/// The candidate window at column index `i` and row index `j` of the grid of
/// strided origins.
pub open spec fn grid_region(tw: u32, th: u32, i: int, j: int) -> Region {
    Region {
        x: (i * step_of(tw)) as u32,
        y: (j * step_of(th)) as u32,
        width: tw,
        height: th,
    }
}

/// All candidates of column `i`, ordered by row index.
pub open spec fn column_regions(oh: u32, tw: u32, th: u32, i: int) -> Seq<Region> {
    Seq::new(axis_count(oh, th) as nat, |j: int| grid_region(tw, th, i, j))
}

/// All candidates of the first `n` columns, one column after the other.
pub open spec fn columns_regions(oh: u32, tw: u32, th: u32, n: nat) -> Seq<Region>
    decreases n,
{
    if n == 0 {
        Seq::empty()
    } else {
        columns_regions(oh, tw, th, (n - 1) as nat) + column_regions(oh, tw, th, n - 1)
    }
}

/// The ordered candidate sequence for original dimensions `(ow, oh)` and
/// target dimensions `(tw, th)`: the whole image alone on an exact match,
/// nothing when the target does not fit, and otherwise the cross product of
/// origins strided by half the target extent over `[0, ow - tw)` and
/// `[0, oh - th)`, x-major and y-minor.
pub open spec fn spec_regions(ow: u32, oh: u32, tw: u32, th: u32) -> Seq<Region> {
    if ow == tw && oh == th {
        seq![Region { x: 0, y: 0, width: tw, height: th }]
    } else if ow < tw || oh < th {
        Seq::empty()
    } else {
        columns_regions(oh, tw, th, axis_count(ow, tw) as nat)
    }
}

/// The stride count along one axis is non-negative and reaches past the end
/// of the strided range.
proof fn lemma_axis_count_bounds(o: u32, t: u32)
    requires
        1 <= t <= o,
    ensures
        axis_count(o, t) >= 0,
        axis_count(o, t) * step_of(t) >= o - t,
{
    let s = step_of(t);
    let b = o - t;
    let n = (b + s - 1) / s;
    vstd::arithmetic::div_mod::lemma_fundamental_div_mod(b + s - 1, s);
    assert((b + s - 1) % s < s && (b + s - 1) % s >= 0) by {
        vstd::arithmetic::div_mod::lemma_mod_bound(b + s - 1, s);
    }
    assert(n * s == b + s - 1 - ((b + s - 1) % s)) by (nonlinear_arith)
        requires
            b + s - 1 == s * n + ((b + s - 1) % s),
    ;
    assert(n >= 0) by (nonlinear_arith)
        requires
            n * s >= b,
            b >= 0,
            s >= 1,
    ;
}

/// A loop that walks `j * step_of(t)` from zero and stops at the first value
/// at or past `o - t` has made exactly `axis_count(o, t)` steps.
proof fn lemma_axis_count_exit(o: u32, t: u32, j: int)
    requires
        1 <= t <= o,
        j >= 0,
        j * step_of(t) >= o - t,
        j == 0 || (j - 1) * step_of(t) < o - t,
    ensures
        j == axis_count(o, t),
{
    let s = step_of(t);
    let b = o - t;
    if b == 0 {
        if j != 0 {
            assert((j - 1) * s >= 0) by (nonlinear_arith)
                requires
                    j >= 1,
                    s >= 1,
            ;
        }
        assert(axis_count(o, t) == (s - 1) / s);
        vstd::arithmetic::div_mod::lemma_fundamental_div_mod_converse(s - 1, s, 0, s - 1);
    } else {
        assert(j >= 1) by (nonlinear_arith)
            requires
                j * s >= b,
                b >= 1,
                s >= 1,
                j >= 0,
        ;
        assert(j * s < b + s) by (nonlinear_arith)
            requires
                (j - 1) * s < b,
        ;
        vstd::arithmetic::div_mod::lemma_fundamental_div_mod_converse(
            b + s - 1,
            s,
            j,
            b + s - 1 - j * s,
        );
    }
}

/// Strictly inside the strided range means strictly below the stride count.
proof fn lemma_below_axis_count(o: u32, t: u32, j: int)
    requires
        1 <= t <= o,
        j >= 0,
        j * step_of(t) < o - t,
    ensures
        j < axis_count(o, t),
{
    lemma_axis_count_bounds(o, t);
    let s = step_of(t);
    assert(j < axis_count(o, t)) by (nonlinear_arith)
        requires
            j * s < o - t,
            axis_count(o, t) * s >= o - t,
            s >= 1,
    ;
}

/// The ordered sequence of candidate crop windows for an original image of
/// `ow` by `oh` pixels and a target window of `tw` by `th` pixels. Every
/// window it yields lies fully inside the original.
#[verifier::loop_isolation(false)]
pub fn enumerate(ow: u32, oh: u32, tw: u32, th: u32) -> (rs: Vec<Region>)
    requires
        1 <= tw,
        1 <= th,
    ensures
        rs@ == spec_regions(ow, oh, tw, th),
        forall|k: int| #![trigger rs@[k]]
            0 <= k < rs@.len() ==> rs@[k].width == tw && rs@[k].height == th && region_fits(
                rs@[k],
                ow,
                oh,
            ),
{
    let mut rs: Vec<Region> = Vec::new();
    if ow == tw && oh == th {
        rs.push(Region { x: 0, y: 0, width: tw, height: th });
        proof {
            assert(rs@ =~= spec_regions(ow, oh, tw, th));
        }
        return rs;
    }
    if ow < tw || oh < th {
        proof {
            assert(rs@ =~= spec_regions(ow, oh, tw, th));
        }
        return rs;
    }
    let sx: u32 = if tw / 2 >= 1 {
        tw / 2
    } else {
        1
    };
    let sy: u32 = if th / 2 >= 1 {
        th / 2
    } else {
        1
    };
    let bx: u32 = ow - tw;
    let by: u32 = oh - th;
    let mut x: u32 = 0;
    let ghost mut i: int = 0;
    while x < bx
        invariant
            sx == step_of(tw),
            sy == step_of(th),
            1 <= sx <= tw,
            1 <= sy <= th,
            i >= 0,
            x == i * sx,
            i == 0 || (i - 1) * sx < bx,
            rs@ == columns_regions(oh, tw, th, i as nat),
            forall|k: int| #![trigger rs@[k]]
                0 <= k < rs@.len() ==> rs@[k].width == tw && rs@[k].height == th && region_fits(
                    rs@[k],
                    ow,
                    oh,
                ),
        decreases bx + sx - x,
    {
        let mut y: u32 = 0;
        let ghost mut j: int = 0;
        proof {
            assert(column_regions(oh, tw, th, i).take(0) =~= Seq::<Region>::empty());
            assert(rs@ =~= columns_regions(oh, tw, th, i as nat) + column_regions(
                oh,
                tw,
                th,
                i,
            ).take(0));
        }
        while y < by
            invariant
                sx == step_of(tw),
                sy == step_of(th),
                1 <= sx <= tw,
                1 <= sy <= th,
                j >= 0,
                y == j * sy,
                j == 0 || (j - 1) * sy < by,
                x < bx,
                rs@ == columns_regions(oh, tw, th, i as nat) + column_regions(oh, tw, th, i).take(
                    j,
                ),
                forall|k: int| #![trigger rs@[k]]
                    0 <= k < rs@.len() ==> rs@[k].width == tw && rs@[k].height == th && region_fits(
                        rs@[k],
                        ow,
                        oh,
                    ),
            decreases by + sy - y,
        {
            rs.push(Region { x, y, width: tw, height: th });
            proof {
                lemma_below_axis_count(oh, th, j);
                let col = column_regions(oh, tw, th, i);
                assert(grid_region(tw, th, i, j) == (Region { x, y, width: tw, height: th }));
                assert(col.take(j + 1) =~= col.take(j).push(grid_region(tw, th, i, j)));
                assert(rs@ =~= columns_regions(oh, tw, th, i as nat) + col.take(j + 1));
                assert((j + 1) * sy == j * sy + sy) by (nonlinear_arith);
                j = j + 1;
            }
            y = y + sy;
        }
        proof {
            lemma_axis_count_exit(oh, th, j);
            assert(column_regions(oh, tw, th, i).take(j) =~= column_regions(oh, tw, th, i));
            assert(columns_regions(oh, tw, th, (i + 1) as nat) == columns_regions(oh, tw, th, i as nat)
                + column_regions(oh, tw, th, i));
            assert((i + 1) * sx == i * sx + sx) by (nonlinear_arith);
            i = i + 1;
        }
        x = x + sx;
    }
    proof {
        lemma_axis_count_exit(ow, tw, i);
        assert(rs@ == spec_regions(ow, oh, tw, th));
    }
    rs
}

} // verus!
