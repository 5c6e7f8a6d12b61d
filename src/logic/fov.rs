//! Field of view: which tiles a viewer sees within a fixed radius, tracing
//! straight lines that stop at the first opaque tile.
use vstd::prelude::*;

verus! {

/// How far the viewer sees.
pub const RADIUS: i32 = 8;

pub open spec fn abs(v: int) -> int {
    if v < 0 {
        -v
    } else {
        v
    }
}

pub open spec fn sign(from: int, to: int) -> int {
    if from < to {
        1
    } else {
        -1
    }
}

/// The points that Bresenham's stepping visits from `(x, y)` with error
/// term `err` towards `(x1, y1)`, for a line with spans `dx` and `dy`
/// (`dy` negated), in steps of `sx` and `sy`; `fuel` bounds the steps.
pub open spec fn trace(
    x: int,
    y: int,
    err: int,
    x1: int,
    y1: int,
    dx: int,
    dy: int,
    sx: int,
    sy: int,
    fuel: nat,
) -> Seq<(int, int)>
    decreases fuel,
{
    if fuel == 0 {
        Seq::empty()
    } else if x == x1 && y == y1 {
        seq![(x, y)]
    } else {
        let e2 = 2 * err;
        let (x2, err2) = if e2 >= dy {
            (x + sx, err + dy)
        } else {
            (x, err)
        };
        let (y3, err3) = if e2 <= dx {
            (y + sy, err2 + dx)
        } else {
            (y, err2)
        };
        seq![(x, y)] + trace(x2, y3, err3, x1, y1, dx, dy, sx, sy, (fuel - 1) as nat)
    }
}

/// The points of the digital line from `(x0, y0)` to `(x1, y1)` by
/// Bresenham's algorithm, both ends included.
pub open spec fn line_points(x0: int, y0: int, x1: int, y1: int) -> Seq<(int, int)> {
    let dx = abs(x1 - x0);
    let dy = -abs(y1 - y0);
    trace(x0, y0, dx + dy, x1, y1, dx, dy, sign(x0, x1), sign(y0, y1), (dx - dy + 1) as nat)
}

/// `v` lies between `a` and `b`, both included.
pub open spec fn between(a: int, v: int, b: int) -> bool {
    (a <= v <= b) || (b <= v <= a)
}

/// The ends of a line are close enough for its error term, which stays
/// within one and a half spans, to double in an `i32`: neither span
/// reaches 2^29.
pub open spec fn traceable(x0: i32, y0: i32, x1: i32, y1: i32) -> bool {
    abs(x1 - x0) < 0x2000_0000 && abs(y1 - y0) < 0x2000_0000
}

pub open spec fn max(a: int, b: int) -> int {
    if a >= b {
        a
    } else {
        b
    }
}

/// From `p` to `q` each coordinate moves by 0 or by one step in its
/// direction (`sx`, `sy`), and not both stay.
pub open spec fn unit_step(p: (i32, i32), q: (i32, i32), sx: int, sy: int) -> bool {
    &&& (q.0 - p.0 == 0 || q.0 - p.0 == sx)
    &&& (q.1 - p.1 == 0 || q.1 - p.1 == sy)
    &&& q != p
}

/// Bresenham's line from `(x0, y0)` to `(x1, y1)`, both ends included.
#[verifier::rlimit(50)]
pub fn line(x0: i32, y0: i32, x1: i32, y1: i32) -> (points: Vec<(i32, i32)>)
    requires
        traceable(x0, y0, x1, y1),
    ensures
        points@.len() == line_points(x0 as int, y0 as int, x1 as int, y1 as int).len(),
        forall|k: int|
            0 <= k < points@.len() ==> {
                let p = #[trigger] points@[k];
                &&& (p.0 as int, p.1 as int) == line_points(
                    x0 as int,
                    y0 as int,
                    x1 as int,
                    y1 as int,
                )[k]
                &&& between(x0 as int, p.0 as int, x1 as int)
                &&& between(y0 as int, p.1 as int, y1 as int)
            },
        points@.len() >= 1,
        points@[0] == (x0, y0),
        points@.last() == (x1, y1),
        points@.len() == max(abs(x1 - x0), abs(y1 - y0)) + 1,
        forall|k: int|
            0 <= k < points@.len() - 1 ==> unit_step(
                #[trigger] points@[k],
                points@[k + 1],
                sign(x0 as int, x1 as int),
                sign(y0 as int, y1 as int),
            ),
{
    let mut points: Vec<(i32, i32)> = Vec::new();
    let dx: i32 = if x1 >= x0 { x1 - x0 } else { x0 - x1 };
    let dy: i32 = if y1 >= y0 { y0 - y1 } else { y1 - y0 };
    let sx: i32 = if x0 < x1 { 1 } else { -1 };
    let sy: i32 = if y0 < y1 { 1 } else { -1 };
    let mut err: i32 = dx + dy;
    let mut x: i32 = x0;
    let mut y: i32 = y0;
    let ghost whole = line_points(x0 as int, y0 as int, x1 as int, y1 as int);
    let ghost fuel: nat = (dx - dy + 1) as nat;
    // steps taken along each axis
    let ghost mut i: int = 0;
    let ghost mut j: int = 0;
    loop
        invariant_except_break
            points@.len() == 0 ==> x == x0 && y == y0,
            0 <= i <= dx,
            0 <= j <= -dy,
            x == x0 + sx * i,
            y == y0 + sy * j,
            err == (j + 1) * dx + (i + 1) * dy,
            3 * dy <= 2 * err <= 3 * dx,
            dx >= -dy ==> 2 * err >= dy,
            -dy >= dx ==> 2 * err <= dx,
            dx >= -dy ==> i == points@.len(),
            -dy >= dx ==> j == points@.len(),
            points@.len() >= 1 ==> unit_step(points@.last(), (x, y), sx as int, sy as int),
            fuel >= (dx - i) + (-dy - j) + 1,
            points@.len() + fuel == dx - dy + 1,
            whole == line_points(x0 as int, y0 as int, x1 as int, y1 as int),
            whole =~= points@.map_values(|p: (i32, i32)| (p.0 as int, p.1 as int)) + trace(
                x as int,
                y as int,
                err as int,
                x1 as int,
                y1 as int,
                dx as int,
                dy as int,
                sx as int,
                sy as int,
                fuel,
            ),
        invariant
            dx == abs(x1 - x0),
            dy == -abs(y1 - y0),
            sx == sign(x0 as int, x1 as int),
            sy == sign(y0 as int, y1 as int),
            traceable(x0, y0, x1, y1),
            forall|k: int|
                0 <= k < points@.len() ==> {
                    let p = #[trigger] points@[k];
                    &&& between(x0 as int, p.0 as int, x1 as int)
                    &&& between(y0 as int, p.1 as int, y1 as int)
                },
            points@.len() >= 1 ==> points@[0] == (x0, y0),
            forall|k: int|
                0 <= k < points@.len() - 1 ==> unit_step(
                    #[trigger] points@[k],
                    points@[k + 1],
                    sx as int,
                    sy as int,
                ),
        ensures
            points@.len() >= 1,
            points@.last() == (x1, y1),
            points@.len() == max(dx as int, -dy) + 1,
            whole =~= points@.map_values(|p: (i32, i32)| (p.0 as int, p.1 as int)),
        decreases (dx - i) + (-dy - j),
    {
        proof {
            assert(sx * i == if sx == 1 { i } else { -i }) by (nonlinear_arith)
                requires
                    sx == 1 || sx == -1,
            ;
            assert(sy * j == if sy == 1 { j } else { -j }) by (nonlinear_arith)
                requires
                    sy == 1 || sy == -1,
            ;
        }
        let ghost before = points@.map_values(|p: (i32, i32)| (p.0 as int, p.1 as int));
        let ghost pushed_before = points@;
        points.push((x, y));
        proof {
            assert forall|k: int| 0 <= k < points@.len() - 1 implies unit_step(
                #[trigger] points@[k],
                points@[k + 1],
                sx as int,
                sy as int,
            ) by {
                if k == points@.len() - 2 {
                    assert(points@[k] == pushed_before.last());
                } else {
                    assert(points@[k] == pushed_before[k] && points@[k + 1] == pushed_before[k + 1]);
                }
            }
        }
        proof {
            assert(points@.map_values(|p: (i32, i32)| (p.0 as int, p.1 as int)) =~= before.push(
                (x as int, y as int),
            ));
        }
        if x == x1 && y == y1 {
            proof {
                assert(sx * i == if sx == 1 { i } else { -i }) by (nonlinear_arith)
                    requires
                        sx == 1 || sx == -1,
                ;
                assert(sy * j == if sy == 1 { j } else { -j }) by (nonlinear_arith)
                    requires
                        sy == 1 || sy == -1,
                ;
                assert(fuel > 0);
                assert(trace(x as int, y as int, err as int, x1 as int, y1 as int, dx as int,
                    dy as int, sx as int, sy as int, fuel) =~= seq![(x as int, y as int)]);
            }
            break;
        }
        let e2: i32 = 2 * err;
        let ghost (i0, j0, err0, x_0, y_0) = (i, j, err, x, y);
        if e2 >= dy {
            proof {
                // the line never steps past the target column
                if i == dx {
                    assert(j < -dy);
                    assert(2 * ((j + 1) * dx + (dx + 1) * dy) < dy) by (nonlinear_arith)
                        requires
                            j + 1 <= -dy,
                            0 <= dx,
                            dy < 0,
                    ;
                }
            }
            proof {
                assert((i + 2) * dy == (i + 1) * dy + dy) by (nonlinear_arith);
            }
            err = err + dy;
            x = x + sx;
            proof {
                i = i + 1;
            }
        }
        if e2 <= dx {
            proof {
                if j0 == -dy {
                    assert(i0 < dx);
                    assert(2 * ((-dy + 1) * dx + (i0 + 1) * dy) > dx) by (nonlinear_arith)
                        requires
                            i0 + 1 <= dx,
                            0 < dx,
                            dy <= 0,
                    ;
                }
            }
            proof {
                assert((j + 2) * dx == (j + 1) * dx + dx) by (nonlinear_arith);
            }
            err = err + dx;
            y = y + sy;
            proof {
                j = j + 1;
            }
        }
        proof {
            assert(i + j > i0 + j0);
            assert(unit_step((x_0, y_0), (x, y), sx as int, sy as int));
            assert(trace(x_0 as int, y_0 as int, err0 as int, x1 as int, y1 as int, dx as int,
                dy as int, sx as int, sy as int, fuel) =~= seq![(x_0 as int, y_0 as int)] + trace(
                x as int,
                y as int,
                err as int,
                x1 as int,
                y1 as int,
                dx as int,
                dy as int,
                sx as int,
                sy as int,
                (fuel - 1) as nat,
            ));
            fuel = (fuel - 1) as nat;
        }
    }
    proof {
        assert forall|k: int| 0 <= k < points@.len() implies {
            let p = #[trigger] points@[k];
            (p.0 as int, p.1 as int) == whole[k]
        } by {
            assert(whole[k] == points@.map_values(|p: (i32, i32)| (p.0 as int, p.1 as int))[k]);
        }
    }
    points
}


/// `(tx, ty)` is a target that the viewer at `(px, py)` traces a line to: it
/// lies in the grid and within the vision radius.
pub open spec fn in_view(width: int, height: int, px: int, py: int, tx: int, ty: int) -> bool {
    &&& 0 <= tx < width
    &&& 0 <= ty < height
    &&& -RADIUS <= tx - px <= RADIUS
    &&& -RADIUS <= ty - py <= RADIUS
    &&& (tx - px) * (tx - px) + (ty - py) * (ty - py) <= RADIUS * RADIUS
}

/// The transparency predicate `tr` lets light through point `p`.
pub open spec fn passes_light(tr: spec_fn(i32, i32) -> bool, p: (int, int)) -> bool {
    tr(p.0 as i32, p.1 as i32)
}

/// The predicate that a row-major transparency map of a `width` by
/// `height` grid describes; nothing outside the grid lets light through.
pub open spec fn map_lets_light(transparent: Seq<bool>, width: int, height: int) -> spec_fn(
    i32,
    i32,
) -> bool {
    |x: i32, y: i32| 0 <= x < width && 0 <= y < height && transparent[y * width + x]
}

/// The `k`-th point of `line` is lit: every point before it lets light through.
pub open spec fn reveals(
    tr: spec_fn(i32, i32) -> bool,
    line: Seq<(int, int)>,
    k: int,
) -> bool {
    &&& 0 <= k < line.len()
    &&& forall|m: int| 0 <= m < k ==> passes_light(tr, #[trigger] line[m])
}

/// Offset `(dy, dx)` comes before `(cy, cx)` in row-major order.
pub open spec fn offset_before(dy: int, dx: int, cy: int, cx: int) -> bool {
    dy < cy || (dy == cy && dx < cx)
}

/// `(x, y)` is lit by the line to some target whose offset from the viewer
/// comes before `(cy, cx)`.
pub open spec fn lit_before(
    tr: spec_fn(i32, i32) -> bool,
    width: int,
    height: int,
    px: int,
    py: int,
    cy: int,
    cx: int,
    x: int,
    y: int,
) -> bool {
    exists|tx: int, ty: int, k: int|
        #![trigger line_points(px, py, tx, ty)[k]]
        in_view(width, height, px, py, tx, ty) && offset_before(ty - py, tx - px, cy, cx) && reveals(
            tr,
            line_points(px, py, tx, ty),
            k,
        ) && line_points(px, py, tx, ty)[k] == (x, y)
}

/// The viewer at `(px, py)` sees `(x, y)`: some line traced to a target in
/// view reaches it before meeting an opaque tile (the opaque tile itself is
/// seen).
pub open spec fn sees(
    tr: spec_fn(i32, i32) -> bool,
    width: int,
    height: int,
    px: int,
    py: int,
    x: int,
    y: int,
) -> bool {
    lit_before(tr, width, height, px, py, RADIUS + 1, -RADIUS, x, y)
}

/// `(x, y)` is lit by one of the first `m` points of `line`.
pub open spec fn lit_along(
    tr: spec_fn(i32, i32) -> bool,
    line: Seq<(int, int)>,
    m: int,
    x: int,
    y: int,
) -> bool {
    exists|k: int| 0 <= k < m && reveals(tr, line, k) && #[trigger] line[k] == (x, y)
}

/// The grid is not empty, and a target's coordinates, up to `RADIUS` past
/// its edge, fit in an `i32`.
pub open spec fn grid_ok(width: int, height: int) -> bool {
    0 < width <= i32::MAX - RADIUS && 0 < height <= i32::MAX - RADIUS
}

proof fn lemma_lit_next(
    f: spec_fn(i32, i32) -> bool,
    width: int,
    height: int,
    px: int,
    py: int,
    cy: int,
    cx: int,
    x: int,
    y: int,
)
    ensures
        lit_before(f, width, height, px, py, cy, cx + 1, x, y) <==> lit_before(
            f,
            width,
            height,
            px,
            py,
            cy,
            cx,
            x,
            y,
        ) || (in_view(width, height, px, py, px + cx, py + cy) && exists|k: int|
            reveals(f, line_points(px, py, px + cx, py + cy), k) && #[trigger] line_points(
                px,
                py,
                px + cx,
                py + cy,
            )[k] == (x, y)),
{
    if lit_before(f, width, height, px, py, cy, cx + 1, x, y) {
        let (tx, ty, k) = choose|tx: int, ty: int, k: int|
            #![trigger line_points(px, py, tx, ty)[k]]
            in_view(width, height, px, py, tx, ty) && offset_before(ty - py, tx - px, cy, cx + 1)
                && reveals(f, line_points(px, py, tx, ty), k) && line_points(px, py, tx, ty)[k] == (
            x,
            y,
        );
        if !offset_before(ty - py, tx - px, cy, cx) {
            assert(tx == px + cx && ty == py + cy);
        }
    }
    if in_view(width, height, px, py, px + cx, py + cy) && exists|k: int|
        reveals(f, line_points(px, py, px + cx, py + cy), k) && #[trigger] line_points(
            px,
            py,
            px + cx,
            py + cy,
        )[k] == (x, y) {
        let k = choose|k: int|
            reveals(f, line_points(px, py, px + cx, py + cy), k) && #[trigger] line_points(
                px,
                py,
                px + cx,
                py + cy,
            )[k] == (x, y);
        assert(line_points(px, py, px + cx, py + cy)[k] == (x, y));
    }
    if lit_before(f, width, height, px, py, cy, cx, x, y) {
        let (tx, ty, k) = choose|tx: int, ty: int, k: int|
            #![trigger line_points(px, py, tx, ty)[k]]
            in_view(width, height, px, py, tx, ty) && offset_before(ty - py, tx - px, cy, cx)
                && reveals(f, line_points(px, py, tx, ty), k) && line_points(px, py, tx, ty)[k] == (
            x,
            y,
        );
        assert(line_points(px, py, tx, ty)[k] == (x, y));
    }
}

proof fn lemma_lit_row(
    f: spec_fn(i32, i32) -> bool,
    width: int,
    height: int,
    px: int,
    py: int,
    cy: int,
    x: int,
    y: int,
)
    ensures
        lit_before(f, width, height, px, py, cy, RADIUS + 1, x, y) <==> lit_before(
            f,
            width,
            height,
            px,
            py,
            cy + 1,
            -RADIUS,
            x,
            y,
        ),
{
    if lit_before(f, width, height, px, py, cy + 1, -RADIUS, x, y) {
        let (tx, ty, k) = choose|tx: int, ty: int, k: int|
            #![trigger line_points(px, py, tx, ty)[k]]
            in_view(width, height, px, py, tx, ty) && offset_before(ty - py, tx - px, cy + 1, -RADIUS)
                && reveals(f, line_points(px, py, tx, ty), k) && line_points(px, py, tx, ty)[k] == (
            x,
            y,
        );
        assert(line_points(px, py, tx, ty)[k] == (x, y));
    }
    if lit_before(f, width, height, px, py, cy, RADIUS + 1, x, y) {
        let (tx, ty, k) = choose|tx: int, ty: int, k: int|
            #![trigger line_points(px, py, tx, ty)[k]]
            in_view(width, height, px, py, tx, ty) && offset_before(ty - py, tx - px, cy, RADIUS + 1)
                && reveals(f, line_points(px, py, tx, ty), k) && line_points(px, py, tx, ty)[k] == (
            x,
            y,
        );
        assert(line_points(px, py, tx, ty)[k] == (x, y));
    }
}

/// A point between the viewer and a target in view is within the radius.
proof fn lemma_between_in_circle(px: int, py: int, tx: int, ty: int, x: int, y: int)
    requires
        between(px, x, tx),
        between(py, y, ty),
    ensures
        (x - px) * (x - px) + (y - py) * (y - py) <= (tx - px) * (tx - px) + (ty - py) * (ty
            - py),
{
    assert((x - px) * (x - px) <= (tx - px) * (tx - px)) by (nonlinear_arith)
        requires
            between(px, x, tx),
    ;
    assert((y - py) * (y - py) <= (ty - py) * (ty - py)) by (nonlinear_arith)
        requires
            between(py, y, ty),
    ;
}

/// Recomputes `visible`, a row-major map of a `width` by `height` grid, for
/// a viewer at `(player_x, player_y)`: for every target within the vision
/// radius it traces Bresenham's line from the viewer and marks each point
/// up to and including the first one that is not `transparent`, a
/// row-major map of the same grid.
pub fn compute_fov(
    visible: &mut Vec<bool>,
    width: i32,
    height: i32,
    transparent: &Vec<bool>,
    player_x: i32,
    player_y: i32,
)
    requires
        grid_ok(width as int, height as int),
        old(visible)@.len() == width * height,
        0 <= player_x < width,
        0 <= player_y < height,
        transparent@.len() == width * height,
    ensures
        final(visible)@.len() == old(visible)@.len(),
        forall|x: int, y: int|
            0 <= x < width && 0 <= y < height ==> (#[trigger] final(visible)@[y * width + x]
                <==> sees(map_lets_light(transparent@, width as int, height as int), width as int, height as int, player_x as int, player_y as int, x, y)),
        forall|x: int, y: int|
            0 <= x < width && 0 <= y < height && #[trigger] final(visible)@[y * width + x] ==> (x
                - player_x) * (x - player_x) + (y - player_y) * (y - player_y) <= RADIUS * RADIUS,
        forall|i: int|
            0 <= i < final(visible)@.len() && #[trigger] final(visible)@[i] ==> (i % width as int
                - player_x) * (i % width as int - player_x) + (i / width as int - player_y) * (i
                / width as int - player_y) <= RADIUS * RADIUS,
{
    let ghost tr = map_lets_light(transparent@, width as int, height as int);
    let ghost w = width as int;
    let ghost h = height as int;
    let ghost px = player_x as int;
    let ghost py = player_y as int;
    let n = visible.len();
    let mut c: usize = 0;
    while c < n
        invariant
            c <= n,
            visible@.len() == n,
            forall|i: int| 0 <= i < c ==> !#[trigger] visible@[i],
        decreases n - c,
    {
        visible.set(c, false);
        c = c + 1;
    }
    assert forall|x: int, y: int| 0 <= x < w && 0 <= y < h implies (#[trigger] visible@[y * w + x]
        <==> lit_before(tr, w, h, px, py, -RADIUS, -RADIUS, x, y)) by {
        crate::console::lemma_grid_index(w, h, x, y);
    }
    let mut dy: i32 = -RADIUS;
    while dy <= RADIUS
        invariant
            grid_ok(w, h),
            tr == map_lets_light(transparent@, width as int, height as int),
            transparent@.len() == width * height,
            w == width,
            h == height,
            px == player_x,
            py == player_y,
            0 <= player_x < width,
            0 <= player_y < height,
            -RADIUS <= dy <= RADIUS + 1,
            visible@.len() == n,
            n == w * h,
            forall|x: int, y: int|
                0 <= x < w && 0 <= y < h ==> (#[trigger] visible@[y * w + x] <==> lit_before(
                    tr,
                    w,
                    h,
                    px,
                    py,
                    dy as int,
                    -RADIUS,
                    x,
                    y,
                )),
            forall|x: int, y: int|
                0 <= x < w && 0 <= y < h && #[trigger] visible@[y * w + x] ==> (x - px) * (x - px)
                    + (y - py) * (y - py) <= RADIUS * RADIUS,
        decreases RADIUS + 1 - dy,
    {
        let mut dx: i32 = -RADIUS;
        while dx <= RADIUS
            invariant
                grid_ok(w, h),
                tr == map_lets_light(transparent@, width as int, height as int),
                transparent@.len() == width * height,
                w == width,
                h == height,
                px == player_x,
                py == player_y,
                0 <= player_x < width,
                0 <= player_y < height,
                -RADIUS <= dy <= RADIUS,
                -RADIUS <= dx <= RADIUS + 1,
                visible@.len() == n,
                n == w * h,
                forall|x: int, y: int|
                    0 <= x < w && 0 <= y < h ==> (#[trigger] visible@[y * w + x] <==> lit_before(
                        tr,
                        w,
                        h,
                        px,
                        py,
                        dy as int,
                        dx as int,
                        x,
                        y,
                    )),
                forall|x: int, y: int|
                    0 <= x < w && 0 <= y < h && #[trigger] visible@[y * w + x] ==> (x - px) * (x
                        - px) + (y - py) * (y - py) <= RADIUS * RADIUS,
            decreases RADIUS + 1 - dx,
        {
            let ghost tx = px + dx;
            let ghost ty = py + dy;
            let ghost lp = line_points(px, py, tx, ty);
            let i = player_x + dx;
            let j = player_y + dy;
            proof {
                assert(0 <= dx * dx <= RADIUS * RADIUS) by (nonlinear_arith)
                    requires
                        -RADIUS <= dx <= RADIUS,
                ;
                assert(0 <= dy * dy <= RADIUS * RADIUS) by (nonlinear_arith)
                    requires
                        -RADIUS <= dy <= RADIUS,
                ;
            }
            if dx * dx + dy * dy <= RADIUS * RADIUS && i >= 0 && i < width && j >= 0 && j < height {
                let points = line(player_x, player_y, i, j);
                let mut m: usize = 0;
                let mut open = true;
                while open && m < points.len()
                    invariant
                        grid_ok(w, h),
                        tr == map_lets_light(transparent@, width as int, height as int),
                        transparent@.len() == width * height,
                        w == width,
                        h == height,
                        px == player_x,
                        py == player_y,
                        0 <= player_x < width,
                        0 <= player_y < height,
                        -RADIUS <= dy <= RADIUS,
                        -RADIUS <= dx <= RADIUS,
                        i == tx,
                        j == ty,
                        in_view(w, h, px, py, tx, ty),
                        lp == line_points(px, py, tx, ty),
                        points@.len() == lp.len(),
                        forall|k: int|
                            0 <= k < points@.len() ==> {
                                let p = #[trigger] points@[k];
                                &&& (p.0 as int, p.1 as int) == lp[k]
                                &&& between(px, p.0 as int, tx)
                                &&& between(py, p.1 as int, ty)
                            },
                        m <= points@.len(),
                        visible@.len() == n,
                        n == w * h,
                        open ==> forall|k: int|
                            0 <= k < m ==> passes_light(tr, #[trigger] lp[k]),
                        !open ==> (m >= 1 && !passes_light(tr, lp[m - 1]) && forall|k: int|
                            0 <= k < m - 1 ==> passes_light(tr, #[trigger] lp[k])),
                        forall|x: int, y: int|
                            0 <= x < w && 0 <= y < h ==> (#[trigger] visible@[y * w + x] <==> (
                            lit_before(tr, w, h, px, py, dy as int, dx as int, x, y)
                                || lit_along(tr, lp, m as int, x, y))),
                        forall|x: int, y: int|
                            0 <= x < w && 0 <= y < h && #[trigger] visible@[y * w + x] ==> (x - px)
                                * (x - px) + (y - py) * (y - py) <= RADIUS * RADIUS,
                    decreases points@.len() - m,
                {
                    let (x, y) = points[m];
                    proof {
                        crate::console::lemma_grid_index(w, h, x as int, y as int);
                        lemma_between_in_circle(px, py, tx, ty, x as int, y as int);
                    }
                    let idx: usize = (y as usize) * (width as usize) + (x as usize);
                    let ghost before = visible@;
                    visible.set(idx, true);
                    proof {
                        assert(reveals(tr, lp, m as int));
                        assert forall|a: int, b: int| 0 <= a < w && 0 <= b < h implies (
                        #[trigger] visible@[b * w + a] <==> (lit_before(
                            tr,
                            w,
                            h,
                            px,
                            py,
                            dy as int,
                            dx as int,
                            a,
                            b,
                        ) || lit_along(tr, lp, m + 1, a, b))) by {
                            crate::console::lemma_grid_index(w, h, a, b);
                            if b * w + a == idx {
                                crate::console::lemma_grid_index_injective(w, a, b, x as int, y as int);
                                assert(lp[m as int] == (a, b));
                            } else {
                                assert(before[b * w + a] == visible@[b * w + a]);
                                if lit_along(tr, lp, m + 1, a, b) {
                                    let k = choose|k: int|
                                        0 <= k < m + 1 && reveals(tr, lp, k)
                                            && #[trigger] lp[k] == (a, b);
                                    assert(k != m);
                                    assert(lit_along(tr, lp, m as int, a, b));
                                }
                                if lit_along(tr, lp, m as int, a, b) {
                                    let k = choose|k: int|
                                        0 <= k < m && reveals(tr, lp, k)
                                            && #[trigger] lp[k] == (a, b);
                                    assert(lp[k] == (a, b));
                                }
                            }
                        }
                        assert forall|a: int, b: int|
                            0 <= a < w && 0 <= b < h && #[trigger] visible@[b * w + a] implies (a - px)
                            * (a - px) + (b - py) * (b - py) <= RADIUS * RADIUS by {
                            crate::console::lemma_grid_index(w, h, a, b);
                            if b * w + a == idx {
                                crate::console::lemma_grid_index_injective(w, a, b, x as int, y as int);
                            } else {
                                assert(before[b * w + a] == visible@[b * w + a]);
                            }
                        }
                    }
                    let lets_light = transparent[idx];
                    if !lets_light {
                        open = false;
                    }
                    m = m + 1;
                }
                proof {
                    assert forall|a: int, b: int| 0 <= a < w && 0 <= b < h implies (
                    #[trigger] visible@[b * w + a] <==> lit_before(
                        tr,
                        w,
                        h,
                        px,
                        py,
                        dy as int,
                        dx + 1,
                        a,
                        b,
                    )) by {
                        lemma_lit_next(tr, w, h, px, py, dy as int, dx as int, a, b);
                        if exists|k: int|
                            reveals(tr, lp, k) && #[trigger] lp[k] == (a, b) {
                            let k = choose|k: int|
                                reveals(tr, lp, k) && #[trigger] lp[k] == (a, b);
                            if k >= m {
                                assert(!open);
                                assert(!passes_light(tr, lp[m - 1]));
                            }
                            assert(lit_along(tr, lp, m as int, a, b));
                        }
                        if lit_along(tr, lp, m as int, a, b) {
                            let k = choose|k: int|
                                0 <= k < m && reveals(tr, lp, k)
                                    && #[trigger] lp[k] == (a, b);
                            assert(lp[k] == (a, b));
                        }
                    }
                }
            } else {
                proof {
                    assert forall|a: int, b: int| 0 <= a < w && 0 <= b < h implies (
                    #[trigger] visible@[b * w + a] <==> lit_before(
                        tr,
                        w,
                        h,
                        px,
                        py,
                        dy as int,
                        dx + 1,
                        a,
                        b,
                    )) by {
                        lemma_lit_next(tr, w, h, px, py, dy as int, dx as int, a, b);
                    }
                }
            }
            dx = dx + 1;
        }
        proof {
            assert forall|a: int, b: int| 0 <= a < w && 0 <= b < h implies (#[trigger] visible@[b
                * w + a] <==> lit_before(tr, w, h, px, py, dy + 1, -RADIUS, a, b)) by {
                lemma_lit_row(tr, w, h, px, py, dy as int, a, b);
            }
        }
        dy = dy + 1;
    }
    proof {
        assert forall|i: int| 0 <= i < visible@.len() && #[trigger] visible@[i] implies (i % w - px)
            * (i % w - px) + (i / w - py) * (i / w - py) <= RADIUS * RADIUS by {
            vstd::arithmetic::div_mod::lemma_fundamental_div_mod(i, w);
            let x = i % w;
            let y = i / w;
            assert(0 <= x < w);
            assert(y * w + x == i) by (nonlinear_arith)
                requires
                    i == w * (i / w) + i % w,
                    x == i % w,
                    y == i / w,
            ;
            assert(0 <= y < h) by (nonlinear_arith)
                requires
                    y * w + x == i,
                    0 <= x < w,
                    0 <= i < w * h,
                    0 < w,
            ;
            assert(visible@[y * w + x]);
        }
    }
}

} // verus!
