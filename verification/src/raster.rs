//! Software rasterizer: point, disk and line drawing with silent clipping.

use vstd::prelude::*;

use crate::geometry::lemma_outside_radius;

verus! {

/// Width of the pixel buffer, in pixels.
pub const WIDTH: usize = 800;

/// Height of the pixel buffer, in pixels.
pub const HEIGHT: usize = 600;

/// Radius, in pixels, with which control points are drawn on screen.
pub const POINT_RADIUS: i32 = 5;

/// The row-major index of the pixel at `(px, py)`.
pub open spec fn pixel_index(px: int, py: int) -> int {
    py * (WIDTH as int) + px
}

/// Whether `(px, py)` lies on the buffer.
pub open spec fn on_screen(px: int, py: int) -> bool {
    0 <= px < WIDTH as int && 0 <= py < HEIGHT as int
}

/// Whether `(px, py)` lies in the closed disk of radius `r` around
/// `(cx, cy)`.
pub open spec fn in_disk(px: int, py: int, cx: int, cy: int, r: int) -> bool {
    (px - cx) * (px - cx) + (py - cy) * (py - cy) <= r * r
}

/// Distinct on-screen pixels occupy distinct buffer cells.
pub proof fn lemma_pixel_index_injective(px1: int, py1: int, px2: int, py2: int)
    requires
        on_screen(px1, py1),
        on_screen(px2, py2),
        (px1, py1) != (px2, py2),
    ensures
        pixel_index(px1, py1) != pixel_index(px2, py2),
{
    if py1 != py2 {
        assert(pixel_index(px1, py1) != pixel_index(px2, py2));
    }
}

/// Writes `color` into the buffer at `(x, y)`; a silent no-op when the
/// coordinates fall outside the buffer. Every other pixel keeps its value.
pub fn draw_point(buffer: &mut Vec<u32>, x: i32, y: i32, color: u32)
    requires
        old(buffer)@.len() == WIDTH * HEIGHT,
    ensures
        final(buffer)@.len() == old(buffer)@.len(),
        on_screen(x as int, y as int) ==> final(buffer)@ == old(buffer)@.update(
            pixel_index(x as int, y as int),
            color,
        ),
        !on_screen(x as int, y as int) ==> final(buffer)@ == old(buffer)@,
{
    if x >= 0 && x < WIDTH as i32 && y >= 0 && y < HEIGHT as i32 {
        let idx: usize = (y as usize) * WIDTH + (x as usize);
        buffer.set(idx, color);
    }
}

/// The part of the disk already painted when the row scan stands at offset
/// `dy` and the column scan within that row at offset `dx`: the full rows
/// strictly before `dy`, and on row `dy` the columns strictly before `dx`.
spec fn disk_scanned(px: int, py: int, cx: int, cy: int, r: int, dy: int, dx: int) -> bool {
    in_disk(px, py, cx, cy, r) && ((-r <= py - cy && py - cy < dy) || (py - cy == dy && -r <= px
        - cx && px - cx < dx))
}

/// Fills the closed disk of the given radius around `(center_x, center_y)`:
/// every on-screen pixel whose squared distance from the center is at most
/// `radius * radius` takes `color`, every other pixel keeps its value.
/// Off-screen parts are silently clipped, and a negative radius paints
/// nothing.
pub fn draw_circle(buffer: &mut Vec<u32>, center_x: i32, center_y: i32, radius: i32, color: u32)
    requires
        old(buffer)@.len() == WIDTH * HEIGHT,
    ensures
        final(buffer)@.len() == old(buffer)@.len(),
        forall|px: int, py: int|
            on_screen(px, py) ==> final(buffer)@[pixel_index(px, py)] == (if radius >= 0 && in_disk(
                px,
                py,
                center_x as int,
                center_y as int,
                radius as int,
            ) {
                color
            } else {
                old(buffer)@[pixel_index(px, py)]
            }),
{
    let r: i64 = radius as i64;
    let cx: i64 = center_x as i64;
    let cy: i64 = center_y as i64;
    let mut dy: i64 = -r;
    while dy <= r
        invariant
            buffer@.len() == old(buffer)@.len(),
            buffer@.len() == WIDTH * HEIGHT,
            r == radius as int,
            cx == center_x as int,
            cy == center_y as int,
            r >= 0 ==> -r <= dy <= r + 1,
            r < 0 ==> dy == -r,
            forall|px: int, py: int|
                on_screen(px, py) ==> buffer@[pixel_index(px, py)] == (if r >= 0 && disk_scanned(
                    px,
                    py,
                    cx as int,
                    cy as int,
                    r as int,
                    dy as int,
                    -r as int,
                ) {
                    color
                } else {
                    old(buffer)@[pixel_index(px, py)]
                }),
        decreases r + 1 - dy,
    {
        let mut dx: i64 = -r;
        while dx <= r
            invariant
                buffer@.len() == old(buffer)@.len(),
                buffer@.len() == WIDTH * HEIGHT,
                r == radius as int,
                cx == center_x as int,
                cy == center_y as int,
                0 <= r,
                -r <= dy <= r,
                -r <= dx <= r + 1,
                forall|px: int, py: int|
                    on_screen(px, py) ==> buffer@[pixel_index(px, py)] == (if disk_scanned(
                        px,
                        py,
                        cx as int,
                        cy as int,
                        r as int,
                        dy as int,
                        dx as int,
                    ) {
                        color
                    } else {
                        old(buffer)@[pixel_index(px, py)]
                    }),
            decreases r + 1 - dx,
        {
            proof {
                assert(0 <= dx * dx && dx * dx <= 4611686014132420609) by (nonlinear_arith)
                    requires
                        -2147483647 <= dx as int <= 2147483647,
                ;
                assert(0 <= dy * dy && dy * dy <= 4611686014132420609) by (nonlinear_arith)
                    requires
                        -2147483647 <= dy as int <= 2147483647,
                ;
                assert(0 <= r * r && r * r <= 4611686014132420609) by (nonlinear_arith)
                    requires
                        0 <= r as int <= 2147483647,
                ;
            }
            let ghost prev = buffer@;
            let painted: bool;
            if dx * dx + dy * dy <= r * r {
                let px64: i64 = cx + dx;
                let py64: i64 = cy + dy;
                if px64 >= 0 && px64 < WIDTH as i64 && py64 >= 0 && py64 < HEIGHT as i64 {
                    draw_point(buffer, px64 as i32, py64 as i32, color);
                    painted = true;
                } else {
                    painted = false;
                }
            } else {
                painted = false;
            }
            proof {
                let qx = cx as int + dx as int;
                let qy = cy as int + dy as int;
                assert forall|px: int, py: int| on_screen(px, py) implies buffer@[pixel_index(
                    px,
                    py,
                )] == (if disk_scanned(px, py, cx as int, cy as int, r as int, dy as int, dx as int
                    + 1) {
                    color
                } else {
                    old(buffer)@[pixel_index(px, py)]
                }) by {
                    if px == qx && py == qy {
                        if in_disk(px, py, cx as int, cy as int, r as int) {
                            assert(painted);
                            assert(buffer@ == prev.update(pixel_index(qx, qy), color));
                            assert(buffer@[pixel_index(px, py)] == color);
                            assert(disk_scanned(
                                px,
                                py,
                                cx as int,
                                cy as int,
                                r as int,
                                dy as int,
                                dx as int + 1,
                            ));
                        } else {
                            assert(buffer@[pixel_index(px, py)] == prev[pixel_index(px, py)]);
                        }
                    } else {
                        if painted {
                            lemma_pixel_index_injective(px, py, qx, qy);
                            assert(buffer@[pixel_index(px, py)] == prev[pixel_index(px, py)]);
                        } else {
                            assert(buffer@[pixel_index(px, py)] == prev[pixel_index(px, py)]);
                        }
                        assert(disk_scanned(
                            px,
                            py,
                            cx as int,
                            cy as int,
                            r as int,
                            dy as int,
                            dx as int + 1,
                        ) == disk_scanned(
                            px,
                            py,
                            cx as int,
                            cy as int,
                            r as int,
                            dy as int,
                            dx as int,
                        ));
                    }
                }
            }
            dx += 1;
        }
        proof {
            assert forall|px: int, py: int| on_screen(px, py) implies (disk_scanned(
                px,
                py,
                cx as int,
                cy as int,
                r as int,
                dy as int + 1,
                -r as int,
            ) == disk_scanned(px, py, cx as int, cy as int, r as int, dy as int, dx as int)) by {
                if in_disk(px, py, cx as int, cy as int, r as int) && py - cy == dy as int {
                    if px - cx > r as int || px - cx < -r as int {
                        lemma_outside_radius(px - cx, r as int);
                        assert((py - cy) * (py - cy) >= 0) by (nonlinear_arith);
                        assert(!in_disk(px, py, cx as int, cy as int, r as int));
                    }
                }
            }
        }
        dy += 1;
    }
    proof {
        if r >= 0 {
            assert forall|px: int, py: int| on_screen(px, py) implies (disk_scanned(
                px,
                py,
                cx as int,
                cy as int,
                r as int,
                dy as int,
                -r as int,
            ) == in_disk(px, py, cx as int, cy as int, r as int)) by {
                if in_disk(px, py, cx as int, cy as int, r as int) {
                    if py - cy > r as int || py - cy < -r as int {
                        lemma_outside_radius(py - cy, r as int);
                        assert((px - cx) * (px - cx) >= 0) by (nonlinear_arith);
                        assert(!in_disk(px, py, cx as int, cy as int, r as int));
                    }
                    assert(-r as int <= py - cy && py - cy < dy as int);
                }
            }
        }
    }
}

/// The coordinate step of the Bresenham walk: toward the target, with the
/// tie on equal coordinates broken downward as the classic formulation does.
pub open spec fn step_toward(a: int, b: int) -> int {
    if a < b {
        1
    } else {
        -1
    }
}

/// The absolute difference of two coordinates.
pub open spec fn axis_gap(a: int, b: int) -> nat {
    if a <= b {
        (b - a) as nat
    } else {
        (a - b) as nat
    }
}

/// The pixels visited by the error-accumulator Bresenham walk standing at
/// `(x, y)` with accumulator `err`, heading for `(x1, y1)`, where `dx` and
/// `dy` are the fixed spans `|x1 - x0|` and `-|y1 - y0|` of the original
/// endpoints. Mirrors the classic loop exactly, early exits included.
pub open spec fn bres_pixels(
    x: int,
    y: int,
    x1: int,
    y1: int,
    dx: int,
    dy: int,
    err: int,
) -> Seq<(int, int)>
    decreases axis_gap(x, x1) + axis_gap(y, y1),
{
    if x == x1 && y == y1 {
        seq![(x, y)]
    } else {
        let e2 = 2 * err;
        if e2 >= dy && x == x1 {
            seq![(x, y)]
        } else {
            let xs = if e2 >= dy {
                x + step_toward(x, x1)
            } else {
                x
            };
            let errs = if e2 >= dy {
                err + dy
            } else {
                err
            };
            if e2 <= dx {
                if y == y1 {
                    seq![(x, y)]
                } else {
                    seq![(x, y)] + bres_pixels(
                        xs,
                        y + step_toward(y, y1),
                        x1,
                        y1,
                        dx,
                        dy,
                        errs + dx,
                    )
                }
            } else if e2 >= dy {
                seq![(x, y)] + bres_pixels(xs, y, x1, y1, dx, dy, errs)
            } else {
                seq![(x, y)]
            }
        }
    }
}

/// The pixels of the Bresenham line segment from `(x0, y0)` to `(x1, y1)`.
pub open spec fn line_pixels(x0: int, y0: int, x1: int, y1: int) -> Seq<(int, int)> {
    bres_pixels(
        x0,
        y0,
        x1,
        y1,
        axis_gap(x0, x1) as int,
        -(axis_gap(y0, y1) as int),
        axis_gap(x0, x1) as int - axis_gap(y0, y1) as int,
    )
}

/// Appending to a pixel trail adds exactly the new pixel to what it
/// contains.
proof fn lemma_push_contains(s: Seq<(int, int)>, v: (int, int), w: (int, int))
    ensures
        s.push(v).contains(w) <==> (s.contains(w) || w == v),
{
    if s.contains(w) {
        let i = choose|i: int| 0 <= i < s.len() && s[i] == w;
        assert(s.push(v)[i] == w);
    }
    if w == v {
        assert(s.push(v)[s.len() as int] == w);
    }
    if s.push(v).contains(w) && !(s.contains(w)) && w != v {
        let i = choose|i: int| 0 <= i < s.push(v).len() && s.push(v)[i] == w;
        if i < s.len() {
            assert(s[i] == w);
        } else {
            assert(s.push(v)[s.len() as int] == v);
        }
    }
}

/// Draws the line segment from `(x0, y0)` to `(x1, y1)` with the classic
/// integer Bresenham error-accumulator walk, endpoints included; a
/// degenerate segment paints a single pixel. Every pixel the walk visits
/// takes `color` where it lies on the buffer (the rest is silently clipped),
/// and every other pixel keeps its value.
pub fn draw_line(buffer: &mut Vec<u32>, x0: i32, y0: i32, x1: i32, y1: i32, color: u32)
    requires
        old(buffer)@.len() == WIDTH * HEIGHT,
    ensures
        final(buffer)@.len() == old(buffer)@.len(),
        forall|px: int, py: int|
            on_screen(px, py) ==> final(buffer)@[pixel_index(px, py)] == (if line_pixels(
                x0 as int,
                y0 as int,
                x1 as int,
                y1 as int,
            ).contains((px, py)) {
                color
            } else {
                old(buffer)@[pixel_index(px, py)]
            }),
{
    let xt: i64 = x1 as i64;
    let yt: i64 = y1 as i64;
    let dx: i64 = if x0 <= x1 {
        xt - x0 as i64
    } else {
        x0 as i64 - xt
    };
    let dy: i64 = if y0 <= y1 {
        -(yt - y0 as i64)
    } else {
        -(y0 as i64 - yt)
    };
    let sx: i64 = if x0 < x1 {
        1
    } else {
        -1
    };
    let sy: i64 = if y0 < y1 {
        1
    } else {
        -1
    };
    let mut err: i64 = dx + dy;
    let mut x: i64 = x0 as i64;
    let mut y: i64 = y0 as i64;
    let ghost full = line_pixels(x0 as int, y0 as int, x1 as int, y1 as int);
    let ghost mut trail: Seq<(int, int)> = Seq::empty();
    proof {
        assert(trail + full =~= full);
    }
    loop
        invariant_except_break
            full == trail + bres_pixels(
                x as int,
                y as int,
                xt as int,
                yt as int,
                dx as int,
                dy as int,
                err as int,
            ),
        invariant
            buffer@.len() == old(buffer)@.len(),
            buffer@.len() == WIDTH * HEIGHT,
            dx as int == axis_gap(x0 as int, x1 as int),
            dy as int == -(axis_gap(y0 as int, y1 as int) as int),
            xt == x1 as int && yt == y1 as int,
            if x0 < x1 {
                x0 as int <= x as int <= x1 as int && sx == 1
            } else {
                x1 as int <= x as int <= x0 as int && sx == -1
            },
            if y0 < y1 {
                y0 as int <= y as int <= y1 as int && sy == 1
            } else {
                y1 as int <= y as int <= y0 as int && sy == -1
            },
            2 * (dy as int) <= err as int <= 2 * (dx as int),
            forall|px: int, py: int|
                on_screen(px, py) ==> buffer@[pixel_index(px, py)] == (if trail.contains(
                    (px, py),
                ) {
                    color
                } else {
                    old(buffer)@[pixel_index(px, py)]
                }),
        ensures
            buffer@.len() == old(buffer)@.len(),
            full == trail,
            forall|px: int, py: int|
                on_screen(px, py) ==> buffer@[pixel_index(px, py)] == (if trail.contains(
                    (px, py),
                ) {
                    color
                } else {
                    old(buffer)@[pixel_index(px, py)]
                }),
        decreases axis_gap(x as int, xt as int) + axis_gap(y as int, yt as int),
    {
        let ghost prev = buffer@;
        let ghost ox = x as int;
        let ghost oy = y as int;
        let ghost otrail = trail;
        let ghost rem = bres_pixels(
            ox,
            oy,
            xt as int,
            yt as int,
            dx as int,
            dy as int,
            err as int,
        );
        draw_point(buffer, x as i32, y as i32, color);
        proof {
            let cur = (ox, oy);
            assert forall|px: int, py: int| on_screen(px, py) implies buffer@[pixel_index(px, py)]
                == (if trail.push(cur).contains((px, py)) {
                color
            } else {
                old(buffer)@[pixel_index(px, py)]
            }) by {
                lemma_push_contains(trail, cur, (px, py));
                if px == ox && py == oy {
                    assert(on_screen(ox, oy));
                    assert(buffer@ == prev.update(pixel_index(ox, oy), color));
                    assert(buffer@[pixel_index(px, py)] == color);
                } else {
                    if on_screen(ox, oy) {
                        lemma_pixel_index_injective(px, py, ox, oy);
                        assert(buffer@[pixel_index(px, py)] == prev[pixel_index(px, py)]);
                    } else {
                        assert(buffer@ == prev);
                    }
                }
            }
            trail = trail.push(cur);
            assert(otrail + seq![cur] =~= trail);
        }
        if x == xt && y == yt {
            proof {
                assert(rem =~= seq![(ox, oy)]);
                assert(full == otrail + rem);
                assert(otrail + rem =~= trail);
            }
            break ;
        }
        let e2: i64 = 2 * err;
        if e2 >= dy {
            if x == xt {
                proof {
                    assert(rem =~= seq![(ox, oy)]);
                    assert(otrail + rem =~= trail);
                }
                break ;
            }
            proof {
                assert(step_toward(ox, xt as int) == sx as int);
            }
            err = err + dy;
            x = x + sx;
        }
        if e2 <= dx {
            if y == yt {
                proof {
                    assert(rem =~= seq![(ox, oy)]);
                    assert(otrail + rem =~= trail);
                }
                break ;
            }
            proof {
                assert(step_toward(oy, yt as int) == sy as int);
            }
            err = err + dx;
            y = y + sy;
        }
        proof {
            assert(rem == seq![(ox, oy)] + bres_pixels(
                x as int,
                y as int,
                xt as int,
                yt as int,
                dx as int,
                dy as int,
                err as int,
            ));
            assert(otrail + rem =~= trail + bres_pixels(
                x as int,
                y as int,
                xt as int,
                yt as int,
                dx as int,
                dy as int,
                err as int,
            ));
        }
    }
}

} // verus!
