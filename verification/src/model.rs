//! The curve model: control points, selection and timed subdivision playback.

use vstd::prelude::*;
use vstd::pervasive::VecAdditionalExecFns;

use crate::geometry::ControlPoint;
use crate::geometry::Point;
use crate::geometry::floor_div4;
use crate::geometry::in_range;
use crate::geometry::lemma_outside_radius;
use crate::geometry::lemma_quarter_in_range;
use crate::geometry::point_in_range;
use crate::geometry::poly_view;
use crate::geometry::pv;
use crate::geometry::quarter;

verus! {

/// Number of Chaikin refinement passes precomputed for an animation; the
/// stored sequence of levels holds one more entry, the raw control points.
pub const MAX_ANIMATION_STEPS: usize = 7;

/// How long the playback dwells on one level before advancing.
pub const ANIMATION_STEP_DURATION_MS: u64 = 500;

/// Hit-test radius of a control point: five pixels, in subunits.
pub const HIT_RADIUS: i64 = 5 * crate::geometry::COORD_UNIT;

/// The point of a Chaikin refinement at output index `j`, for an input
/// polyline `s` of length at least three. Index 0 keeps the first input
/// point and index `2*s.len() - 1` the last; between them each consecutive
/// input pair `(p, p')` contributes its quarter point and then its
/// three-quarter point.
pub open spec fn chaikin_at(s: Seq<(int, int)>, j: int) -> (int, int) {
    if j == 0 {
        s[0]
    } else if j == 2 * s.len() - 1 {
        s[s.len() - 1]
    } else if j % 2 == 1 {
        let i = (j - 1) / 2;
        (quarter(s[i].0, s[i + 1].0), quarter(s[i].1, s[i + 1].1))
    } else {
        let i = (j - 2) / 2;
        (quarter(s[i + 1].0, s[i].0), quarter(s[i + 1].1, s[i].1))
    }
}

/// One Chaikin corner-cutting pass over an open polyline: the identity on
/// polylines of at most two points, else the `2*s.len()` points given by
/// [`chaikin_at`].
pub open spec fn chaikin_spec(s: Seq<(int, int)>) -> Seq<(int, int)> {
    if s.len() <= 2 {
        s
    } else {
        Seq::new(2 * s.len(), |j: int| chaikin_at(s, j))
    }
}

/// `k` Chaikin passes in a row.
pub open spec fn chaikin_iter(s: Seq<(int, int)>, k: nat) -> Seq<(int, int)>
    decreases k,
{
    if k == 0 {
        s
    } else {
        chaikin_spec(chaikin_iter(s, (k - 1) as nat))
    }
}

/// A polyline of at most two points cannot be subdivided further: one pass
/// returns it unchanged.
pub proof fn lemma_chaikin_identity_short(s: Seq<(int, int)>)
    requires
        s.len() <= 2,
    ensures
        chaikin_spec(s) == s,
{
}

/// On three or more points one pass yields `2 + 2*(s.len() - 1)` points and
/// keeps the first and last input points exactly.
pub proof fn lemma_chaikin_endpoints(s: Seq<(int, int)>)
    requires
        s.len() >= 3,
    ensures
        chaikin_spec(s).len() == 2 + 2 * (s.len() - 1),
        chaikin_spec(s)[0] == s[0],
        chaikin_spec(s)[chaikin_spec(s).len() - 1] == s[s.len() - 1],
{
}

/// On three or more points one pass is never the identity: the output is a
/// strictly longer polyline, so no such input is a fixed point.
pub proof fn lemma_chaikin_never_fixed(s: Seq<(int, int)>)
    requires
        s.len() >= 3,
    ensures
        chaikin_spec(s).len() > s.len(),
        chaikin_spec(s) != s,
{
    assert(chaikin_spec(s).len() == 2 * s.len());
}

/// An exact copy of a polyline.
fn copy_points(src: &Vec<Point>) -> (out: Vec<Point>)
    ensures
        out@ == src@,
{
    let mut out: Vec<Point> = Vec::new();
    proof {
        assert(out@ =~= src@.take(0));
    }
    let mut k: usize = 0;
    while k < src.len()
        invariant
            k <= src@.len(),
            out@ == src@.take(k as int),
        decreases src@.len() - k,
    {
        out.push(src[k]);
        proof {
            assert(out@ =~= src@.take(k as int + 1));
        }
        k += 1;
    }
    proof {
        assert(src@.take(src@.len() as int) =~= src@);
    }
    out
}

/// One executable Chaikin pass: the identity on at most two points, else the
/// open-curve refinement that keeps both endpoints and replaces each edge by
/// its quarter and three-quarter points.
pub fn chaikin_step(points: &Vec<Point>) -> (out: Vec<Point>)
    requires
        forall|i: int| 0 <= i < points@.len() ==> point_in_range(#[trigger] points@[i]),
    ensures
        poly_view(out@) == chaikin_spec(poly_view(points@)),
        forall|i: int| 0 <= i < out@.len() ==> point_in_range(#[trigger] out@[i]),
{
    let n = points.len();
    let ghost s = poly_view(points@);
    proof {
        assert(s.len() == points@.len());
        assert forall|i: int| 0 <= i < s.len() implies pv(points@[i]) == #[trigger] s[i] by {}
    }
    if n <= 2 {
        let out = copy_points(points);
        proof {
            assert(poly_view(out@) == chaikin_spec(s));
        }
        return out;
    }
    let mut out: Vec<Point> = Vec::new();
    out.push(points[0]);
    let mut i: usize = 0;
    while i < n - 1
        invariant
            n == points@.len(),
            3 <= n,
            s == poly_view(points@),
            forall|t: int| 0 <= t < n ==> point_in_range(#[trigger] points@[t]),
            forall|t: int| 0 <= t < s.len() ==> pv(points@[t]) == #[trigger] s[t],
            i <= n - 1,
            out@.len() == 1 + 2 * i,
            forall|j: int| 0 <= j < out@.len() ==> pv(#[trigger] out@[j]) == chaikin_at(s, j),
            forall|j: int| 0 <= j < out@.len() ==> point_in_range(#[trigger] out@[j]),
        decreases n - 1 - i,
    {
        let p0 = points[i];
        let p1 = points[i + 1];
        proof {
            assert(point_in_range(points@[i as int]));
            assert(point_in_range(points@[i as int + 1]));
        }
        let qx = floor_div4(3 * p0.x + p1.x);
        let qy = floor_div4(3 * p0.y + p1.y);
        let rx = floor_div4(3 * p1.x + p0.x);
        let ry = floor_div4(3 * p1.y + p0.y);
        out.push(Point { x: qx, y: qy });
        out.push(Point { x: rx, y: ry });
        proof {
            let ii = i as int;
            lemma_quarter_in_range(s[ii].0, s[ii + 1].0);
            lemma_quarter_in_range(s[ii].1, s[ii + 1].1);
            lemma_quarter_in_range(s[ii + 1].0, s[ii].0);
            lemma_quarter_in_range(s[ii + 1].1, s[ii].1);
            vstd::arithmetic::div_mod::lemma_div_multiples_vanish(ii, 2);
            let jq = 1 + 2 * ii;
            let jr = 2 + 2 * ii;
            assert(jq % 2 == 1 && jr % 2 == 0);
            assert((jq - 1) / 2 == ii && (jr - 2) / 2 == ii);
            assert(jq != 0 && jq != 2 * s.len() - 1);
            assert(jr != 0 && jr != 2 * s.len() - 1);
            assert(pv(out@[jq]) == chaikin_at(s, jq));
            assert(pv(out@[jr]) == chaikin_at(s, jr));
        }
        i += 1;
    }
    out.push(points[n - 1]);
    proof {
        assert(pv(out@[2 * s.len() - 1]) == chaikin_at(s, 2 * s.len() - 1));
        assert(poly_view(out@) =~= chaikin_spec(s));
    }
    out
}

/// The mathematical positions of a sequence of control points, in order.
pub open spec fn positions(s: Seq<ControlPoint>) -> Seq<(int, int)> {
    s.map_values(|cp: ControlPoint| pv(cp.position))
}

/// A click at `(x, y)` hits a control point iff the squared Euclidean
/// distance to its position is at most the squared hit radius.
pub open spec fn hit(p: ControlPoint, x: int, y: int) -> bool {
    let dx = p.position.x - x;
    let dy = p.position.y - y;
    dx * dx + dy * dy <= (HIT_RADIUS as int) * (HIT_RADIUS as int)
}

/// The curve model: the ordered control points, the precomputed subdivision
/// levels, and the playback state of the animation.
pub struct ChaikinCurve {
    /// User-placed anchors; insertion order is polyline order.
    pub control_points: Vec<ControlPoint>,
    /// Either empty, or exactly `MAX_ANIMATION_STEPS + 1` levels where each
    /// level past the first is one Chaikin pass over the one before it.
    pub animation_steps: Vec<Vec<Point>>,
    /// The level shown while animating.
    pub current_step: usize,
    /// Whether a started animation is playing.
    pub animating: bool,
    /// Time accrued since the shown level last changed.
    pub step_timer_ms: u64,
}

impl ChaikinCurve {
    /// The model's invariant: coordinates stay in range, the level store is
    /// empty or complete and internally one pass apart, the shown level is a
    /// valid index while animating, and the step timer is below the step
    /// duration.
    pub open spec fn wf(self) -> bool {
        &&& forall|i: int|
            0 <= i < self.control_points@.len() ==> point_in_range(
                (#[trigger] self.control_points@[i]).position,
            )
        &&& self.animation_steps@.len() == 0 || self.animation_steps@.len()
            == MAX_ANIMATION_STEPS as int + 1
        &&& forall|i: int, j: int|
            0 <= i < self.animation_steps@.len() && 0 <= j < self.animation_steps@[i]@.len()
                ==> point_in_range(#[trigger] self.animation_steps@[i]@[j])
        &&& forall|i: int|
            1 <= i < self.animation_steps@.len() ==> poly_view(
                #[trigger] self.animation_steps@[i]@,
            ) == chaikin_spec(poly_view(self.animation_steps@[i - 1]@))
        &&& (self.animating ==> self.animation_steps@.len() > 0 && (self.current_step as int)
            < self.animation_steps@.len())
        &&& (self.step_timer_ms as int) < ANIMATION_STEP_DURATION_MS as int
    }

    /// A fresh model: no points, no levels, not animating.
    pub fn new() -> (r: ChaikinCurve)
        ensures
            r.wf(),
            r.control_points@.len() == 0,
            r.animation_steps@.len() == 0,
            r.current_step == 0,
            !r.animating,
            r.step_timer_ms == 0,
    {
        ChaikinCurve {
            control_points: Vec::new(),
            animation_steps: Vec::new(),
            current_step: 0,
            animating: false,
            step_timer_ms: 0,
        }
    }

    /// Appends a new unselected control point at `(x, y)`. The level store is
    /// left as it is: a caller that wants the animation to follow the edit
    /// resets or regenerates it.
    pub fn add_point(&mut self, x: i64, y: i64)
        requires
            old(self).wf(),
            in_range(x as int),
            in_range(y as int),
        ensures
            final(self).wf(),
            final(self).control_points@ == old(self).control_points@.push(
                (ControlPoint { position: (Point { x, y }), selected: false }),
            ),
            final(self).animation_steps == old(self).animation_steps,
            final(self).current_step == old(self).current_step,
            final(self).animating == old(self).animating,
            final(self).step_timer_ms == old(self).step_timer_ms,
    {
        self.control_points.push(ControlPoint { position: Point { x, y }, selected: false });
    }

    /// Empties the control points and resets all animation state.
    pub fn clear_points(&mut self)
        requires
            old(self).wf(),
        ensures
            final(self).wf(),
            final(self).control_points@.len() == 0,
            final(self).animation_steps@.len() == 0,
            !final(self).animating,
            final(self).current_step == 0,
            final(self).step_timer_ms == 0,
    {
        self.control_points.clear();
        self.reset_animation();
    }

    /// Discards the level store and returns playback to its initial state.
    pub fn reset_animation(&mut self)
        requires
            old(self).wf(),
        ensures
            final(self).wf(),
            final(self).control_points == old(self).control_points,
            final(self).animation_steps@.len() == 0,
            !final(self).animating,
            final(self).current_step == 0,
            final(self).step_timer_ms == 0,
    {
        self.animation_steps = Vec::new();
        self.current_step = 0;
        self.animating = false;
        self.step_timer_ms = 0;
    }

    /// Recomputes the level store from the current control points: level 0 is
    /// their raw positions and each further level is one Chaikin pass over
    /// the level before it, for `MAX_ANIMATION_STEPS + 1` levels in all.
    /// Regeneration invalidates the shown level back to 0, so a stale level
    /// index is never displayed after a structural edit; everything else
    /// about the model is left unchanged.
    pub fn generate_animation_steps(&mut self)
        requires
            old(self).wf(),
        ensures
            final(self).wf(),
            final(self).control_points == old(self).control_points,
            final(self).animating == old(self).animating,
            final(self).current_step == 0,
            final(self).step_timer_ms == old(self).step_timer_ms,
            final(self).animation_steps@.len() == MAX_ANIMATION_STEPS as int + 1,
            forall|i: int|
                0 <= i <= MAX_ANIMATION_STEPS as int ==> poly_view(
                    #[trigger] final(self).animation_steps@[i]@,
                ) == chaikin_iter(positions(old(self).control_points@), i as nat),
    {
        let ghost base = positions(old(self).control_points@);
        self.animation_steps = Vec::new();
        self.current_step = 0;
        let mut current: Vec<Point> = Vec::new();
        let mut k: usize = 0;
        while k < self.control_points.len()
            invariant
                *self == (ChaikinCurve {
                    animation_steps: self.animation_steps,
                    current_step: 0,
                    ..*old(self)
                }),
                self.animation_steps@.len() == 0,
                old(self).wf(),
                base == positions(old(self).control_points@),
                k <= self.control_points@.len(),
                current@.len() == k,
                forall|j: int|
                    0 <= j < k ==> #[trigger] current@[j] == self.control_points@[j].position,
            decreases self.control_points@.len() - k,
        {
            current.push(self.control_points[k].position);
            k += 1;
        }
        proof {
            assert(poly_view(current@) =~= base);
            assert(forall|t: int|
                0 <= t < current@.len() ==> point_in_range(#[trigger] current@[t]));
        }
        self.animation_steps.push(copy_points(&current));
        let mut step: usize = 0;
        while step < MAX_ANIMATION_STEPS
            invariant
                *self == (ChaikinCurve {
                    animation_steps: self.animation_steps,
                    current_step: 0,
                    ..*old(self)
                }),
                old(self).wf(),
                base == positions(old(self).control_points@),
                step <= MAX_ANIMATION_STEPS,
                self.animation_steps@.len() == step + 1,
                poly_view(current@) == chaikin_iter(base, step as nat),
                forall|t: int| 0 <= t < current@.len() ==> point_in_range(#[trigger] current@[t]),
                forall|i: int|
                    0 <= i <= step ==> poly_view(#[trigger] self.animation_steps@[i]@)
                        == chaikin_iter(base, i as nat),
                forall|i: int, j: int|
                    0 <= i < self.animation_steps@.len() && 0 <= j
                        < self.animation_steps@[i]@.len() ==> point_in_range(
                        #[trigger] self.animation_steps@[i]@[j],
                    ),
            decreases MAX_ANIMATION_STEPS - step,
        {
            current = chaikin_step(&current);
            self.animation_steps.push(copy_points(&current));
            step += 1;
        }
        proof {
            assert forall|i: int|
                1 <= i < self.animation_steps@.len() implies poly_view(
                #[trigger] self.animation_steps@[i]@,
            ) == chaikin_spec(poly_view(self.animation_steps@[i - 1]@)) by {
                assert(poly_view(self.animation_steps@[i]@) == chaikin_iter(base, i as nat));
                assert(poly_view(self.animation_steps@[i - 1]@) == chaikin_iter(
                    base,
                    (i - 1) as nat,
                ));
                assert(chaikin_iter(base, i as nat) == chaikin_spec(
                    chaikin_iter(base, (i as nat - 1) as nat),
                ));
            }
        }
    }

    /// Starts (or restarts) the animation. With fewer than two control points
    /// this is a silent no-op; otherwise the level store is regenerated from
    /// the current control points and playback begins at level 0 with a fresh
    /// step timer.
    pub fn start_animation(&mut self)
        requires
            old(self).wf(),
        ensures
            final(self).wf(),
            old(self).control_points@.len() <= 1 ==> *final(self) == *old(self),
            old(self).control_points@.len() >= 2 ==> {
                &&& final(self).control_points == old(self).control_points
                &&& final(self).animating
                &&& final(self).current_step == 0
                &&& final(self).step_timer_ms == 0
                &&& final(self).animation_steps@.len() == MAX_ANIMATION_STEPS as int + 1
                &&& forall|i: int|
                    0 <= i <= MAX_ANIMATION_STEPS as int ==> poly_view(
                        #[trigger] final(self).animation_steps@[i]@,
                    ) == chaikin_iter(positions(old(self).control_points@), i as nat)
            },
    {
        if self.control_points.len() <= 1 {
            return ;
        }
        self.reset_animation();
        self.generate_animation_steps();
        self.animating = true;
        self.step_timer_ms = 0;
    }

    /// Advances playback by `elapsed_ms` of wall-clock time. A no-op unless
    /// animating; once the accrued time since the last level change reaches
    /// the step duration, the shown level advances by exactly one, wrapping
    /// past the last level to the first, and the timer restarts. At most one
    /// level is advanced per call, however much time has passed.
    pub fn update_animation(&mut self, elapsed_ms: u64)
        requires
            old(self).wf(),
        ensures
            final(self).wf(),
            !old(self).animating ==> *final(self) == *old(self),
            old(self).animating && old(self).step_timer_ms + elapsed_ms < ANIMATION_STEP_DURATION_MS
                ==> {
                &&& final(self).control_points == old(self).control_points
                &&& final(self).animation_steps == old(self).animation_steps
                &&& final(self).animating == old(self).animating
                &&& final(self).current_step == old(self).current_step
                &&& final(self).step_timer_ms == old(self).step_timer_ms + elapsed_ms
            },
            old(self).animating && old(self).step_timer_ms + elapsed_ms
                >= ANIMATION_STEP_DURATION_MS ==> {
                &&& final(self).control_points == old(self).control_points
                &&& final(self).animation_steps == old(self).animation_steps
                &&& final(self).animating == old(self).animating
                &&& final(self).current_step as int == (old(self).current_step as int + 1) % (
                old(self).animation_steps@.len() as int)
                &&& final(self).step_timer_ms == 0
            },
    {
        if !self.animating {
            return ;
        }
        if self.animation_steps.len() == 0 {
            return ;
        }
        if elapsed_ms >= ANIMATION_STEP_DURATION_MS || self.step_timer_ms
            >= ANIMATION_STEP_DURATION_MS - elapsed_ms {
            self.current_step = (self.current_step + 1) % self.animation_steps.len();
            self.step_timer_ms = 0;
        } else {
            self.step_timer_ms = self.step_timer_ms + elapsed_ms;
        }
    }

    /// Hit-tests the control points in insertion order against a click at
    /// `(x, y)`. The earliest point within the hit radius becomes selected
    /// and `true` is returned at once; every other point, and all other
    /// state, is untouched. Returns `false`, changing nothing, when no point
    /// qualifies. Selection accumulates: no point is deselected here.
    pub fn select_point_at(&mut self, x: i64, y: i64) -> (found: bool)
        requires
            old(self).wf(),
            in_range(x as int),
            in_range(y as int),
        ensures
            final(self).wf(),
            found == exists|i: int|
                0 <= i < old(self).control_points@.len() && hit(
                    #[trigger] old(self).control_points@[i],
                    x as int,
                    y as int,
                ),
            !found ==> *final(self) == *old(self),
            found ==> exists|k: int|
                {
                    &&& 0 <= k < old(self).control_points@.len()
                    &&& hit(old(self).control_points@[k], x as int, y as int)
                    &&& forall|j: int|
                        0 <= j < k ==> !hit(
                            #[trigger] old(self).control_points@[j],
                            x as int,
                            y as int,
                        )
                    &&& final(self).control_points@ == old(self).control_points@.update(
                        k,
                        (ControlPoint {
                            position: old(self).control_points@[k].position,
                            selected: true,
                        }),
                    )
                },
            final(self).animation_steps == old(self).animation_steps,
            final(self).animating == old(self).animating,
            final(self).current_step == old(self).current_step,
            final(self).step_timer_ms == old(self).step_timer_ms,
    {
        let n = self.control_points.len();
        let mut i: usize = 0;
        while i < n
            invariant
                *self == *old(self),
                old(self).wf(),
                in_range(x as int),
                in_range(y as int),
                n == self.control_points@.len(),
                i <= n,
                forall|j: int|
                    0 <= j < i ==> !hit(#[trigger] self.control_points@[j], x as int, y as int),
            decreases n - i,
        {
            let p = self.control_points[i];
            proof {
                assert(point_in_range(self.control_points@[i as int].position));
            }
            let dx = p.position.x - x;
            let dy = p.position.y - y;
            if dx >= -HIT_RADIUS && dx <= HIT_RADIUS && dy >= -HIT_RADIUS && dy <= HIT_RADIUS {
                proof {
                    assert(0 <= dx * dx && dx * dx <= (HIT_RADIUS as int) * (HIT_RADIUS as int))
                        by (nonlinear_arith)
                        requires
                            -(HIT_RADIUS as int) <= dx as int <= HIT_RADIUS as int,
                    ;
                    assert(0 <= dy * dy && dy * dy <= (HIT_RADIUS as int) * (HIT_RADIUS as int))
                        by (nonlinear_arith)
                        requires
                            -(HIT_RADIUS as int) <= dy as int <= HIT_RADIUS as int,
                    ;
                }
                if dx * dx + dy * dy <= HIT_RADIUS * HIT_RADIUS {
                    self.control_points.set(
                        i,
                        ControlPoint { position: p.position, selected: true },
                    );
                    proof {
                        assert(hit(old(self).control_points@[i as int], x as int, y as int));
                    }
                    return true;
                }
            } else {
                proof {
                    assert(dy * dy >= 0) by (nonlinear_arith);
                    assert(dx * dx >= 0) by (nonlinear_arith);
                    if dx > HIT_RADIUS || dx < -HIT_RADIUS {
                        lemma_outside_radius(dx as int, HIT_RADIUS as int);
                    }
                    if dy > HIT_RADIUS || dy < -HIT_RADIUS {
                        lemma_outside_radius(dy as int, HIT_RADIUS as int);
                    }
                }
            }
            proof {
                assert(!hit(self.control_points@[i as int], x as int, y as int));
            }
            i += 1;
        }
        false
    }

    /// Clears the selection flag of every control point; positions and all
    /// animation state are untouched.
    pub fn deselect_all_points(&mut self)
        requires
            old(self).wf(),
        ensures
            final(self).wf(),
            final(self).control_points@.len() == old(self).control_points@.len(),
            forall|i: int|
                0 <= i < final(self).control_points@.len() ==> #[trigger] final(self).control_points@[i] == (
                ControlPoint { position: old(self).control_points@[i].position, selected: false }),
            final(self).animation_steps == old(self).animation_steps,
            final(self).animating == old(self).animating,
            final(self).current_step == old(self).current_step,
            final(self).step_timer_ms == old(self).step_timer_ms,
    {
        let mut i: usize = 0;
        let n = self.control_points.len();
        while i < n
            invariant
                old(self).wf(),
                *self == (ChaikinCurve { control_points: self.control_points, ..*old(self) }),
                n == self.control_points@.len(),
                n == old(self).control_points@.len(),
                i <= n,
                forall|j: int|
                    0 <= j < i ==> #[trigger] self.control_points@[j] == (ControlPoint {
                        position: old(self).control_points@[j].position,
                        selected: false,
                    }),
                forall|j: int|
                    i <= j < n ==> #[trigger] self.control_points@[j] == old(
                        self,
                    ).control_points@[j],
            decreases n - i,
        {
            let p = self.control_points[i];
            self.control_points.set(i, ControlPoint { position: p.position, selected: false });
            i += 1;
        }
    }

    /// Moves every currently selected control point to `(x, y)`; unselected
    /// points and all animation state are untouched. A silent no-op when
    /// nothing is selected.
    pub fn move_selected_point(&mut self, x: i64, y: i64)
        requires
            old(self).wf(),
            in_range(x as int),
            in_range(y as int),
        ensures
            final(self).wf(),
            final(self).control_points@.len() == old(self).control_points@.len(),
            forall|i: int|
                0 <= i < final(self).control_points@.len() ==> #[trigger] final(self).control_points@[i] == (
                if old(self).control_points@[i].selected {
                    (ControlPoint { position: (Point { x, y }), selected: true })
                } else {
                    old(self).control_points@[i]
                }),
            final(self).animation_steps == old(self).animation_steps,
            final(self).animating == old(self).animating,
            final(self).current_step == old(self).current_step,
            final(self).step_timer_ms == old(self).step_timer_ms,
    {
        let mut i: usize = 0;
        let n = self.control_points.len();
        while i < n
            invariant
                old(self).wf(),
                in_range(x as int),
                in_range(y as int),
                *self == (ChaikinCurve { control_points: self.control_points, ..*old(self) }),
                n == self.control_points@.len(),
                n == old(self).control_points@.len(),
                i <= n,
                forall|j: int|
                    0 <= j < i ==> #[trigger] self.control_points@[j] == (if old(
                        self,
                    ).control_points@[j].selected {
                        (ControlPoint { position: (Point { x, y }), selected: true })
                    } else {
                        old(self).control_points@[j]
                    }),
                forall|j: int|
                    i <= j < n ==> #[trigger] self.control_points@[j] == old(
                        self,
                    ).control_points@[j],
            decreases n - i,
        {
            let p = self.control_points[i];
            if p.selected {
                self.control_points.set(
                    i,
                    ControlPoint { position: Point { x, y }, selected: true },
                );
            }
            i += 1;
        }
    }

    /// The points to render this frame: the level at `current_step` while
    /// animating, else the raw control-point positions in insertion order
    /// (which is a single point when one point exists, and empty when none
    /// does).
    pub fn get_current_points(&self) -> (out: Vec<Point>)
        requires
            self.wf(),
        ensures
            self.animating ==> out@ == self.animation_steps@[self.current_step as int]@,
            !self.animating ==> out@.len() == self.control_points@.len() && forall|i: int|
                0 <= i < out@.len() ==> #[trigger] out@[i] == self.control_points@[i].position,
    {
        if self.animating && self.animation_steps.len() > 0 {
            copy_points(&self.animation_steps[self.current_step])
        } else if self.control_points.len() >= 2 {
            let n = self.control_points.len();
            let mut out: Vec<Point> = Vec::new();
            let mut k: usize = 0;
            while k < n
                invariant
                    n == self.control_points@.len(),
                    k <= n,
                    out@.len() == k,
                    forall|j: int|
                        0 <= j < k ==> #[trigger] out@[j] == self.control_points@[j].position,
                decreases n - k,
            {
                out.push(self.control_points[k].position);
                k += 1;
            }
            out
        } else if self.control_points.len() == 1 {
            let mut out: Vec<Point> = Vec::new();
            out.push(self.control_points[0].position);
            out
        } else {
            Vec::new()
        }
    }
}

} // verus!
