//! The interpreter: from commands to drawing primitives.
//!
//! Sequential move arguments become lines, close path becomes a line back to
//! the start, horizontal and vertical lines become lines, smooth curves get
//! their inferred control point spelled out. Every coordinate that comes out
//! is absolute.

use vstd::prelude::*;
use vstd::string::*;
use crate::decimal::{
    Dec, Decimal, lemma_canonical_unique, lemma_minus, lemma_plus, lemma_wf_canonical,
};
use crate::token::{
    Command, CommandView, PathParams, PathToken, Shape, commands_view, params_view, tokenize,
    tokenized, well_formed,
};

verus! {

/// A drawing primitive over numbers of type `N`: `Decimal` in running code,
/// its value `Dec` in contracts.
#[derive(Debug, PartialEq, Eq)]
pub enum PathElem<N> {
    MoveTo { x: N, y: N },
    LineTo { x: N, y: N },
    CurveTo { x1: N, y1: N, x2: N, y2: N, x: N, y: N },
    QuadraticTo { x1: N, y1: N, x: N, y: N },
    ArcTo { rx: N, ry: N, x_rotation: N, lrg_arc: bool, sweep: bool, x: N, y: N },
}

impl View for PathElem<Decimal> {
    type V = PathElem<Dec>;

    open spec fn view(&self) -> PathElem<Dec> {
        match *self {
            PathElem::MoveTo { x, y } => PathElem::MoveTo { x: x@, y: y@ },
            PathElem::LineTo { x, y } => PathElem::LineTo { x: x@, y: y@ },
            PathElem::CurveTo { x1, y1, x2, y2, x, y } => PathElem::CurveTo {
                x1: x1@,
                y1: y1@,
                x2: x2@,
                y2: y2@,
                x: x@,
                y: y@,
            },
            PathElem::QuadraticTo { x1, y1, x, y } => PathElem::QuadraticTo {
                x1: x1@,
                y1: y1@,
                x: x@,
                y: y@,
            },
            PathElem::ArcTo { rx, ry, x_rotation, lrg_arc, sweep, x, y } => PathElem::ArcTo {
                rx: rx@,
                ry: ry@,
                x_rotation: x_rotation@,
                lrg_arc,
                sweep,
                x: x@,
                y: y@,
            },
        }
    }
}

/// The values of a list of primitives.
pub open spec fn elems_view(v: Seq<PathElem<Decimal>>) -> Seq<PathElem<Dec>> {
    v.map_values(|e: PathElem<Decimal>| e@)
}

/// The value of a point.
pub open spec fn point_view(p: (Decimal, Decimal)) -> (Dec, Dec) {
    (p.0@, p.1@)
}

/// The value of a point that may be missing.
pub open spec fn opt_point_view(p: Option<(Decimal, Decimal)>) -> Option<(Dec, Dec)> {
    match p {
        Some(q) => Some(point_view(q)),
        None => None,
    }
}

/// The value of a primitive that may be missing.
pub open spec fn opt_elem_view(e: Option<PathElem<Decimal>>) -> Option<PathElem<Dec>> {
    match e {
        Some(x) => Some(x@),
        None => None,
    }
}

/// The point `(0, 0)`.
pub open spec fn origin() -> (Dec, Dec) {
    (Dec::zero(), Dec::zero())
}

/// The point at which a primitive leaves the pen.
pub open spec fn point_of(e: PathElem<Dec>) -> (Dec, Dec) {
    match e {
        PathElem::MoveTo { x, y } => (x, y),
        PathElem::LineTo { x, y } => (x, y),
        PathElem::CurveTo { x, y, .. } => (x, y),
        PathElem::QuadraticTo { x, y, .. } => (x, y),
        PathElem::ArcTo { x, y, .. } => (x, y),
    }
}

/// The point of the last primitive.
pub open spec fn last_point(s: Seq<PathElem<Dec>>) -> Option<(Dec, Dec)> {
    if s.len() > 0 {
        Some(point_of(s.last()))
    } else {
        None
    }
}

/// The current point: that of the last primitive, the origin where none was
/// emitted yet.
pub open spec fn current_point(s: Seq<PathElem<Dec>>) -> (Dec, Dec) {
    match last_point(s) {
        Some(p) => p,
        None => origin(),
    }
}

/// The point of the very first primitive. Close path goes back to it, also
/// where a later move has begun another subpath; path data as browsers read
/// it goes back to the start of the current subpath instead.
pub open spec fn initial_point(s: Seq<PathElem<Dec>>) -> Option<(Dec, Dec)> {
    if s.len() > 0 {
        Some(point_of(s[0]))
    } else {
        None
    }
}

/// The second control point of the last primitive, if that is a cubic curve.
pub open spec fn last_curve_control(s: Seq<PathElem<Dec>>) -> Option<(Dec, Dec)> {
    if s.len() > 0 {
        match s.last() {
            PathElem::CurveTo { x2, y2, .. } => Some((x2, y2)),
            _ => None,
        }
    } else {
        None
    }
}

/// The control point of the last primitive, if that is a quadratic curve.
pub open spec fn last_quad_control(s: Seq<PathElem<Dec>>) -> Option<(Dec, Dec)> {
    if s.len() > 0 {
        match s.last() {
            PathElem::QuadraticTo { x1, y1, .. } => Some((x1, y1)),
            _ => None,
        }
    } else {
        None
    }
}

/// The point `(x, y)` itself, or moved by `by` where that is given.
pub open spec fn offset(by: Option<(Dec, Dec)>, x: Dec, y: Dec) -> (Dec, Dec) {
    match by {
        Some((cx, cy)) => (x.plus(cx), y.plus(cy)),
        None => (x, y),
    }
}

/// `p` mirrored through `r`: `2 r - p` in both coordinates.
pub open spec fn reflected(p: (Dec, Dec), r: (Dec, Dec)) -> (Dec, Dec) {
    (r.0.plus(r.0).minus(p.0), r.1.plus(r.1).minus(p.1))
}

/// The control point that a smooth command infers: the last control point
/// mirrored through the current point, or the current point itself where the
/// last primitive was no curve of the same kind.
pub open spec fn inferred_control(cp: Option<(Dec, Dec)>, p: (Dec, Dec)) -> (Dec, Dec) {
    match cp {
        Some(c) => reflected(c, p),
        None => p,
    }
}

/// A move to `(x, y)`, moved by `pt` where that is given.
pub open spec fn move_to_spec(pt: Option<(Dec, Dec)>, params: PathParams<Dec>) -> Option<
    PathElem<Dec>,
> {
    match params {
        PathParams::MLTParam(x, y) => Some(
            PathElem::MoveTo { x: offset(pt, x, y).0, y: offset(pt, x, y).1 },
        ),
        _ => None,
    }
}

/// A line to `(x, y)`, moved by `pt` where that is given.
pub open spec fn line_to_spec(pt: Option<(Dec, Dec)>, params: PathParams<Dec>) -> Option<
    PathElem<Dec>,
> {
    match params {
        PathParams::MLTParam(x, y) => Some(
            PathElem::LineTo { x: offset(pt, x, y).0, y: offset(pt, x, y).1 },
        ),
        _ => None,
    }
}

/// A horizontal line from `p`: to `x` itself, or to `x` counted from `p`.
pub open spec fn line_to_h_spec(abs: bool, p: (Dec, Dec), params: PathParams<Dec>) -> Option<
    PathElem<Dec>,
> {
    match params {
        PathParams::HVParam(x) => Some(
            if abs {
                PathElem::LineTo { x: x, y: p.1 }
            } else {
                PathElem::LineTo { x: x.plus(p.0), y: p.1 }
            },
        ),
        _ => None,
    }
}

/// A vertical line from `p`: to `y` itself, or to `y` counted from `p`.
pub open spec fn line_to_v_spec(abs: bool, p: (Dec, Dec), params: PathParams<Dec>) -> Option<
    PathElem<Dec>,
> {
    match params {
        PathParams::HVParam(y) => Some(
            if abs {
                PathElem::LineTo { x: p.0, y: y }
            } else {
                PathElem::LineTo { x: p.0, y: y.plus(p.1) }
            },
        ),
        _ => None,
    }
}

/// A cubic curve; both control points and the end point are moved by `pt`
/// where that is given.
pub open spec fn curve_to_spec(pt: Option<(Dec, Dec)>, params: PathParams<Dec>) -> Option<
    PathElem<Dec>,
> {
    match params {
        PathParams::CParam(x1, y1, x2, y2, x, y) => Some(
            PathElem::CurveTo {
                x1: offset(pt, x1, y1).0,
                y1: offset(pt, x1, y1).1,
                x2: offset(pt, x2, y2).0,
                y2: offset(pt, x2, y2).1,
                x: offset(pt, x, y).0,
                y: offset(pt, x, y).1,
            },
        ),
        _ => None,
    }
}

/// A cubic curve whose first control point is inferred from the last control
/// point `cp` and the current point `p`; the second control point and the end
/// point are as written, or counted from `p`.
pub open spec fn smooth_curve_to_spec(
    abs: bool,
    cp: Option<(Dec, Dec)>,
    p: (Dec, Dec),
    params: PathParams<Dec>,
) -> Option<PathElem<Dec>> {
    let by = if abs { None } else { Some(p) };
    match params {
        PathParams::SQParam(x2, y2, x, y) => Some(
            PathElem::CurveTo {
                x1: inferred_control(cp, p).0,
                y1: inferred_control(cp, p).1,
                x2: offset(by, x2, y2).0,
                y2: offset(by, x2, y2).1,
                x: offset(by, x, y).0,
                y: offset(by, x, y).1,
            },
        ),
        _ => None,
    }
}

/// A quadratic curve; the control point and the end point are moved by `pt`
/// where that is given.
pub open spec fn quad_to_spec(pt: Option<(Dec, Dec)>, params: PathParams<Dec>) -> Option<
    PathElem<Dec>,
> {
    match params {
        PathParams::SQParam(x1, y1, x, y) => Some(
            PathElem::QuadraticTo {
                x1: offset(pt, x1, y1).0,
                y1: offset(pt, x1, y1).1,
                x: offset(pt, x, y).0,
                y: offset(pt, x, y).1,
            },
        ),
        _ => None,
    }
}

/// A quadratic curve whose control point is inferred from the last control
/// point `cp` and the current point `p`; the end point is as written, or
/// counted from `p`.
pub open spec fn t_quad_to_spec(
    abs: bool,
    cp: Option<(Dec, Dec)>,
    p: (Dec, Dec),
    params: PathParams<Dec>,
) -> Option<PathElem<Dec>> {
    let by = if abs { None } else { Some(p) };
    match params {
        PathParams::MLTParam(x, y) => Some(
            PathElem::QuadraticTo {
                x1: inferred_control(cp, p).0,
                y1: inferred_control(cp, p).1,
                x: offset(by, x, y).0,
                y: offset(by, x, y).1,
            },
        ),
        _ => None,
    }
}

/// The arc with its end point moved by `pt` where that is given; radii,
/// rotation and flags are never moved.
pub open spec fn arc_to_spec(pt: Option<(Dec, Dec)>, params: PathParams<Dec>) -> Option<
    PathElem<Dec>,
> {
    match params {
        PathParams::AParam(rx, ry, x_rotation, lrg_arc, sweep, x, y) => Some(
            PathElem::ArcTo {
                rx,
                ry,
                x_rotation,
                lrg_arc,
                sweep,
                x: offset(pt, x, y).0,
                y: offset(pt, x, y).1,
            },
        ),
        _ => None,
    }
}

/// Copies a point.
fn copy_point(p: &(Decimal, Decimal)) -> (r: (Decimal, Decimal))
    ensures
        point_view(r) == point_view(*p),
{
    (p.0.clone(), p.1.clone())
}

/// Moves `(x, y)` by `by` where that is given.
fn offset_point(by: &Option<(Decimal, Decimal)>, x: &Decimal, y: &Decimal) -> (r: (
    Decimal,
    Decimal,
))
    ensures
        point_view(r) == offset(opt_point_view(*by), x@, y@),
{
    match by {
        Some((cx, cy)) => (x.plus(cx), y.plus(cy)),
        None => (x.clone(), y.clone()),
    }
}

/// Resolves a move; nothing where the group is no `x y`.
pub fn move_to(pt: Option<(Decimal, Decimal)>, params: &PathParams<Decimal>) -> (r: Option<
    PathElem<Decimal>,
>)
    ensures
        opt_elem_view(r) == move_to_spec(opt_point_view(pt), params@),
{
    match params {
        PathParams::MLTParam(x, y) => {
            let (px, py) = offset_point(&pt, x, y);
            Some(PathElem::MoveTo { x: px, y: py })
        },
        _ => None,
    }
}

/// Resolves a line; nothing where the group is no `x y`.
pub fn line_to(pt: Option<(Decimal, Decimal)>, params: &PathParams<Decimal>) -> (r: Option<
    PathElem<Decimal>,
>)
    ensures
        opt_elem_view(r) == line_to_spec(opt_point_view(pt), params@),
{
    match params {
        PathParams::MLTParam(x, y) => {
            let (px, py) = offset_point(&pt, x, y);
            Some(PathElem::LineTo { x: px, y: py })
        },
        _ => None,
    }
}

/// Resolves a horizontal line; nothing where the group is no single number.
pub fn line_to_h(abs: bool, p: (Decimal, Decimal), params: &PathParams<Decimal>) -> (r: Option<
    PathElem<Decimal>,
>)
    ensures
        opt_elem_view(r) == line_to_h_spec(abs, point_view(p), params@),
{
    match params {
        PathParams::HVParam(x) => Some(
            if abs {
                PathElem::LineTo { x: x.clone(), y: p.1 }
            } else {
                PathElem::LineTo { x: x.plus(&p.0), y: p.1 }
            },
        ),
        _ => None,
    }
}

/// Resolves a vertical line; nothing where the group is no single number.
pub fn line_to_v(abs: bool, p: (Decimal, Decimal), params: &PathParams<Decimal>) -> (r: Option<
    PathElem<Decimal>,
>)
    ensures
        opt_elem_view(r) == line_to_v_spec(abs, point_view(p), params@),
{
    match params {
        PathParams::HVParam(y) => Some(
            if abs {
                PathElem::LineTo { x: p.0, y: y.clone() }
            } else {
                PathElem::LineTo { y: y.plus(&p.1), x: p.0 }
            },
        ),
        _ => None,
    }
}

/// Resolves a cubic curve; nothing where the group has not six numbers.
pub fn curve_to(pt: Option<(Decimal, Decimal)>, params: &PathParams<Decimal>) -> (r: Option<
    PathElem<Decimal>,
>)
    ensures
        opt_elem_view(r) == curve_to_spec(opt_point_view(pt), params@),
{
    match params {
        PathParams::CParam(x1, y1, x2, y2, x, y) => {
            let (ax, ay) = offset_point(&pt, x1, y1);
            let (bx, by) = offset_point(&pt, x2, y2);
            let (px, py) = offset_point(&pt, x, y);
            Some(PathElem::CurveTo { x1: ax, y1: ay, x2: bx, y2: by, x: px, y: py })
        },
        _ => None,
    }
}

/// Mirrors `p` through `r`. Mirroring the result through `r` again gives `p`
/// back.
pub fn reflect(p: &(Decimal, Decimal), r: &(Decimal, Decimal)) -> (q: (Decimal, Decimal))
    ensures
        point_view(q) == reflected(point_view(*p), point_view(*r)),
        reflected(point_view(q), point_view(*r)) == point_view(*p),
{
    proof {
        use_type_invariant(&p.0);
        use_type_invariant(&p.1);
        lemma_wf_canonical(p.0);
        lemma_wf_canonical(p.1);
        lemma_reflect_twice(point_view(*p), point_view(*r));
    }
    (r.0.plus(&r.0).minus(&p.0), r.1.plus(&r.1).minus(&p.1))
}

/// The control point that a smooth command infers.
fn infer_control(cp: &Option<(Decimal, Decimal)>, p: &(Decimal, Decimal)) -> (q: (
    Decimal,
    Decimal,
))
    ensures
        point_view(q) == inferred_control(opt_point_view(*cp), point_view(*p)),
{
    match cp {
        Some(c) => reflect(c, p),
        None => copy_point(p),
    }
}

/// Resolves a smooth cubic curve; nothing where the group has not four
/// numbers.
pub fn smooth_curve_to(
    abs: bool,
    cp: Option<(Decimal, Decimal)>,
    p: (Decimal, Decimal),
    params: &PathParams<Decimal>,
) -> (r: Option<PathElem<Decimal>>)
    ensures
        opt_elem_view(r) == smooth_curve_to_spec(
            abs,
            opt_point_view(cp),
            point_view(p),
            params@,
        ),
{
    match params {
        PathParams::SQParam(x2, y2, x, y) => {
            let (cx, cy) = infer_control(&cp, &p);
            let by = if abs { None } else { Some(p) };
            let (bx, by2) = offset_point(&by, x2, y2);
            let (px, py) = offset_point(&by, x, y);
            Some(PathElem::CurveTo { x1: cx, y1: cy, x2: bx, y2: by2, x: px, y: py })
        },
        _ => None,
    }
}

/// Resolves a quadratic curve; nothing where the group has not four numbers.
pub fn quad_to(pt: Option<(Decimal, Decimal)>, params: &PathParams<Decimal>) -> (r: Option<
    PathElem<Decimal>,
>)
    ensures
        opt_elem_view(r) == quad_to_spec(opt_point_view(pt), params@),
{
    match params {
        PathParams::SQParam(x1, y1, x, y) => {
            let (ax, ay) = offset_point(&pt, x1, y1);
            let (px, py) = offset_point(&pt, x, y);
            Some(PathElem::QuadraticTo { x1: ax, y1: ay, x: px, y: py })
        },
        _ => None,
    }
}

/// Resolves a smooth quadratic curve; nothing where the group is no `x y`.
pub fn t_quad_to(
    abs: bool,
    cp: Option<(Decimal, Decimal)>,
    p: (Decimal, Decimal),
    params: &PathParams<Decimal>,
) -> (r: Option<PathElem<Decimal>>)
    ensures
        opt_elem_view(r) == t_quad_to_spec(abs, opt_point_view(cp), point_view(p), params@),
{
    match params {
        PathParams::MLTParam(x, y) => {
            let (cx, cy) = infer_control(&cp, &p);
            let by = if abs { None } else { Some(p) };
            let (px, py) = offset_point(&by, x, y);
            Some(PathElem::QuadraticTo { x1: cx, y1: cy, x: px, y: py })
        },
        _ => None,
    }
}

/// Resolves an arc group: all seven fields are carried through, the end point
/// moved by `pt` where that is given.
pub fn arc_to(pt: Option<(Decimal, Decimal)>, params: &PathParams<Decimal>) -> (r: Option<
    PathElem<Decimal>,
>)
    ensures
        opt_elem_view(r) == arc_to_spec(opt_point_view(pt), params@),
{
    match params {
        PathParams::AParam(rx, ry, x_rotation, lrg_arc, sweep, x, y) => {
            let (px, py) = offset_point(&pt, x, y);
            Some(
                PathElem::ArcTo {
                    rx: rx.clone(),
                    ry: ry.clone(),
                    x_rotation: x_rotation.clone(),
                    lrg_arc: *lrg_arc,
                    sweep: *sweep,
                    x: px,
                    y: py,
                },
            )
        },
        _ => None,
    }
}

/// The primitives emitted so far. Primitives are only ever added at the end.
pub struct PathState {
    v: Vec<PathElem<Decimal>>,
}

impl View for PathState {
    type V = Seq<PathElem<Dec>>;

    closed spec fn view(&self) -> Seq<PathElem<Dec>> {
        elems_view(self.v@)
    }
}

impl PathState {
    /// The state before any command: no primitive.
    pub fn new() -> (s: PathState)
        ensures
            s@ == Seq::<PathElem<Dec>>::empty(),
    {
        let s = PathState { v: Vec::<PathElem<Decimal>>::new() };
        assert(s@ =~= Seq::empty());
        s
    }

    /// The point at which a primitive leaves the pen.
    pub fn point_for(elem: &PathElem<Decimal>) -> (p: (Decimal, Decimal))
        ensures
            point_view(p) == point_of(elem@),
    {
        match elem {
            PathElem::MoveTo { x, y } => (x.clone(), y.clone()),
            PathElem::LineTo { x, y } => (x.clone(), y.clone()),
            PathElem::CurveTo { x, y, .. } => (x.clone(), y.clone()),
            PathElem::QuadraticTo { x, y, .. } => (x.clone(), y.clone()),
            PathElem::ArcTo { x, y, .. } => (x.clone(), y.clone()),
        }
    }

    /// The second control point of the last primitive, if that is a cubic
    /// curve.
    pub fn last_curve_cp(&self) -> (r: Option<(Decimal, Decimal)>)
        ensures
            opt_point_view(r) == last_curve_control(self@),
    {
        let n = self.v.len();
        if n == 0 {
            return None;
        }
        match &self.v[n - 1] {
            PathElem::CurveTo { x2, y2, .. } => Some((x2.clone(), y2.clone())),
            _ => None,
        }
    }

    /// The control point of the last primitive, if that is a quadratic curve.
    pub fn last_quad_cp(&self) -> (r: Option<(Decimal, Decimal)>)
        ensures
            opt_point_view(r) == last_quad_control(self@),
    {
        let n = self.v.len();
        if n == 0 {
            return None;
        }
        match &self.v[n - 1] {
            PathElem::QuadraticTo { x1, y1, .. } => Some((x1.clone(), y1.clone())),
            _ => None,
        }
    }

    /// The point of the very first primitive.
    pub fn initial_pt(&self) -> (r: Option<(Decimal, Decimal)>)
        ensures
            opt_point_view(r) == initial_point(self@),
    {
        if self.v.len() == 0 {
            None
        } else {
            Some(PathState::point_for(&self.v[0]))
        }
    }

    /// The point of the last primitive.
    pub fn last_pt(&self) -> (r: Option<(Decimal, Decimal)>)
        ensures
            opt_point_view(r) == last_point(self@),
    {
        let n = self.v.len();
        if n == 0 {
            None
        } else {
            Some(PathState::point_for(&self.v[n - 1]))
        }
    }

    /// The current point: that of the last primitive, or the origin.
    pub fn current_pt(&self) -> (r: (Decimal, Decimal))
        ensures
            point_view(r) == current_point(self@),
    {
        match self.last_pt() {
            Some(p) => p,
            None => (Decimal::zero(), Decimal::zero()),
        }
    }

    /// Adds a primitive at the end.
    pub fn update(&mut self, elem: PathElem<Decimal>)
        ensures
            final(self)@ == old(self)@.push(elem@),
    {
        self.v.push(elem);
        assert(elems_view(self.v@) =~= elems_view(old(self).v@).push(elem@));
    }

    /// The primitives, in the order in which they were emitted.
    pub fn into_elems(self) -> (r: Vec<PathElem<Decimal>>)
        ensures
            elems_view(r@) == self@,
    {
        self.v
    }
}

/// The primitive that one argument group of a command gives in a state.
/// `first` says whether the group is the first of its command: only a move
/// tells the two apart, its first group moves and every further group draws a
/// line. Nothing is given for close path, which takes no groups, for an arc,
/// and for a group of the wrong shape.
pub open spec fn resolve(
    token: PathToken,
    first: bool,
    g: PathParams<Dec>,
    s: Seq<PathElem<Dec>>,
) -> Option<PathElem<Dec>> {
    let p = current_point(s);
    let by = if token.absolute() { None } else { Some(p) };
    match token {
        PathToken::MU | PathToken::ML => if first {
            move_to_spec(by, g)
        } else {
            line_to_spec(by, g)
        },
        PathToken::LU | PathToken::LL => line_to_spec(by, g),
        PathToken::HU | PathToken::HL => line_to_h_spec(token.absolute(), p, g),
        PathToken::VU | PathToken::VL => line_to_v_spec(token.absolute(), p, g),
        PathToken::CU | PathToken::CL => curve_to_spec(by, g),
        PathToken::SU | PathToken::SL => smooth_curve_to_spec(
            token.absolute(),
            last_curve_control(s),
            p,
            g,
        ),
        PathToken::QU | PathToken::QL => quad_to_spec(by, g),
        PathToken::TU | PathToken::TL => t_quad_to_spec(
            token.absolute(),
            last_quad_control(s),
            p,
            g,
        ),
        PathToken::Z | PathToken::AU | PathToken::AL => None,
    }
}

/// The state after the argument groups of a command were resolved one after
/// the other, each in the state that the one before it left.
pub open spec fn apply_groups(
    token: PathToken,
    groups: Seq<PathParams<Dec>>,
    first: bool,
    s: Seq<PathElem<Dec>>,
) -> Seq<PathElem<Dec>>
    decreases groups.len(),
{
    if groups.len() == 0 {
        s
    } else {
        match resolve(token, first, groups[0], s) {
            Some(e) => apply_groups(token, groups.drop_first(), false, s.push(e)),
            None => s,
        }
    }
}

/// What close path adds: a line to the initial point, then a move to the
/// point at which the pen stood before the line.
pub open spec fn closed_path(s: Seq<PathElem<Dec>>) -> Seq<PathElem<Dec>> {
    let i = match initial_point(s) {
        Some(p) => p,
        None => origin(),
    };
    let p = current_point(s);
    s.push(PathElem::LineTo { x: i.0, y: i.1 }).push(PathElem::MoveTo { x: p.0, y: p.1 })
}

/// Whether the interpreter can take the command: it is no arc, its groups have
/// the shape that its letter asks for, and a move has at least one group.
pub open spec fn fits(token: PathToken, groups: Seq<PathParams<Dec>>) -> bool {
    match token.shape() {
        None => true,
        Some(Shape::A) => false,
        Some(shape) => {
            &&& forall|j: int| 0 <= j < groups.len() ==> (#[trigger] groups[j]).shape() == shape
            &&& (token == PathToken::MU || token == PathToken::ML) ==> groups.len() > 0
        },
    }
}

/// The state after a command, for a command that [`fits`].
pub open spec fn converted(
    token: PathToken,
    groups: Seq<PathParams<Dec>>,
    s: Seq<PathElem<Dec>>,
) -> Seq<PathElem<Dec>> {
    if token == PathToken::Z {
        closed_path(s)
    } else {
        apply_groups(token, groups, true, s)
    }
}

/// A group of the right shape resolves.
pub proof fn lemma_resolve(token: PathToken, first: bool, g: PathParams<Dec>, s: Seq<PathElem<Dec>>)
    requires
        token.shape() == Some(g.shape()),
        g.shape() != Shape::A,
    ensures
        resolve(token, first, g, s) is Some,
{
}

/// Resolves one argument group in a state.
pub fn resolve_group(
    token: PathToken,
    first: bool,
    g: &PathParams<Decimal>,
    s: &PathState,
) -> (r: Option<PathElem<Decimal>>)
    ensures
        opt_elem_view(r) == resolve(token, first, g@, s@),
{
    let abs = token.is_absolute();
    match token {
        PathToken::MU | PathToken::ML => {
            let by = if abs { None } else { Some(s.current_pt()) };
            if first {
                move_to(by, g)
            } else {
                line_to(by, g)
            }
        },
        PathToken::LU | PathToken::LL => {
            let by = if abs { None } else { Some(s.current_pt()) };
            line_to(by, g)
        },
        PathToken::HU | PathToken::HL => line_to_h(abs, s.current_pt(), g),
        PathToken::VU | PathToken::VL => line_to_v(abs, s.current_pt(), g),
        PathToken::CU | PathToken::CL => {
            let by = if abs { None } else { Some(s.current_pt()) };
            curve_to(by, g)
        },
        PathToken::SU | PathToken::SL => smooth_curve_to(
            abs,
            s.last_curve_cp(),
            s.current_pt(),
            g,
        ),
        PathToken::QU | PathToken::QL => {
            let by = if abs { None } else { Some(s.current_pt()) };
            quad_to(by, g)
        },
        PathToken::TU | PathToken::TL => t_quad_to(abs, s.last_quad_cp(), s.current_pt(), g),
        PathToken::Z | PathToken::AU | PathToken::AL => None,
    }
}

/// Applies one command to the state: every argument group adds one
/// primitive, close path adds two.
pub fn convert_token(token: PathToken, params: Vec<PathParams<Decimal>>, s: PathState) -> (r:
    PathState)
    requires
        fits(token, params_view(params@)),
    ensures
        r@ == converted(token, params_view(params@), s@),
{
    let mut s = s;
    let ghost groups = params_view(params@);
    let ghost before = s@;
    match token {
        PathToken::Z => {
            let (ix, iy) = match s.initial_pt() {
                Some(p) => p,
                None => (Decimal::zero(), Decimal::zero()),
            };
            let (px, py) = s.current_pt();
            s.update(PathElem::LineTo { x: ix, y: iy });
            s.update(PathElem::MoveTo { x: px, y: py });
        },
        _ => {
            let mut i: usize = 0;
            proof {
                assert(groups.skip(0) =~= groups);
            }
            while i < params.len()
                invariant
                    i <= params@.len(),
                    token != PathToken::Z,
                    groups == params_view(params@),
                    fits(token, groups),
                    apply_groups(token, groups.skip(i as int), i == 0, s@) == apply_groups(
                        token,
                        groups,
                        true,
                        before,
                    ),
                decreases params@.len() - i,
            {
                proof {
                    let rest = groups.skip(i as int);
                    assert(rest[0] == groups[i as int]);
                    assert(rest.drop_first() =~= groups.skip(i + 1));
                    assert(groups[i as int] == params@[i as int]@);
                    lemma_resolve(token, i == 0, groups[i as int], s@);
                }
                let elem = resolve_group(token, i == 0, &params[i], &s);
                s.update(elem.unwrap());
                i = i + 1;
            }
            proof {
                assert(groups.skip(params@.len() as int) =~= Seq::empty());
            }
        },
    }
    s
}

/// Why the interpreter refuses a command.
#[derive(Debug, PartialEq, Eq, Clone, Copy)]
pub enum PathError {
    /// The argument groups of a command are not what its letter asks for.
    /// The tokenizer never hands out such a command.
    ArgumentMismatch,
    /// The command is an arc. Arcs are read by the tokenizer but not
    /// interpreted.
    ArcNotImplemented,
}

/// What the interpreter makes of a list of commands, starting in state `s`:
/// the state after the last command, or the reason why the first command that
/// cannot be taken is refused.
pub open spec fn interpreted(cmds: Seq<CommandView>, s: Seq<PathElem<Dec>>) -> Result<
    Seq<PathElem<Dec>>,
    PathError,
>
    decreases cmds.len(),
{
    if cmds.len() == 0 {
        Ok(s)
    } else {
        let c = cmds[0];
        if c.0.shape() == Some(Shape::A) {
            Err(PathError::ArcNotImplemented)
        } else if !fits(c.0, c.1) {
            Err(PathError::ArgumentMismatch)
        } else {
            interpreted(cmds.drop_first(), converted(c.0, c.1, s))
        }
    }
}

/// Whether `r` is the outcome `expected`.
pub open spec fn yields(
    r: Result<Vec<PathElem<Decimal>>, PathError>,
    expected: Result<Seq<PathElem<Dec>>, PathError>,
) -> bool {
    match expected {
        Ok(v) => r matches Ok(w) && elems_view(w@) == v,
        Err(e) => r matches Err(x) && x == e,
    }
}

/// Tells whether a command [`fits`].
pub fn fits_token(token: PathToken, params: &Vec<PathParams<Decimal>>) -> (r: bool)
    ensures
        r == fits(token, params_view(params@)),
{
    let shape = match token.group_shape() {
        None => {
            return true;
        },
        Some(Shape::A) => {
            return false;
        },
        Some(shape) => shape,
    };
    let mut i: usize = 0;
    while i < params.len()
        invariant
            i <= params@.len(),
            token.shape() == Some(shape),
            shape != Shape::A,
            forall|j: int| 0 <= j < i ==> (#[trigger] params_view(params@)[j]).shape() == shape,
        decreases params@.len() - i,
    {
        if params[i].shape_of() != shape {
            proof {
                assert(params_view(params@)[i as int].shape() != shape);
            }
            return false;
        }
        i = i + 1;
    }
    match token {
        PathToken::MU | PathToken::ML => params.len() > 0,
        _ => true,
    }
}

/// Runs the commands one after the other from the empty state and hands back
/// the primitives. Stops at the first command that cannot be taken: an arc,
/// or a command whose argument groups do not fit its letter.
pub fn interpret(tokens: Vec<Command>) -> (r: Result<Vec<PathElem<Decimal>>, PathError>)
    ensures
        yields(r, interpreted(commands_view(tokens@), Seq::empty())),
{
    let ghost all = tokens@;
    let ghost cmds = commands_view(tokens@);
    let mut s = PathState::new();
    proof {
        assert(cmds.skip(0) =~= cmds);
    }
    for cmd in it: tokens.into_iter()
        invariant
            it.seq() == all,
            cmds == commands_view(all),
            interpreted(cmds.skip(it.index() as int), s@) == interpreted(cmds, Seq::empty()),
    {
        let (token, params) = cmd;
        proof {
            let rest = cmds.skip(it.index() as int);
            assert(rest[0] == cmds[it.index() as int]);
            assert(rest.drop_first() =~= cmds.skip(it.index() + 1));
            assert(cmds[it.index() as int] == (token, params_view(params@)));
        }
        match token {
            PathToken::AU | PathToken::AL => {
                return Err(PathError::ArcNotImplemented);
            },
            _ => {},
        }
        if !fits_token(token, &params) {
            return Err(PathError::ArgumentMismatch);
        }
        s = convert_token(token, params, s);
    }
    proof {
        assert(cmds.skip(all.len() as int) =~= Seq::empty());
    }
    Ok(s.into_elems())
}

/// A well-formed command that is no arc fits.
pub proof fn lemma_well_formed_fits(c: CommandView)
    requires
        well_formed(c),
        c.0.shape() != Some(Shape::A),
    ensures
        fits(c.0, c.1),
{
}

/// Well-formed commands are never refused for their shape.
pub proof fn lemma_interpreted_well_formed(cmds: Seq<CommandView>, s: Seq<PathElem<Dec>>)
    requires
        forall|j: int| 0 <= j < cmds.len() ==> well_formed(#[trigger] cmds[j]),
    ensures
        interpreted(cmds, s) != Err::<Seq<PathElem<Dec>>, PathError>(PathError::ArgumentMismatch),
    decreases cmds.len(),
{
    if cmds.len() > 0 {
        let c = cmds[0];
        if c.0.shape() != Some(Shape::A) {
            lemma_well_formed_fits(c);
            let rest = cmds.drop_first();
            assert forall|j: int| 0 <= j < rest.len() implies well_formed(#[trigger] rest[j]) by {
                assert(rest[j] == cmds[j + 1]);
            }
            lemma_interpreted_well_formed(rest, converted(c.0, c.1, s));
        }
    }
}

/// Reads path data: tokenizes the text and interprets the commands. Text that
/// the tokenizer cannot read is left out without an error, together with all
/// that follows it. The one error that can come back is that for an arc.
pub fn read_path(s: &str) -> (r: Result<Vec<PathElem<Decimal>>, PathError>)
    ensures
        yields(r, interpreted(tokenized(s.spec_bytes()).0, Seq::empty())),
        r matches Err(e) ==> e == PathError::ArcNotImplemented,
{
    let t = tokenize(s);
    proof {
        lemma_interpreted_well_formed(commands_view(t.tokens@), Seq::empty());
    }
    interpret(t.tokens)
}

/// Whether every group has the shape that the command asks for, and the
/// command is one that resolves its groups one by one (no close path, no arc).
pub open spec fn resolves(token: PathToken, groups: Seq<PathParams<Dec>>) -> bool {
    &&& token.shape() is Some
    &&& token.shape() != Some(Shape::A)
    &&& forall|j: int|
        0 <= j < groups.len() ==> token.shape() == Some((#[trigger] groups[j]).shape())
}

/// Primitives are only ever added: a command leaves what was emitted before
/// it untouched and adds one primitive for each of its groups, the `i`-th of
/// them resolved in the state that holds everything emitted before it.
pub proof fn lemma_apply_groups(
    token: PathToken,
    groups: Seq<PathParams<Dec>>,
    first: bool,
    s: Seq<PathElem<Dec>>,
)
    requires
        resolves(token, groups),
    ensures
        ({
            let r = apply_groups(token, groups, first, s);
            &&& r.len() == s.len() + groups.len()
            &&& r.take(s.len() as int) == s
            &&& forall|i: int|
                0 <= i < groups.len() ==> Some(#[trigger] r[s.len() + i]) == resolve(
                    token,
                    first && i == 0,
                    groups[i],
                    r.take(s.len() + i),
                )
        }),
    decreases groups.len(),
{
    let r = apply_groups(token, groups, first, s);
    if groups.len() == 0 {
        assert(r.take(s.len() as int) =~= s);
    } else {
        lemma_resolve(token, first, groups[0], s);
        let e = resolve(token, first, groups[0], s)->0;
        let s1 = s.push(e);
        let rest = groups.drop_first();
        assert forall|j: int| 0 <= j < rest.len() implies token.shape() == Some(
            (#[trigger] rest[j]).shape(),
        ) by {
            assert(rest[j] == groups[j + 1]);
        }
        lemma_apply_groups(token, rest, false, s1);
        assert(r == apply_groups(token, rest, false, s1));
        assert(r.take(s.len() as int) =~= r.take(s1.len() as int).take(s.len() as int));
        assert(s1.take(s.len() as int) =~= s);
        assert forall|i: int| 0 <= i < groups.len() implies Some(#[trigger] r[s.len() + i])
            == resolve(token, first && i == 0, groups[i], r.take(s.len() + i)) by {
            if i == 0 {
                assert(r[s.len() as int] == r.take(s1.len() as int)[s.len() as int]);
            } else {
                assert(r[s.len() + i] == r[s1.len() + (i - 1)]);
                assert(rest[i - 1] == groups[i]);
                assert(s.len() + i == s1.len() + (i - 1));
            }
        }
    }
}

/// An absolute move followed by any number of further groups, and likewise an
/// absolute line, cubic or quadratic command, emits its arguments unchanged,
/// whatever was emitted before: a move for the first group of a move, a line
/// for every further one.
pub proof fn lemma_absolute_coordinates_are_literal(
    token: PathToken,
    groups: Seq<PathParams<Dec>>,
    s: Seq<PathElem<Dec>>,
)
    requires
        token == PathToken::MU || token == PathToken::LU || token == PathToken::CU || token
            == PathToken::QU,
        resolves(token, groups),
    ensures
        converted(token, groups, s).len() == s.len() + groups.len(),
        converted(token, groups, s).take(s.len() as int) == s,
        forall|i: int|
            0 <= i < groups.len() ==> {
                let e = #[trigger] converted(token, groups, s)[s.len() + i];
                match groups[i] {
                    PathParams::MLTParam(x, y) => e == (if token == PathToken::MU && i == 0 {
                        PathElem::MoveTo { x, y }
                    } else {
                        PathElem::LineTo { x, y }
                    }),
                    PathParams::CParam(x1, y1, x2, y2, x, y) => e == (PathElem::CurveTo {
                        x1,
                        y1,
                        x2,
                        y2,
                        x,
                        y,
                    }),
                    PathParams::SQParam(x1, y1, x, y) => e == (PathElem::QuadraticTo {
                        x1,
                        y1,
                        x,
                        y,
                    }),
                    _ => false,
                }
            },
{
    lemma_apply_groups(token, groups, true, s);
}

/// The point from which the `i`-th group of a command counts, where `r` is
/// the state after the command and `before` the number of primitives emitted
/// before it: the current point in the state that holds everything emitted
/// before the group.
pub open spec fn base_point(r: Seq<PathElem<Dec>>, before: int, i: int) -> (Dec, Dec) {
    current_point(r.take(before + i))
}

/// Every coordinate that a relative command emits is the written number plus
/// the matching coordinate of the point from which the group counts. For the
/// first group that point is the current point before the command, for every
/// further group it is the point of the primitive that the group before it
/// emitted. A horizontal line keeps the other coordinate of that point, and
/// so does a vertical line; the control point that a smooth command infers is
/// no written number and is not moved.
pub proof fn lemma_relative_coordinates_chain(
    token: PathToken,
    groups: Seq<PathParams<Dec>>,
    s: Seq<PathElem<Dec>>,
)
    requires
        !token.absolute(),
        resolves(token, groups),
    ensures
        ({
            let r = converted(token, groups, s);
            &&& r.len() == s.len() + groups.len()
            &&& r.take(s.len() as int) == s
            &&& base_point(r, s.len() as int, 0) == current_point(s)
            &&& forall|i: int|
                0 < i < groups.len() ==> #[trigger] base_point(r, s.len() as int, i) == point_of(
                    r[s.len() + i - 1],
                )
            &&& forall|i: int|
                0 <= i < groups.len() ==> {
                    let c = #[trigger] base_point(r, s.len() as int, i);
                    let e = r[s.len() + i];
                    match groups[i] {
                        PathParams::HVParam(a) => e == (if token == PathToken::HL {
                            PathElem::LineTo { x: a.plus(c.0), y: c.1 }
                        } else {
                            PathElem::LineTo { x: c.0, y: a.plus(c.1) }
                        }),
                        PathParams::MLTParam(x, y) => {
                            &&& point_of(e) == (x.plus(c.0), y.plus(c.1))
                            &&& token == PathToken::ML ==> (if i == 0 {
                                e is MoveTo
                            } else {
                                e is LineTo
                            })
                            &&& token == PathToken::LL ==> e is LineTo
                            &&& token == PathToken::TL ==> e is QuadraticTo
                        },
                        PathParams::CParam(x1, y1, x2, y2, x, y) => e == (PathElem::CurveTo {
                            x1: x1.plus(c.0),
                            y1: y1.plus(c.1),
                            x2: x2.plus(c.0),
                            y2: y2.plus(c.1),
                            x: x.plus(c.0),
                            y: y.plus(c.1),
                        }),
                        PathParams::SQParam(a, b, x, y) => if token == PathToken::QL {
                            e == (PathElem::QuadraticTo {
                                x1: a.plus(c.0),
                                y1: b.plus(c.1),
                                x: x.plus(c.0),
                                y: y.plus(c.1),
                            })
                        } else {
                            e matches PathElem::CurveTo { x2: ex2, y2: ey2, x: ex, y: ey, .. }
                                && ex2 == a.plus(c.0) && ey2 == b.plus(c.1) && ex == x.plus(c.0)
                                && ey == y.plus(c.1)
                        },
                        PathParams::AParam(..) => false,
                    }
                }
        }),
{
    let r = converted(token, groups, s);
    lemma_apply_groups(token, groups, true, s);
    assert forall|i: int| 0 < i < groups.len() implies #[trigger] base_point(
        r,
        s.len() as int,
        i,
    ) == point_of(r[s.len() + i - 1]) by {
        let t = r.take(s.len() + i);
        assert(t.last() == r[s.len() + i - 1]);
    }
    assert forall|i: int| 0 <= i < groups.len() implies {
        let c = #[trigger] base_point(r, s.len() as int, i);
        let e = r[s.len() + i];
        match groups[i] {
            PathParams::HVParam(a) => e == (if token == PathToken::HL {
                PathElem::LineTo { x: a.plus(c.0), y: c.1 }
            } else {
                PathElem::LineTo { x: c.0, y: a.plus(c.1) }
            }),
            PathParams::MLTParam(x, y) => {
                &&& point_of(e) == (x.plus(c.0), y.plus(c.1))
                &&& token == PathToken::ML ==> (if i == 0 {
                    e is MoveTo
                } else {
                    e is LineTo
                })
                &&& token == PathToken::LL ==> e is LineTo
                &&& token == PathToken::TL ==> e is QuadraticTo
            },
            PathParams::CParam(x1, y1, x2, y2, x, y) => e == (PathElem::CurveTo {
                x1: x1.plus(c.0),
                y1: y1.plus(c.1),
                x2: x2.plus(c.0),
                y2: y2.plus(c.1),
                x: x.plus(c.0),
                y: y.plus(c.1),
            }),
            PathParams::SQParam(a, b, x, y) => if token == PathToken::QL {
                e == (PathElem::QuadraticTo {
                    x1: a.plus(c.0),
                    y1: b.plus(c.1),
                    x: x.plus(c.0),
                    y: y.plus(c.1),
                })
            } else {
                e matches PathElem::CurveTo { x2: ex2, y2: ey2, x: ex, y: ey, .. } && ex2
                    == a.plus(c.0) && ey2 == b.plus(c.1) && ex == x.plus(c.0) && ey == y.plus(
                    c.1,
                )
            },
            PathParams::AParam(..) => false,
        }
    } by {
        assert(Some(r[s.len() + i]) == resolve(
            token,
            i == 0,
            groups[i],
            r.take(s.len() + i),
        ));
    }
}

/// Mirroring twice through the same point gives the point back.
pub proof fn lemma_reflect_twice(p: (Dec, Dec), r: (Dec, Dec))
    requires
        p.0.canonical(),
        p.1.canonical(),
    ensures
        reflected(reflected(p, r), r) == p,
{
    lemma_mirror_twice(p.0, r.0);
    lemma_mirror_twice(p.1, r.1);
}

proof fn lemma_mirror_twice(p: Dec, r: Dec)
    requires
        p.canonical(),
    ensures
        r.plus(r).minus(r.plus(r).minus(p)) == p,
{
    let k = if p.scale >= r.scale { p.scale } else { r.scale };
    let rr = r.plus(r);
    lemma_plus(r, r, k);
    lemma_minus(rr, p, k);
    let a = rr.minus(p);
    lemma_minus(rr, a, k);
    lemma_canonical_unique(rr.minus(a), p, k);
}

/// Close path always adds exactly two primitives, whatever the state and
/// whatever arguments it is handed: a line to the initial point and a move to
/// the point at which the pen stood before. Without any primitive before it,
/// both go to the origin.
pub proof fn lemma_close_path(groups: Seq<PathParams<Dec>>, s: Seq<PathElem<Dec>>)
    ensures
        fits(PathToken::Z, groups),
        converted(PathToken::Z, groups, s).len() == s.len() + 2,
        converted(PathToken::Z, groups, s).take(s.len() as int) == s,
        converted(PathToken::Z, groups, s)[s.len() as int] == (if s.len() > 0 {
            PathElem::LineTo { x: point_of(s[0]).0, y: point_of(s[0]).1 }
        } else {
            PathElem::LineTo { x: Dec::zero(), y: Dec::zero() }
        }),
        converted(PathToken::Z, groups, s)[s.len() as int + 1] == (if s.len() > 0 {
            PathElem::MoveTo { x: point_of(s.last()).0, y: point_of(s.last()).1 }
        } else {
            PathElem::MoveTo { x: Dec::zero(), y: Dec::zero() }
        }),
{
    assert(converted(PathToken::Z, groups, s).take(s.len() as int) =~= s);
}

} // verus!
