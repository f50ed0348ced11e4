//! Screens.
//!
//! A ditty is a screen shown in a particular way: an intro sequence, a cut
//! scene, the game itself. A ditty never touches the display. It says what is
//! to be drawn, as a list of [`DrawOp`]s, and whoever owns the display carries
//! them out in order.

use vstd::prelude::*;
use crate::decimal::{Dec, Decimal, clamp_i32};
use crate::spath::{PathElem, elems_view, point_of};

verus! {

/// One request to the display.
#[derive(Debug, PartialEq, Eq, Clone, Copy)]
pub enum DrawOp {
    /// Use this colour for what follows.
    Color { r: u8, g: u8, b: u8 },
    /// Draw a line between two points.
    Line { x1: i32, y1: i32, x2: i32, y2: i32 },
    /// Draw the outline of a rectangle; `(x, y)` is its top left corner.
    Rect { x: i32, y: i32, width: u32, height: u32 },
    /// Copy the screen's image, in its own size, with its top left corner
    /// at `(x, y)`.
    Image { x: i32, y: i32, width: u32, height: u32 },
}

/// The size of an image that was loaded for a screen.
#[derive(Debug, PartialEq, Eq, Clone, Copy)]
pub struct ImageSize {
    pub width: u32,
    pub height: u32,
}

/// A screen: something that can be prepared once and drawn frame by frame.
pub trait Ditty: Sized {
    /// What the screen draws on a display of the given size.
    spec fn picture(&self, width: u32, height: u32) -> Seq<DrawOp>;

    /// Whether the screen can be drawn on a display of the given size.
    spec fn drawable(&self, width: u32, height: u32) -> bool;

    /// Prepares the screen, and names the image file that it wants loaded, if
    /// it wants one. The size of the loaded image goes to `loaded`.
    fn init(&mut self) -> (r: Option<&'static str>);

    /// Takes the size of the image that `init` asked for.
    fn loaded(&mut self, image: ImageSize);

    /// Tells whether `render` may be called for a display of the given size.
    fn can_render(&self, width: u32, height: u32) -> (r: bool)
        ensures
            r == self.drawable(width, height),
    ;

    /// Says what is to be drawn. The screen itself stays as it is.
    fn render(&mut self, width: u32, height: u32) -> (ops: Vec<DrawOp>)
        requires
            old(self).drawable(width, height),
        ensures
            ops@ == old(self).picture(width, height),
            *final(self) == *old(self),
    ;
}

/// A screen that shows one image in the middle of the display.
pub struct BackgroundDitty {
    logo: Option<ImageSize>,
}

impl View for BackgroundDitty {
    type V = Option<ImageSize>;

    /// The size of the image, once it is loaded.
    closed spec fn view(&self) -> Option<ImageSize> {
        self.logo
    }
}

/// Whether an image is no larger than the display by half sizes, so that it
/// can be centred without leaving the display at the top or at the left.
pub open spec fn centres(image: ImageSize, screen_width: u32, screen_height: u32) -> bool {
    image.width / 2 <= screen_width / 2 && image.height / 2 <= screen_height / 2
}

/// The request that puts an image in the middle of the display: the middle of
/// the image, taken as half its size, lies on the middle of the display.
pub open spec fn centred(image: ImageSize, screen_width: u32, screen_height: u32) -> DrawOp {
    DrawOp::Image {
        x: (screen_width / 2 - image.width / 2) as i32,
        y: (screen_height / 2 - image.height / 2) as i32,
        width: image.width,
        height: image.height,
    }
}

impl BackgroundDitty {
    /// A screen whose image is not loaded yet.
    pub fn new() -> (r: BackgroundDitty)
        ensures
            r@ is None,
    {
        BackgroundDitty { logo: None }
    }

    /// Places an image in the middle of the display.
    pub fn draw_tex(image: &ImageSize, screen_width: u32, screen_height: u32) -> (op: DrawOp)
        requires
            centres(*image, screen_width, screen_height),
        ensures
            op == centred(*image, screen_width, screen_height),
    {
        let fg_x = (screen_width / 2 - image.width / 2) as i32;
        let fg_y = (screen_height / 2 - image.height / 2) as i32;
        DrawOp::Image { x: fg_x, y: fg_y, width: image.width, height: image.height }
    }
}

impl Ditty for BackgroundDitty {
    open spec fn picture(&self, width: u32, height: u32) -> Seq<DrawOp> {
        seq![centred(self@->0, width, height)]
    }

    open spec fn drawable(&self, width: u32, height: u32) -> bool {
        self@ matches Some(image) && centres(image, width, height)
    }

    fn init(&mut self) -> (r: Option<&'static str>)
        ensures
            r matches Some(name) && name@ == "logo.bmp"@,
            *final(self) == *old(self),
    {
        Some("logo.bmp")
    }

    fn loaded(&mut self, image: ImageSize)
        ensures
            final(self)@ == Some(image),
    {
        self.logo = Some(image);
    }

    fn can_render(&self, width: u32, height: u32) -> (r: bool) {
        match &self.logo {
            Some(image) => image.width / 2 <= width / 2 && image.height / 2 <= height / 2,
            None => false,
        }
    }

    fn render(&mut self, width: u32, height: u32) -> (ops: Vec<DrawOp>) {
        let mut ops: Vec<DrawOp> = Vec::new();
        match &self.logo {
            Some(logo) => {
                ops.push(BackgroundDitty::draw_tex(logo, width, height));
            },
            None => {},
        }
        assert(ops@ =~= seq![centred(self@->0, width, height)]);
        ops
    }
}

/// The whole part of a coordinate as the display counts: cut off toward zero
/// and kept within 32 bits.
pub open spec fn pixel(d: Dec) -> i32 {
    clamp_i32(d.truncated()) as i32
}

/// The point of the display at which a primitive leaves the pen.
pub open spec fn target(e: PathElem<Dec>) -> (i32, i32) {
    (pixel(point_of(e).0), pixel(point_of(e).1))
}

/// The square of side 2 that marks a control point, one pixel up and to the
/// left of it. At the lowest coordinate that 32 bits hold, the corner wraps
/// round to the highest.
pub open spec fn marker(x: i32, y: i32) -> DrawOp {
    DrawOp::Rect { x: x.wrapping_sub(1), y: y.wrapping_sub(1), width: 2, height: 2 }
}

/// What one primitive draws when the pen stands at `cp`. A move draws
/// nothing. A line is red. A cubic curve shows its skeleton: grey lines from
/// the pen to the first control point and from the end point to the second,
/// orange markers on both control points, and an orange chord. A quadratic
/// curve is a green chord, an arc a yellow one.
pub open spec fn elem_ops(e: PathElem<Dec>, cp: (i32, i32)) -> Seq<DrawOp> {
    let np = target(e);
    let chord = DrawOp::Line { x1: cp.0, y1: cp.1, x2: np.0, y2: np.1 };
    match e {
        PathElem::MoveTo { .. } => Seq::empty(),
        PathElem::LineTo { .. } => seq![DrawOp::Color { r: 255, g: 0, b: 0 }, chord],
        PathElem::CurveTo { x1, y1, x2, y2, .. } => seq![
            DrawOp::Color { r: 64, g: 64, b: 64 },
            DrawOp::Line { x1: cp.0, y1: cp.1, x2: pixel(x1), y2: pixel(y1) },
            DrawOp::Line { x1: np.0, y1: np.1, x2: pixel(x2), y2: pixel(y2) },
            DrawOp::Color { r: 255, g: 128, b: 0 },
            marker(pixel(x1), pixel(y1)),
            marker(pixel(x2), pixel(y2)),
            chord,
        ],
        PathElem::QuadraticTo { .. } => seq![DrawOp::Color { r: 0, g: 255, b: 0 }, chord],
        PathElem::ArcTo { .. } => seq![DrawOp::Color { r: 255, g: 255, b: 0 }, chord],
    }
}

/// What a path draws from its primitive `from` on, when the pen stands at
/// `cp`: every primitive draws from where the one before it left the pen.
pub open spec fn path_ops(path: Seq<PathElem<Dec>>, from: int, cp: (i32, i32)) -> Seq<DrawOp>
    decreases path.len() - from,
{
    if 0 <= from < path.len() {
        elem_ops(path[from], cp) + path_ops(path, from + 1, target(path[from]))
    } else {
        Seq::empty()
    }
}

/// What the paths from number `from` on draw, each starting with the pen at
/// the origin.
pub open spec fn paths_ops(paths: Seq<Seq<PathElem<Dec>>>, from: int) -> Seq<DrawOp>
    decreases paths.len() - from,
{
    if 0 <= from < paths.len() {
        path_ops(paths[from], 0, (0, 0)) + paths_ops(paths, from + 1)
    } else {
        Seq::empty()
    }
}

/// A screen that shows paths as a coloured line drawing.
pub struct PathDitty {
    paths: Vec<Vec<PathElem<Decimal>>>,
}

impl View for PathDitty {
    type V = Seq<Seq<PathElem<Dec>>>;

    /// The paths, by the values of their primitives.
    closed spec fn view(&self) -> Seq<Seq<PathElem<Dec>>> {
        self.paths@.map_values(|p: Vec<PathElem<Decimal>>| elems_view(p@))
    }
}

/// The marker of a control point.
fn control_marker(x: i32, y: i32) -> (op: DrawOp)
    ensures
        op == marker(x, y),
{
    DrawOp::Rect { x: x.wrapping_sub(1), y: y.wrapping_sub(1), width: 2, height: 2 }
}

/// Adds to `ops` what one primitive draws, and hands back where it leaves the
/// pen.
fn render_elem(elem: &PathElem<Decimal>, cp: (i32, i32), ops: &mut Vec<DrawOp>) -> (np: (i32, i32))
    ensures
        np == target(elem@),
        final(ops)@ == old(ops)@ + elem_ops(elem@, cp),
{
    let ghost before = ops@;
    match elem {
        PathElem::MoveTo { x, y } => {
            let np = (x.to_i32(), y.to_i32());
            assert(ops@ =~= before + elem_ops(elem@, cp));
            np
        },
        PathElem::LineTo { x, y } => {
            let np = (x.to_i32(), y.to_i32());
            ops.push(DrawOp::Color { r: 255, g: 0, b: 0 });
            ops.push(DrawOp::Line { x1: cp.0, y1: cp.1, x2: np.0, y2: np.1 });
            assert(ops@ =~= before + elem_ops(elem@, cp));
            np
        },
        PathElem::CurveTo { x1, y1, x2, y2, x, y } => {
            let np = (x.to_i32(), y.to_i32());
            let cp1 = (x1.to_i32(), y1.to_i32());
            let cp2 = (x2.to_i32(), y2.to_i32());
            ops.push(DrawOp::Color { r: 64, g: 64, b: 64 });
            ops.push(DrawOp::Line { x1: cp.0, y1: cp.1, x2: cp1.0, y2: cp1.1 });
            ops.push(DrawOp::Line { x1: np.0, y1: np.1, x2: cp2.0, y2: cp2.1 });
            ops.push(DrawOp::Color { r: 255, g: 128, b: 0 });
            ops.push(control_marker(cp1.0, cp1.1));
            ops.push(control_marker(cp2.0, cp2.1));
            ops.push(DrawOp::Line { x1: cp.0, y1: cp.1, x2: np.0, y2: np.1 });
            assert(ops@ =~= before + elem_ops(elem@, cp));
            np
        },
        PathElem::QuadraticTo { x, y, .. } => {
            let np = (x.to_i32(), y.to_i32());
            ops.push(DrawOp::Color { r: 0, g: 255, b: 0 });
            ops.push(DrawOp::Line { x1: cp.0, y1: cp.1, x2: np.0, y2: np.1 });
            assert(ops@ =~= before + elem_ops(elem@, cp));
            np
        },
        PathElem::ArcTo { x, y, .. } => {
            let np = (x.to_i32(), y.to_i32());
            ops.push(DrawOp::Color { r: 255, g: 255, b: 0 });
            ops.push(DrawOp::Line { x1: cp.0, y1: cp.1, x2: np.0, y2: np.1 });
            assert(ops@ =~= before + elem_ops(elem@, cp));
            np
        },
    }
}

impl PathDitty {
    /// A screen that shows the given paths.
    pub fn new(paths: Vec<Vec<PathElem<Decimal>>>) -> (r: PathDitty)
        ensures
            r@ == paths@.map_values(|p: Vec<PathElem<Decimal>>| elems_view(p@)),
    {
        PathDitty { paths: paths }
    }
}

impl Ditty for PathDitty {
    /// All paths in turn, and black as the colour left behind.
    open spec fn picture(&self, width: u32, height: u32) -> Seq<DrawOp> {
        paths_ops(self@, 0).push(DrawOp::Color { r: 0, g: 0, b: 0 })
    }

    open spec fn drawable(&self, width: u32, height: u32) -> bool {
        true
    }

    fn init(&mut self) -> (r: Option<&'static str>)
        ensures
            r is None,
            *final(self) == *old(self),
    {
        None
    }

    fn loaded(&mut self, image: ImageSize)
        ensures
            *final(self) == *old(self),
    {
    }

    fn can_render(&self, width: u32, height: u32) -> (r: bool) {
        true
    }

    fn render(&mut self, width: u32, height: u32) -> (ops: Vec<DrawOp>) {
        let mut ops: Vec<DrawOp> = Vec::new();
        let ghost all = self@;
        let mut i: usize = 0;
        while i < self.paths.len()
            invariant
                i <= self.paths@.len(),
                all == self@,
                all.len() == self.paths@.len(),
                ops@ + paths_ops(all, i as int) == paths_ops(all, 0),
            decreases self.paths@.len() - i,
        {
            let path = &self.paths[i];
            let ghost done = ops@;
            let ghost shown = all[i as int];
            let mut cp: (i32, i32) = (0, 0);
            let mut j: usize = 0;
            proof {
                assert(shown == elems_view(path@));
            }
            while j < path.len()
                invariant
                    j <= path@.len(),
                    shown == elems_view(path@),
                    ops@ + path_ops(shown, j as int, cp) == done + path_ops(shown, 0, (0, 0)),
                decreases path@.len() - j,
            {
                let ghost so_far = ops@;
                proof {
                    assert(shown[j as int] == path@[j as int]@);
                }
                let np = render_elem(&path[j], cp, &mut ops);
                proof {
                    let step = elem_ops(shown[j as int], cp);
                    let tail = path_ops(shown, j + 1, np);
                    assert((so_far + step) + tail =~= so_far + (step + tail));
                }
                cp = np;
                j = j + 1;
            }
            proof {
                let one = path_ops(shown, 0, (0, 0));
                let tail = paths_ops(all, i + 1);
                assert(ops@ + Seq::<DrawOp>::empty() =~= ops@);
                assert((done + one) + tail =~= done + (one + tail));
            }
            i = i + 1;
        }
        proof {
            assert(ops@ + Seq::<DrawOp>::empty() =~= ops@);
        }
        ops.push(DrawOp::Color { r: 0, g: 0, b: 0 });
        ops
    }
}

} // verus!
