//! The render pass: from a triangle soup, a model matrix and a camera to the
//! list of screen triangles to draw, in drawing order.
//!
//! Nothing here decides which of two overlapping triangles is in front: they
//! are drawn in the order of the soup, and the caller submits far objects
//! before near ones. The depth flag of a pass is accepted and has no effect.

use vstd::prelude::*;
use crate::clip::{clipped, triangle_clip_plane};
use crate::list::{triangle_wf, Triangle, TriangleList};
use crate::matrix::{look_at, mat4_get_look_at, mat4_get_projection, projection, Mat4};
use crate::pipeline::{
    all_wf, clip_to_screen, culled, is_culled, moved_triangle, on_screen_triangle,
    project_triangle, projected_triangle, screen_clipped, transform_triangle, triangle_to_screen,
};
use crate::pipeline_laws::{command_on_surface, lemma_rendered_on_surface};
use crate::scalar::{in_range, scalar_trunc, trunc_raw, Scalar, LIMIT, ONE};
use crate::vector::{stored3, vec_add_vec, Vec3};

verus! {

/// A color, as an index into the palette of the display.
#[derive(Clone, Copy, Debug, PartialEq, Eq, Structural)]
pub struct Color {
    pub index: u8,
}

/// The parameters of a perspective projection.
#[derive(Clone, Copy, Debug, PartialEq, Eq, Structural)]
pub struct ProjectionData {
    /// The tangent of half the field of view.
    pub tan_half_fov: Scalar,
    /// The distance of the near plane.
    pub near: Scalar,
    /// The distance of the far plane.
    pub far: Scalar,
}

/// What one draw call needs: a camera, a triangle soup with its model
/// matrix, the colors, and the projection. Without a projection the view
/// coordinates are used as they are, with no divide.
pub struct RenderPass<'triangles> {
    pub camera_front: Vec3,
    pub camera_position: Vec3,
    /// Nine scalars per triangle: three vertices of three coordinates each.
    pub triangles: &'triangles [Scalar],
    pub model: Mat4,
    /// The fill color; `None` leaves triangles unfilled.
    pub color: Option<Color>,
    /// The outline color; `None` leaves triangles without an outline.
    pub border_color: Option<Color>,
    pub invert_culling: bool,
    /// Accepted, and without effect.
    pub enable_depth: bool,
    pub projection: Option<ProjectionData>,
}

/// A pixel position.
#[derive(Clone, Copy, Debug, PartialEq, Eq, Structural)]
pub struct Point {
    pub x: i32,
    pub y: i32,
}

/// One triangle to draw, in pixel coordinates, with its colors.
#[derive(Clone, Copy, Debug, PartialEq, Eq, Structural)]
pub struct ScreenTriangle {
    pub a: Point,
    pub b: Point,
    pub c: Point,
    pub fill: Option<Color>,
    pub stroke: Option<Color>,
}

/// A rectangle to fill, with its corner at the origin of the surface.
#[derive(Clone, Copy, Debug, PartialEq, Eq, Structural)]
pub struct ClearRectangle {
    pub width: u32,
    pub height: u32,
    pub color: Color,
}

/// Why a pass could not be rendered.
#[derive(Clone, Copy, Debug, PartialEq, Eq, Structural)]
pub enum RenderError {
    /// The soup does not hold nine scalars per triangle.
    MalformedMesh,
    /// The projection has a zero tangent, or its near and far planes coincide.
    InvalidProjection,
    /// A coordinate is, or has become, too large to store.
    OutOfRange,
}

/// A drawing surface of fixed size.
pub struct Framebuffer {
    width: u16,
    height: u16,
}

/// Whether every scalar of a soup is in range.
pub open spec fn soup_wf(soup: Seq<Scalar>) -> bool {
    forall|i: int| 0 <= i < soup.len() ==> in_range(#[trigger] soup[i] as int)
}

/// The vertex that starts at position `at` of a soup.
pub open spec fn soup_vertex(soup: Seq<Scalar>, at: int) -> Vec3 {
    Vec3 { x: soup[at], y: soup[at + 1], z: soup[at + 2] }
}

/// The triangle number `i` of a soup.
pub open spec fn soup_triangle(soup: Seq<Scalar>, i: int) -> Triangle {
    (soup_vertex(soup, 9 * i), soup_vertex(soup, 9 * i + 3), soup_vertex(soup, 9 * i + 6))
}

/// Whether the numbers of a projection are in range.
pub open spec fn projection_wf(p: Option<ProjectionData>) -> bool {
    match p {
        Some(p) => in_range(p.tan_half_fov as int) && in_range(p.near as int) && in_range(
            p.far as int,
        ),
        None => true,
    }
}

/// Whether every number of a pass is in range.
pub open spec fn pass_wf(pass: RenderPass) -> bool {
    &&& pass.camera_front.wf()
    &&& pass.camera_position.wf()
    &&& pass.model.wf()
    &&& projection_wf(pass.projection)
    &&& soup_wf(pass.triangles@)
}

/// The upward direction of every camera.
pub open spec fn up_axis() -> Vec3 {
    Vec3 { x: 0, y: ONE, z: 0 }
}

/// The view matrix of a pass: the camera looks from its position along its
/// front direction.
pub open spec fn view_matrix(pass: RenderPass) -> Option<Mat4> {
    match stored3(pass.camera_position@.plus(pass.camera_front@)) {
        Some(target) => look_at(pass.camera_position, target, up_axis()),
        None => None,
    }
}

/// The perspective matrix of a pass, with aspect ratio one: `Ok(None)` for a
/// pass without projection.
pub open spec fn projection_matrix(p: Option<ProjectionData>) -> Result<Option<Mat4>, RenderError> {
    match p {
        None => Ok(None),
        Some(p) => match projection(ONE, p.tan_half_fov, p.near, p.far) {
            Some(m) => Ok(Some(m)),
            None => Err(RenderError::InvalidProjection),
        },
    }
}

/// What the near plane leaves of a view-space triangle. Without a projection
/// there is no near plane.
pub open spec fn near_clipped(p: Option<ProjectionData>, t: Triangle) -> Seq<Triangle> {
    match p {
        Some(p) => clipped(
            (Vec3 { x: 0, y: 0, z: p.near })@,
            (Vec3 { x: 0, y: 0, z: ONE })@,
            t,
        ),
        None => seq![t],
    }
}

/// A view-space triangle in pixel units: projected and divided, if there is
/// a projection, then mapped to the surface.
pub open spec fn placed(t: Triangle, proj: Option<Mat4>, width: u16, height: u16) -> Option<
    Triangle,
> {
    match proj {
        Some(m) => match projected_triangle(m, t) {
            Some(n) => on_screen_triangle(n, width, height),
            None => None,
        },
        None => on_screen_triangle(t, width, height),
    }
}

/// The screen triangles of a list of view-space triangles, in order.
pub open spec fn placed_all(ts: Seq<Triangle>, proj: Option<Mat4>, width: u16, height: u16)
    -> Result<Seq<Triangle>, RenderError>
    decreases ts.len(),
{
    if ts.len() == 0 {
        Ok(Seq::<Triangle>::empty())
    } else {
        match placed_all(ts.drop_last(), proj, width, height) {
            Err(e) => Err(e),
            Ok(before) => match placed(ts.last(), proj, width, height) {
                None => Err(RenderError::OutOfRange),
                Some(s) => Ok(before + screen_clipped(s, width, height)),
            },
        }
    }
}

/// The screen triangles that one triangle of the soup gives: none if the
/// backface test discards it.
pub open spec fn triangle_output(
    pass: RenderPass,
    view: Mat4,
    proj: Option<Mat4>,
    width: u16,
    height: u16,
    t: Triangle,
) -> Result<Seq<Triangle>, RenderError> {
    match moved_triangle(pass.model, t) {
        None => Err(RenderError::OutOfRange),
        Some(world) => if culled(world, pass.camera_position, pass.invert_culling) {
            Ok(Seq::<Triangle>::empty())
        } else {
            match moved_triangle(view, world) {
                None => Err(RenderError::OutOfRange),
                Some(seen) => placed_all(near_clipped(pass.projection, seen), proj, width, height),
            }
        },
    }
}

/// The pixel under a point given in pixel units: its coordinates rounded
/// toward zero.
pub open spec fn pixel(v: Vec3) -> Point {
    Point { x: trunc_raw(v.x as int) as i32, y: trunc_raw(v.y as int) as i32 }
}

/// The draw command for one screen triangle.
pub open spec fn command(t: Triangle, fill: Option<Color>, stroke: Option<Color>) -> ScreenTriangle {
    ScreenTriangle { a: pixel(t.0), b: pixel(t.1), c: pixel(t.2), fill, stroke }
}

/// The draw commands for a list of screen triangles.
pub open spec fn commands(ts: Seq<Triangle>, fill: Option<Color>, stroke: Option<Color>) -> Seq<
    ScreenTriangle,
> {
    Seq::new(ts.len(), |i: int| command(ts[i], fill, stroke))
}

/// The draw commands for the first `count` triangles of the soup.
pub open spec fn drawn(
    pass: RenderPass,
    view: Mat4,
    proj: Option<Mat4>,
    width: u16,
    height: u16,
    count: nat,
) -> Result<Seq<ScreenTriangle>, RenderError>
    decreases count,
{
    if count == 0 {
        Ok(Seq::<ScreenTriangle>::empty())
    } else {
        match drawn(pass, view, proj, width, height, (count - 1) as nat) {
            Err(e) => Err(e),
            Ok(before) => match triangle_output(
                pass,
                view,
                proj,
                width,
                height,
                soup_triangle(pass.triangles@, count - 1),
            ) {
                Err(e) => Err(e),
                Ok(ts) => Ok(before + commands(ts, pass.color, pass.border_color)),
            },
        }
    }
}

/// What a pass draws on a surface of the given size.
///
/// A soup whose length is not a multiple of nine is refused. A pass with
/// neither a fill nor an outline color draws nothing. Otherwise every
/// triangle of the soup is taken through the model matrix, the backface
/// test, the view matrix, the near plane, the projection with its divide,
/// the mapping to pixels and the four edges of the viewport, and what is
/// left is drawn in the order of the soup.
pub open spec fn rendered(width: u16, height: u16, pass: RenderPass) -> Result<
    Seq<ScreenTriangle>,
    RenderError,
> {
    if pass.triangles@.len() % 9 != 0 {
        Err(RenderError::MalformedMesh)
    } else if pass.color is None && pass.border_color is None {
        Ok(Seq::<ScreenTriangle>::empty())
    } else if !pass_wf(pass) {
        Err(RenderError::OutOfRange)
    } else {
        match view_matrix(pass) {
            None => Err(RenderError::OutOfRange),
            Some(view) => match projection_matrix(pass.projection) {
                Err(e) => Err(e),
                Ok(proj) => drawn(
                    pass,
                    view,
                    proj,
                    width,
                    height,
                    pass.triangles@.len() / 9,
                ),
            },
        }
    }
}

/// Once the first triangles of a soup fail, so does any longer run of them.
pub proof fn lemma_drawn_fails_on(
    pass: RenderPass,
    view: Mat4,
    proj: Option<Mat4>,
    width: u16,
    height: u16,
    failed: nat,
    count: nat,
)
    requires
        failed <= count,
        drawn(pass, view, proj, width, height, failed) is Err,
    ensures
        drawn(pass, view, proj, width, height, count) == drawn(
            pass,
            view,
            proj,
            width,
            height,
            failed,
        ),
    decreases count,
{
    if failed < count {
        lemma_drawn_fails_on(pass, view, proj, width, height, failed, (count - 1) as nat);
    }
}

/// Tests whether every scalar of a soup is in range.
pub fn soup_is_wf(soup: &[Scalar]) -> (r: bool)
    ensures
        r == soup_wf(soup@),
{
    let n: usize = soup.len();
    let mut i: usize = 0;
    while i < n
        invariant
            i <= n,
            n == soup@.len(),
            forall|j: int| 0 <= j < i ==> in_range(#[trigger] soup@[j] as int),
        decreases n - i,
    {
        let s: Scalar = soup[i];
        if s < -LIMIT || s > LIMIT {
            return false;
        }
        i += 1;
    }
    true
}

/// Tests whether every number of a pass is in range.
pub fn pass_is_wf(pass: &RenderPass) -> (r: bool)
    ensures
        r == pass_wf(*pass),
{
    let projection_ok: bool = match pass.projection {
        Some(p) => -LIMIT <= p.tan_half_fov && p.tan_half_fov <= LIMIT && -LIMIT <= p.near
            && p.near <= LIMIT && -LIMIT <= p.far && p.far <= LIMIT,
        None => true,
    };
    pass.camera_front.is_wf() && pass.camera_position.is_wf() && pass.model.is_wf()
        && projection_ok && soup_is_wf(pass.triangles)
}

/// Reads triangle number `i` of a soup.
pub fn read_triangle(soup: &[Scalar], i: usize) -> (t: Triangle)
    requires
        9 * i + 9 <= soup@.len(),
        soup_wf(soup@),
    ensures
        t == soup_triangle(soup@, i as int),
        triangle_wf(t),
{
    let len: usize = soup.len();
    assert(9 * i + 9 <= len);
    let at: usize = 9 * i;
    (
        Vec3 { x: soup[at], y: soup[at + 1], z: soup[at + 2] },
        Vec3 { x: soup[at + 3], y: soup[at + 4], z: soup[at + 5] },
        Vec3 { x: soup[at + 6], y: soup[at + 7], z: soup[at + 8] },
    )
}

/// Clips a view-space triangle against the near plane of a projection.
pub fn clip_near(p: Option<ProjectionData>, t: Triangle) -> (r: TriangleList)
    requires
        projection_wf(p),
        triangle_wf(t),
    ensures
        r@ == near_clipped(p, t),
        all_wf(r@),
{
    match p {
        Some(p) => triangle_clip_plane(
            Vec3 { x: 0, y: 0, z: p.near },
            Vec3 { x: 0, y: 0, z: ONE },
            t,
        ),
        None => {
            let mut only = TriangleList::new();
            only.push(t);
            assert(only@ =~= seq![t]);
            only
        },
    }
}

/// Takes a view-space triangle to pixel units.
pub fn place(t: Triangle, proj: Option<Mat4>, width: u16, height: u16) -> (r: Option<Triangle>)
    requires
        triangle_wf(t),
        proj matches Some(m) ==> m.wf(),
    ensures
        r == placed(t, proj, width, height),
        r matches Some(s) ==> triangle_wf(s),
{
    match proj {
        Some(m) => match project_triangle(m, t) {
            Some(n) => triangle_to_screen(n, width, height),
            None => None,
        },
        None => triangle_to_screen(t, width, height),
    }
}

/// Takes a list of view-space triangles to the screen and clips each to the
/// viewport.
pub fn place_all(list: &TriangleList, proj: Option<Mat4>, width: u16, height: u16) -> (r: Result<
    TriangleList,
    RenderError,
>)
    requires
        all_wf(list@),
        proj matches Some(m) ==> m.wf(),
    ensures
        match (r, placed_all(list@, proj, width, height)) {
            (Ok(out), Ok(ts)) => out@ == ts && all_wf(ts),
            (Err(e), Err(f)) => e == f,
            _ => false,
        },
{
    let mut out = TriangleList::new();
    let n: usize = list.len();
    let mut i: usize = 0;
    while i < n
        invariant
            i <= n,
            n == list@.len(),
            all_wf(list@),
            proj matches Some(m) ==> m.wf(),
            placed_all(list@.take(i as int), proj, width, height) == Ok::<
                Seq<Triangle>,
                RenderError,
            >(out@),
            all_wf(out@),
        decreases n - i,
    {
        let t: Triangle = list.get(i).unwrap();
        proof {
            let next = list@.take(i as int + 1);
            assert(next.drop_last() =~= list@.take(i as int));
            assert(next.last() == t);
        }
        match place(t, proj, width, height) {
            None => {
                proof {
                    lemma_placed_fails_on(list@, proj, width, height, i as int + 1);
                }
                return Err(RenderError::OutOfRange);
            },
            Some(s) => {
                let mut kept: TriangleList = clip_to_screen(s, width, height);
                out.append(&mut kept);
            },
        }
        i += 1;
    }
    proof {
        assert(list@.take(n as int) =~= list@);
    }
    Ok(out)
}

/// Once a prefix of a list fails to reach the screen, so does the whole list.
pub proof fn lemma_placed_fails_on(
    ts: Seq<Triangle>,
    proj: Option<Mat4>,
    width: u16,
    height: u16,
    failed: int,
)
    requires
        0 <= failed <= ts.len(),
        placed_all(ts.take(failed), proj, width, height) is Err,
    ensures
        placed_all(ts, proj, width, height) == placed_all(ts.take(failed), proj, width, height),
    decreases ts.len(),
{
    if failed < ts.len() {
        assert(ts.drop_last().take(failed) =~= ts.take(failed));
        lemma_placed_fails_on(ts.drop_last(), proj, width, height, failed);
    } else {
        assert(ts.take(failed) =~= ts);
    }
}

impl Framebuffer {
    /// The width of the surface in pixels.
    pub closed spec fn spec_width(&self) -> u16 {
        self.width
    }

    /// The height of the surface in pixels.
    pub closed spec fn spec_height(&self) -> u16 {
        self.height
    }

    /// A surface of the given size.
    pub fn new(width: u16, height: u16) -> (r: Self)
        ensures
            r.spec_width() == width,
            r.spec_height() == height,
    {
        Self { width, height }
    }

    /// The width of the surface in pixels.
    #[verifier::when_used_as_spec(spec_width)]
    pub fn width(&self) -> (r: u16)
        ensures
            r == self.spec_width(),
    {
        self.width
    }

    /// The height of the surface in pixels.
    #[verifier::when_used_as_spec(spec_height)]
    pub fn height(&self) -> (r: u16)
        ensures
            r == self.spec_height(),
    {
        self.height
    }

    /// The rectangle to fill to clear the surface to one color: all of it.
    pub fn clear_color(&self, color: Color) -> (r: ClearRectangle)
        ensures
            r == (ClearRectangle {
                width: self.spec_width() as u32,
                height: self.spec_height() as u32,
                color,
            }),
    {
        ClearRectangle { width: self.width as u32, height: self.height as u32, color }
    }

    /// Clears the depth of the surface. The surface keeps no depth, so this
    /// changes nothing.
    pub fn clear_depth(&mut self, value: Scalar)
        ensures
            *final(self) == *old(self),
    {
    }

    /// Takes one triangle of the soup to the screen.
    pub fn render_triangle(&self, pass: &RenderPass, view: Mat4, proj: Option<Mat4>, t: Triangle)
        -> (r: Result<TriangleList, RenderError>)
        requires
            pass_wf(*pass),
            view.wf(),
            proj matches Some(m) ==> m.wf(),
            triangle_wf(t),
        ensures
            match (r, triangle_output(*pass, view, proj, self.spec_width(), self.spec_height(), t)) {
                (Ok(out), Ok(ts)) => out@ == ts && all_wf(ts),
                (Err(e), Err(f)) => e == f,
                _ => false,
            },
    {
        let world: Triangle = match transform_triangle(pass.model, t) {
            Some(w) => w,
            None => {
                return Err(RenderError::OutOfRange);
            },
        };
        if is_culled(world, pass.camera_position, pass.invert_culling) {
            return Ok(TriangleList::new());
        }
        let seen: Triangle = match transform_triangle(view, world) {
            Some(s) => s,
            None => {
                return Err(RenderError::OutOfRange);
            },
        };
        let near: TriangleList = clip_near(pass.projection, seen);
        place_all(&near, proj, self.width, self.height)
    }

    /// Renders a pass: the triangles to draw, in drawing order.
    pub fn render_pass(&self, pass: &RenderPass) -> (r: Result<Vec<ScreenTriangle>, RenderError>)
        ensures
            match (r, rendered(self.spec_width(), self.spec_height(), *pass)) {
                (Ok(out), Ok(cs)) => out@ == cs,
                (Err(e), Err(f)) => e == f,
                _ => false,
            },
            r matches Ok(out) ==> forall|i: int|
                0 <= i < out@.len() ==> command_on_surface(
                    #[trigger] out@[i],
                    self.spec_width(),
                    self.spec_height(),
                ),
    {
        let n: usize = pass.triangles.len();
        if n % 9 != 0 {
            return Err(RenderError::MalformedMesh);
        }
        let mut out: Vec<ScreenTriangle> = Vec::new();
        if pass.color.is_none() && pass.border_color.is_none() {
            return Ok(out);
        }
        if !pass_is_wf(pass) {
            return Err(RenderError::OutOfRange);
        }
        let view: Mat4 = match vec_add_vec(pass.camera_position, pass.camera_front) {
            Some(target) => match mat4_get_look_at(
                pass.camera_position,
                target,
                Vec3 { x: 0, y: ONE, z: 0 },
            ) {
                Some(m) => m,
                None => {
                    return Err(RenderError::OutOfRange);
                },
            },
            None => {
                return Err(RenderError::OutOfRange);
            },
        };
        let proj: Option<Mat4> = match pass.projection {
            Some(p) => match mat4_get_projection(ONE, p.tan_half_fov, p.near, p.far) {
                Some(m) => Some(m),
                None => {
                    return Err(RenderError::InvalidProjection);
                },
            },
            None => None,
        };
        let count: usize = n / 9;
        let mut i: usize = 0;
        while i < count
            invariant
                i <= count,
                count == pass.triangles@.len() / 9,
                pass.triangles@.len() % 9 == 0,
                pass_wf(*pass),
                !(pass.color is None && pass.border_color is None),
                view_matrix(*pass) == Some(view),
                projection_matrix(pass.projection) == Ok::<Option<Mat4>, RenderError>(proj),
                view.wf(),
                proj matches Some(m) ==> m.wf(),
                drawn(*pass, view, proj, self.spec_width(), self.spec_height(), i as nat) == Ok::<
                    Seq<ScreenTriangle>,
                    RenderError,
                >(out@),
            decreases count - i,
        {
            let t: Triangle = read_triangle(pass.triangles, i);
            match self.render_triangle(pass, view, proj, t) {
                Err(e) => {
                    proof {
                        let w = self.spec_width();
                        let h = self.spec_height();
                        assert(((i + 1) as nat - 1) as nat == i as nat);
                        assert(drawn(*pass, view, proj, w, h, (i + 1) as nat) == Err::<
                            Seq<ScreenTriangle>,
                            RenderError,
                        >(e));
                        lemma_drawn_fails_on(
                            *pass,
                            view,
                            proj,
                            self.spec_width(),
                            self.spec_height(),
                            (i + 1) as nat,
                            count as nat,
                        );
                    }
                    return Err(e);
                },
                Ok(list) => {
                    push_commands(&mut out, &list, pass.color, pass.border_color);
                },
            }
            i += 1;
        }
        proof {
            assert(rendered(self.spec_width(), self.spec_height(), *pass) == Ok::<
                Seq<ScreenTriangle>,
                RenderError,
            >(out@));
            lemma_rendered_on_surface(self.spec_width(), self.spec_height(), *pass);
            let cs = rendered(self.spec_width(), self.spec_height(), *pass).unwrap();
            assert forall|i: int| 0 <= i < out@.len() implies command_on_surface(
                #[trigger] out@[i],
                self.spec_width(),
                self.spec_height(),
            ) by {
                assert(command_on_surface(cs[i], self.spec_width(), self.spec_height()));
            }
        }
        Ok(out)
    }
}

/// The pixel under a point given in pixel units.
pub fn to_pixel(v: Vec3) -> (r: Point)
    requires
        v.wf(),
    ensures
        r == pixel(v),
{
    Point { x: scalar_trunc(v.x), y: scalar_trunc(v.y) }
}

/// Adds the draw command of every triangle of a list to `out`.
pub fn push_commands(
    out: &mut Vec<ScreenTriangle>,
    list: &TriangleList,
    fill: Option<Color>,
    stroke: Option<Color>,
)
    requires
        all_wf(list@),
    ensures
        final(out)@ == old(out)@ + commands(list@, fill, stroke),
{
    let n: usize = list.len();
    let mut i: usize = 0;
    while i < n
        invariant
            i <= n,
            n == list@.len(),
            all_wf(list@),
            out@ == old(out)@ + commands(list@.take(i as int), fill, stroke),
        decreases n - i,
    {
        let t: Triangle = list.get(i).unwrap();
        let ghost before = out@;
        out.push(ScreenTriangle { a: to_pixel(t.0), b: to_pixel(t.1), c: to_pixel(t.2), fill, stroke });
        proof {
            assert(out@ =~= old(out)@ + commands(list@.take(i as int + 1), fill, stroke));
        }
        i += 1;
    }
    proof {
        assert(list@.take(n as int) =~= list@);
    }
}

} // verus!
