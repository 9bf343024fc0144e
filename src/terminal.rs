use vstd::prelude::*;

use crate::arith::UNITS_PER_TILE;
use crate::rect2d::{Point2, Tile, TileSize};
use crate::transform::{Loc, Transform2D};

verus! {

/// A 24-bit colour.
#[derive(Clone, Copy, Debug, PartialEq, Eq, Structural)]
pub struct RGB {
    pub r: u8,
    pub g: u8,
    pub b: u8,
}

impl RGB {
    pub fn new(r: u8, g: u8, b: u8) -> (c: RGB)
        ensures
            c == (RGB { r, g, b }),
    {
        RGB { r, g, b }
    }
}

/// A character with an optional colour.
#[derive(Clone, Copy, Debug, PartialEq, Eq, Structural)]
pub struct PaintChar {
    pub c: char,
    pub rgb: Option<RGB>,
}

impl Default for PaintChar {
    fn default() -> (r: PaintChar)
        ensures
            r == (PaintChar { c: ' ', rgb: None }),
    {
        PaintChar { c: ' ', rgb: None }
    }
}

/// What one tile looks like: a character with an optional colour.
#[derive(Clone, Copy, Debug, PartialEq, Eq, Structural)]
pub struct CharTexture {
    pub c: char,
    pub rgb: Option<RGB>,
}

/// The texture of a tile with nothing on it: a blank, uncoloured.
pub open spec fn blank_texture() -> CharTexture {
    CharTexture { c: ' ', rgb: None }
}

impl Default for CharTexture {
    fn default() -> (r: CharTexture)
        ensures
            r == blank_texture(),
    {
        CharTexture { c: ' ', rgb: None }
    }
}

impl CharTexture {
    pub fn new(texture: char, rgb: RGB) -> (r: CharTexture)
        ensures
            r == (CharTexture { c: texture, rgb: Some(rgb) }),
    {
        CharTexture { c: texture, rgb: Some(rgb) }
    }

    pub fn from_char(texture: char) -> (r: CharTexture)
        ensures
            r == (CharTexture { c: texture, rgb: None }),
    {
        CharTexture { c: texture, rgb: None }
    }
}

/// A texture placed in the world.
#[derive(Clone, Copy, Debug, PartialEq, Eq, Structural)]
pub struct CharTextureTransform {
    pub texture: CharTexture,
    pub transform: Transform2D,
}

/// A block of textures, stored row by row.
#[derive(Clone, Debug)]
pub struct CharMesh {
    pub texture_vec: Vec<CharTexture>,
}

/// A block of textures covering the footprint of a transform.
#[derive(Clone, Debug)]
pub struct CharMeshTransform {
    pub mesh: CharMesh,
    pub transform: Transform2D,
}

/// `n` blank textures.
fn blank_textures(n: usize) -> (r: Vec<CharTexture>)
    ensures
        r@.len() == n,
        forall|i: int| 0 <= i < n ==> r@[i] == blank_texture(),
{
    let mut v: Vec<CharTexture> = Vec::new();
    let mut k: usize = 0;
    while k < n
        invariant
            k <= n,
            v@.len() == k,
            forall|i: int| 0 <= i < k ==> v@[i] == blank_texture(),
        decreases n - k,
    {
        v.push(CharTexture::default());
        k = k + 1;
    }
    v
}

impl CharMeshTransform {
    /// One texture per tile of the footprint, all blank.
    pub open spec fn wf(&self) -> bool {
        &&& self.transform.fits()
        &&& self.mesh.texture_vec@.len() == self.transform.scale.x * self.transform.scale.y
    }

    /// A blank mesh over the footprint of `transform`.
    pub fn new(transform: Transform2D) -> (r: CharMeshTransform)
        requires
            transform.scale.x * transform.scale.y <= usize::MAX,
        ensures
            r.transform == transform,
            r.mesh.texture_vec@.len() == transform.scale.x * transform.scale.y,
            forall|i: int| 0 <= i < r.mesh.texture_vec@.len() ==> r.mesh.texture_vec@[i] == blank_texture(),
    {
        let n: usize = (transform.scale.x as u64 * transform.scale.y as u64) as usize;
        CharMeshTransform { mesh: CharMesh { texture_vec: blank_textures(n) }, transform }
    }

    pub fn transform(&self) -> (r: &Transform2D)
        ensures
            *r == self.transform,
    {
        &self.transform
    }

    pub fn from_parts(mesh: CharMesh, transform: Transform2D) -> (r: CharMeshTransform)
        ensures
            r.mesh.texture_vec@ == mesh.texture_vec@,
            r.transform == transform,
    {
        CharMeshTransform { mesh, transform }
    }

    /// The texture at world tile `(x, y)`, which must lie in the footprint.
    pub fn get(&self, x: i32, y: i32) -> (r: &CharTexture)
        requires
            self.wf(),
            self.transform.footprint().has_tile(Tile { x, y }),
        ensures
            *r == self.mesh.texture_vec@[self.transform.footprint().index_spec(Tile { x, y })],
    {
        let rect = self.transform.as_rect2d();
        proof {
            assert(rect.area() == self.transform.scale.x * self.transform.scale.y);
        }
        assert(self.mesh.texture_vec@.len() == self.mesh.texture_vec.len());
        let i = rect.index_for_point(Tile { x, y }).unwrap();
        &self.mesh.texture_vec[i]
    }

    /// The texture at world tile `(x, y)`, for writing.
    pub fn get_mut(&mut self, x: i32, y: i32) -> (r: &mut CharTexture)
        requires
            old(self).wf(),
            old(self).transform.footprint().has_tile(Tile { x, y }),
        ensures
            *r == old(self).mesh.texture_vec@[old(self).transform.footprint().index_spec(Tile { x, y })],
            final(self).transform == old(self).transform,
            final(self).mesh.texture_vec@ == old(self).mesh.texture_vec@.update(
                old(self).transform.footprint().index_spec(Tile { x, y }),
                *final(r),
            ),
    {
        let rect = self.transform.as_rect2d();
        assert(self.mesh.texture_vec@.len() == self.mesh.texture_vec.len());
        let i = rect.index_for_point(Tile { x, y }).unwrap();
        &mut self.mesh.texture_vec[i]
    }

    /// The texture at local position `(x, y)` of the mesh, found at index
    /// `width * x + y` of the storage.
    pub fn get_local(&self, x: usize, y: usize) -> (r: &CharTexture)
        requires
            (self.transform.scale.x as int) * x + y < self.mesh.texture_vec@.len(),
        ensures
            *r == self.mesh.texture_vec@[(self.transform.scale.x as int) * x + y],
    {
        assert(self.mesh.texture_vec@.len() == self.mesh.texture_vec.len());
        let width = self.transform.scale.x as usize;
        &self.mesh.texture_vec[width * x + y]
    }

    /// The texture at local position `(x, y)`, for writing.
    pub fn get_local_mut(&mut self, x: usize, y: usize) -> (r: &mut CharTexture)
        requires
            (old(self).transform.scale.x as int) * x + y < old(self).mesh.texture_vec@.len(),
        ensures
            *r == old(self).mesh.texture_vec@[(old(self).transform.scale.x as int) * x + y],
            final(self).transform == old(self).transform,
            final(self).mesh.texture_vec@ == old(self).mesh.texture_vec@.update(
                (old(self).transform.scale.x as int) * x + y,
                *final(r),
            ),
    {
        assert(self.mesh.texture_vec@.len() == self.mesh.texture_vec.len());
        let width = self.transform.scale.x as usize;
        &mut self.mesh.texture_vec[width * x + y]
    }

    /// Sets every texture of the mesh to `texture`.
    pub fn fill(&mut self, texture: &CharTexture)
        ensures
            final(self).transform == old(self).transform,
            final(self).mesh.texture_vec@.len() == old(self).mesh.texture_vec@.len(),
            forall|i: int|
                0 <= i < final(self).mesh.texture_vec@.len() ==> final(self).mesh.texture_vec@[i]
                    == *texture,
    {
        let n = self.mesh.texture_vec.len();
        let mut k: usize = 0;
        while k < n
            invariant
                k <= n,
                self.transform == old(self).transform,
                self.mesh.texture_vec@.len() == n,
                forall|i: int| 0 <= i < k ==> self.mesh.texture_vec@[i] == *texture,
            decreases n - k,
        {
            self.mesh.texture_vec.set(k, *texture);
            k = k + 1;
        }
    }
}

/// The characters to show on a terminal of `width` columns and `height` rows,
/// stored row by row.
#[derive(Clone, Debug)]
pub struct DisplayBuffer {
    pub texture_vec: Vec<CharTexture>,
    pub width: u16,
    pub height: u16,
}

/// The buffer that rendering writes into.
#[derive(Clone, Debug)]
pub struct TerminalDisplayBuffer(pub DisplayBuffer);

impl TerminalDisplayBuffer {
    /// The cell at column `x`, row `y`, for writing.
    pub fn get_mut_dbg_checked(&mut self, x: usize, y: usize) -> (r: &mut CharTexture)
        requires
            x < old(self).0.width,
            (x + y * old(self).0.width) < old(self).0.texture_vec@.len(),
        ensures
            *r == old(self).0.texture_vec@[x + y * old(self).0.width],
            final(self).0.width == old(self).0.width,
            final(self).0.height == old(self).0.height,
            final(self).0.texture_vec@ == old(self).0.texture_vec@.update(
                x + y * old(self).0.width,
                *final(r),
            ),
    {
        assert(self.0.texture_vec@.len() == self.0.texture_vec.len());
        let width = self.0.width as usize;
        assert(y * width <= x + y * width);
        &mut self.0.texture_vec[x + y * width]
    }
}

impl DisplayBuffer {
    /// Changes the dimensions and blanks every cell.
    pub fn resize(&mut self, width: u16, height: u16)
        requires
            width * height <= usize::MAX,
        ensures
            final(self).width == width,
            final(self).height == height,
            final(self).texture_vec@.len() == width * height,
            forall|i: int| 0 <= i < final(self).texture_vec@.len() ==> final(self).texture_vec@[i] == blank_texture(),
    {
        self.width = width;
        self.height = height;
        self.texture_vec = blank_textures(width as usize * height as usize);
    }

    /// Blanks every cell, keeping the dimensions.
    pub fn reinit(&mut self)
        requires
            old(self).width * old(self).height <= usize::MAX,
        ensures
            final(self).width == old(self).width,
            final(self).height == old(self).height,
            final(self).texture_vec@.len() == old(self).width * old(self).height,
            forall|i: int| 0 <= i < final(self).texture_vec@.len() ==> final(self).texture_vec@[i] == blank_texture(),
    {
        let width = self.width;
        let height = self.height;
        self.resize(width, height);
    }
}

/// Places an element relative to the camera.
#[derive(Clone, Copy, Debug, PartialEq, Eq, Structural)]
pub struct UIComponent {
    pub local_pos: Loc,
    /// When true, `local_pos` is a fraction of the screen size (in thousandths);
    /// otherwise it is an offset from the camera's position.
    pub relative_pos: bool,
}

impl UIComponent {
    pub fn new(local_pos: Loc) -> (r: UIComponent)
        ensures
            r == (UIComponent { local_pos, relative_pos: false }),
    {
        UIComponent { local_pos, relative_pos: false }
    }
}

/// The camera's dimensions changed to this size.
#[derive(Clone, Copy, Debug, PartialEq, Eq, Structural)]
pub struct CameraResized(pub TileSize);

/// The terminal was resized.
#[derive(Clone, Copy, Debug, PartialEq, Eq, Structural)]
pub struct TerminalResize {
    pub width: u16,
    pub height: u16,
}

/// Camera options.
#[derive(Clone, Copy, Debug, PartialEq, Eq, Structural)]
pub struct TerminalCamera2DSettings {
    pub autoresize: bool,
}

impl Default for TerminalCamera2DSettings {
    fn default() -> (r: TerminalCamera2DSettings)
        ensures
            r.autoresize,
    {
        TerminalCamera2DSettings { autoresize: true }
    }
}

impl TerminalCamera2DSettings {
    pub fn autoresize(&self) -> (r: bool)
        ensures
            r == self.autoresize,
    {
        self.autoresize
    }

    pub fn set_autoresize(&mut self, autoresize: bool)
        ensures
            final(self).autoresize == autoresize,
    {
        self.autoresize = autoresize;
    }
}

/// The region of the world shown on the terminal.
#[derive(Clone, Copy, Debug, PartialEq, Eq, Structural)]
pub struct TerminalCamera2D {
    pub transform: Transform2D,
    pub settings: TerminalCamera2DSettings,
}

impl TerminalCamera2D {
    /// A camera at `loc` showing `scale` tiles, resizing with the terminal.
    pub fn new(loc: Loc, scale: TileSize, z_lvl: i32) -> (r: TerminalCamera2D)
        ensures
            r.transform == (Transform2D { scale, loc }),
            r.settings.autoresize,
    {
        TerminalCamera2D {
            transform: Transform2D { scale, loc },
            settings: TerminalCamera2DSettings::default(),
        }
    }

    pub fn transform(&self) -> (r: &Transform2D)
        ensures
            *r == self.transform,
    {
        &self.transform
    }

    pub fn settings(&self) -> (r: &TerminalCamera2DSettings)
        ensures
            *r == self.settings,
    {
        &self.settings
    }

    pub fn loc(&self) -> (r: &Loc)
        ensures
            *r == self.transform.loc,
    {
        &self.transform.loc
    }

    pub fn loc_mut(&mut self) -> (r: &mut Loc)
        ensures
            *r == old(self).transform.loc,
            final(self).transform.loc == *final(r),
            final(self).transform.scale == old(self).transform.scale,
            final(self).settings == old(self).settings,
    {
        &mut self.transform.loc
    }

    pub fn dim(&self) -> (r: &TileSize)
        ensures
            *r == self.transform.scale,
    {
        &self.transform.scale
    }

    pub fn set_dim(&mut self, dim: TileSize)
        ensures
            final(self).transform.scale == dim,
            final(self).transform.loc == old(self).transform.loc,
            final(self).settings == old(self).settings,
    {
        self.transform.scale = dim;
    }
}

/// Which edge of the camera a frame wall runs along.
#[derive(Clone, Copy, Debug, PartialEq, Eq, Structural)]
pub enum CameraSide {
    Left,
    Right,
    Top,
    Bottom,
}

/// Stretches a frame wall to the camera's size: side walls take the camera's
/// height, top and bottom walls its width.
pub fn resize_walls(cam_size: &TileSize, wall: &mut Transform2D, side: CameraSide)
    ensures
        final(wall).loc == old(wall).loc,
        side is Left || side is Right ==> final(wall).scale == (TileSize {
            x: old(wall).scale.x,
            y: cam_size.y,
        }),
        side is Top || side is Bottom ==> final(wall).scale == (TileSize {
            x: cam_size.x,
            y: old(wall).scale.y,
        }),
{
    match side {
        CameraSide::Left | CameraSide::Right => {
            wall.scale.y = cam_size.y;
        },
        CameraSide::Top | CameraSide::Bottom => {
            wall.scale.x = cam_size.x;
        },
    }
}

/// Shifts the camera by `direction` (fixed point), keeping its depth.
pub fn move_camera(direction: Point2, camera: &mut TerminalCamera2D)
    requires
        direction.in_range(),
        old(camera).transform.loc.xy().in_range(),
    ensures
        final(camera).transform.loc == (Loc {
            x: (old(camera).transform.loc.x + direction.x) as i64,
            y: (old(camera).transform.loc.y + direction.y) as i64,
            z: old(camera).transform.loc.z,
        }),
        final(camera).transform.scale == old(camera).transform.scale,
        final(camera).settings == old(camera).settings,
{
    let loc = camera.loc_mut();
    loc.x = loc.x + direction.x;
    loc.y = loc.y + direction.y;
}

/// The camera step for a movement key: `d` and `a` move one tile right and
/// left, `w` and `s` one tile down and up (either case); other keys do nothing.
pub fn camera_step_for_key(key: char) -> (r: Option<Point2>)
    ensures
        (key == 'd' || key == 'D') ==> r == Some(Point2 { x: UNITS_PER_TILE, y: 0 }),
        (key == 'a' || key == 'A') ==> r == Some(Point2 { x: -1000i64, y: 0 }),
        (key == 'w' || key == 'W') ==> r == Some(Point2 { x: 0, y: -1000i64 }),
        (key == 's' || key == 'S') ==> r == Some(Point2 { x: 0, y: UNITS_PER_TILE }),
        !(key == 'd' || key == 'D' || key == 'a' || key == 'A' || key == 'w' || key == 'W' || key
            == 's' || key == 'S') ==> r is None,
{
    if key == 'd' || key == 'D' {
        Some(Point2 { x: UNITS_PER_TILE, y: 0 })
    } else if key == 'a' || key == 'A' {
        Some(Point2 { x: -UNITS_PER_TILE, y: 0 })
    } else if key == 'w' || key == 'W' {
        Some(Point2 { x: 0, y: -UNITS_PER_TILE })
    } else if key == 's' || key == 'S' {
        Some(Point2 { x: 0, y: UNITS_PER_TILE })
    } else {
        None
    }
}

/// Whether a key ends the program: escape or `q` (either case).
pub fn is_exit_key(key: char) -> (r: bool)
    ensures
        r == (key == '\u{1b}' || key == 'q' || key == 'Q'),
{
    key == '\u{1b}' || key == 'q' || key == 'Q'
}

/// Applies the latest terminal resize to an auto-resizing camera. Returns the
/// event to announce when the camera's size changed, `None` otherwise.
pub fn handle_terminal_resize(
    camera: &mut TerminalCamera2D,
    resize: Option<TerminalResize>,
) -> (r: Option<CameraResized>)
    ensures
        final(camera).transform.loc == old(camera).transform.loc,
        final(camera).settings == old(camera).settings,
        match resize {
            Some(e) if old(camera).settings.autoresize && (TileSize {
                x: e.width as u32,
                y: e.height as u32,
            }) != old(camera).transform.scale => {
                &&& final(camera).transform.scale == (TileSize {
                    x: e.width as u32,
                    y: e.height as u32,
                })
                &&& r == Some(CameraResized(final(camera).transform.scale))
            },
            _ => *final(camera) == *old(camera) && r is None,
        },
{
    if !camera.settings().autoresize() {
        return None;
    }
    match resize {
        Some(e) => {
            let update = TileSize { x: e.width as u32, y: e.height as u32 };
            if update != *camera.dim() {
                camera.set_dim(update);
                Some(CameraResized(update))
            } else {
                None
            }
        },
        None => None,
    }
}

} // verus!
