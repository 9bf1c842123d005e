//! The image that shows where the pointer is.
use vstd::prelude::*;

use crate::backend::BufferId;
use crate::client::ClientId;
use crate::globals::compositor::SurfaceV;
use crate::globals::surfaces::Surfaces;

verus! {

/// The shapes that a client can ask for by name.
#[derive(Debug, Clone, Copy, PartialEq, Eq, Structural, Hash)]
pub enum Shape {
    Default,
    ContextMenu,
    Help,
    Pointer,
    Progress,
    Wait,
    Cell,
    Crosshair,
    Text,
    VerticalText,
    Alias,
    Copy,
    Move,
    NoDrop,
    NotAllowed,
    Grab,
    Grabbing,
    EResize,
    NResize,
    NeResize,
    NwResize,
    SResize,
    SeResize,
    SwResize,
    WResize,
    EwResize,
    NsResize,
    NeswResize,
    NwseResize,
    ColResize,
    RowResize,
    AllScroll,
    ZoomIn,
    ZoomOut,
}

impl Shape {
    /// The name of the shape in cursor themes.
    pub open spec fn theme_name(self) -> Seq<char> {
        match self {
            Shape::Default => "default"@,
            Shape::ContextMenu => "context-menu"@,
            Shape::Help => "help"@,
            Shape::Pointer => "pointer"@,
            Shape::Progress => "progress"@,
            Shape::Wait => "wait"@,
            Shape::Cell => "cell"@,
            Shape::Crosshair => "crosshair"@,
            Shape::Text => "text"@,
            Shape::VerticalText => "vertical-text"@,
            Shape::Alias => "alias"@,
            Shape::Copy => "copy"@,
            Shape::Move => "move"@,
            Shape::NoDrop => "no-drop"@,
            Shape::NotAllowed => "not-allowed"@,
            Shape::Grab => "grab"@,
            Shape::Grabbing => "grabbing"@,
            Shape::EResize => "e-resize"@,
            Shape::NResize => "n-resize"@,
            Shape::NeResize => "ne-resize"@,
            Shape::NwResize => "nw-resize"@,
            Shape::SResize => "s-resize"@,
            Shape::SeResize => "se-resize"@,
            Shape::SwResize => "sw-resize"@,
            Shape::WResize => "w-resize"@,
            Shape::EwResize => "ew-resize"@,
            Shape::NsResize => "ns-resize"@,
            Shape::NeswResize => "nesw-resize"@,
            Shape::NwseResize => "nwse-resize"@,
            Shape::ColResize => "col-resize"@,
            Shape::RowResize => "row-resize"@,
            Shape::AllScroll => "all-scroll"@,
            Shape::ZoomIn => "zoom-in"@,
            Shape::ZoomOut => "zoom-out"@,
        }
    }

    /// The name of the shape in cursor themes.
    pub fn name(self) -> (r: &'static str)
        ensures
            r@ == self.theme_name(),
    {
        match self {
            Shape::Default => "default",
            Shape::ContextMenu => "context-menu",
            Shape::Help => "help",
            Shape::Pointer => "pointer",
            Shape::Progress => "progress",
            Shape::Wait => "wait",
            Shape::Cell => "cell",
            Shape::Crosshair => "crosshair",
            Shape::Text => "text",
            Shape::VerticalText => "vertical-text",
            Shape::Alias => "alias",
            Shape::Copy => "copy",
            Shape::Move => "move",
            Shape::NoDrop => "no-drop",
            Shape::NotAllowed => "not-allowed",
            Shape::Grab => "grab",
            Shape::Grabbing => "grabbing",
            Shape::EResize => "e-resize",
            Shape::NResize => "n-resize",
            Shape::NeResize => "ne-resize",
            Shape::NwResize => "nw-resize",
            Shape::SResize => "s-resize",
            Shape::SeResize => "se-resize",
            Shape::SwResize => "sw-resize",
            Shape::WResize => "w-resize",
            Shape::EwResize => "ew-resize",
            Shape::NsResize => "ns-resize",
            Shape::NeswResize => "nesw-resize",
            Shape::NwseResize => "nwse-resize",
            Shape::ColResize => "col-resize",
            Shape::RowResize => "row-resize",
            Shape::AllScroll => "all-scroll",
            Shape::ZoomIn => "zoom-in",
            Shape::ZoomOut => "zoom-out",
        }
    }

    /// All shapes.
    pub fn all() -> (r: Vec<Shape>)
        ensures
            forall|s: Shape| #[trigger] r@.contains(s),
            r@.no_duplicates(),
    {
        let r = vec![
            Shape::Default,
            Shape::ContextMenu,
            Shape::Help,
            Shape::Pointer,
            Shape::Progress,
            Shape::Wait,
            Shape::Cell,
            Shape::Crosshair,
            Shape::Text,
            Shape::VerticalText,
            Shape::Alias,
            Shape::Copy,
            Shape::Move,
            Shape::NoDrop,
            Shape::NotAllowed,
            Shape::Grab,
            Shape::Grabbing,
            Shape::EResize,
            Shape::NResize,
            Shape::NeResize,
            Shape::NwResize,
            Shape::SResize,
            Shape::SeResize,
            Shape::SwResize,
            Shape::WResize,
            Shape::EwResize,
            Shape::NsResize,
            Shape::NeswResize,
            Shape::NwseResize,
            Shape::ColResize,
            Shape::RowResize,
            Shape::AllScroll,
            Shape::ZoomIn,
            Shape::ZoomOut,
        ];
        proof {
            assert forall|s: Shape| #[trigger] r@.contains(s) by {
                assert(r@[s.place()] == s);
            }
            assert(forall|k: int| 0 <= k < r@.len() ==> (#[trigger] r@[k]).place() == k);
        }
        r
    }

    /// The place of the shape among all shapes.
    spec fn place(self) -> int {
        match self {
            Shape::Default => 0,
            Shape::ContextMenu => 1,
            Shape::Help => 2,
            Shape::Pointer => 3,
            Shape::Progress => 4,
            Shape::Wait => 5,
            Shape::Cell => 6,
            Shape::Crosshair => 7,
            Shape::Text => 8,
            Shape::VerticalText => 9,
            Shape::Alias => 10,
            Shape::Copy => 11,
            Shape::Move => 12,
            Shape::NoDrop => 13,
            Shape::NotAllowed => 14,
            Shape::Grab => 15,
            Shape::Grabbing => 16,
            Shape::EResize => 17,
            Shape::NResize => 18,
            Shape::NeResize => 19,
            Shape::NwResize => 20,
            Shape::SResize => 21,
            Shape::SeResize => 22,
            Shape::SwResize => 23,
            Shape::WResize => 24,
            Shape::EwResize => 25,
            Shape::NsResize => 26,
            Shape::NeswResize => 27,
            Shape::NwseResize => 28,
            Shape::ColResize => 29,
            Shape::RowResize => 30,
            Shape::AllScroll => 31,
            Shape::ZoomIn => 32,
            Shape::ZoomOut => 33,
        }
    }
}

/// An image of a cursor theme that the renderer holds.
#[derive(Debug, Clone, Copy, PartialEq, Eq, Structural)]
pub struct Texture {
    pub buffer_id: BufferId,
    pub hx: i32,
    pub hy: i32,
    pub w: u32,
    pub h: u32,
}

/// What is shown at the pointer.
#[derive(Debug, Clone, Copy, PartialEq, Eq, Structural)]
pub enum Kind {
    Hidden,
    Surface { surface: usize, hx: i32, hy: i32 },
    Texture(Texture),
}

/// The image that shows where the pointer is.
#[derive(Debug)]
pub struct Cursor {
    pub kind: Kind,
    pub shapes: Vec<(Shape, Texture)>,
}

/// What a [`Cursor`] says.
#[verifier::ext_equal]
pub struct CursorV {
    pub kind: Kind,
    pub shapes: Map<Shape, Texture>,
}

/// The last texture that was given for each shape.
pub open spec fn shape_map(shapes: Seq<(Shape, Texture)>) -> Map<Shape, Texture>
    decreases shapes.len(),
{
    if shapes.len() == 0 {
        Map::empty()
    } else {
        shape_map(shapes.drop_last()).insert(shapes.last().0, shapes.last().1)
    }
}

impl View for Cursor {
    type V = CursorV;

    open spec fn view(&self) -> CursorV {
        CursorV { kind: self.kind, shapes: shape_map(self.shapes@) }
    }
}

impl CursorV {
    /// The cursor after a shape was asked for: the shape, or the default one where the theme has no
    /// such shape, or nothing new where it has neither.
    pub open spec fn shape_set(self, shape: Shape) -> CursorV {
        if self.shapes.contains_key(shape) {
            CursorV { kind: Kind::Texture(self.shapes[shape]), ..self }
        } else if self.shapes.contains_key(Shape::Default) {
            CursorV { kind: Kind::Texture(self.shapes[Shape::Default]), ..self }
        } else {
            self
        }
    }

    /// The buffer to show, the point of it that is at the pointer, and the size that it is shown at.
    pub open spec fn buffer(self, s: Seq<SurfaceV>) -> Option<(BufferId, i32, i32, u32, u32)> {
        match self.kind {
            Kind::Hidden => None,
            Kind::Surface { surface, hx, hy } => match (s[surface as int].buf_transform, s[surface as int].cur.buffer) {
                (Some(t), Some(b)) => Some((b.id, hx, hy, t.dst_width, t.dst_height)),
                _ => None,
            },
            Kind::Texture(t) => Some((t.buffer_id, t.hx, t.hy, t.w, t.h)),
        }
    }

    /// Whether the surface that is shown, if one is, is one of `s`.
    pub open spec fn wf(self, s: Seq<SurfaceV>) -> bool {
        self.kind matches Kind::Surface { surface, .. } ==> surface < s.len()
    }

    /// The cursor after a client is gone.
    pub open spec fn client_removed(self, s: Seq<SurfaceV>, client: ClientId) -> CursorV {
        match self.kind {
            Kind::Surface { surface, .. } if s[surface as int].wl.client == client => CursorV {
                kind: Kind::Hidden,
                ..self
            },
            _ => self,
        }
    }
}

impl Cursor {
    /// A hidden cursor that knows no shapes.
    pub fn new() -> (r: Self)
        ensures
            r@ == (CursorV { kind: Kind::Hidden, shapes: Map::empty() }),
    {
        Self { kind: Kind::Hidden, shapes: Vec::new() }
    }

    /// Gives the texture for a shape.
    pub fn add_shape(&mut self, shape: Shape, texture: Texture)
        ensures
            final(self)@ == (CursorV { shapes: old(self)@.shapes.insert(shape, texture), ..old(self)@ }),
    {
        let ghost before = self.shapes@;
        self.shapes.push((shape, texture));
        assert(self.shapes@.drop_last() =~= before);
    }

    fn find(&self, shape: Shape) -> (r: Option<Texture>)
        ensures
            match r {
                Some(t) => self@.shapes.contains_key(shape) && self@.shapes[shape] == t,
                None => !self@.shapes.contains_key(shape),
            },
    {
        let mut i: usize = self.shapes.len();
        assert(self.shapes@.take(i as int) =~= self.shapes@);
        while i > 0
            invariant
                i <= self.shapes.len(),
                shape_map(self.shapes@).contains_key(shape) == shape_map(self.shapes@.take(i as int)).contains_key(
                    shape,
                ),
                shape_map(self.shapes@).contains_key(shape) ==> shape_map(self.shapes@)[shape] == shape_map(
                    self.shapes@.take(i as int),
                )[shape],
            decreases i,
        {
            assert(self.shapes@.take(i as int).drop_last() =~= self.shapes@.take(i - 1));
            i = i - 1;
            let (s, t) = self.shapes[i];
            if s == shape {
                return Some(t);
            }
        }
        None
    }

    /// Shows nothing.
    pub fn set_hidden(&mut self)
        ensures
            final(self)@ == (CursorV { kind: Kind::Hidden, ..old(self)@ }),
    {
        self.kind = Kind::Hidden;
    }

    /// Shows a surface.
    pub fn set_surface(&mut self, surface: usize, hx: i32, hy: i32)
        ensures
            final(self)@ == (CursorV { kind: Kind::Surface { surface, hx, hy }, ..old(self)@ }),
    {
        self.kind = Kind::Surface { surface, hx, hy };
    }

    /// Shows a shape of the theme.
    pub fn set_shape(&mut self, shape: Shape)
        ensures
            final(self)@ == old(self)@.shape_set(shape),
    {
        if let Some(t) = self.find(shape) {
            self.kind = Kind::Texture(t);
        } else if let Some(t) = self.find(Shape::Default) {
            self.kind = Kind::Texture(t);
        }
    }

    /// The buffer to show, the point of it that is at the pointer, and the size that it is shown at.
    pub fn get_buffer(&self, surfaces: &Surfaces) -> (r: Option<(BufferId, i32, i32, u32, u32)>)
        requires
            self@.wf(surfaces@),
        ensures
            r == self@.buffer(surfaces@),
    {
        match self.kind {
            Kind::Hidden => None,
            Kind::Surface { surface, hx, hy } => {
                let s = surfaces.get(surface);
                match s.buf_transform() {
                    None => None,
                    Some(t) => match s.cur.buffer {
                        None => None,
                        Some(b) => Some((b.id, hx, hy, t.dst_width(), t.dst_height())),
                    },
                }
            },
            Kind::Texture(t) => Some((t.buffer_id, t.hx, t.hy, t.w, t.h)),
        }
    }

    /// Stops showing a surface of a client that is gone.
    pub fn remove_client(&mut self, surfaces: &Surfaces, client: ClientId)
        requires
            old(self)@.wf(surfaces@),
        ensures
            final(self)@ == old(self)@.client_removed(surfaces@, client),
    {
        if let Kind::Surface { surface, .. } = self.kind {
            if surfaces.get(surface).wl.client == client {
                self.set_hidden();
            }
        }
    }
}

/// An image of a cursor file.
#[derive(Debug)]
pub struct CursorImage {
    pub size: u32,
    pub width: u32,
    pub height: u32,
    pub xhot: u32,
    pub yhot: u32,
    pub pixels_rgba: Vec<u8>,
}

/// What a [`CursorImage`] says.
#[verifier::ext_equal]
pub struct CursorImageV {
    pub size: u32,
    pub width: u32,
    pub height: u32,
    pub xhot: u32,
    pub yhot: u32,
    pub pixels_rgba: Seq<u8>,
}

impl View for CursorImage {
    type V = CursorImageV;

    open spec fn view(&self) -> CursorImageV {
        CursorImageV {
            size: self.size,
            width: self.width,
            height: self.height,
            xhot: self.xhot,
            yhot: self.yhot,
            pixels_rgba: self.pixels_rgba@,
        }
    }
}

/// What the images in a list say.
pub open spec fn image_views(images: Seq<CursorImage>) -> Seq<CursorImageV> {
    images.map_values(|i: CursorImage| i@)
}

/// Whether the pixels of an image are all there, and its hotspot is in it.
pub open spec fn image_sound(image: CursorImageV) -> bool {
    &&& 1 <= image.width <= 0x7fff
    &&& 1 <= image.height <= 0x7fff
    &&& image.xhot <= image.width
    &&& image.yhot <= image.height
    &&& image.pixels_rgba.len() == 4 * image.width * image.height
}

/// The images that `xcursor::parser::parse_xcursor` finds in a cursor file.
pub uninterp spec fn parsed_cursor(content: Seq<u8>) -> Option<Seq<CursorImageV>>;

/// Calls `xcursor::parser::parse_xcursor`: the images of a cursor file in the order of the file, or
/// nothing if the bytes are no such file. The result depends on the bytes alone. An image has at most
/// 0x7fff rows and columns and four bytes for each pixel, and its hotspot is not outside of it.
#[verifier::external_body]
fn parse_xcursor(content: &[u8]) -> (r: Option<Vec<CursorImage>>)
    ensures
        match r {
            Some(images) => parsed_cursor(content@) == Some(image_views(images@)) && (forall|i: int|
                0 <= i < images@.len() ==> image_sound((#[trigger] images@[i])@)),
            None => parsed_cursor(content@) is None,
        },
{
    let images = xcursor::parser::parse_xcursor(content)?;
    Some(images.into_iter().map(|i| CursorImage {
        size: i.size,
        width: i.width,
        height: i.height,
        xhot: i.xhot,
        yhot: i.yhot,
        pixels_rgba: i.pixels_rgba,
    }).collect())
}

/// The nominal size that cursors are shown at.
pub const CURSOR_SIZE: u32 = 24;

/// Whether an image of size `a` is to be taken rather than one of size `b`: the right size, else the
/// next larger one, else the largest.
pub open spec fn better_size(a: u32, b: u32) -> bool {
    if a >= CURSOR_SIZE {
        b < CURSOR_SIZE || a < b
    } else {
        b < a
    }
}

/// Whether no image of a list is to be taken rather than the one in place `k`. Of several images of
/// one size it is the first if the size is large enough, else the last.
pub open spec fn best_image(images: Seq<CursorImageV>, k: int) -> bool {
    &&& 0 <= k < images.len()
    &&& forall|j: int| 0 <= j < images.len() ==> !better_size((#[trigger] images[j]).size, images[k].size)
    &&& forall|j: int|
        0 <= j < images.len() && (#[trigger] images[j]).size == images[k].size ==> if images[k].size >= CURSOR_SIZE {
            k <= j
        } else {
            j <= k
        }
}

/// The place of the image to be taken.
pub fn choose_image(images: &Vec<CursorImage>) -> (r: Option<usize>)
    ensures
        match r {
            Some(k) => best_image(image_views(images@), k as int),
            None => images@.len() == 0,
        },
{
    if images.len() == 0 {
        return None;
    }
    let ghost all = image_views(images@);
    let mut best: usize = 0;
    let mut i: usize = 1;
    assert(all.take(1).len() == 1);
    while i < images.len()
        invariant
            1 <= i <= images.len(),
            all == image_views(images@),
            best_image(all.take(i as int), best as int),
        decreases images.len() - i,
    {
        let a: u32 = images[i].size;
        let b: u32 = images[best].size;
        let better = if a >= CURSOR_SIZE {
            b < CURSOR_SIZE || a < b
        } else {
            b <= a && b < CURSOR_SIZE
        };
        let ghost part = all.take(i as int);
        let ghost longer = all.take(i + 1);
        let ghost old_best = best;
        assert forall|j: int| 0 <= j < i implies #[trigger] longer[j] == part[j] by {}
        assert(longer[i as int] == all[i as int]);
        assert(part[best as int] == all[best as int]);
        if better {
            best = i;
        }
        proof {
            assert forall|j: int| 0 <= j < longer.len() implies !better_size(
                (#[trigger] longer[j]).size,
                longer[best as int].size,
            ) && (longer[j].size == longer[best as int].size ==> if longer[best as int].size >= CURSOR_SIZE {
                best <= j
            } else {
                j <= best
            }) by {
                if j < i {
                    assert(!better_size(part[j].size, part[old_best as int].size));
                }
            }
        }
        i = i + 1;
    }
    assert(all.take(i as int) =~= all);
    Some(best)
}

/// The image to be taken of a cursor file.
pub fn load_image(content: &[u8]) -> (r: Option<CursorImage>)
    ensures
        match r {
            Some(image) => parsed_cursor(content@) is Some && exists|k: int| #[trigger]
                best_image(parsed_cursor(content@)->0, k) && parsed_cursor(content@)->0[k] == image@,
            None => parsed_cursor(content@) matches Some(images) ==> images.len() == 0,
        },
        r matches Some(image) ==> image_sound(image@),
{
    let mut images = match parse_xcursor(content) {
        None => return None,
        Some(images) => images,
    };
    let ghost all = image_views(images@);
    match choose_image(&images) {
        None => None,
        Some(k) => {
            assert(best_image(all, k as int));
            let image = images.remove(k);
            assert(all[k as int] == image@);
            assert(parsed_cursor(content@) == Some(all));
            assert(best_image(parsed_cursor(content@)->0, k as int) && parsed_cursor(content@)->0[k as int] == image@);
            Some(image)
        },
    }
}

/// The texture of an image that the renderer has under a number.
pub fn get_texture(image: &CursorImage, buffer_id: BufferId) -> (r: Texture)
    ensures
        r == (Texture {
            buffer_id,
            hx: image@.xhot as i32,
            hy: image@.yhot as i32,
            w: image@.width,
            h: image@.height,
        }),
{
    Texture { buffer_id, hx: image.xhot as i32, hy: image.yhot as i32, w: image.width, h: image.height }
}

/// Two images that are each the best of a list are one and the same.
pub proof fn law_best_image_is_one(images: Seq<CursorImageV>, j: int, k: int)
    requires
        best_image(images, j),
        best_image(images, k),
    ensures
        j == k,
{
    assert(!better_size(images[j].size, images[k].size));
    assert(!better_size(images[k].size, images[j].size));
}

} // verus!
