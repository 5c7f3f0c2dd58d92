//! Baked sound occlusion, pushed by the scene editor.

use vstd::prelude::*;
use vstd::string::StringExecFns;

use crate::picture::{decode_picture, pixels_in};
use crate::scalar::Scalar;

verus! {

/// A new occlusion grid for one sound.
#[derive(Debug)]
pub struct SoundmapUpdate {
    pub object_id: String,
    pub grid: OcclusionGrid,
}

/// How clear the way is from a sound to each cell around it, row by row.
#[derive(Debug)]
pub struct OcclusionGrid {
    pub width: u32,
    pub height: u32,
    pub gray: Vec<u8>,
}

/// What the editor sends: an image file in Base64, and whose grid it is.
#[derive(Debug)]
pub struct WireSoundmapMessage {
    pub object_id: String,
    pub width: u32,
    pub height: u32,
    pub png_b64: String,
}

/// The four cells around a place, and how clear each of them is.
#[derive(Clone, Copy, Debug, PartialEq, Eq, Structural)]
pub struct Corners {
    pub top_left: u8,
    pub top_right: u8,
    pub bottom_left: u8,
    pub bottom_right: u8,
}

/// The first channel of each whole pixel.
pub open spec fn red_channel(rgba: Seq<u8>) -> Seq<u8> {
    Seq::new((rgba.len() / 4) as nat, |i: int| rgba[i * 4])
}

/// The cell after `at`, or `at` where it is the last of `count`.
pub open spec fn next_cell(at: int, count: int) -> int {
    if at + 1 < count - 1 {
        at + 1
    } else {
        count - 1
    }
}

impl OcclusionGrid {
    /// Takes the first channel of an image of four channels. What is left over
    /// after the last whole pixel is dropped.
    pub fn from_rgba(width: u32, height: u32, rgba: &[u8]) -> (r: OcclusionGrid)
        ensures
            r.width == width,
            r.height == height,
            r.gray@ == red_channel(rgba@),
    {
        let len: usize = rgba.len();
        let n: usize = len / 4;
        let mut gray: Vec<u8> = Vec::new();
        let mut i: usize = 0;
        while i < n
            invariant
                i <= n,
                n == len / 4,
                len == rgba@.len(),
                gray@ =~= red_channel(rgba@).take(i as int),
            decreases n - i,
        {
            gray.push(rgba[i * 4]);
            i = i + 1;
        }
        assert(gray@ =~= red_channel(rgba@));
        OcclusionGrid { width, height, gray }
    }

    /// Whether a sound with this grid is never occluded: the grid is empty, or
    /// the sound reaches nowhere.
    pub open spec fn says_nothing(self, max_distance: Scalar) -> bool {
        self.width == 0 || self.height == 0 || max_distance.at_most(Scalar::zero())
    }

    /// How clear a cell is.
    pub open spec fn cell(self, x: int, y: int) -> u8 {
        self.gray@[y * self.width + x]
    }

    /// Whether cells are those around a place, with none where the grid says nothing.
    pub open spec fn is_sample(
        self,
        max_distance: Scalar,
        x0: u32,
        y0: u32,
        r: Option<Corners>,
    ) -> bool {
        &&& self.says_nothing(max_distance) ==> r is None
        &&& !self.says_nothing(max_distance) ==> ({
            let x1 = next_cell(x0 as int, self.width as int);
            let y1 = next_cell(y0 as int, self.height as int);
            r == Some(
                Corners {
                    top_left: self.cell(x0 as int, y0 as int),
                    top_right: self.cell(x1, y0 as int),
                    bottom_left: self.cell(x0 as int, y1),
                    bottom_right: self.cell(x1, y1),
                },
            )
        })
    }

    /// The cells to blend for a listener whose place in the grid begins at
    /// column `x0` and row `y0`, or nothing where the grid says nothing.
    pub fn sample(&self, max_distance: Scalar, x0: u32, y0: u32) -> (r: Option<Corners>)
        requires
            !self.says_nothing(max_distance) ==> x0 < self.width && y0 < self.height && next_cell(
                y0 as int,
                self.height as int,
            ) * self.width + next_cell(x0 as int, self.width as int) < self.gray@.len(),
            !self.says_nothing(max_distance) ==> next_cell(y0 as int, self.height as int)
                * self.width + next_cell(x0 as int, self.width as int) <= u32::MAX,
        ensures
            self.is_sample(max_distance, x0, y0, r),
    {
        if self.width == 0 || self.height == 0 || max_distance.le(Scalar::zero()) {
            return None;
        }
        let x1: u32 = if x0 < self.width - 1 {
            x0 + 1
        } else {
            self.width - 1
        };
        let y1: u32 = if y0 < self.height - 1 {
            y0 + 1
        } else {
            self.height - 1
        };
        proof {
            let w = self.width as int;
            assert(y0 * w <= y1 * w) by (nonlinear_arith)
                requires
                    0 <= y0 <= y1,
                    0 <= w,
            ;
            assert(0 <= y0 * w) by (nonlinear_arith)
                requires
                    0 <= y0,
                    0 <= w,
            ;
        }
        Some(
            Corners {
                top_left: self.gray[(y0 * self.width + x0) as usize],
                top_right: self.gray[(y0 * self.width + x1) as usize],
                bottom_left: self.gray[(y1 * self.width + x0) as usize],
                bottom_right: self.gray[(y1 * self.width + x1) as usize],
            },
        )
    }
}

/// The address that serves a scene's sound maps, on the developer's own machine.
pub fn server_ws_url(scene_name: &str) -> (r: String)
    ensures
        r@ == "ws://127.0.0.1:8000/api/soundmap/"@ + scene_name@,
{
    let mut url = String::from_str("ws://127.0.0.1:8000/api/soundmap/");
    url.append(scene_name);
    url
}

/// The update that a message amounts to, given the pixels that its text encodes.
pub fn update_from(msg: WireSoundmapMessage, pixels: Option<Vec<u8>>) -> (r: Option<SoundmapUpdate>)
    ensures
        match pixels {
            Some(p) => r matches Some(u) && u.object_id == msg.object_id && u.grid.width
                == msg.width && u.grid.height == msg.height && u.grid.gray@ == red_channel(p@),
            None => r is None,
        },
{
    match pixels {
        Some(rgba) => {
            let grid = OcclusionGrid::from_rgba(msg.width, msg.height, rgba.as_slice());
            Some(SoundmapUpdate { object_id: msg.object_id, grid })
        },
        None => None,
    }
}

/// Turns a message into an update. A message whose text holds no image is
/// dropped.
pub fn handle_message(msg: WireSoundmapMessage) -> (r: Option<SoundmapUpdate>)
    ensures
        match r {
            Some(u) => pixels_in(msg.png_b64@) matches Some(p) && u.grid.gray@ == red_channel(p)
                && u.object_id == msg.object_id && u.grid.width == msg.width && u.grid.height
                == msg.height,
            None => pixels_in(msg.png_b64@) is None,
        },
{
    let pixels = decode_picture(&msg.png_b64);
    update_from(msg, pixels)
}

/// A grid with a cell for every place in its rows can be sampled at each of them.
pub proof fn whole_grid_can_be_sampled(g: OcclusionGrid, x0: int, y0: int)
    requires
        0 <= x0 < g.width,
        0 <= y0 < g.height,
        g.gray@.len() >= g.width * g.height,
    ensures
        0 <= next_cell(y0, g.height as int) * g.width + next_cell(x0, g.width as int)
            < g.gray@.len(),
{
    let w = g.width as int;
    let h = g.height as int;
    let y1 = next_cell(y0, h);
    let x1 = next_cell(x0, w);
    assert(0 <= y1 * w && y1 * w + w <= h * w) by (nonlinear_arith)
        requires
            0 <= y1 <= h - 1,
            0 < w,
    ;
    assert(h * w == g.width * g.height) by (nonlinear_arith)
        requires
            w == g.width,
            h == g.height,
    ;
}

/// What is sampled of a grid is the first channel of the image that the grid was
/// taken from, in the pixel of that column and row and in the next ones; at the
/// right and lower edges the last ones count twice. Nothing is sampled of an empty
/// grid, nor of one whose sound reaches nowhere.
pub proof fn a_sample_is_of_the_pixels_around(
    g: OcclusionGrid,
    rgba: Seq<u8>,
    max_distance: Scalar,
    x0: u32,
    y0: u32,
    r: Option<Corners>,
)
    requires
        g.gray@ == red_channel(rgba),
        rgba.len() == 4 * (g.width * g.height),
        g.is_sample(max_distance, x0, y0, r),
        r is Some ==> x0 < g.width && y0 < g.height,
    ensures
        r is None <==> g.width == 0 || g.height == 0 || max_distance.at_most(Scalar { bits: 0 }),
        r matches Some(c) ==> {
            let w = g.width as int;
            let x1 = if x0 + 1 < w {
                x0 + 1
            } else {
                x0 as int
            };
            let y1 = if y0 + 1 < g.height {
                y0 + 1
            } else {
                y0 as int
            };
            &&& c.top_left == rgba[4 * (y0 * w + x0)]
            &&& c.top_right == rgba[4 * (y0 * w + x1)]
            &&& c.bottom_left == rgba[4 * (y1 * w + x0)]
            &&& c.bottom_right == rgba[4 * (y1 * w + x1)]
        },
{
    if let Some(c) = r {
        let w = g.width as int;
        let h = g.height as int;
        assert forall|x: int, y: int| 0 <= x < w && 0 <= y < h implies #[trigger] g.cell(x, y)
            == rgba[4 * (y * w + x)] by {
            assert(0 <= y * w + x < w * h) by (nonlinear_arith)
                requires
                    0 <= x < w,
                    0 <= y < h,
            ;
            assert(g.gray@[y * w + x] == rgba[(y * w + x) * 4]);
        }
    }
}

/// A grid has a cell for each whole pixel of its image, and the cell is the pixel's
/// first channel.
pub proof fn a_cell_is_the_first_channel_of_its_pixel(rgba: Seq<u8>)
    ensures
        4 * red_channel(rgba).len() <= rgba.len() < 4 * red_channel(rgba).len() + 4,
        forall|i: int|
            0 <= i < red_channel(rgba).len() ==> #[trigger] red_channel(rgba)[i] == rgba[4 * i],
{
}

} // verus!
