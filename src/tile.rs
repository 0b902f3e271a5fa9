use vstd::prelude::*;
use crate::geometry::{Rect, Size2D};

verus! {

/// Why a surface's lifecycle was broken.
#[derive(Clone, Copy, PartialEq, Eq, Structural, Debug)]
pub enum SurfaceError {
    /// The surface was destroyed a second time without being marked as leaking.
    DoubleRelease,
    /// The surface was let go of without being destroyed or marked as leaking.
    Leaked,
}

/// The lifecycle record of a platform pixel surface that can be shared between threads
/// or processes. The surface must be destroyed exactly once, or marked as an intended
/// leak when its ownership is handed on in a way that cannot be tracked here.
pub struct NativeSurface {
    /// The platform handle of the surface.
    id: u64,
    leaking: bool,
    destroyed: bool,
}

impl NativeSurface {
    pub closed spec fn id_view(&self) -> u64 {
        self.id
    }

    pub closed spec fn is_leaking(&self) -> bool {
        self.leaking
    }

    pub closed spec fn is_destroyed(&self) -> bool {
        self.destroyed
    }

    /// A live surface, not yet destroyed nor marked as leaking.
    pub fn new(id: u64) -> (r: NativeSurface)
        ensures
            r.id_view() == id,
            !r.is_leaking(),
            !r.is_destroyed(),
    {
        NativeSurface { id, leaking: false, destroyed: false }
    }

    /// The platform handle of the surface.
    pub fn id(&self) -> (r: u64)
        ensures
            r == self.id_view(),
    {
        self.id
    }

    pub fn leaking(&self) -> (r: bool)
        ensures
            r == self.is_leaking(),
    {
        self.leaking
    }

    pub fn destroyed(&self) -> (r: bool)
        ensures
            r == self.is_destroyed(),
    {
        self.destroyed
    }

    /// Notes that the surface is intentionally leaked: it is exempt from the checks on
    /// release.
    pub fn mark_will_leak(&mut self)
        ensures
            final(self).id_view() == old(self).id_view(),
            final(self).is_leaking(),
            final(self).is_destroyed() == old(self).is_destroyed(),
    {
        self.leaking = true;
    }

    /// Notes that the surface is no longer leaked: it must be destroyed.
    pub fn mark_wont_leak(&mut self)
        ensures
            final(self).id_view() == old(self).id_view(),
            !final(self).is_leaking(),
            final(self).is_destroyed() == old(self).is_destroyed(),
    {
        self.leaking = false;
    }

    /// Releases the surface. A second release of a surface that is not marked as
    /// leaking is refused.
    pub fn destroy(&mut self) -> (r: Result<(), SurfaceError>)
        ensures
            final(self).id_view() == old(self).id_view(),
            final(self).is_leaking() == old(self).is_leaking(),
            old(self).is_destroyed() && !old(self).is_leaking() ==> r == Err::<(), SurfaceError>(
                SurfaceError::DoubleRelease,
            ) && final(self).is_destroyed(),
            !(old(self).is_destroyed() && !old(self).is_leaking()) ==> r is Ok && final(self).is_destroyed(),
    {
        if self.destroyed && !self.leaking {
            Err(SurfaceError::DoubleRelease)
        } else {
            self.destroyed = true;
            Ok(())
        }
    }

    /// Whether the surface may be let go of: it has been destroyed or is marked as
    /// leaking.
    pub fn check_release(&self) -> (r: Result<(), SurfaceError>)
        ensures
            (self.is_destroyed() || self.is_leaking()) <==> r is Ok,
            r is Err ==> r == Err::<(), SurfaceError>(SurfaceError::Leaked),
    {
        if self.destroyed || self.leaking {
            Ok(())
        } else {
            Err(SurfaceError::Leaked)
        }
    }
}

/// One rendered tile.
pub struct LayerBuffer {
    /// The surface that holds the pixels.
    pub native_surface: NativeSurface,
    /// The rect in pixels that will be drawn to the screen.
    pub screen_pos: Rect,
    /// The row length, in pixels.
    pub stride: usize,
    /// Routes the buffer back to the graphics context that recycles it.
    pub render_idx: usize,
}

/// What the tile cache needs to know of a tile.
pub trait Tile {
    spec fn size_view(&self) -> Size2D;

    spec fn surface_view(&self) -> (u64, bool, bool);

    /// Everything else the tile holds.
    spec fn rest_view(&self) -> (Rect, usize, usize);

    /// The memory used by the tile, counted as its pixel area.
    fn get_mem(&self) -> (r: usize)
        requires
            self.size_view().area() <= usize::MAX,
        ensures
            r == self.size_view().area(),
    ;

    /// The size of the tile in pixels.
    fn get_size_2d(&self) -> (r: Size2D)
        ensures
            r == self.size_view(),
    ;

    /// Marks the tile's surface as no longer leaking.
    fn mark_wont_leak(&mut self)
        ensures
            final(self).size_view() == old(self).size_view(),
            final(self).rest_view() == old(self).rest_view(),
            final(self).surface_view() == (old(self).surface_view().0, false, old(self).surface_view().2),
    ;

    /// Consumes the tile, releasing its surface; a second release of a surface not
    /// marked as leaking is refused.
    fn destroy(self) -> (r: Result<(), SurfaceError>)
        ensures
            r is Err <==> self.surface_view().2 && !self.surface_view().1,
            r is Err ==> r == Err::<(), SurfaceError>(SurfaceError::DoubleRelease),
    ;
}

impl LayerBuffer {
    /// The surface as (handle, leaking, destroyed).
    pub open spec fn surface_state(&self) -> (u64, bool, bool) {
        (self.native_surface.id_view(), self.native_surface.is_leaking(), self.native_surface.is_destroyed())
    }
}

impl Tile for LayerBuffer {
    open spec fn size_view(&self) -> Size2D {
        self.screen_pos.size
    }

    open spec fn surface_view(&self) -> (u64, bool, bool) {
        self.surface_state()
    }

    open spec fn rest_view(&self) -> (Rect, usize, usize) {
        (self.screen_pos, self.stride, self.render_idx)
    }

    fn get_mem(&self) -> (r: usize) {
        self.screen_pos.size.width * self.screen_pos.size.height
    }

    fn get_size_2d(&self) -> (r: Size2D) {
        self.screen_pos.size
    }

    fn mark_wont_leak(&mut self) {
        self.native_surface.mark_wont_leak();
    }

    fn destroy(self) -> (r: Result<(), SurfaceError>) {
        let mut surface = self.native_surface;
        surface.destroy()
    }
}

/// A set of layer buffers, swapped as one between the front and back buffers.
pub struct LayerBufferSet {
    pub buffers: Vec<LayerBuffer>,
}

impl LayerBufferSet {
    /// Marks every buffer's surface as intentionally leaking; nothing is destroyed.
    pub fn mark_will_leak(&mut self)
        ensures
            final(self).buffers@.len() == old(self).buffers@.len(),
            forall|i: int| 0 <= i < old(self).buffers@.len() ==> {
                let b = #[trigger] final(self).buffers@[i];
                let a = old(self).buffers@[i];
                &&& b.native_surface.id_view() == a.native_surface.id_view()
                &&& b.native_surface.is_leaking()
                &&& b.native_surface.is_destroyed() == a.native_surface.is_destroyed()
                &&& b.screen_pos == a.screen_pos
                &&& b.stride == a.stride
                &&& b.render_idx == a.render_idx
            },
    {
        let n = self.buffers.len();
        let mut i: usize = 0;
        while i < n
            invariant
                n == old(self).buffers@.len(),
                self.buffers@.len() == n,
                i <= n,
                forall|j: int| 0 <= j < n ==> {
                    let b = #[trigger] self.buffers@[j];
                    let a = old(self).buffers@[j];
                    &&& b.native_surface.id_view() == a.native_surface.id_view()
                    &&& (j < i ==> b.native_surface.is_leaking())
                    &&& (j >= i ==> b.native_surface.is_leaking() == a.native_surface.is_leaking())
                    &&& b.native_surface.is_destroyed() == a.native_surface.is_destroyed()
                    &&& b.screen_pos == a.screen_pos
                    &&& b.stride == a.stride
                    &&& b.render_idx == a.render_idx
                },
            decreases n - i,
        {
            self.buffers[i].native_surface.mark_will_leak();
            i = i + 1;
        }
    }
}

/// Helper enum for storing a tile cache. Either it has been built, or it holds the
/// configuration from which it will be built once the page size is known.
pub enum MaybeQuadtree {
    Tree(Quadtree),
    NoTree(usize, Option<usize>),
}

/// The configuration a built tile cache was made with.
#[derive(Clone, Copy, PartialEq, Eq, Structural, Debug)]
pub struct Quadtree {
    pub max_tile_size: usize,
    pub max_mem: Option<usize>,
    pub page_size: Size2D,
}

impl MaybeQuadtree {
    pub open spec fn tile_size_view(&self) -> usize {
        match self {
            MaybeQuadtree::Tree(q) => q.max_tile_size,
            MaybeQuadtree::NoTree(tile_size, _) => *tile_size,
        }
    }

    pub open spec fn is_built(&self) -> bool {
        self is Tree
    }

    /// The cache after the page size becomes known: pending configuration is built
    /// into a cache, a built cache stays as it is.
    pub open spec fn built_view(&self, page_size: Size2D) -> MaybeQuadtree {
        match self {
            MaybeQuadtree::Tree(q) => MaybeQuadtree::Tree(*q),
            MaybeQuadtree::NoTree(tile_size, max_mem) => MaybeQuadtree::Tree(
                Quadtree { max_tile_size: *tile_size, max_mem: *max_mem, page_size },
            ),
        }
    }

    /// The tile size the cache was configured with, built or not.
    pub fn tile_size(&self) -> (r: usize)
        ensures
            r == self.tile_size_view(),
    {
        match self {
            MaybeQuadtree::Tree(q) => q.max_tile_size,
            MaybeQuadtree::NoTree(tile_size, _) => *tile_size,
        }
    }

    /// Builds the cache from pending configuration, once the page size is known.
    pub fn build(&mut self, page_size: Size2D)
        ensures
            *final(self) == old(self).built_view(page_size),
    {
        match self {
            MaybeQuadtree::Tree(_) => {},
            MaybeQuadtree::NoTree(tile_size, max_mem) => {
                let q = Quadtree { max_tile_size: *tile_size, max_mem: *max_mem, page_size };
                *self = MaybeQuadtree::Tree(q);
            },
        }
    }
}

/// The tile size of a cache is the one it was configured with, before it is built
/// and after.
pub proof fn lemma_tile_size_kept(q: MaybeQuadtree, page_size: Size2D)
    ensures
        q.built_view(page_size).tile_size_view() == q.tile_size_view(),
        q.built_view(page_size).is_built(),
{
}

} // verus!
