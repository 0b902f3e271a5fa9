use vstd::prelude::*;
use crate::geometry::Size2D;
use crate::tile::MaybeQuadtree;

verus! {

/// Pixel formats of layer contents.
#[derive(Clone, Copy, PartialEq, Eq, Structural, Debug)]
pub enum Format {
    ARGB32Format,
    RGB24Format,
}

/// Whether a texture should be flipped.
#[derive(Clone, Copy, PartialEq, Eq, Structural, Debug)]
pub enum Flip {
    /// The texture should not be flipped.
    NoFlip,
    /// The texture should be flipped vertically.
    VerticalFlip,
}

/// Identifies a compositor layer; `(0, 0)` is reserved as the null id.
#[derive(Clone, Copy, PartialEq, Eq, Structural, Debug)]
pub struct LayerId(pub usize, pub usize);

impl LayerId {
    pub open spec fn is_null_view(self) -> bool {
        self.0 == 0 && self.1 == 0
    }

    /// The reserved id that names no layer.
    pub fn null() -> (r: LayerId)
        ensures
            r.0 == 0 && r.1 == 0,
    {
        LayerId(0, 0)
    }

    pub fn is_null(&self) -> (r: bool)
        ensures
            r == self.is_null_view(),
    {
        self.0 == 0 && self.1 == 0
    }
}

/// The scrolling policy of a layer.
#[derive(Clone, Copy, PartialEq, Eq, Structural, Debug)]
pub enum ScrollPolicy {
    /// These layers scroll when the parent receives a scrolling message.
    Scrollable,
    /// These layers do not scroll when the parent receives a scrolling message.
    FixedPosition,
}

/// The behavior of a layer when a scroll message is received.
#[derive(Clone, Copy, PartialEq, Eq, Structural, Debug)]
pub enum WantsScrollEventsFlag {
    WantsScrollEvents,
    DoesntWantScrollEvents,
}

/// Marker for the unit of one CSS "px" in the root coordinate system of the content
/// document.
pub struct PagePx;

/// A handle to a GPU texture object.
#[derive(Clone, Copy, PartialEq, Eq, Structural, Debug)]
pub struct Texture {
    pub name: u32,
}

/// The tree links shared by every kind of layer. Links are indices into the
/// `LayerTree` that holds the layer.
#[derive(Clone, Copy, PartialEq, Eq, Structural, Debug)]
pub struct CommonLayer {
    pub parent: Option<usize>,
    pub prev_sibling: Option<usize>,
    pub next_sibling: Option<usize>,
}

impl CommonLayer {
    pub open spec fn is_detached(self) -> bool {
        self.parent is None && self.prev_sibling is None && self.next_sibling is None
    }
}

/// A header with no links.
#[allow(non_snake_case)]
pub fn CommonLayer() -> (r: CommonLayer)
    ensures
        r.is_detached(),
{
    CommonLayer { parent: None, prev_sibling: None, next_sibling: None }
}

/// A layer that holds an ordered list of children.
pub struct ContainerLayer {
    pub common: CommonLayer,
    pub first_child: Option<usize>,
    pub last_child: Option<usize>,
}

/// A container with no links and no children.
#[allow(non_snake_case)]
pub fn ContainerLayer() -> (r: ContainerLayer)
    ensures
        r.common.is_detached(),
        r.first_child is None,
        r.last_child is None,
{
    ContainerLayer { common: CommonLayer(), first_child: None, last_child: None }
}

/// A leaf layer wrapping one GPU texture.
pub struct TextureLayer {
    pub common: CommonLayer,
    /// A handle to the GPU texture.
    pub texture: Texture,
    /// The size of the texture in pixels.
    pub size: Size2D,
    /// Whether this texture is flipped vertically.
    pub flip: Flip,
}

impl TextureLayer {
    pub fn new(texture: Texture, size: Size2D, flip: Flip) -> (r: TextureLayer)
        ensures
            r.common.is_detached(),
            r.texture == texture,
            r.size == size,
            r.flip == flip,
    {
        TextureLayer { common: CommonLayer(), texture, size, flip }
    }

    pub fn size(&self) -> (r: Size2D)
        ensures
            r == self.size,
    {
        self.size
    }
}

/// A layer of a page with its own scroll or animation behavior, holding children and
/// a tile cache.
pub struct CompositorLayer {
    pub container_layer: ContainerLayer,
    pub pipeline_id: usize,
    pub id: LayerId,
    /// Where all buffers of this layer are stored.
    pub quadtree: MaybeQuadtree,
    /// The size of the page in whole page pixels; `None` until layout has finished.
    pub page_size: Option<Size2D>,
    /// When set, the layer is ignored by its parents.
    pub hidden: bool,
    /// Whether an ancestor layer that receives scroll events moves this layer.
    pub scroll_policy: ScrollPolicy,
    /// True if CPU rendering is enabled, false if GPU rendering is used.
    pub cpu_painting: bool,
    /// A counter of layout passes; buffers tagged with another epoch are ignored.
    pub epoch: usize,
    /// The behavior of this layer when a scroll message is received.
    pub wants_scroll_events: WantsScrollEventsFlag,
}

impl CompositorLayer {
    /// Whether ancestors skip this layer: it is explicitly hidden, or its page size is
    /// not known yet. The two reasons are kept apart.
    pub open spec fn is_suppressed_view(&self) -> bool {
        self.hidden || self.page_size is None
    }

    /// A compositor layer with no children, at epoch zero and not explicitly hidden. Its
    /// tile cache is built at once when the page size is known, and is otherwise left
    /// pending with the given configuration.
    pub fn new(
        pipeline_id: usize,
        id: LayerId,
        page_size: Option<Size2D>,
        tile_size: usize,
        max_mem: Option<usize>,
        cpu_painting: bool,
        scroll_policy: ScrollPolicy,
        wants_scroll_events: WantsScrollEventsFlag,
    ) -> (r: CompositorLayer)
        ensures
            r.container_layer.common.is_detached(),
            r.container_layer.first_child is None,
            r.container_layer.last_child is None,
            r.pipeline_id == pipeline_id,
            r.id == id,
            r.page_size == page_size,
            r.quadtree == (match page_size {
                Some(p) => MaybeQuadtree::NoTree(tile_size, max_mem).built_view(p),
                None => MaybeQuadtree::NoTree(tile_size, max_mem),
            }),
            !r.hidden,
            r.scroll_policy == scroll_policy,
            r.cpu_painting == cpu_painting,
            r.epoch == 0,
            r.wants_scroll_events == wants_scroll_events,
    {
        let mut quadtree = MaybeQuadtree::NoTree(tile_size, max_mem);
        match page_size {
            Some(p) => quadtree.build(p),
            None => {},
        }
        CompositorLayer {
            container_layer: ContainerLayer(),
            pipeline_id,
            id,
            quadtree,
            page_size,
            hidden: false,
            scroll_policy,
            cpu_painting,
            epoch: 0,
            wants_scroll_events,
        }
    }

    /// Whether ancestors skip this layer when drawing.
    pub fn is_suppressed(&self) -> (r: bool)
        ensures
            r == self.is_suppressed_view(),
    {
        self.hidden || self.page_size.is_none()
    }

    /// Records the page size once layout knows it, and builds the tile cache if it is
    /// still pending. The explicit `hidden` flag is left as it is.
    pub fn set_page_size(&mut self, page_size: Size2D)
        ensures
            final(self).page_size == Some(page_size),
            final(self).quadtree == old(self).quadtree.built_view(page_size),
            final(self).hidden == old(self).hidden,
            final(self).epoch == old(self).epoch,
            final(self).id == old(self).id,
            final(self).pipeline_id == old(self).pipeline_id,
            final(self).container_layer == old(self).container_layer,
    {
        self.page_size = Some(page_size);
        self.quadtree.build(page_size);
    }

    /// Sets or clears the explicit `hidden` flag; the page size is left as it is.
    pub fn set_hidden(&mut self, hidden: bool)
        ensures
            final(self).hidden == hidden,
            final(self).page_size == old(self).page_size,
            final(self).quadtree == old(self).quadtree,
            final(self).epoch == old(self).epoch,
            final(self).container_layer == old(self).container_layer,
    {
        self.hidden = hidden;
    }

    /// Starts a new layout pass: buffers tagged with an earlier epoch are now stale.
    pub fn advance_epoch(&mut self)
        requires
            old(self).epoch < usize::MAX,
        ensures
            final(self).epoch == old(self).epoch + 1,
            final(self).hidden == old(self).hidden,
            final(self).page_size == old(self).page_size,
            final(self).quadtree == old(self).quadtree,
            final(self).container_layer == old(self).container_layer,
    {
        self.epoch = self.epoch + 1;
    }

    /// Whether a buffer tagged with `epoch` belongs to the current layout pass; others
    /// are to be ignored.
    pub fn accepts_epoch(&self, epoch: usize) -> (r: bool)
        ensures
            r == (epoch == self.epoch),
    {
        epoch == self.epoch
    }
}

/// A layer of any of the three kinds.
pub enum Layer {
    ContainerLayerKind(ContainerLayer),
    TextureLayerKind(TextureLayer),
    CompositorLayerKind(CompositorLayer),
}

impl Layer {
    pub open spec fn common_view(&self) -> CommonLayer {
        match self {
            Layer::ContainerLayerKind(c) => c.common,
            Layer::TextureLayerKind(t) => t.common,
            Layer::CompositorLayerKind(c) => c.container_layer.common,
        }
    }

    pub open spec fn is_container(&self) -> bool {
        !(self is TextureLayerKind)
    }

    pub open spec fn first_view(&self) -> Option<usize> {
        match self {
            Layer::ContainerLayerKind(c) => c.first_child,
            Layer::TextureLayerKind(_) => None,
            Layer::CompositorLayerKind(c) => c.container_layer.first_child,
        }
    }

    pub open spec fn last_view(&self) -> Option<usize> {
        match self {
            Layer::ContainerLayerKind(c) => c.last_child,
            Layer::TextureLayerKind(_) => None,
            Layer::CompositorLayerKind(c) => c.container_layer.last_child,
        }
    }

    /// A layer that is in no list and has no children.
    pub open spec fn is_detached(&self) -> bool {
        self.common_view().is_detached() && self.first_view() is None && self.last_view() is None
    }

    /// The layer with its links taken out: its kind and its own data. Two layers with
    /// the same `data_view` differ at most in their tree links.
    pub open spec fn data_view(&self) -> Layer {
        let none = CommonLayer { parent: None, prev_sibling: None, next_sibling: None };
        let bare = ContainerLayer { common: none, first_child: None, last_child: None };
        match self {
            Layer::ContainerLayerKind(_) => Layer::ContainerLayerKind(bare),
            Layer::TextureLayerKind(t) => Layer::TextureLayerKind(
                TextureLayer { common: none, texture: t.texture, size: t.size, flip: t.flip },
            ),
            Layer::CompositorLayerKind(c) => Layer::CompositorLayerKind(
                CompositorLayer {
                    container_layer: bare,
                    pipeline_id: c.pipeline_id,
                    id: c.id,
                    quadtree: c.quadtree,
                    page_size: c.page_size,
                    hidden: c.hidden,
                    scroll_policy: c.scroll_policy,
                    cpu_painting: c.cpu_painting,
                    epoch: c.epoch,
                    wants_scroll_events: c.wants_scroll_events,
                },
            ),
        }
    }

    /// The tree links of this layer, whatever its kind.
    pub fn common(&self) -> (r: CommonLayer)
        ensures
            r == self.common_view(),
    {
        match self {
            Layer::ContainerLayerKind(c) => c.common,
            Layer::TextureLayerKind(t) => t.common,
            Layer::CompositorLayerKind(c) => c.container_layer.common,
        }
    }

    pub fn first_child(&self) -> (r: Option<usize>)
        ensures
            r == self.first_view(),
    {
        match self {
            Layer::ContainerLayerKind(c) => c.first_child,
            Layer::TextureLayerKind(_) => None,
            Layer::CompositorLayerKind(c) => c.container_layer.first_child,
        }
    }

    pub fn last_child(&self) -> (r: Option<usize>)
        ensures
            r == self.last_view(),
    {
        match self {
            Layer::ContainerLayerKind(c) => c.last_child,
            Layer::TextureLayerKind(_) => None,
            Layer::CompositorLayerKind(c) => c.container_layer.last_child,
        }
    }

    /// Replaces the tree links of this layer, whatever its kind.
    pub fn set_common(&mut self, common: CommonLayer)
        ensures
            final(self).common_view() == common,
            final(self).data_view() == old(self).data_view(),
            final(self).first_view() == old(self).first_view(),
            final(self).last_view() == old(self).last_view(),
            final(self).is_container() == old(self).is_container(),
    {
        match self {
            Layer::ContainerLayerKind(c) => c.common = common,
            Layer::TextureLayerKind(t) => t.common = common,
            Layer::CompositorLayerKind(c) => c.container_layer.common = common,
        }
    }

    /// Replaces the ends of the child list; a texture layer has none and is left alone.
    pub fn set_ends(&mut self, first: Option<usize>, last: Option<usize>)
        ensures
            final(self).common_view() == old(self).common_view(),
            final(self).data_view() == old(self).data_view(),
            final(self).is_container() == old(self).is_container(),
            old(self).is_container() ==> final(self).first_view() == first
                && final(self).last_view() == last,
            !old(self).is_container() ==> final(self).first_view() is None
                && final(self).last_view() is None,
    {
        match self {
            Layer::ContainerLayerKind(c) => {
                c.first_child = first;
                c.last_child = last;
            },
            Layer::TextureLayerKind(_) => {},
            Layer::CompositorLayerKind(c) => {
                c.container_layer.first_child = first;
                c.container_layer.last_child = last;
            },
        }
    }
}

} // verus!
