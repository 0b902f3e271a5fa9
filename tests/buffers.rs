use rust_layers::geometry::{Point2D, Rect, Size2D};
use rust_layers::layers::{CompositorLayer, LayerId, ScrollPolicy, WantsScrollEventsFlag};
use rust_layers::tile::{LayerBuffer, LayerBufferSet, MaybeQuadtree, NativeSurface, SurfaceError, Tile};
use rust_layers::util::convert_rgb32_to_rgb24;

fn buffer(id: u64, width: usize, height: usize) -> LayerBuffer {
    LayerBuffer {
        native_surface: NativeSurface::new(id),
        screen_pos: Rect { origin: Point2D { x: 0, y: 0 }, size: Size2D { width, height } },
        stride: width,
        render_idx: 0,
    }
}

fn layer(page_size: Option<Size2D>) -> CompositorLayer {
    CompositorLayer::new(
        1,
        LayerId(1, 1),
        page_size,
        512,
        Some(1 << 20),
        true,
        ScrollPolicy::FixedPosition,
        WantsScrollEventsFlag::DoesntWantScrollEvents,
    )
}

#[test]
fn mark_will_leak_exempts_from_double_release() {
    let mut set = LayerBufferSet { buffers: vec![buffer(1, 8, 8), buffer(2, 16, 4)] };
    set.mark_will_leak();
    for b in set.buffers.iter_mut() {
        assert!(b.native_surface.leaking());
        assert!(!b.native_surface.destroyed());
        assert_eq!(b.native_surface.destroy(), Ok(()));
        assert_eq!(b.native_surface.destroy(), Ok(()));
        assert!(b.native_surface.destroyed());
    }
    assert_eq!(set.buffers[0].native_surface.id(), 1);
    assert_eq!(set.buffers[1].stride, 16);
    for b in set.buffers {
        assert_eq!(b.destroy(), Ok(()));
    }
}

#[test]
fn double_release_is_refused() {
    let mut b = buffer(5, 2, 2);
    assert_eq!(b.native_surface.destroy(), Ok(()));
    assert_eq!(b.native_surface.destroy(), Err(SurfaceError::DoubleRelease));
    assert_eq!(b.destroy(), Err(SurfaceError::DoubleRelease));
    assert_eq!(buffer(6, 2, 2).destroy(), Ok(()));
}

#[test]
fn mark_wont_leak_restores_checks() {
    let mut s = NativeSurface::new(9);
    s.mark_will_leak();
    assert_eq!(s.check_release(), Ok(()));
    s.mark_wont_leak();
    assert!(!s.leaking());
    assert_eq!(s.check_release(), Err(SurfaceError::Leaked));
    assert_eq!(s.destroy(), Ok(()));
    assert_eq!(s.check_release(), Ok(()));
    assert_eq!(s.destroy(), Err(SurfaceError::DoubleRelease));
}

#[test]
fn tile_memory_and_size() {
    let mut b = buffer(3, 256, 128);
    assert_eq!(b.get_mem(), 32768);
    assert_eq!(b.get_size_2d(), Size2D { width: 256, height: 128 });
    b.native_surface.mark_will_leak();
    b.mark_wont_leak();
    assert!(!b.native_surface.leaking());
    assert_eq!(b.stride, 256);
    assert_eq!(b.screen_pos.origin, Point2D { x: 0, y: 0 });
    assert_eq!(buffer(4, 0, 7).get_mem(), 0);
}

#[test]
fn tile_size_kept_when_cache_is_built() {
    let mut q = MaybeQuadtree::NoTree(256, None);
    assert_eq!(q.tile_size(), 256);
    q.build(Size2D { width: 1000, height: 2000 });
    assert!(matches!(q, MaybeQuadtree::Tree(_)));
    assert_eq!(q.tile_size(), 256);
    q.build(Size2D { width: 1, height: 1 });
    match q {
        MaybeQuadtree::Tree(t) => assert_eq!(t.page_size, Size2D { width: 1000, height: 2000 }),
        MaybeQuadtree::NoTree(..) => panic!("cache should stay built"),
    }
}

#[test]
fn unknown_page_size_suppresses_independently_of_hidden() {
    let mut l = layer(None);
    assert!(!l.hidden);
    assert!(l.is_suppressed());
    assert!(matches!(l.quadtree, MaybeQuadtree::NoTree(512, Some(_))));
    l.set_hidden(true);
    l.set_page_size(Size2D { width: 800, height: 600 });
    assert!(l.hidden);
    assert!(l.is_suppressed());
    assert_eq!(l.quadtree.tile_size(), 512);
    assert!(matches!(l.quadtree, MaybeQuadtree::Tree(_)));
    l.set_hidden(false);
    assert!(!l.is_suppressed());
}

#[test]
fn known_page_size_builds_cache_at_once() {
    let l = layer(Some(Size2D { width: 10, height: 10 }));
    assert!(!l.is_suppressed());
    assert!(matches!(l.quadtree, MaybeQuadtree::Tree(_)));
    assert_eq!(l.quadtree.tile_size(), 512);
}

#[test]
fn stale_epochs_are_rejected() {
    let mut l = layer(None);
    assert_eq!(l.epoch, 0);
    assert!(l.accepts_epoch(0));
    l.advance_epoch();
    assert_eq!(l.epoch, 1);
    assert!(!l.accepts_epoch(0));
    assert!(l.accepts_epoch(1));
}

#[test]
fn rgb32_to_rgb24_reverses_channels() {
    let input = [1u8, 2, 3, 4, 5, 6, 7, 8];
    assert_eq!(convert_rgb32_to_rgb24(&input), vec![3, 2, 1, 7, 6, 5]);
    assert_eq!(convert_rgb32_to_rgb24(&[]), Vec::<u8>::new());
    assert_eq!(convert_rgb32_to_rgb24(&[9, 8, 7]), vec![7, 8]);
}
