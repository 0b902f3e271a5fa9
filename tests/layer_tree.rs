use rust_layers::geometry::Size2D;
use rust_layers::layers::{
    CommonLayer, ContainerLayer, CompositorLayer, Flip, Layer, LayerId, ScrollPolicy, Texture,
    TextureLayer, WantsScrollEventsFlag,
};
use rust_layers::tree::LayerTree;

fn texture(tree: &mut LayerTree, name: u32) -> usize {
    let size = Size2D { width: 4, height: 2 };
    tree.push(Layer::TextureLayerKind(TextureLayer::new(Texture { name }, size, Flip::NoFlip)))
}

fn container(tree: &mut LayerTree) -> usize {
    tree.push(Layer::ContainerLayerKind(ContainerLayer()))
}

/// Checks the links of `c`'s list against the expected order.
fn assert_list(tree: &LayerTree, c: usize, expected: &[usize]) {
    assert_eq!(tree.children(c), expected.to_vec());
    assert_eq!(tree.first_child(c), expected.first().copied());
    assert_eq!(tree.last_child(c), expected.last().copied());
    for (i, &n) in expected.iter().enumerate() {
        let common = tree.common(n);
        assert_eq!(common.parent, Some(c));
        let prev = if i == 0 { None } else { Some(expected[i - 1]) };
        let next = expected.get(i + 1).copied();
        assert_eq!(common.prev_sibling, prev);
        assert_eq!(common.next_sibling, next);
    }
}

#[test]
fn add_end_then_start_then_remove() {
    let mut tree = LayerTree::new();
    let c = container(&mut tree);
    let t1 = texture(&mut tree, 1);
    let t2 = texture(&mut tree, 2);
    tree.add_child_end(c, t1);
    tree.add_child_start(c, t2);
    assert_eq!(tree.children(c), vec![t2, t1]);
    tree.remove_child(c, t2);
    assert_eq!(tree.children(c), vec![t1]);
    assert_eq!(tree.first_child(c), Some(t1));
    assert_eq!(tree.last_child(c), Some(t1));
    assert!(tree.common(c) == CommonLayer());
    match tree.get(t1) {
        Layer::TextureLayerKind(t) => assert_eq!(t.texture, Texture { name: 1 }),
        _ => panic!("layer kind changed"),
    }
}

#[test]
fn links_hold_after_each_operation() {
    let mut tree = LayerTree::new();
    let c = container(&mut tree);
    let a = texture(&mut tree, 1);
    let b = texture(&mut tree, 2);
    let d = container(&mut tree);
    let e = texture(&mut tree, 3);
    assert_list(&tree, c, &[]);
    tree.add_child_end(c, a);
    assert_list(&tree, c, &[a]);
    tree.add_child_end(c, b);
    assert_list(&tree, c, &[a, b]);
    tree.add_child_start(c, d);
    assert_list(&tree, c, &[d, a, b]);
    tree.add_child_end(d, e);
    assert_list(&tree, d, &[e]);
    assert_list(&tree, c, &[d, a, b]);
    tree.remove_child(c, a);
    assert_list(&tree, c, &[d, b]);
    assert!(tree.common(a) == CommonLayer());
    tree.remove_child(c, b);
    assert_list(&tree, c, &[d]);
    tree.remove_child(c, d);
    assert_list(&tree, c, &[]);
    assert_eq!(tree.parent(d), None);
    tree.add_child_start(c, a);
    assert_list(&tree, c, &[a]);
}

#[test]
fn removed_child_can_be_attached_elsewhere() {
    let mut tree = LayerTree::new();
    let c1 = container(&mut tree);
    let c2 = container(&mut tree);
    let t = texture(&mut tree, 7);
    tree.add_child_end(c1, t);
    tree.remove_child(c1, t);
    tree.add_child_end(c2, t);
    assert_list(&tree, c1, &[]);
    assert_list(&tree, c2, &[t]);
}

#[test]
fn children_listed_twice_are_equal() {
    let mut tree = LayerTree::new();
    let c = container(&mut tree);
    for name in 0..5u32 {
        let t = texture(&mut tree, name);
        tree.add_child_end(c, t);
    }
    let first = tree.children(c);
    let second = tree.children(c);
    assert_eq!(first, second);
    assert_eq!(first, vec![1, 2, 3, 4, 5]);
}

#[test]
fn remove_all_children_detaches_each() {
    let mut tree = LayerTree::new();
    let c = container(&mut tree);
    let a = texture(&mut tree, 1);
    let b = texture(&mut tree, 2);
    tree.add_child_end(c, a);
    tree.add_child_end(c, b);
    tree.remove_all_children(c);
    assert_list(&tree, c, &[]);
    assert_eq!(tree.parent(a), None);
    assert!(tree.common(b) == CommonLayer());
    tree.add_child_start(c, b);
    assert_list(&tree, c, &[b]);
}

#[test]
fn compositor_layer_holds_children() {
    let mut tree = LayerTree::new();
    let layer = CompositorLayer::new(
        3,
        LayerId(1, 2),
        None,
        256,
        None,
        false,
        ScrollPolicy::Scrollable,
        WantsScrollEventsFlag::WantsScrollEvents,
    );
    let root = tree.push(Layer::CompositorLayerKind(layer));
    let t = texture(&mut tree, 9);
    tree.add_child_start(root, t);
    assert_list(&tree, root, &[t]);
    assert_eq!(tree.len(), 2);
}

#[test]
fn texture_layer_keeps_its_fields() {
    let size = Size2D { width: 640, height: 480 };
    let layer = TextureLayer::new(Texture { name: 11 }, size, Flip::VerticalFlip);
    assert_eq!(layer.size(), size);
    assert_eq!(layer.texture, Texture { name: 11 });
    assert_eq!(layer.flip, Flip::VerticalFlip);
    assert!(layer.common == CommonLayer());
}

#[test]
fn layer_id_null() {
    let null = LayerId::null();
    assert_eq!(null, LayerId(0, 0));
    assert!(null.is_null());
    assert!(!LayerId(0, 1).is_null());
}

#[test]
fn child_iterator_follows_links() {
    let mut tree = LayerTree::new();
    let c = container(&mut tree);
    let a = texture(&mut tree, 1);
    let b = texture(&mut tree, 2);
    tree.add_child_end(c, a);
    tree.add_child_end(c, b);
    let mut it = tree.iter_children(c);
    assert_eq!(it.next(&tree), Some(a));
    assert_eq!(it.next(&tree), Some(b));
    assert_eq!(it.next(&tree), None);
    assert_eq!(it.next(&tree), None);
    let mut again = tree.iter_children(c);
    assert_eq!(again.next(&tree), Some(a));
}
