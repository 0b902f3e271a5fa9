use vstd::prelude::*;
use crate::layers::{CommonLayer, Layer};

verus! {

/// An arena of layers. Tree links are indices into the arena; each container's children
/// form a doubly linked list through the `prev_sibling` / `next_sibling` links.
pub struct LayerTree {
    layers: Vec<Layer>,
    /// The children of each layer, first to last.
    lists: Ghost<Seq<Seq<usize>>>,
}

impl LayerTree {
    pub closed spec fn len_view(&self) -> nat {
        self.layers@.len()
    }

    pub closed spec fn layer(&self, i: int) -> Layer {
        self.layers@[i]
    }

    /// The children of layer `c`, in first-to-last order.
    pub closed spec fn child_list(&self, c: int) -> Seq<usize> {
        self.lists@[c]
    }

    pub open spec fn parent_view(&self, n: int) -> Option<usize> {
        self.layer(n).common_view().parent
    }

    pub open spec fn prev_view(&self, n: int) -> Option<usize> {
        self.layer(n).common_view().prev_sibling
    }

    pub open spec fn next_view(&self, n: int) -> Option<usize> {
        self.layer(n).common_view().next_sibling
    }

    pub open spec fn first_view(&self, c: int) -> Option<usize> {
        self.layer(c).first_view()
    }

    pub open spec fn last_view(&self, c: int) -> Option<usize> {
        self.layer(c).last_view()
    }

    /// The `i`th child of `c` is linked to its container and to its neighbours in the list.
    closed spec fn linked_at(&self, c: int, i: int) -> bool {
        let s = self.lists@[c];
        let n = s[i] as int;
        &&& 0 <= n < self.layers@.len()
        &&& self.parent_view(n) == Some(c as usize)
        &&& self.prev_view(n) == (if i == 0 { None } else { Some(s[i - 1]) })
        &&& self.next_view(n) == (if i == s.len() - 1 { None } else { Some(s[i + 1]) })
    }

    /// The ends of `c`'s list are its first and last child, and no child appears twice.
    closed spec fn ends_ok(&self, c: int) -> bool {
        let s = self.lists@[c];
        &&& self.first_view(c) == (if s.len() == 0 { None } else { Some(s[0]) })
        &&& self.last_view(c) == (if s.len() == 0 { None } else { Some(s[s.len() - 1]) })
        &&& s.no_duplicates()
    }

    /// A layer without a parent has no siblings; one with a parent is in its list.
    closed spec fn node_ok(&self, n: int) -> bool {
        match self.parent_view(n) {
            None => self.prev_view(n) is None && self.next_view(n) is None,
            Some(p) => p < self.layers@.len() && self.lists@[p as int].contains(n as usize),
        }
    }

    pub closed spec fn wf(&self) -> bool {
        &&& self.lists@.len() == self.layers@.len()
        &&& self.layers@.len() <= usize::MAX
        &&& forall|c: int, i: int|
            0 <= c < self.layers@.len() && 0 <= i < self.lists@[c].len() ==> #[trigger] self.linked_at(c, i)
        &&& forall|c: int| 0 <= c < self.layers@.len() ==> #[trigger] self.ends_ok(c)
        &&& forall|n: int| 0 <= n < self.layers@.len() ==> #[trigger] self.node_ok(n)
    }

    /// An empty arena.
    pub fn new() -> (r: LayerTree)
        ensures
            r.wf(),
            r.len_view() == 0,
    {
        LayerTree { layers: Vec::new(), lists: Ghost(Seq::empty()) }
    }

    pub fn len(&self) -> (r: usize)
        ensures
            r == self.len_view(),
    {
        self.layers.len()
    }

    /// Puts a new, disconnected layer in the arena and returns its index.
    pub fn push(&mut self, layer: Layer) -> (r: usize)
        requires
            old(self).wf(),
            layer.is_detached(),
            old(self).len_view() < usize::MAX,
        ensures
            final(self).wf(),
            r == old(self).len_view(),
            final(self).len_view() == old(self).len_view() + 1,
            final(self).layer(r as int) == layer,
            final(self).child_list(r as int) == Seq::<usize>::empty(),
            forall|i: int| 0 <= i < old(self).len_view() ==> final(self).layer(i) == old(self).layer(i)
                && final(self).child_list(i) == old(self).child_list(i),
    {
        let r = self.layers.len();
        self.layers.push(layer);
        self.lists = Ghost(self.lists@.push(Seq::empty()));
        assert forall|c: int, i: int|
            0 <= c < self.layers@.len() && 0 <= i < self.lists@[c].len() implies #[trigger] self.linked_at(c, i) by {
            assert(old(self).linked_at(c, i));
        }
        assert forall|c: int| 0 <= c < self.layers@.len() implies #[trigger] self.ends_ok(c) by {
            if c < r {
                assert(old(self).ends_ok(c));
            }
        }
        assert forall|n: int| 0 <= n < self.layers@.len() implies #[trigger] self.node_ok(n) by {
            if n < r {
                assert(old(self).node_ok(n));
            }
        }
        r
    }
    /// Adds a child to the end of `container`'s list. The child must be disconnected
    /// from the tree.
    pub fn add_child_end(&mut self, container: usize, new_child: usize)
        requires
            old(self).wf(),
            container < old(self).len_view(),
            old(self).layer(container as int).is_container(),
            new_child < old(self).len_view(),
            old(self).layer(new_child as int).common_view().is_detached(),
        ensures
            final(self).wf(),
            final(self).len_view() == old(self).len_view(),
            final(self).child_list(container as int) == old(self).child_list(container as int).push(new_child),
            final(self).layer(new_child as int).common_view() == (CommonLayer {
                parent: Some(container),
                prev_sibling: old(self).last_view(container as int),
                next_sibling: None,
            }),
            old(self).last_view(container as int) is Some ==> ({
                let l = old(self).last_view(container as int)->Some_0 as int;
                final(self).layer(l).common_view() == (CommonLayer {
                    parent: old(self).layer(l).common_view().parent,
                    prev_sibling: old(self).layer(l).common_view().prev_sibling,
                    next_sibling: Some(new_child),
                })
            }),
            final(self).first_view(container as int) == (if old(self).first_view(container as int) is None {
                Some(new_child)
            } else {
                old(self).first_view(container as int)
            }),
            final(self).last_view(container as int) == Some(new_child),
            forall|i: int| 0 <= i < old(self).len_view() && i != new_child
                && Some(i as usize) != old(self).last_view(container as int) ==>
                #[trigger] final(self).layer(i).common_view() == old(self).layer(i).common_view(),
            forall|i: int| 0 <= i < old(self).len_view() && i != container ==>
                #[trigger] final(self).first_view(i) == old(self).first_view(i)
                && final(self).last_view(i) == old(self).last_view(i),
            forall|i: int| 0 <= i < old(self).len_view() ==>
                #[trigger] final(self).layer(i).data_view() == old(self).layer(i).data_view(),
            forall|c: int| 0 <= c < old(self).len_view() && c != container ==>
                #[trigger] final(self).child_list(c) == old(self).child_list(c),
            forall|i: int| 0 <= i < old(self).len_view() ==>
                #[trigger] final(self).layer(i).is_container() == old(self).layer(i).is_container(),
    {
        let ghost s = self.lists@[container as int];
        let first = self.layers[container].first_child();
        let last = self.layers[container].last_child();
        proof {
            assert(old(self).ends_ok(container as int));
            assert(old(self).node_ok(new_child as int));
            if s.len() > 0 {
                assert(old(self).linked_at(container as int, s.len() - 1));
            }
        }
        match last {
            Some(l) => {
                let lc = self.layers[l].common();
                self.layers[l].set_common(
                    CommonLayer { parent: lc.parent, prev_sibling: lc.prev_sibling, next_sibling: Some(new_child) },
                );
            },
            None => {},
        }
        self.layers[new_child].set_common(
            CommonLayer { parent: Some(container), prev_sibling: last, next_sibling: None },
        );
        let new_first = match first {
            Some(f) => Some(f),
            None => Some(new_child),
        };
        self.layers[container].set_ends(new_first, Some(new_child));
        self.lists = Ghost(self.lists@.update(container as int, s.push(new_child)));
        proof {
            let ns = s.push(new_child);
            assert(!s.contains(new_child)) by {
                if s.contains(new_child) {
                    let k = choose|k: int| 0 <= k < s.len() && s[k] == new_child;
                    assert(old(self).linked_at(container as int, k));
                }
            }
            assert forall|c: int, i: int|
                0 <= c < self.layers@.len() && 0 <= i < self.lists@[c].len() implies #[trigger] self.linked_at(c, i) by {
                if c == container as int {
                    if i < s.len() {
                        assert(old(self).linked_at(c, i));
                        assert(s[i] != new_child);
                        if i < s.len() - 1 {
                            assert(s[i] != s[s.len() - 1]);
                        }
                    }
                } else {
                    assert(old(self).linked_at(c, i));
                    let m = old(self).lists@[c][i];
                    assert(m != new_child);
                    if s.len() > 0 {
                        assert(old(self).linked_at(container as int, s.len() - 1));
                        assert(m != s[s.len() - 1]);
                    }
                }
            }
            assert forall|c: int| 0 <= c < self.layers@.len() implies #[trigger] self.ends_ok(c) by {
                assert(old(self).ends_ok(c));
                if c == container as int {
                    assert forall|a: int, b: int| 0 <= a < b < ns.len() implies ns[a] != ns[b] by {
                        if b == s.len() {
                            assert(s[a] == ns[a]);
                        }
                    }
                }
            }
            assert forall|n: int| 0 <= n < self.layers@.len() implies #[trigger] self.node_ok(n) by {
                assert(old(self).node_ok(n));
                if n == new_child as int {
                    assert(ns[s.len() as int] == new_child);
                } else if let Some(p) = self.parent_view(n) {
                    if p == container {
                        let k = choose|k: int| 0 <= k < s.len() && s[k] == n as usize;
                        assert(ns[k] == n as usize);
                    }
                }
            }
        }
    }
    /// Adds a child to the start of `container`'s list. The child must be disconnected
    /// from the tree.
    pub fn add_child_start(&mut self, container: usize, new_child: usize)
        requires
            old(self).wf(),
            container < old(self).len_view(),
            old(self).layer(container as int).is_container(),
            new_child < old(self).len_view(),
            old(self).layer(new_child as int).common_view().is_detached(),
        ensures
            final(self).wf(),
            final(self).len_view() == old(self).len_view(),
            final(self).child_list(container as int) == seq![new_child] + old(self).child_list(container as int),
            final(self).layer(new_child as int).common_view() == (CommonLayer {
                parent: Some(container),
                prev_sibling: None,
                next_sibling: old(self).first_view(container as int),
            }),
            old(self).first_view(container as int) is Some ==> ({
                let f = old(self).first_view(container as int)->Some_0 as int;
                final(self).layer(f).common_view() == (CommonLayer {
                    parent: old(self).layer(f).common_view().parent,
                    prev_sibling: Some(new_child),
                    next_sibling: old(self).layer(f).common_view().next_sibling,
                })
            }),
            final(self).first_view(container as int) == Some(new_child),
            final(self).last_view(container as int) == (if old(self).last_view(container as int) is None {
                Some(new_child)
            } else {
                old(self).last_view(container as int)
            }),
            forall|i: int| 0 <= i < old(self).len_view() && i != new_child
                && Some(i as usize) != old(self).first_view(container as int) ==>
                #[trigger] final(self).layer(i).common_view() == old(self).layer(i).common_view(),
            forall|i: int| 0 <= i < old(self).len_view() && i != container ==>
                #[trigger] final(self).first_view(i) == old(self).first_view(i)
                && final(self).last_view(i) == old(self).last_view(i),
            forall|i: int| 0 <= i < old(self).len_view() ==>
                #[trigger] final(self).layer(i).data_view() == old(self).layer(i).data_view(),
            forall|c: int| 0 <= c < old(self).len_view() && c != container ==>
                #[trigger] final(self).child_list(c) == old(self).child_list(c),
            forall|i: int| 0 <= i < old(self).len_view() ==>
                #[trigger] final(self).layer(i).is_container() == old(self).layer(i).is_container(),
    {
        let ghost s = self.lists@[container as int];
        let first = self.layers[container].first_child();
        let last = self.layers[container].last_child();
        proof {
            assert(old(self).ends_ok(container as int));
            assert(old(self).node_ok(new_child as int));
            if s.len() > 0 {
                assert(old(self).linked_at(container as int, 0));
            }
        }
        match first {
            Some(f) => {
                let fc = self.layers[f].common();
                self.layers[f].set_common(
                    CommonLayer { parent: fc.parent, prev_sibling: Some(new_child), next_sibling: fc.next_sibling },
                );
            },
            None => {},
        }
        self.layers[new_child].set_common(
            CommonLayer { parent: Some(container), prev_sibling: None, next_sibling: first },
        );
        let new_last = match last {
            Some(l) => Some(l),
            None => Some(new_child),
        };
        self.layers[container].set_ends(Some(new_child), new_last);
        let ghost ns = seq![new_child] + s;
        self.lists = Ghost(self.lists@.update(container as int, ns));
        proof {
            assert(!s.contains(new_child)) by {
                if s.contains(new_child) {
                    let k = choose|k: int| 0 <= k < s.len() && s[k] == new_child;
                    assert(old(self).linked_at(container as int, k));
                }
            }
            assert forall|c: int, i: int|
                0 <= c < self.layers@.len() && 0 <= i < self.lists@[c].len() implies #[trigger] self.linked_at(c, i) by {
                if c == container as int {
                    if i > 0 {
                        assert(ns[i] == s[i - 1]);
                        assert(old(self).linked_at(c, i - 1));
                        assert(s[i - 1] != new_child);
                        if i > 1 {
                            assert(s[i - 1] != s[0]);
                            assert(ns[i - 1] == s[i - 2]);
                        }
                        if i < ns.len() - 1 {
                            assert(ns[i + 1] == s[i]);
                        }
                    }
                } else {
                    assert(old(self).linked_at(c, i));
                    let m = old(self).lists@[c][i];
                    assert(m != new_child);
                    if s.len() > 0 {
                        assert(m != s[0]);
                    }
                }
            }
            assert forall|c: int| 0 <= c < self.layers@.len() implies #[trigger] self.ends_ok(c) by {
                assert(old(self).ends_ok(c));
                if c == container as int {
                    assert forall|a: int, b: int| 0 <= a < b < ns.len() implies ns[a] != ns[b] by {
                        if a == 0 {
                            assert(ns[b] == s[b - 1]);
                        } else {
                            assert(ns[a] == s[a - 1] && ns[b] == s[b - 1]);
                        }
                    }
                    if s.len() > 0 {
                        assert(ns[ns.len() - 1] == s[s.len() - 1]);
                    }
                }
            }
            assert forall|n: int| 0 <= n < self.layers@.len() implies #[trigger] self.node_ok(n) by {
                assert(old(self).node_ok(n));
                if n == new_child as int {
                    assert(ns[0] == new_child);
                } else if let Some(p) = self.parent_view(n) {
                    if p == container {
                        let k = choose|k: int| 0 <= k < s.len() && s[k] == n as usize;
                        assert(ns[k + 1] == n as usize);
                    }
                }
            }
        }
    }
    /// Removes `child` from `container`'s list and clears the child's own links, so that
    /// it can be attached again.
    #[verifier::rlimit(40)]
    pub fn remove_child(&mut self, container: usize, child: usize)
        requires
            old(self).wf(),
            container < old(self).len_view(),
            child < old(self).len_view(),
            old(self).parent_view(child as int) == Some(container),
        ensures
            final(self).wf(),
            final(self).len_view() == old(self).len_view(),
            old(self).child_list(container as int).contains(child),
            final(self).child_list(container as int) == old(self).child_list(container as int).remove_value(child),
            final(self).layer(child as int).common_view().is_detached(),
            forall|n: int| 0 <= n < old(self).len_view() && !old(self).child_list(container as int).contains(n as usize) ==>
                #[trigger] final(self).layer(n).common_view() == old(self).layer(n).common_view(),
            ({
                let p = old(self).prev_view(child as int);
                let x = old(self).next_view(child as int);
                &&& p is Some ==> final(self).layer(p->Some_0 as int).common_view() == (CommonLayer {
                    parent: old(self).layer(p->Some_0 as int).common_view().parent,
                    prev_sibling: old(self).layer(p->Some_0 as int).common_view().prev_sibling,
                    next_sibling: x,
                })
                &&& x is Some ==> final(self).layer(x->Some_0 as int).common_view() == (CommonLayer {
                    parent: old(self).layer(x->Some_0 as int).common_view().parent,
                    prev_sibling: p,
                    next_sibling: old(self).layer(x->Some_0 as int).common_view().next_sibling,
                })
                &&& final(self).first_view(container as int) == (if p is None {
                    x
                } else {
                    old(self).first_view(container as int)
                })
                &&& final(self).last_view(container as int) == (if x is None {
                    p
                } else {
                    old(self).last_view(container as int)
                })
                &&& forall|i: int| 0 <= i < old(self).len_view() && i != child && Some(i as usize) != p
                    && Some(i as usize) != x ==>
                    #[trigger] final(self).layer(i).common_view() == old(self).layer(i).common_view()
            }),
            forall|i: int| 0 <= i < old(self).len_view() && i != container ==>
                #[trigger] final(self).first_view(i) == old(self).first_view(i)
                && final(self).last_view(i) == old(self).last_view(i),
            forall|i: int| 0 <= i < old(self).len_view() ==>
                #[trigger] final(self).layer(i).data_view() == old(self).layer(i).data_view(),
            forall|c: int| 0 <= c < old(self).len_view() && c != container ==>
                #[trigger] final(self).child_list(c) == old(self).child_list(c),
            forall|i: int| 0 <= i < old(self).len_view() ==>
                #[trigger] final(self).layer(i).is_container() == old(self).layer(i).is_container(),
    {
        let ghost s = self.lists@[container as int];
        proof {
            assert(old(self).node_ok(child as int));
            assert(old(self).ends_ok(container as int));
            s.index_of_first_ensures(child);
        }
        let ghost k = s.index_of_first(child)->Some_0;
        proof {
            assert(old(self).linked_at(container as int, k));
        }
        let cc = self.layers[child].common();
        let prev = cc.prev_sibling;
        let next = cc.next_sibling;
        let first = self.layers[container].first_child();
        let last = self.layers[container].last_child();
        match next {
            Some(x) => {
                proof {
                    assert(old(self).linked_at(container as int, k + 1));
                }
                let xc = self.layers[x].common();
                self.layers[x].set_common(
                    CommonLayer { parent: xc.parent, prev_sibling: prev, next_sibling: xc.next_sibling },
                );
            },
            None => {},
        }
        match prev {
            Some(p) => {
                proof {
                    assert(old(self).linked_at(container as int, k - 1));
                }
                let pc = self.layers[p].common();
                self.layers[p].set_common(
                    CommonLayer { parent: pc.parent, prev_sibling: pc.prev_sibling, next_sibling: next },
                );
            },
            None => {},
        }
        let new_first = match prev {
            Some(_) => first,
            None => next,
        };
        let new_last = match next {
            Some(_) => last,
            None => prev,
        };
        self.layers[container].set_ends(new_first, new_last);
        self.layers[child].set_common(CommonLayer { parent: None, prev_sibling: None, next_sibling: None });
        let ghost ns = s.remove(k);
        self.lists = Ghost(self.lists@.update(container as int, ns));
        proof {
            assert forall|c: int, i: int|
                0 <= c < self.layers@.len() && 0 <= i < self.lists@[c].len() implies #[trigger] self.linked_at(c, i) by {
                if c == container as int {
                    let j = if i < k { i } else { i + 1 };
                    assert(ns[i] == s[j]);
                    assert(old(self).linked_at(c, j));
                    assert(s[j] != child);
                    if i > 0 {
                        let pj = if i - 1 < k { i - 1 } else { i };
                        assert(ns[i - 1] == s[pj]);
                    }
                    if i < ns.len() - 1 {
                        let nj = if i + 1 < k { i + 1 } else { i + 2 };
                        assert(ns[i + 1] == s[nj]);
                    }
                } else {
                    assert(old(self).linked_at(c, i));
                    let m = old(self).lists@[c][i];
                    assert(m != child);
                    if k > 0 {
                        assert(old(self).linked_at(container as int, k - 1));
                        assert(m != s[k - 1]);
                    }
                    if k < s.len() - 1 {
                        assert(old(self).linked_at(container as int, k + 1));
                        assert(m != s[k + 1]);
                    }
                }
            }
            assert forall|c: int| 0 <= c < self.layers@.len() implies #[trigger] self.ends_ok(c) by {
                assert(old(self).ends_ok(c));
                if c == container as int {
                    assert forall|a: int, b: int| 0 <= a < b < ns.len() implies ns[a] != ns[b] by {
                        let ja = if a < k { a } else { a + 1 };
                        let jb = if b < k { b } else { b + 1 };
                        assert(ns[a] == s[ja] && ns[b] == s[jb]);
                    }
                    if ns.len() > 0 {
                        let jl = if ns.len() - 1 < k { ns.len() - 1 } else { ns.len() as int };
                        assert(ns[ns.len() - 1] == s[jl]);
                        let jf = if 0 < k { 0 } else { 1int };
                        assert(ns[0] == s[jf]);
                    }
                }
            }
            assert forall|n: int| 0 <= n < self.layers@.len() implies #[trigger] self.node_ok(n) by {
                assert(old(self).node_ok(n));
                if n != child as int {
                    if let Some(p) = self.parent_view(n) {
                        if p == container {
                            let j = choose|j: int| 0 <= j < s.len() && s[j] == n as usize;
                            assert(j != k);
                            let i = if j < k { j } else { j - 1 };
                            assert(ns[i] == n as usize);
                        }
                    }
                }
            }
            s.index_of_first_ensures(child);
            if 0 < k < s.len() - 1 {
                assert(s[k - 1] != s[k + 1]);
            }
            assert forall|n: int| 0 <= n < self.layers@.len() && !s.contains(n as usize) implies
                #[trigger] self.layer(n).common_view() == old(self).layer(n).common_view() by {
                assert(s.contains(s[k]));
                if k > 0 {
                    assert(s.contains(s[k - 1]));
                }
                if k < s.len() - 1 {
                    assert(s.contains(s[k + 1]));
                }
            }
        }
    }

    /// Detaches every child of `container`, leaving its list empty.
    pub fn remove_all_children(&mut self, container: usize)
        requires
            old(self).wf(),
            container < old(self).len_view(),
        ensures
            final(self).wf(),
            final(self).len_view() == old(self).len_view(),
            final(self).child_list(container as int) == Seq::<usize>::empty(),
            final(self).first_view(container as int) is None,
            final(self).last_view(container as int) is None,
            forall|n: usize| #[trigger] old(self).child_list(container as int).contains(n) ==>
                final(self).layer(n as int).common_view().is_detached(),
            forall|n: int| 0 <= n < old(self).len_view() && !old(self).child_list(container as int).contains(n as usize) ==>
                #[trigger] final(self).layer(n).common_view() == old(self).layer(n).common_view(),
            forall|i: int| 0 <= i < old(self).len_view() && i != container ==>
                #[trigger] final(self).first_view(i) == old(self).first_view(i)
                && final(self).last_view(i) == old(self).last_view(i),
            forall|i: int| 0 <= i < old(self).len_view() ==>
                #[trigger] final(self).layer(i).data_view() == old(self).layer(i).data_view(),
            forall|c: int| 0 <= c < old(self).len_view() && c != container ==>
                #[trigger] final(self).child_list(c) == old(self).child_list(c),
            forall|i: int| 0 <= i < old(self).len_view() ==>
                #[trigger] final(self).layer(i).is_container() == old(self).layer(i).is_container(),
    {
        let ghost s0 = self.lists@[container as int];
        proof {
            assert forall|n: usize| #[trigger] s0.contains(n) implies n < self.len_view() by {
                let j = choose|j: int| 0 <= j < s0.len() && s0[j] == n;
                assert(old(self).linked_at(container as int, j));
            }
        }
        loop
            invariant
                self.wf(),
                container < self.len_view(),
                self.len_view() == old(self).len_view(),
                forall|n: usize| #[trigger] s0.contains(n) ==> n < self.len_view()
                    && (self.child_list(container as int).contains(n)
                    || self.layer(n as int).common_view().is_detached()),
                forall|c: int| 0 <= c < old(self).len_view() && c != container ==>
                    #[trigger] self.child_list(c) == old(self).child_list(c),
                forall|i: int| 0 <= i < old(self).len_view() ==>
                    #[trigger] self.layer(i).is_container() == old(self).layer(i).is_container(),
                forall|n: usize| #[trigger] self.child_list(container as int).contains(n) ==> s0.contains(n),
                forall|n: int| 0 <= n < old(self).len_view() && !s0.contains(n as usize) ==>
                    #[trigger] self.layer(n).common_view() == old(self).layer(n).common_view(),
                forall|i: int| 0 <= i < old(self).len_view() && i != container ==>
                    #[trigger] self.first_view(i) == old(self).first_view(i)
                    && self.last_view(i) == old(self).last_view(i),
                forall|i: int| 0 <= i < old(self).len_view() ==>
                    #[trigger] self.layer(i).data_view() == old(self).layer(i).data_view(),
            ensures
                self.child_list(container as int).len() == 0,
            decreases self.lists@[container as int].len(),
        {
            let first = self.layers[container].first_child();
            let ghost s = self.lists@[container as int];
            proof {
                assert(self.ends_ok(container as int));
            }
            match first {
                None => {
                    assert(s.len() == 0);
                    break;
                },
                Some(f) => {
                    proof {
                        assert(self.linked_at(container as int, 0));
                    }
                    let ghost before = *self;
                    self.remove_child(container, f);
                    proof {
                        s.index_of_first_ensures(f);
                        let k = s.index_of_first(f)->Some_0;
                        assert forall|n: usize| #[trigger] s0.contains(n) implies n < self.len_view()
                            && (self.child_list(container as int).contains(n)
                            || self.layer(n as int).common_view().is_detached()) by {
                            if n != f && s.contains(n) {
                                let j = choose|j: int| 0 <= j < s.len() && s[j] == n;
                                let i = if j < k { j } else { j - 1 };
                                assert(s.remove(k)[i] == n);
                            }
                        }
                        assert forall|n: usize| #[trigger] self.child_list(container as int).contains(n) implies s0.contains(n) by {
                            let i = choose|i: int| 0 <= i < s.len() - 1 && s.remove(k)[i] == n;
                            let j = if i < k { i } else { i + 1 };
                            assert(s[j] == n);
                            assert(s.contains(n));
                        }
                        assert forall|n: int| 0 <= n < old(self).len_view() && !s0.contains(n as usize) implies
                            #[trigger] self.layer(n).common_view() == old(self).layer(n).common_view() by {
                            assert(!s.contains(n as usize));
                            assert(before.layer(n).common_view() == old(self).layer(n).common_view());
                        }
                    }
                },
            }
        }
        proof {
            assert(self.ends_ok(container as int));
        }
    }

    /// The children of `container`, first to last, found by following the
    /// `next_sibling` links from its first child.
    pub fn children(&self, container: usize) -> (r: Vec<usize>)
        requires
            self.wf(),
            container < self.len_view(),
        ensures
            r@ == self.child_list(container as int),
    {
        let ghost s = self.lists@[container as int];
        proof {
            assert(self.ends_ok(container as int));
        }
        let mut out: Vec<usize> = Vec::new();
        let mut current = self.layers[container].first_child();
        while current.is_some()
            invariant
                self.wf(),
                container < self.len_view(),
                s == self.lists@[container as int],
                out@.len() <= s.len(),
                out@ == s.subrange(0, out@.len() as int),
                current == (if out@.len() < s.len() { Some(s[out@.len() as int]) } else { None::<usize> }),
            decreases s.len() - out@.len(),
        {
            let ghost j = out@.len() as int;
            let c = current.unwrap();
            proof {
                assert(self.linked_at(container as int, j));
            }
            out.push(c);
            current = self.layers[c].common().next_sibling;
            assert(out@ =~= s.subrange(0, out@.len() as int));
        }
        assert(out@ =~= s);
        out
    }

    /// The container that `child` is attached to, if any.
    pub fn parent(&self, child: usize) -> (r: Option<usize>)
        requires
            child < self.len_view(),
        ensures
            r == self.parent_view(child as int),
    {
        self.layers[child].common().parent
    }

    /// The first child of `container`, if any.
    pub fn first_child(&self, container: usize) -> (r: Option<usize>)
        requires
            container < self.len_view(),
        ensures
            r == self.first_view(container as int),
    {
        self.layers[container].first_child()
    }

    /// The last child of `container`, if any.
    pub fn last_child(&self, container: usize) -> (r: Option<usize>)
        requires
            container < self.len_view(),
        ensures
            r == self.last_view(container as int),
    {
        self.layers[container].last_child()
    }

    /// The tree links of layer `i`.
    pub fn common(&self, i: usize) -> (r: CommonLayer)
        requires
            i < self.len_view(),
        ensures
            r == self.layer(i as int).common_view(),
    {
        self.layers[i].common()
    }

    /// The layer at index `i`.
    pub fn get(&self, i: usize) -> (r: &Layer)
        requires
            i < self.len_view(),
        ensures
            *r == self.layer(i as int),
    {
        &self.layers[i]
    }
    /// An iterator over the children of `container`, starting at its first child.
    pub fn iter_children(&self, container: usize) -> (r: ChildIterator)
        requires
            self.wf(),
            container < self.len_view(),
        ensures
            r.current_view() == self.first_view(container as int),
            r.in_range(self),
    {
        proof {
            assert(self.ends_ok(container as int));
            if self.lists@[container as int].len() > 0 {
                assert(self.linked_at(container as int, 0));
            }
        }
        ChildIterator { current: self.layers[container].first_child() }
    }
}

/// A cursor over a child list: it holds the next child to hand out.
pub struct ChildIterator {
    current: Option<usize>,
}

impl ChildIterator {
    pub closed spec fn current_view(&self) -> Option<usize> {
        self.current
    }

    /// The cursor names a layer of `tree`, if any.
    pub open spec fn in_range(&self, tree: &LayerTree) -> bool {
        match self.current_view() {
            Some(n) => n < tree.len_view(),
            None => true,
        }
    }

    /// Hands out the current child and moves to its next sibling.
    pub fn next(&mut self, tree: &LayerTree) -> (r: Option<usize>)
        requires
            tree.wf(),
            old(self).in_range(tree),
        ensures
            r == old(self).current_view(),
            final(self).current_view() == (match r {
                Some(n) => tree.next_view(n as int),
                None => None,
            }),
            final(self).in_range(tree),
    {
        match self.current {
            None => None,
            Some(n) => {
                proof {
                    assert(tree.node_ok(n as int));
                    if let Some(p) = tree.parent_view(n as int) {
                        let s = tree.lists@[p as int];
                        let j = choose|j: int| 0 <= j < s.len() && s[j] == n;
                        assert(tree.linked_at(p as int, j));
                        if j + 1 < s.len() {
                            assert(tree.linked_at(p as int, j + 1));
                        }
                    }
                }
                self.current = tree.layers[n].common().next_sibling;
                Some(n)
            },
        }
    }
}


/// In a well-formed tree, the child list of a container is exactly what its links
/// describe: the first child has no previous sibling, the last child has no next
/// sibling, following `next_sibling` from the first child visits the list in order,
/// every attached child appears once, and a layer is in the list exactly when its
/// parent link names the container. Every mutating operation keeps the tree
/// well-formed, so this holds after each of them.
pub proof fn lemma_child_list_shape(t: &LayerTree, c: int)
    requires
        t.wf(),
        0 <= c < t.len_view(),
    ensures
        t.child_list(c).no_duplicates(),
        t.first_view(c) == (if t.child_list(c).len() == 0 { None } else { Some(t.child_list(c)[0]) }),
        t.last_view(c) == (if t.child_list(c).len() == 0 { None } else {
            Some(t.child_list(c)[t.child_list(c).len() - 1])
        }),
        t.child_list(c).len() > 0 ==> t.prev_view(t.child_list(c)[0] as int) is None,
        t.child_list(c).len() > 0 ==> t.next_view(t.child_list(c)[t.child_list(c).len() - 1] as int) is None,
        forall|i: int| 0 <= i < t.child_list(c).len() - 1 ==>
            t.next_view(#[trigger] t.child_list(c)[i] as int) == Some(t.child_list(c)[i + 1]),
        forall|i: int| 0 < i < t.child_list(c).len() ==>
            t.prev_view(#[trigger] t.child_list(c)[i] as int) == Some(t.child_list(c)[i - 1]),
        forall|i: int| 0 <= i < t.child_list(c).len() ==> #[trigger] t.child_list(c)[i] < t.len_view(),
        forall|n: int| 0 <= n < t.len_view() ==>
            (t.child_list(c).contains(n as usize) <==> #[trigger] t.parent_view(n) == Some(c as usize)),
{
    let s = t.child_list(c);
    assert(t.ends_ok(c));
    if s.len() > 0 {
        assert(t.linked_at(c, 0));
        assert(t.linked_at(c, s.len() - 1));
    }
    assert forall|i: int| 0 <= i < s.len() - 1 implies t.next_view(#[trigger] s[i] as int) == Some(s[i + 1]) by {
        assert(t.linked_at(c, i));
    }
    assert forall|i: int| 0 < i < s.len() implies t.prev_view(#[trigger] s[i] as int) == Some(s[i - 1]) by {
        assert(t.linked_at(c, i));
    }
    assert forall|i: int| 0 <= i < s.len() implies #[trigger] s[i] < t.len_view() by {
        assert(t.linked_at(c, i));
    }
    assert forall|n: int| 0 <= n < t.len_view() implies
        (s.contains(n as usize) <==> #[trigger] t.parent_view(n) == Some(c as usize)) by {
        assert(t.node_ok(n));
        if s.contains(n as usize) {
            let j = choose|j: int| 0 <= j < s.len() && s[j] == n as usize;
            assert(t.linked_at(c, j));
        }
    }
}

/// In a well-formed tree, a layer without a parent has no siblings, and a layer with a
/// parent names a layer of the tree, in whose list it stands.
pub proof fn lemma_node_links(t: &LayerTree, n: int)
    requires
        t.wf(),
        0 <= n < t.len_view(),
    ensures
        t.parent_view(n) is None ==> t.prev_view(n) is None && t.next_view(n) is None,
        t.parent_view(n) is Some ==> t.parent_view(n)->Some_0 < t.len_view()
            && t.child_list(t.parent_view(n)->Some_0 as int).contains(n as usize),
{
    assert(t.node_ok(n));
}

impl LayerTree {
    /// Where following `next_sibling` links `k` times from `start` leads.
    pub open spec fn walk(&self, start: Option<usize>, k: nat) -> Option<usize>
        decreases k,
    {
        if k == 0 {
            start
        } else {
            match self.walk(start, (k - 1) as nat) {
                Some(n) => self.next_view(n as int),
                None => None,
            }
        }
    }
}

/// Every traversal of a container's children starts afresh at its first child:
/// following `next_sibling` links `k` times from there reaches the `k`th child of the
/// list, and nothing after the last. So two traversals with no change in between yield
/// the same sequence, the one that `children` returns.
pub proof fn lemma_walk_children(t: &LayerTree, c: int, k: nat)
    requires
        t.wf(),
        0 <= c < t.len_view(),
    ensures
        t.walk(t.first_view(c), k) == (if k < t.child_list(c).len() { Some(t.child_list(c)[k as int]) } else {
            None::<usize>
        }),
    decreases k,
{
    let s = t.child_list(c);
    assert(t.ends_ok(c));
    if k > 0 {
        lemma_walk_children(t, c, (k - 1) as nat);
        if k - 1 < s.len() {
            assert(t.linked_at(c, k - 1));
        }
    }
}

} // verus!
