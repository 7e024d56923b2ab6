use vstd::prelude::*;

verus! {

/// An object resident in a simulated cache.
#[derive(Debug, PartialEq, Eq, Structural, Clone, Copy)]
pub struct Object {
    pub first_access: u64,
    pub key: u64,
    pub size: u32,
}

/// One slot of the arena: an object and the slots of its neighbours.
#[derive(Clone, Copy)]
struct Node {
    object: Object,
    prev: Option<usize>,
    next: Option<usize>,
}

/// A doubly-linked recency list kept in an arena of slots, most recently used
/// first. Slots stay put while the list is relinked, so a slot number can be
/// held elsewhere as the address of an object.
pub struct RecencyList {
    nodes: Vec<Node>,
    free: Vec<usize>,
    head: Option<usize>,
    tail: Option<usize>,
    /// The slots in list order, head first.
    order: Ghost<Seq<usize>>,
}

impl RecencyList {
    /// The slots in list order, head first.
    pub closed spec fn slots(&self) -> Seq<usize> {
        self.order@
    }

    /// The objects in list order, head first.
    pub closed spec fn view(&self) -> Seq<Object> {
        Seq::new(self.order@.len(), |i: int| self.nodes@[self.order@[i] as int].object)
    }

    pub closed spec fn wf(&self) -> bool {
        let o = self.order@;
        let n = self.nodes@;
        &&& o.no_duplicates()
        &&& forall|i: int| 0 <= i < o.len() ==> #[trigger] o[i] < n.len()
        &&& forall|i: int|
            0 <= i < o.len() ==> (#[trigger] n[o[i] as int]).prev == (if i == 0 {
                None
            } else {
                Some(o[i - 1])
            })
        &&& forall|i: int|
            0 <= i < o.len() ==> (#[trigger] n[o[i] as int]).next == (if i == o.len() - 1 {
                None
            } else {
                Some(o[i + 1])
            })
        &&& self.head == (if o.len() == 0 {
            None
        } else {
            Some(o[0])
        })
        &&& self.tail == (if o.len() == 0 {
            None
        } else {
            Some(o.last())
        })
        &&& self.free@.no_duplicates()
        &&& forall|j: int|
            0 <= j < self.free@.len() ==> #[trigger] self.free@[j] < n.len() && !o.contains(
                self.free@[j],
            )
    }

    pub proof fn lemma_slots_distinct(&self)
        requires
            self.wf(),
        ensures
            self.slots().no_duplicates(),
            self.view().len() == self.slots().len(),
    {
    }

    pub fn new() -> (r: RecencyList)
        ensures
            r.wf(),
            r.view() == Seq::<Object>::empty(),
            r.slots() == Seq::<usize>::empty(),
    {
        let r = RecencyList {
            nodes: Vec::new(),
            free: Vec::new(),
            head: None,
            tail: None,
            order: Ghost(Seq::empty()),
        };
        assert(r.view() =~= Seq::<Object>::empty());
        r
    }

    /// Puts `object` at the head and returns the slot that now holds it.
    pub fn push_front(&mut self, object: Object) -> (slot: usize)
        requires
            old(self).wf(),
        ensures
            final(self).wf(),
            final(self).view() == seq![object] + old(self).view(),
            final(self).slots() == seq![slot] + old(self).slots(),
    {
        let ghost o = self.order@;
        let slot = match self.free.pop() {
            Some(s) => {
                proof {
                    assert(old(self).free@[old(self).free@.len() - 1] == s);
                }
                s
            },
            None => {
                let s = self.nodes.len();
                self.nodes.push(Node { object, prev: None, next: None });
                s
            },
        };
        assert(!o.contains(slot));
        let head = self.head;
        self.nodes.set(slot, Node { object, prev: None, next: head });
        match head {
            Some(h) => {
                let mut hn = self.nodes[h];
                hn.prev = Some(slot);
                self.nodes.set(h, hn);
            },
            None => {
                self.tail = Some(slot);
            },
        }
        self.head = Some(slot);
        self.order = Ghost(seq![slot] + o);
        proof {
            let no = self.order@;
            assert forall|i: int| 0 <= i < no.len() implies #[trigger] no[i] < self.nodes@.len() by {
                if i > 0 {
                    assert(no[i] == o[i - 1]);
                }
            }
            assert forall|i: int| 0 < i < no.len() implies no[i] != slot by {
                assert(no[i] == o[i - 1]);
                assert(o.contains(o[i - 1]));
            }
            assert(no.no_duplicates());
            assert forall|j: int| 0 <= j < self.free@.len() implies #[trigger] self.free@[j]
                < self.nodes@.len() && !no.contains(self.free@[j]) by {
                assert(old(self).free@[j] == self.free@[j]);
                if no.contains(self.free@[j]) {
                    let k = choose|k: int| 0 <= k < no.len() && no[k] == self.free@[j];
                    if k == 0 {
                        assert(old(self).free@.no_duplicates());
                    } else {
                        assert(o[k - 1] == self.free@[j]);
                    }
                }
            }
        }
        assert(self.view() =~= seq![object] + old(self).view());
        slot
    }

    /// Takes out the object at position `i`, which sits in slot `slot`.
    pub fn remove(&mut self, slot: usize, Ghost(i): Ghost<int>) -> (object: Object)
        requires
            old(self).wf(),
            0 <= i < old(self).slots().len(),
            old(self).slots()[i] == slot,
        ensures
            final(self).wf(),
            object == old(self).view()[i],
            final(self).view() == old(self).view().remove(i),
            final(self).slots() == old(self).slots().remove(i),
    {
        let ghost o = self.order@;
        let node = self.nodes[slot];
        assert(node == self.nodes@[o[i] as int]);
        match node.prev {
            Some(p) => {
                let mut pn = self.nodes[p];
                pn.next = node.next;
                self.nodes.set(p, pn);
            },
            None => {
                self.head = node.next;
            },
        }
        match node.next {
            Some(nx) => {
                let mut nn = self.nodes[nx];
                nn.prev = node.prev;
                self.nodes.set(nx, nn);
            },
            None => {
                self.tail = node.prev;
            },
        }
        self.order = Ghost(o.remove(i));
        proof {
            let no = self.order@;
            assert forall|a: int, b: int|
                0 <= a < o.len() && 0 <= b < o.len() && a != b implies o[a] != o[b] by {}
            assert forall|k: int| 0 <= k < no.len() implies #[trigger] self.nodes@[no[k] as int]
                == (if k < i - 1 || k > i {
                old(self).nodes@[no[k] as int]
            } else {
                self.nodes@[no[k] as int]
            }) by {
                if k < i {
                    assert(no[k] == o[k]);
                } else {
                    assert(no[k] == o[k + 1]);
                }
            }
            assert forall|k: int| 0 <= k < no.len() implies (#[trigger] self.nodes@[no[k] as int]).prev
                == (if k == 0 {
                None
            } else {
                Some(no[k - 1])
            }) by {
                if k < i {
                    assert(no[k] == o[k]);
                    if k > 0 {
                        assert(no[k - 1] == o[k - 1]);
                    }
                } else {
                    assert(no[k] == o[k + 1]);
                    if k > i {
                        assert(no[k - 1] == o[k]);
                    } else if k > 0 {
                        assert(no[k - 1] == o[k - 1]);
                    }
                }
            }
            assert forall|k: int| 0 <= k < no.len() implies (#[trigger] self.nodes@[no[k] as int]).next
                == (if k == no.len() - 1 {
                None
            } else {
                Some(no[k + 1])
            }) by {
                if k < i {
                    assert(no[k] == o[k]);
                    if k < i - 1 {
                        assert(no[k + 1] == o[k + 1]);
                    } else if k + 1 < no.len() {
                        assert(no[k + 1] == o[k + 2]);
                    }
                } else {
                    assert(no[k] == o[k + 1]);
                    if k + 1 < no.len() {
                        assert(no[k + 1] == o[k + 2]);
                    }
                }
            }
        }
        assert(self.view() =~= old(self).view().remove(i));
        self.free.push(slot);
        proof {
            let no = self.order@;
            assert forall|k: int| 0 <= k < no.len() implies #[trigger] no[k] < self.nodes@.len() by {
                if k < i {
                    assert(no[k] == o[k]);
                } else {
                    assert(no[k] == o[k + 1]);
                }
            }
            assert(!no.contains(slot)) by {
                if no.contains(slot) {
                    let k = choose|k: int| 0 <= k < no.len() && no[k] == slot;
                    if k < i {
                        assert(no[k] == o[k]);
                    } else {
                        assert(no[k] == o[k + 1]);
                    }
                }
            }
            assert forall|j: int| 0 <= j < self.free@.len() implies #[trigger] self.free@[j]
                < self.nodes@.len() && !no.contains(self.free@[j]) by {
                if j < self.free@.len() - 1 {
                    assert(self.free@[j] == old(self).free@[j]);
                    if no.contains(self.free@[j]) {
                        let k = choose|k: int| 0 <= k < no.len() && no[k] == self.free@[j];
                        if k < i {
                            assert(no[k] == o[k]);
                        } else {
                            assert(no[k] == o[k + 1]);
                        }
                    }
                }
            }
            assert forall|a: int, b: int|
                0 <= a < self.free@.len() && 0 <= b < self.free@.len() && a != b implies self.free@[a]
                != self.free@[b] by {
                if a < self.free@.len() - 1 && b < self.free@.len() - 1 {
                } else if a < self.free@.len() - 1 {
                    assert(o.contains(slot));
                } else if b < self.free@.len() - 1 {
                    assert(o.contains(slot));
                }
            }
            assert(self.free@.no_duplicates());
        }
        node.object
    }

    /// Takes out the least recently used object.
    pub fn pop_back(&mut self) -> (object: Object)
        requires
            old(self).wf(),
            old(self).view().len() > 0,
        ensures
            final(self).wf(),
            object == old(self).view().last(),
            final(self).view() == old(self).view().drop_last(),
            final(self).slots() == old(self).slots().drop_last(),
    {
        let ghost o = self.order@;
        let slot = match self.tail {
            Some(t) => t,
            None => 0,
        };
        let object = self.remove(slot, Ghost((o.len() - 1) as int));
        assert(old(self).view().remove(o.len() - 1) =~= old(self).view().drop_last());
        assert(o.remove(o.len() - 1) =~= o.drop_last());
        object
    }
}

} // verus!
