use crate::keys::GenericKey;
use crate::node::NodeUuid;
use vstd::prelude::*;

verus! {

/// What the check-out queue of one key says about this node.
#[derive(Clone, Copy, PartialEq, Eq, Structural, Debug)]
pub enum RecordCheckOutState {
    /// Nobody holds or awaits the record.
    Empty,
    /// Another node holds it and this node waits in the queue.
    WaitingFor(NodeUuid),
    /// Another node holds it and this node is not in the queue.
    CheckedOutBy(NodeUuid),
    /// This node is at the head of the queue and may mutate the record.
    CheckedOut,
}

/// The check-out queues: for each (tree, key) the ordered list of node
/// UUIDs waiting to mutate that record; the head is the unique writer.
/// The relay holds the authoritative table, clients an eventually
/// consistent mirror of it.
#[derive(Clone, PartialEq, Eq, Debug)]
pub struct RecordBorrows {
    items: Vec<((String, GenericKey), Vec<NodeUuid>)>,
}

impl View for RecordBorrows {
    type V = Seq<((String, GenericKey), Vec<NodeUuid>)>;

    closed spec fn view(&self) -> Seq<((String, GenericKey), Vec<NodeUuid>)> {
        self.items@
    }
}

/// The queue entry stored under a (tree, key) pair.
pub open spec fn bq_get(
    s: Seq<((String, GenericKey), Vec<NodeUuid>)>,
    t: Seq<char>,
    k: GenericKey,
) -> Option<Vec<NodeUuid>>
    decreases s.len(),
{
    if s.len() == 0 {
        None
    } else if s[0].0.0@ == t && s[0].0.1 == k {
        Some(s[0].1)
    } else {
        bq_get(s.drop_first(), t, k)
    }
}

/// Pairwise distinct (tree, key) pairs.
pub open spec fn bq_unique(s: Seq<((String, GenericKey), Vec<NodeUuid>)>) -> bool {
    forall|i: int, j: int|
        0 <= i < j < s.len() ==> !((#[trigger] s[i].0).0@ == (#[trigger] s[j].0).0@ && s[i].0.1
            == s[j].0.1)
}

pub proof fn lemma_bq_get_at(
    s: Seq<((String, GenericKey), Vec<NodeUuid>)>,
    i: int,
    t: Seq<char>,
    k: GenericKey,
)
    requires
        0 <= i < s.len(),
        s[i].0.0@ == t,
        s[i].0.1 == k,
        forall|j: int| 0 <= j < i ==> !((#[trigger] s[j].0).0@ == t && s[j].0.1 == k),
    ensures
        bq_get(s, t, k) == Some(s[i].1),
    decreases s.len(),
{
    if i > 0 {
        lemma_bq_get_at(s.drop_first(), i - 1, t, k);
    }
}

pub proof fn lemma_bq_get_absent(
    s: Seq<((String, GenericKey), Vec<NodeUuid>)>,
    t: Seq<char>,
    k: GenericKey,
)
    requires
        forall|j: int| 0 <= j < s.len() ==> !((#[trigger] s[j].0).0@ == t && s[j].0.1 == k),
    ensures
        bq_get(s, t, k) is None,
    decreases s.len(),
{
    if s.len() > 0 {
        lemma_bq_get_absent(s.drop_first(), t, k);
    }
}

pub proof fn lemma_bq_get_push(
    s: Seq<((String, GenericKey), Vec<NodeUuid>)>,
    p: ((String, GenericKey), Vec<NodeUuid>),
    t: Seq<char>,
    k: GenericKey,
)
    ensures
        bq_get(s.push(p), t, k) == if bq_get(s, t, k) is Some {
            bq_get(s, t, k)
        } else if p.0.0@ == t && p.0.1 == k {
            Some(p.1)
        } else {
            None
        },
    decreases s.len(),
{
    if s.len() == 0 {
        assert(s.push(p).len() == 1);
        assert(s.push(p)[0] == p);
        assert(s.push(p).drop_first() =~= Seq::<((String, GenericKey), Vec<NodeUuid>)>::empty());
        if !(p.0.0@ == t && p.0.1 == k) {
            assert(bq_get(s.push(p), t, k) == bq_get(
                Seq::<((String, GenericKey), Vec<NodeUuid>)>::empty(),
                t,
                k,
            ));
        }
    } else {
        assert(s.push(p).drop_first() =~= s.drop_first().push(p));
        lemma_bq_get_push(s.drop_first(), p, t, k);
        assert(s.push(p)[0] == s[0]);
    }
}

pub proof fn lemma_bq_get_update(
    s: Seq<((String, GenericKey), Vec<NodeUuid>)>,
    i: int,
    p: ((String, GenericKey), Vec<NodeUuid>),
    t: Seq<char>,
    k: GenericKey,
)
    requires
        0 <= i < s.len(),
        bq_unique(s),
        p.0.0@ == s[i].0.0@,
        p.0.1 == s[i].0.1,
    ensures
        bq_get(s.update(i, p), t, k) == if p.0.0@ == t && p.0.1 == k {
            Some(p.1)
        } else {
            bq_get(s, t, k)
        },
    decreases s.len(),
{
    if i == 0 {
        assert(s.update(0, p).drop_first() =~= s.drop_first());
    } else {
        assert(s.update(i, p).drop_first() =~= s.drop_first().update(i - 1, p));
        assert(bq_unique(s.drop_first())) by {
            assert forall|x: int, y: int|
                0 <= x < y < s.drop_first().len() implies !((#[trigger] s.drop_first()[x].0).0@
                == (#[trigger] s.drop_first()[y].0).0@ && s.drop_first()[x].0.1
                == s.drop_first()[y].0.1) by {
                assert(s.drop_first()[x] == s[x + 1]);
                assert(s.drop_first()[y] == s[y + 1]);
            }
        }
        lemma_bq_get_update(s.drop_first(), i - 1, p, t, k);
        assert(s.update(i, p)[0] == s[0]);
        if p.0.0@ == t && p.0.1 == k {
            assert(!(s[0].0.0@ == s[i].0.0@ && s[0].0.1 == s[i].0.1));
        }
    }
}

pub proof fn lemma_bq_get_remove(
    s: Seq<((String, GenericKey), Vec<NodeUuid>)>,
    i: int,
    t: Seq<char>,
    k: GenericKey,
)
    requires
        0 <= i < s.len(),
        bq_unique(s),
    ensures
        bq_get(s.remove(i), t, k) == if s[i].0.0@ == t && s[i].0.1 == k {
            None::<Vec<NodeUuid>>
        } else {
            bq_get(s, t, k)
        },
    decreases s.len(),
{
    if i == 0 {
        assert(s.remove(0) =~= s.drop_first());
        if s[0].0.0@ == t && s[0].0.1 == k {
            assert(forall|j: int|
                0 <= j < s.drop_first().len() ==> !((#[trigger] s.drop_first()[j].0).0@ == t
                    && s.drop_first()[j].0.1 == k));
            lemma_bq_get_absent(s.drop_first(), t, k);
        }
    } else {
        assert(s.remove(i).drop_first() =~= s.drop_first().remove(i - 1));
        assert(bq_unique(s.drop_first())) by {
            assert forall|x: int, y: int|
                0 <= x < y < s.drop_first().len() implies !((#[trigger] s.drop_first()[x].0).0@
                == (#[trigger] s.drop_first()[y].0).0@ && s.drop_first()[x].0.1
                == s.drop_first()[y].0.1) by {
                assert(s.drop_first()[x] == s[x + 1]);
                assert(s.drop_first()[y] == s[y + 1]);
            }
        }
        lemma_bq_get_remove(s.drop_first(), i - 1, t, k);
        assert(s.remove(i)[0] == s[0]);
        if s[i].0.0@ == t && s[i].0.1 == k {
            assert(!(s[0].0.0@ == s[i].0.0@ && s[0].0.1 == s[i].0.1));
        }
    }
}

/// The queue of one (tree, key): the stored entry, or empty where none is
/// stored.
pub open spec fn spec_queue(b: RecordBorrows, t: Seq<char>, k: GenericKey) -> Seq<NodeUuid> {
    match bq_get(b@, t, k) {
        Some(q) => q@,
        None => Seq::<NodeUuid>::empty(),
    }
}

/// What a queue says about the node `self_uuid`.
pub open spec fn spec_checkout_state(q: Seq<NodeUuid>, self_uuid: NodeUuid) -> RecordCheckOutState {
    if q.len() == 0 {
        RecordCheckOutState::Empty
    } else if q[0] == self_uuid {
        RecordCheckOutState::CheckedOut
    } else if q.contains(self_uuid) {
        RecordCheckOutState::WaitingFor(q[0])
    } else {
        RecordCheckOutState::CheckedOutBy(q[0])
    }
}

/// The queue head is unique: two different nodes are never both at the
/// head of the same key's queue, so at most one node's mutations can pass
/// the check-out test.
pub proof fn lemma_checkout_exclusive(q: Seq<NodeUuid>, u1: NodeUuid, u2: NodeUuid)
    requires
        u1 != u2,
    ensures
        !(spec_checkout_state(q, u1) is CheckedOut && spec_checkout_state(q, u2) is CheckedOut),
{
}

/// Copies a queue of uuids.
pub(crate) fn copy_queue(q: &Vec<NodeUuid>) -> (r: Vec<NodeUuid>)
    ensures
        r@ == q@,
{
    let mut out: Vec<NodeUuid> = Vec::new();
    let mut i: usize = 0;
    while i < q.len()
        invariant
            0 <= i <= q@.len(),
            out@ =~= q@.subrange(0, i as int),
        decreases q@.len() - i,
    {
        out.push(q[i]);
        i = i + 1;
    }
    proof {
        assert(out@ =~= q@);
    }
    out
}

/// Whether a uuid occurs in a queue.
pub fn uuid_in(q: &Vec<NodeUuid>, u: NodeUuid) -> (r: bool)
    ensures
        r == q@.contains(u),
{
    let mut i: usize = 0;
    while i < q.len()
        invariant
            0 <= i <= q@.len(),
            forall|j: int| 0 <= j < i ==> q@[j] != u,
        decreases q@.len() - i,
    {
        if q[i] == u {
            return true;
        }
        i = i + 1;
    }
    false
}

impl RecordBorrows {
    pub open spec fn wf(&self) -> bool {
        bq_unique(self@)
    }

    pub fn new() -> (r: RecordBorrows)
        ensures
            r@ == Seq::<((String, GenericKey), Vec<NodeUuid>)>::empty(),
            r.wf(),
    {
        RecordBorrows { items: Vec::new() }
    }

    pub fn entries_len(&self) -> (r: usize)
        ensures
            r == self@.len(),
    {
        self.items.len()
    }

    pub fn entry_at(&self, i: usize) -> (r: &((String, GenericKey), Vec<NodeUuid>))
        requires
            i < self@.len(),
        ensures
            *r == self@[i as int],
    {
        &self.items[i]
    }

    fn find(&self, tree: &String, key: GenericKey) -> (r: Option<usize>)
        ensures
            match r {
                Some(i) => 0 <= i < self@.len() && self@[i as int].0.0@ == tree@ && self@[
                    i as int
                ].0.1 == key && forall|j: int|
                    0 <= j < i ==> !((#[trigger] self@[j].0).0@ == tree@ && self@[j].0.1 == key),
                None => forall|j: int|
                    0 <= j < self@.len() ==> !((#[trigger] self@[j].0).0@ == tree@ && self@[j].0.1
                        == key),
            },
    {
        let mut i: usize = 0;
        while i < self.items.len()
            invariant
                0 <= i <= self@.len(),
                forall|j: int|
                    0 <= j < i ==> !((#[trigger] self@[j].0).0@ == tree@ && self@[j].0.1 == key),
            decreases self@.len() - i,
        {
            if self.items[i].0.0.eq(tree) && self.items[i].0.1 == key {
                return Some(i);
            }
            i = i + 1;
        }
        None
    }

    /// The stored queue for one (tree, key), if any entry exists.
    pub fn get_queue(&self, tree: &String, key: GenericKey) -> (r: Option<&Vec<NodeUuid>>)
        requires
            self.wf(),
        ensures
            match r {
                Some(q) => bq_get(self@, tree@, key) == Some(*q),
                None => bq_get(self@, tree@, key) is None,
            },
    {
        match self.find(tree, key) {
            Some(i) => {
                proof {
                    lemma_bq_get_at(self@, i as int, tree@, key);
                }
                Some(&self.items[i].1)
            },
            None => {
                proof {
                    lemma_bq_get_absent(self@, tree@, key);
                }
                None
            },
        }
    }

    /// Replaces the queue of one (tree, key) with the relay's
    /// authoritative copy; every other queue is untouched.
    pub fn set_queue(&mut self, tree: &String, key: GenericKey, queue: Vec<NodeUuid>)
        requires
            old(self).wf(),
        ensures
            final(self).wf(),
            forall|t: Seq<char>, k: GenericKey|
                #[trigger] spec_queue(*final(self), t, k) == if t == tree@ && k == key {
                    queue@
                } else {
                    spec_queue(*old(self), t, k)
                },
    {
        let ghost qview = queue@;
        match self.find(tree, key) {
            Some(i) => {
                let pair = (self.items[i].0.0.clone(), key);
                self.items[i] = (pair, queue);
                proof {
                    assert forall|t: Seq<char>, k: GenericKey|
                        #[trigger] spec_queue(*self, t, k) == if t == tree@ && k == key {
                            qview
                        } else {
                            spec_queue(*old(self), t, k)
                        } by {
                        lemma_bq_get_update(old(self)@, i as int, self@[i as int], t, k);
                        assert(self@ =~= old(self)@.update(i as int, self@[i as int]));
                    }
                    assert forall|x: int, y: int|
                        0 <= x < y < self@.len() implies !((#[trigger] self@[x].0).0@
                        == (#[trigger] self@[y].0).0@ && self@[x].0.1 == self@[y].0.1) by {
                        assert(!((old(self)@[x].0).0@ == (old(self)@[y].0).0@ && old(self)@[x].0.1
                            == old(self)@[y].0.1));
                    }
                }
            },
            None => {
                let owned: String = tree.clone();
                self.items.push(((owned, key), queue));
                proof {
                    lemma_bq_get_absent(old(self)@, tree@, key);
                    assert forall|t: Seq<char>, k: GenericKey|
                        #[trigger] spec_queue(*self, t, k) == if t == tree@ && k == key {
                            qview
                        } else {
                            spec_queue(*old(self), t, k)
                        } by {
                        lemma_bq_get_push(old(self)@, self@[self@.len() - 1], t, k);
                    }
                    assert forall|x: int, y: int|
                        0 <= x < y < self@.len() implies !((#[trigger] self@[x].0).0@
                        == (#[trigger] self@[y].0).0@ && self@[x].0.1 == self@[y].0.1) by {
                        if y < self@.len() - 1 {
                            assert(!((old(self)@[x].0).0@ == (old(self)@[y].0).0@ && old(
                                self,
                            )@[x].0.1 == old(self)@[y].0.1));
                        } else {
                            assert(!((old(self)@[x].0).0@ == tree@ && old(self)@[x].0.1 == key));
                        }
                    }
                }
            },
        }
    }

    /// Removes the queue entry of one (tree, key) outright, as the relay
    /// does when a record is removed.
    pub fn evict(&mut self, tree: &String, key: GenericKey)
        requires
            old(self).wf(),
        ensures
            final(self).wf(),
            forall|t: Seq<char>, k: GenericKey|
                #[trigger] spec_queue(*final(self), t, k) == if t == tree@ && k == key {
                    Seq::<NodeUuid>::empty()
                } else {
                    spec_queue(*old(self), t, k)
                },
    {
        match self.find(tree, key) {
            Some(i) => {
                self.items.remove(i);
                proof {
                    assert forall|t: Seq<char>, k: GenericKey|
                        #[trigger] spec_queue(*self, t, k) == if t == tree@ && k == key {
                            Seq::<NodeUuid>::empty()
                        } else {
                            spec_queue(*old(self), t, k)
                        } by {
                        lemma_bq_get_remove(old(self)@, i as int, t, k);
                        assert(self@ =~= old(self)@.remove(i as int));
                    }
                    assert forall|x: int, y: int|
                        0 <= x < y < self@.len() implies !((#[trigger] self@[x].0).0@
                        == (#[trigger] self@[y].0).0@ && self@[x].0.1 == self@[y].0.1) by {
                        let xo: int = if x < i {
                            x
                        } else {
                            x + 1
                        };
                        let yo: int = if y < i {
                            y
                        } else {
                            y + 1
                        };
                        assert(self@[x] == old(self)@[xo]);
                        assert(self@[y] == old(self)@[yo]);
                        assert(!((old(self)@[xo].0).0@ == (old(self)@[yo].0).0@ && old(
                            self,
                        )@[xo].0.1 == old(self)@[yo].0.1));
                    }
                }
            },
            None => {
                proof {
                    lemma_bq_get_absent(self@, tree@, key);
                }
            },
        }
    }

    /// Whether this node is at the head of the key's queue.
    pub fn is_checked_out(&self, tree: &String, key: GenericKey, self_uuid: NodeUuid) -> (r: bool)
        requires
            self.wf(),
        ensures
            r == (spec_queue(*self, tree@, key).len() > 0 && spec_queue(*self, tree@, key)[0]
                == self_uuid),
    {
        match self.get_queue(tree, key) {
            Some(q) => {
                if q.len() > 0 {
                    q[0] == self_uuid
                } else {
                    false
                }
            },
            None => false,
        }
    }

    /// The full check-out state of one key as seen by this node.
    pub fn checked_out_by(&self, tree: &String, key: GenericKey, self_uuid: NodeUuid) -> (r:
        RecordCheckOutState)
        requires
            self.wf(),
        ensures
            r == spec_checkout_state(spec_queue(*self, tree@, key), self_uuid),
    {
        match self.get_queue(tree, key) {
            Some(q) => {
                if q.len() == 0 {
                    RecordCheckOutState::Empty
                } else {
                    let head = q[0];
                    if head == self_uuid {
                        RecordCheckOutState::CheckedOut
                    } else if uuid_in(q, self_uuid) {
                        RecordCheckOutState::WaitingFor(head)
                    } else {
                        RecordCheckOutState::CheckedOutBy(head)
                    }
                }
            },
            None => RecordCheckOutState::Empty,
        }
    }

    /// Enqueues a node on one key's queue unless it already waits there;
    /// reports whether the queue changed.
    pub fn check_out_one(&mut self, tree: &String, key: GenericKey, uuid: NodeUuid) -> (changed:
        bool)
        requires
            old(self).wf(),
        ensures
            final(self).wf(),
            changed == !spec_queue(*old(self), tree@, key).contains(uuid),
            forall|t: Seq<char>, k: GenericKey|
                #[trigger] spec_queue(*final(self), t, k) == if t == tree@ && k == key && !spec_queue(
                    *old(self),
                    tree@,
                    key,
                ).contains(uuid) {
                    spec_queue(*old(self), tree@, key).push(uuid)
                } else {
                    spec_queue(*old(self), t, k)
                },
    {
        let mut q: Vec<NodeUuid> = match self.get_queue(tree, key) {
            Some(q) => copy_queue(q),
            None => Vec::new(),
        };
        proof {
            assert(q@ == spec_queue(*old(self), tree@, key));
        }
        if uuid_in(&q, uuid) {
            proof {
                assert forall|t: Seq<char>, k: GenericKey|
                    #[trigger] spec_queue(*self, t, k) == spec_queue(*old(self), t, k) by {}
            }
            false
        } else {
            q.push(uuid);
            self.set_queue(tree, key, q);
            true
        }
    }

    /// Dequeues a node from the head of one key's queue; ignored with a
    /// report of no change when the node is not at the head.
    pub fn return_one(&mut self, tree: &String, key: GenericKey, uuid: NodeUuid) -> (changed: bool)
        requires
            old(self).wf(),
        ensures
            final(self).wf(),
            changed == (spec_queue(*old(self), tree@, key).len() > 0 && spec_queue(
                *old(self),
                tree@,
                key,
            )[0] == uuid),
            forall|t: Seq<char>, k: GenericKey|
                #[trigger] spec_queue(*final(self), t, k) == if t == tree@ && k == key && spec_queue(
                    *old(self),
                    tree@,
                    key,
                ).len() > 0 && spec_queue(*old(self), tree@, key)[0] == uuid {
                    spec_queue(*old(self), tree@, key).drop_first()
                } else {
                    spec_queue(*old(self), t, k)
                },
    {
        let mut q: Vec<NodeUuid> = match self.get_queue(tree, key) {
            Some(q) => copy_queue(q),
            None => Vec::new(),
        };
        proof {
            assert(q@ == spec_queue(*old(self), tree@, key));
        }
        if q.len() > 0 && q[0] == uuid {
            q.remove(0);
            proof {
                assert(q@ =~= spec_queue(*old(self), tree@, key).drop_first());
            }
            self.set_queue(tree, key, q);
            true
        } else {
            false
        }
    }
}

} // verus!
