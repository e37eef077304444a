use vstd::prelude::*;
use core::marker::PhantomData;

use crate::provide::{Direction, NodeId, Orientation};
use crate::storage::adj_map::index::LinkList;
use crate::storage::adj_map::links::same_orientation;

verus! {

/// The nodes of the links in `l` whose orientation is `o`, or of every link when `any`, in
/// order.
pub open spec fn oriented(l: Seq<(usize, Orientation)>, o: Orientation, any: bool) -> Seq<NodeId>
    decreases l.len(),
{
    if l.len() == 0 {
        Seq::empty()
    } else {
        let rest = oriented(l.drop_first(), o, any);
        if any || l[0].1 == o {
            seq![NodeId(l[0].0)].add(rest)
        } else {
            rest
        }
    }
}

/// Walks the links of a node and yields the node of each link with the wanted orientation;
/// every link qualifies in an undirected storage.
pub struct OrientedNeighbors<'a, Dir: Direction> {
    pub(crate) links: &'a LinkList,
    pub(crate) pos: usize,
    pub(crate) orientation: Orientation,
    pub(crate) phantom_dir: PhantomData<Dir>,
}

impl<'a, Dir: Direction> OrientedNeighbors<'a, Dir> {
    /// The links walked.
    pub closed spec fn spec_links(&self) -> Seq<(usize, Orientation)> {
        self.links@
    }

    /// The wanted orientation.
    pub closed spec fn spec_orientation(&self) -> Orientation {
        self.orientation
    }

    /// The walk has not run past the links.
    pub closed spec fn wf(&self) -> bool {
        self.pos <= self.links@.len()
    }

    /// The nodes still to be yielded.
    pub closed spec fn remaining(&self) -> Seq<NodeId> {
        oriented(self.links@.subrange(self.pos as int, self.links@.len() as int), self.orientation, !Dir::spec_is_directed())
    }

    /// # Returns
    /// A walk over `links` from the first link on.
    pub(crate) fn new(links: &'a LinkList, orientation: Orientation) -> (r: Self)
        ensures
            r.wf(),
            r.spec_links() == links@,
            r.spec_orientation() == orientation,
            r.remaining() == oriented(links@, orientation, !Dir::spec_is_directed()),
    {
        let r = OrientedNeighbors { links, pos: 0, orientation, phantom_dir: PhantomData };
        proof {
            assert(links@.subrange(0, links@.len() as int) =~= links@);
        }
        r
    }

    /// # Returns
    /// The next node, or `None` once the walk is over.
    pub fn next(&mut self) -> (r: Option<NodeId>)
        requires
            old(self).wf(),
        ensures
            final(self).wf(),
            final(self).spec_links() == old(self).spec_links(),
            final(self).spec_orientation() == old(self).spec_orientation(),
            old(self).remaining().len() == 0 ==> r is None && final(self).remaining() == old(self).remaining(),
            old(self).remaining().len() > 0 ==> r == Some(old(self).remaining()[0])
                && final(self).remaining() == old(self).remaining().drop_first(),
    {
        let any = Dir::is_undirected();
        let len = self.links.len();
        while self.pos < len
            invariant
                self.wf(),
                len == self.links@.len(),
                any == !Dir::spec_is_directed(),
                self.links == old(self).links,
                self.orientation == old(self).orientation,
                self.remaining() == old(self).remaining(),
            decreases len - self.pos,
        {
            let (node, orientation) = self.links[self.pos];
            proof {
                let l = self.links@.subrange(self.pos as int, len as int);
                assert(l.drop_first() =~= self.links@.subrange(self.pos + 1, len as int));
                assert(l[0] == self.links@[self.pos as int]);
            }
            self.pos = self.pos + 1;
            if any || same_orientation(self.orientation, orientation) {
                return Some(NodeId(node));
            }
        }
        proof {
            assert(self.links@.subrange(self.pos as int, len as int).len() == 0);
        }
        None
    }
}

} // verus!
