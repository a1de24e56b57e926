use vstd::prelude::*;

verus! {

/// The relaxation driver's pair of work lists: the list being processed and
/// the list that collects the wires to process in the following pass.
pub struct RecalcSwapList {
    lists: [Vec<u16>; 2],
    indices: (u8, u8),
}

impl RecalcSwapList {
    /// The two indices name the two lists, one each.
    pub closed spec fn wf(&self) -> bool {
        (self.indices.0 == 0 && self.indices.1 == 1) || (self.indices.0 == 1 && self.indices.1
            == 0)
    }

    /// The list being processed.
    pub closed spec fn current(&self) -> Seq<u16> {
        self.lists@[self.indices.0 as int]@
    }

    /// The list collected for the following pass.
    pub closed spec fn pending(&self) -> Seq<u16> {
        self.lists@[self.indices.1 as int]@
    }

    /// Two empty lists.
    pub fn new() -> (list: Self)
        ensures
            list.wf(),
            list.current() == Seq::<u16>::empty(),
            list.pending() == Seq::<u16>::empty(),
    {
        RecalcSwapList {
            lists: [Vec::with_capacity(14330), Vec::with_capacity(5120)],
            indices: (0, 1),
        }
    }

    /// Starts a relaxation: `nodes` becomes the current list and nothing is pending.
    pub fn init(&mut self, nodes: &[u16])
        ensures
            final(self).wf(),
            final(self).current() == nodes@,
            final(self).pending() == Seq::<u16>::empty(),
    {
        self.lists[0].clear();
        self.lists[1].clear();
        let mut i: usize = 0;
        while i < nodes.len()
            invariant
                i <= nodes@.len(),
                self.lists@[0]@ == nodes@.take(i as int),
                self.lists@[1]@ == Seq::<u16>::empty(),
            decreases nodes@.len() - i,
        {
            self.lists[0].push(nodes[i]);
            assert(nodes@.take(i as int + 1) =~= nodes@.take(i as int).push(nodes@[i as int]));
            i += 1;
        }
        assert(nodes@.take(nodes@.len() as int) =~= nodes@);
        self.indices = (0, 1);
    }

    /// The list being processed.
    pub fn cur_list(&self) -> (list: &Vec<u16>)
        requires
            self.wf(),
        ensures
            list@ == self.current(),
    {
        let (cur_list, _) = self.indices;
        &self.lists[cur_list as usize]
    }

    /// Appends `node` to the pending list.
    pub fn push_next_list(&mut self, node: u16)
        requires
            old(self).wf(),
        ensures
            final(self).wf(),
            final(self).current() == old(self).current(),
            final(self).pending() == old(self).pending().push(node),
    {
        let (_, next_list) = self.indices;
        self.lists[next_list as usize].push(node);
    }

    /// The list collected for the following pass.
    pub fn next_list(&self) -> (list: &Vec<u16>)
        requires
            self.wf(),
        ensures
            list@ == self.pending(),
    {
        let (_, next_list) = self.indices;
        &self.lists[next_list as usize]
    }

    /// Whether nothing is pending.
    pub fn is_next_list_empty(&self) -> (empty: bool)
        requires
            self.wf(),
        ensures
            empty == (self.pending().len() == 0),
    {
        let (_, next_list) = self.indices;
        self.lists[next_list as usize].is_empty()
    }

    /// Ends a pass: the pending list becomes the current one, and the list
    /// just processed is emptied to collect the pass after it.
    pub fn swap(&mut self)
        requires
            old(self).wf(),
        ensures
            final(self).wf(),
            final(self).current() == old(self).pending(),
            final(self).pending() == Seq::<u16>::empty(),
    {
        let (cur_list, next_list) = self.indices;
        self.lists[cur_list as usize].clear();
        self.indices = (next_list, cur_list);
    }
}

} // verus!
