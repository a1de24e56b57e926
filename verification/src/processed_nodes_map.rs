use vstd::prelude::*;

verus! {

/// A dense set of wire numbers, one bit per wire, eight wires to a byte.
pub struct ProcessedNodesSet {
    set: Vec<u8>,
}

/// Whether bit `bit` of `byte` is set.
pub open spec fn bit_of(byte: u8, bit: u16) -> bool {
    byte & (1u8 << bit) > 0
}

proof fn lemma_bit_set(byte: u8, bit: u16, other: u16)
    by (bit_vector)
    requires
        bit < 8,
        other < 8,
    ensures
        (byte | (1u8 << bit)) & (1u8 << other) > 0 <==> (other == bit || byte & (1u8 << other) > 0),
{
}

proof fn lemma_bit_clear(byte: u8, bit: u16, other: u16)
    by (bit_vector)
    requires
        bit < 8,
        other < 8,
    ensures
        (byte & !(byte & (1u8 << bit))) & (1u8 << other) > 0 <==> (other != bit && byte & (1u8
            << other) > 0),
{
}

proof fn lemma_bit_zero(bit: u16)
    by (bit_vector)
    requires
        bit < 8,
    ensures
        !(0u8 & (1u8 << bit) > 0),
{
}

impl ProcessedNodesSet {
    /// Number of wires the set has room for.
    pub closed spec fn capacity(&self) -> int {
        (self.set@.len() * 8) as int
    }

    /// Number of bytes that hold the bits.
    pub closed spec fn spec_byte_count(&self) -> int {
        self.set@.len() as int
    }

    /// Membership of wire `node_number`; false beyond the capacity.
    pub closed spec fn has(&self, node_number: int) -> bool {
        0 <= node_number < self.set@.len() * 8 && bit_of(
            self.set@[node_number / 8],
            (node_number % 8) as u16,
        )
    }

    /// The capacity is the byte count times eight.
    pub proof fn lemma_capacity(&self)
        ensures
            self.capacity() == self.spec_byte_count() * 8,
            self.spec_byte_count() >= 0,
            forall|n: int| self.has(n) ==> 0 <= n < self.capacity(),
    {
    }

    /// An empty set with room for `node_count` wires, rounded up to whole bytes.
    pub fn new(node_count: usize) -> (set: Self)
        ensures
            set.spec_byte_count() == (node_count + 7) / 8,
            set.capacity() >= node_count,
            forall|n: int| !set.has(n),
    {
        let elem_count = (node_count / 8) + (if node_count % 8 != 0 {
            1
        } else {
            0
        });
        let mut set: Vec<u8> = Vec::new();
        let mut i: usize = 0;
        while i < elem_count
            invariant
                i <= elem_count,
                set@.len() == i,
                forall|k: int| 0 <= k < i ==> set@[k] == 0u8,
            decreases elem_count - i,
        {
            set.push(0u8);
            i += 1;
        }
        let made = ProcessedNodesSet { set };
        assert forall|n: int| !made.has(n) by {
            if 0 <= n < made.set@.len() * 8 {
                lemma_bit_zero((n % 8) as u16);
            }
        }
        made
    }

    /// Number of bytes that hold the bits.
    pub fn byte_count(&self) -> (count: usize)
        ensures
            count == self.spec_byte_count(),
    {
        self.set.len()
    }

    /// Whether wire `node_number` is in the set.
    pub fn contains(&self, node_number: u16) -> (found: bool)
        requires
            node_number < self.capacity(),
        ensures
            found == self.has(node_number as int),
    {
        let byte_index = (node_number / 8) as usize;
        let bit_index = node_number % 8;
        let mask = 1u8 << bit_index;
        self.set[byte_index] & mask > 0
    }

    /// Puts wire `node_number` into the set.
    pub fn set(&mut self, node_number: u16)
        requires
            node_number < old(self).capacity(),
        ensures
            final(self).capacity() == old(self).capacity(),
            final(self).spec_byte_count() == old(self).spec_byte_count(),
            forall|n: int| final(self).has(n) == (n == node_number || old(self).has(n)),
    {
        let byte_index = (node_number / 8) as usize;
        let bit_index = node_number % 8;
        let mask = 1u8 << bit_index;
        let byte = self.set[byte_index];
        self.set[byte_index] = byte | mask;
        assert forall|n: int| self.has(n) == (n == node_number || old(self).has(n)) by {
            if 0 <= n < self.set@.len() * 8 && n / 8 == byte_index {
                lemma_bit_set(byte, bit_index, (n % 8) as u16);
            }
        }
    }

    /// Takes every wire listed in `nodes` out of the set.
    pub fn clear(&mut self, nodes: &[u16])
        requires
            forall|i: int| 0 <= i < nodes@.len() ==> nodes@[i] < old(self).capacity(),
        ensures
            final(self).capacity() == old(self).capacity(),
            final(self).spec_byte_count() == old(self).spec_byte_count(),
            forall|n: int|
                final(self).has(n) == (old(self).has(n) && !(0 <= n < 65536 && nodes@.contains(
                    n as u16,
                ))),
    {
        let mut i: usize = 0;
        while i < nodes.len()
            invariant
                i <= nodes@.len(),
                self.set@.len() == old(self).set@.len(),
                forall|k: int| 0 <= k < nodes@.len() ==> nodes@[k] < old(self).capacity(),
                forall|n: int|
                    self.has(n) == (old(self).has(n) && !(0 <= n < 65536 && nodes@.take(
                        i as int,
                    ).contains(n as u16))),
            decreases nodes@.len() - i,
        {
            let node_number = nodes[i];
            let byte_index = (node_number / 8) as usize;
            let bit_index = node_number % 8;
            let mask = 1u8 << bit_index;
            let byte = self.set[byte_index];
            let ghost before = *self;
            self.set[byte_index] = byte & !(byte & mask);
            proof {
                let done = nodes@.take(i as int);
                let more = nodes@.take(i as int + 1);
                assert(more =~= done.push(node_number));
                assert forall|n: int|
                    self.has(n) == (old(self).has(n) && !(0 <= n < 65536 && more.contains(
                        n as u16,
                    ))) by {
                    if 0 <= n < self.set@.len() * 8 && n / 8 == byte_index {
                        lemma_bit_clear(byte, bit_index, (n % 8) as u16);
                    }
                    assert(before.has(n) == (old(self).has(n) && !(0 <= n < 65536 && done.contains(
                        n as u16,
                    ))));
                    if 0 <= n < 65536 {
                        if more.contains(n as u16) {
                            let k = choose|k: int| 0 <= k < more.len() && more[k] == n as u16;
                            if k < i {
                                assert(done[k] == n as u16);
                            }
                        }
                        if done.contains(n as u16) {
                            let k = choose|k: int| 0 <= k < done.len() && done[k] == n as u16;
                            assert(more[k] == n as u16);
                        }
                        assert(more[i as int] == node_number);
                    }
                }
            }
            i += 1;
        }
        assert(nodes@.take(nodes@.len() as int) =~= nodes@);
    }
}

} // verus!
