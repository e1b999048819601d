//! Static draft-tree topology.
//!
//! Node 0 is the root, the round's confirmed token; every other node is a drafted
//! candidate. A node attends its ancestor chain up to the root, and nothing else
//! of the tree.
use vstd::prelude::*;
use crate::arith::{ceil_div, div_ceil};

verus! {

/// Depth 3 with two children per node: fifteen nodes, fourteen of them drafts.
pub const EAGLE3_DEFAULT_TREE_BRANCHING: [usize; 3] = [2, 2, 2];

/// How many nodes a depth has.
pub open spec fn level_size(branching: Seq<usize>, d: int) -> nat
    decreases d,
{
    if d <= 0 {
        1
    } else {
        level_size(branching, d - 1) * branching[d - 1] as nat
    }
}

/// The first node of a depth: nodes are numbered breadth first.
pub open spec fn level_start(branching: Seq<usize>, d: int) -> nat
    decreases d,
{
    if d <= 0 {
        0
    } else {
        level_start(branching, d - 1) + level_size(branching, d - 1)
    }
}

/// The nodes a node attends: itself, its parent, and so on up to the root.
pub open spec fn chain_of(parent: Seq<usize>, node: nat) -> Seq<usize>
    decreases node,
{
    if node == 0 || parent[node as int] >= node {
        seq![node as usize]
    } else {
        seq![node as usize] + chain_of(parent, parent[node as int] as nat)
    }
}

/// A static draft tree, its nodes in breadth-first order.
pub struct Eagle3Tree {
    parent: Vec<usize>,
    depth: Vec<usize>,
    levels: Vec<Vec<usize>>,
}

impl Eagle3Tree {
    /// The parent of each node; the root is its own.
    pub closed spec fn parents(self) -> Seq<usize> {
        self.parent@
    }

    pub closed spec fn depths(self) -> Seq<usize> {
        self.depth@
    }

    /// The nodes of each depth.
    pub closed spec fn nodes_at(self, d: int) -> Seq<usize> {
        self.levels@[d]@
    }

    pub closed spec fn level_count(self) -> nat {
        self.levels@.len()
    }

    /// The nodes of a depth.
    pub open spec fn of_depth(self, d: int) -> Set<int> {
        Set::new(|c: int| 0 <= c < self.depths().len() && self.depths()[c] == d)
    }

    /// The children of a node. The root, its own parent, is not its own child.
    pub open spec fn children(self, node: int) -> Set<int> {
        Set::new(|c: int| 1 <= c < self.parents().len() && self.parents()[c] == node)
    }

    /// Parents come before their children, one depth above them.
    pub open spec fn well_formed(self) -> bool {
        &&& self.parents().len() == self.depths().len()
        &&& 0 < self.parents().len() <= usize::MAX
        &&& 0 < self.level_count() <= usize::MAX
        &&& self.parents()[0] == 0
        &&& self.depths()[0] == 0
        &&& forall|i: int|
            1 <= i < self.parents().len() ==> (#[trigger] self.parents()[i]) < i
        &&& forall|i: int|
            1 <= i < self.depths().len() ==> (#[trigger] self.depths()[i])
                == self.depths()[self.parents()[i] as int] + 1
    }

    /// The tree with `branching[d]` children under each node of depth `d`.
    pub open spec fn shaped(self, branching: Seq<usize>) -> bool {
        &&& self.parents().len() == level_start(branching, branching.len() as int + 1)
        &&& self.level_count() == branching.len() + 1
        &&& self.shaped_to(branching, branching.len() as int)
    }

    /// The shape of the first depths.
    pub open spec fn shaped_to(self, branching: Seq<usize>, n: int) -> bool {
        &&& forall|d: int|
            0 <= d <= n ==> (#[trigger] self.nodes_at(d)) == Seq::new(
                level_size(branching, d),
                |q: int| (level_start(branching, d) + q) as usize,
            )
        &&& forall|d: int, q: int|
            0 <= d <= n && 0 <= q < level_size(branching, d)
                ==> #[trigger] self.depths()[level_start(branching, d) + q] == d
        &&& forall|d: int, q: int|
            0 < d <= n && 0 <= q < level_size(branching, d)
                ==> #[trigger] self.parents()[level_start(branching, d) + q] == level_start(
                branching,
                d - 1,
            ) + q / branching[d - 1] as int
    }

    #[verifier::loop_isolation(false)]
    pub fn from_branching(branching: &[usize]) -> (r: Self)
        ensures
            r.well_formed(),
            r.shaped(branching@),
    {
        let ghost b = branching@;
        let mut tree = Eagle3Tree {
            parent: vec![0usize],
            depth: vec![0usize],
            levels: vec![vec![0usize]],
        };
        proof {
            reveal_with_fuel(level_start, 2);
            assert(tree.nodes_at(0) =~= Seq::new(
                level_size(b, 0),
                |q: int| (level_start(b, 0) + q) as usize,
            ));
        }
        let mut d: usize = 0;
        while d < branching.len()
            invariant
                d <= b.len(),
                b == branching@,
                tree.well_formed(),
                tree.parents().len() == level_start(b, d as int + 1),
                tree.level_count() == d + 1,
                tree.shaped_to(b, d as int),
            decreases b.len() - d,
        {
            tree.grow(branching, d);
            d = d + 1;
        }
        tree
    }

    /// Adds the children of the deepest nodes.
    #[verifier::rlimit(60)]
    fn grow(&mut self, branching: &[usize], d: usize)
        requires
            d < branching@.len(),
            old(self).well_formed(),
            old(self).parents().len() == level_start(branching@, d as int + 1),
            old(self).level_count() == d + 1,
            old(self).shaped_to(branching@, d as int),
        ensures
            final(self).well_formed(),
            final(self).parents().len() == level_start(branching@, d as int + 2),
            final(self).level_count() == d + 2,
            final(self).shaped_to(branching@, d as int + 1),
    {
        let ghost b = branching@;
        let ghost width = b[d as int] as int;
        let ghost size = level_size(b, d as int);
        let ghost from = level_start(b, d as int);
        let ghost to = level_start(b, d as int + 1);
        let ghost before = *self;
        let count: usize = branching[d];
        let mut level: Vec<usize> = Vec::new();
        let mut i: usize = 0;
        assert(self.nodes_at(d as int) == self.levels@[d as int]@);
        assert(to == from + size);
        assert(0 * width == 0);
        while i < self.levels[d].len()
            invariant
                self.levels@ == before.levels@,
                d < self.levels@.len(),
                self.levels@[d as int]@ == Seq::new(size, |q: int| (from + q) as usize),
                self.levels@[d as int]@.len() == size,
                i <= size,
                count == width,
                to == from + size,
                before.parent@.len() == to,
                before.depth@.len() == to,
                self.parent@.len() == to + i * width,
                self.depth@.len() == self.parent@.len(),
                level@.len() == i * width,
                i * width >= 0,
                d < usize::MAX,
                forall|k: int| 0 <= k < to ==> #[trigger] self.parent@[k] == before.parent@[k],
                forall|k: int| 0 <= k < to ==> #[trigger] self.depth@[k] == before.depth@[k],
                forall|q: int| 0 <= q < level@.len() ==> #[trigger] level@[q] == to + q,
                forall|q: int|
                    0 <= q < level@.len() ==> #[trigger] self.parent@[to + q] == from + q / width,
                forall|q: int| 0 <= q < level@.len() ==> #[trigger] self.depth@[to + q] == d + 1,
            decreases size - i,
        {
            let p: usize = self.levels[d][i];
            assert(p == from + i) by {
                assert(self.parent@.len() == self.parent.len());
                assert(from + i < to);
                assert(to <= self.parent@.len());
            }
            let mut c: usize = 0;
            assert((i + 1) * width == i * width + width) by (nonlinear_arith);
            while c < count
                invariant
                    self.levels@ == before.levels@,
                    c <= count,
                    count == width,
                    p == from + i,
                    i * width >= 0,
                    d < usize::MAX,
                    self.parent@.len() == to + i * width + c,
                    self.depth@.len() == self.parent@.len(),
                    level@.len() == i * width + c,
                    forall|k: int| 0 <= k < to ==> #[trigger] self.parent@[k] == before.parent@[k],
                    forall|k: int| 0 <= k < to ==> #[trigger] self.depth@[k] == before.depth@[k],
                    forall|q: int| 0 <= q < level@.len() ==> #[trigger] level@[q] == to + q,
                    forall|q: int|
                        0 <= q < level@.len() ==> #[trigger] self.parent@[to + q] == from + q
                            / width,
                    forall|q: int|
                        0 <= q < level@.len() ==> #[trigger] self.depth@[to + q] == d + 1,
                decreases count - c,
            {
                let id: usize = self.parent.len();
                assert((i * width + c) / width == i as int) by (nonlinear_arith)
                    requires
                        0 <= c < width,
                        i >= 0,
                ;
                self.parent.push(p);
                self.depth.push(d + 1);
                level.push(id);
                c = c + 1;
            }
            i = i + 1;
        }
        self.levels.push(level);
        proof {
            assert(self.parent@.len() == self.parent.len());
            assert(self.levels@.len() == self.levels.len());
            assert(self.parents()[0] == before.parents()[0]);
            assert(self.depths()[0] == before.depths()[0]);
            assert(size * width == level_size(b, d as int + 1));
            assert(level_start(b, d as int + 2) == to + level_size(b, d as int + 1));
            let grown = level_size(b, d as int + 1);
            assert forall|k: int| 0 <= k <= d + 1 implies (#[trigger] self.nodes_at(k))
                == Seq::new(level_size(b, k), |q: int| (level_start(b, k) + q) as usize) by {
                if k <= d {
                    assert(self.nodes_at(k) == before.nodes_at(k));
                } else {
                    assert(self.nodes_at(k) =~= Seq::new(grown, |q: int| (to + q) as usize));
                }
            }
            assert forall|k: int, q: int|
                0 <= k <= d + 1 && 0 <= q < level_size(b, k) implies #[trigger] self.depths()[
            level_start(b, k) + q] == k by {
                if k <= d {
                    lemma_levels_ascend(b, k, d as int);
                    assert(self.depths()[level_start(b, k) + q] == before.depths()[level_start(
                        b,
                        k,
                    ) + q]);
                }
            }
            assert forall|k: int, q: int|
                0 < k <= d + 1 && 0 <= q < level_size(b, k) implies #[trigger] self.parents()[
            level_start(b, k) + q] == level_start(b, k - 1) + q / b[k - 1] as int by {
                if k <= d {
                    lemma_levels_ascend(b, k, d as int);
                    assert(self.parents()[level_start(b, k) + q] == before.parents()[level_start(
                        b,
                        k,
                    ) + q]);
                }
            }
            assert forall|k: int| 1 <= k < self.parents().len() implies (
            #[trigger] self.parents()[k]) < k by {
                if k < to {
                    assert(self.parents()[k] == before.parents()[k]);
                } else {
                    lemma_parent_in_level(from as int, size as int, width, k - to);
                    assert(self.parents()[to + (k - to)] == from + (k - to) / width);
                }
            }
            assert forall|k: int| 1 <= k < self.depths().len() implies (#[trigger] self.depths()[k])
                == self.depths()[self.parents()[k] as int] + 1 by {
                if k < to {
                    assert(self.depths()[k] == before.depths()[k]);
                    assert(self.parents()[k] == before.parents()[k]);
                    assert(before.parents()[k] < k);
                } else {
                    lemma_parent_in_level(from as int, size as int, width, k - to);
                    let q = (k - to) / width;
                    assert(self.parents()[to + (k - to)] == from + q);
                    assert(self.depths()[to + (k - to)] == d + 1);
                    assert(before.depths()[level_start(b, d as int) + q] == d);
                    assert(self.depths()[from + q] == before.depths()[from + q]);
                }
            }
        }
    }

    pub fn num_nodes(&self) -> (r: usize)
        ensures
            r == self.parents().len(),
    {
        self.parent.len()
    }

    pub fn max_depth(&self) -> (r: usize)
        requires
            self.well_formed(),
        ensures
            r == self.level_count() - 1,
    {
        self.levels.len() - 1
    }

    pub fn node_depth(&self, node: usize) -> (r: usize)
        requires
            node < self.depths().len(),
        ensures
            r == self.depths()[node as int],
    {
        self.depth[node]
    }

    pub fn parent_of(&self, node: usize) -> (r: usize)
        requires
            node < self.parents().len(),
        ensures
            r == self.parents()[node as int],
    {
        self.parent[node]
    }

    /// The nodes of a depth: what the draft rollout runs together.
    pub fn level(&self, d: usize) -> (r: &[usize])
        requires
            d < self.level_count(),
        ensures
            r@ == self.nodes_at(d as int),
    {
        self.levels[d].as_slice()
    }

    /// The chain from a node up to the root.
    pub fn ancestors(&self, node: usize) -> (chain: Vec<usize>)
        requires
            self.well_formed(),
            node < self.parents().len(),
        ensures
            chain@ == chain_of(self.parents(), node as nat),
    {
        let mut chain: Vec<usize> = vec![node];
        let mut cur: usize = node;
        proof {
            if cur == 0 {
                assert(chain@ =~= chain_of(self.parents(), node as nat));
            } else {
                assert(chain@.drop_last() + chain_of(self.parents(), cur as nat) =~= chain_of(
                    self.parents(),
                    node as nat,
                ));
            }
        }
        while cur != 0
            invariant
                self.well_formed(),
                cur < self.parents().len(),
                chain@.len() > 0,
                chain@.last() == cur,
                chain@.drop_last() + chain_of(self.parents(), cur as nat) == chain_of(
                    self.parents(),
                    node as nat,
                ),
            decreases cur,
        {
            let ghost before = chain@;
            let ghost from = cur;
            assert(self.parents()[cur as int] < cur);
            cur = self.parent[cur];
            chain.push(cur);
            assert(chain@.drop_last() =~= before);
            assert(before =~= before.drop_last() + seq![from]);
            assert(before.drop_last() + (seq![from] + chain_of(self.parents(), cur as nat))
                =~= before + chain_of(self.parents(), cur as nat));
        }
        assert(chain@ =~= chain@.drop_last() + seq![cur]);
        chain
    }

    /// The attention mask of the tree: bit `i * n + j`, counted from the low end
    /// of each byte, is set when node `i` attends node `j`.
    #[verifier::loop_isolation(false)]
    pub fn packed_ancestor_mask(&self) -> (mask: Vec<u8>)
        requires
            self.well_formed(),
            self.parents().len() * self.parents().len() <= usize::MAX,
        ensures
            is_ancestor_mask(mask@, self.parents()),
    {
        let ghost parents = self.parents();
        let n: usize = self.num_nodes();
        assert(n * n == parents.len() * parents.len());
        let total: usize = n * n;
        let bytes: usize = div_ceil(total, 8);
        assert(bytes == ceil_div(total as nat, 8));
        assert(total <= 8 * bytes);
        let mut mask: Vec<u8> = vec![0u8; bytes];
        proof {
            assert forall|k: int| 0 <= k < 8 * mask@.len() implies !(#[trigger] mask_bit(
                mask@,
                k,
            )) by {
                let t = (k % 8) as u8;
                assert(mask@[k / 8] == 0);
                assert((0u8 >> t) & 1u8 == 0u8) by (bit_vector);
            }
        }
        let mut i: usize = 0;
        while i < n
            invariant
                i <= n,
                mask@.len() == bytes,
                forall|k: int|
                    0 <= k < 8 * mask@.len() ==> #[trigger] mask_bit(mask@, k) == row_set(
                        parents,
                        n as int,
                        i as int,
                        k,
                    ),
            decreases n - i,
        {
            let chain = self.ancestors(i);
            proof {
                lemma_chain(parents, i as nat);
                assert(i * n + n <= n * n) by (nonlinear_arith)
                    requires
                        i < n,
                ;
            }
            let mut a: usize = 0;
            while a < chain.len()
                invariant
                    a <= chain@.len(),
                    mask@.len() == bytes,
                    forall|k: int|
                        0 <= k < 8 * mask@.len() ==> #[trigger] mask_bit(mask@, k) == (row_set(
                            parents,
                            n as int,
                            i as int,
                            k,
                        ) || (i * n <= k < i * n + n && chain@.take(a as int).contains(
                            (k - i * n) as usize,
                        ))),
                decreases chain.len() - a,
            {
                let j: usize = chain[a];
                let bit: usize = i * n + j;
                let byte: usize = bit / 8;
                let offset: u8 = (bit % 8) as u8;
                let ghost before = mask@;
                let old_byte: u8 = mask[byte];
                let new_byte: u8 = old_byte | (1u8 << offset);
                mask[byte] = new_byte;
                proof {
                    assert forall|k: int| 0 <= k < 8 * mask@.len() implies #[trigger] mask_bit(
                        mask@,
                        k,
                    ) == (mask_bit(before, k) || k == bit) by {
                        let t = (k % 8) as u8;
                        lemma_set_bit(old_byte, offset, t);
                    }
                    let earlier = chain@.take(a as int);
                    let later = chain@.take(a as int + 1);
                    assert(later =~= earlier.push(j));
                    assert forall|k: int| i * n <= k < i * n + n implies (#[trigger] later.contains(
                        (k - i * n) as usize,
                    ) == (earlier.contains((k - i * n) as usize) || k == bit)) by {
                        let x = (k - i * n) as usize;
                        if later.contains(x) {
                            let w = later.index_of(x);
                            if w < a {
                                assert(earlier[w] == x);
                            }
                        }
                        if earlier.contains(x) {
                            let w = earlier.index_of(x);
                            assert(later[w] == x);
                        }
                        if k == bit {
                            assert(later[a as int] == x);
                        }
                    }
                }
                a = a + 1;
            }
            proof {
                assert(chain@.take(chain@.len() as int) =~= chain@);
                assert forall|k: int| 0 <= k < 8 * mask@.len() implies #[trigger] mask_bit(mask@, k)
                    == row_set(parents, n as int, i as int + 1, k) by {
                    lemma_row_of(n as int, i as int, k);
                }
            }
            i = i + 1;
        }
        proof {
            assert forall|k: int| 0 <= k < 8 * mask@.len() implies #[trigger] mask_bit(mask@, k)
                == (k < n * n && chain_of(parents, (k / n as int) as nat).contains(
                (k % n as int) as usize,
            )) by {
                assert(row_set(parents, n as int, n as int, k) == mask_bit(mask@, k));
                lemma_row_of(n as int, n as int, k);
            }
        }
        mask
    }
}

/// Bit `k` of a packed mask.
pub open spec fn mask_bit(mask: Seq<u8>, k: int) -> bool {
    (mask[k / 8] >> ((k % 8) as u8)) & 1u8 == 1u8
}

/// The mask has a bit for each pair of nodes, set where the first attends the
/// second, and its last byte is filled up with zeros.
pub open spec fn is_ancestor_mask(mask: Seq<u8>, parents: Seq<usize>) -> bool {
    let n = parents.len() as int;
    &&& mask.len() == ceil_div((n * n) as nat, 8)
    &&& forall|k: int|
        0 <= k < 8 * mask.len() ==> #[trigger] mask_bit(mask, k) == (k < n * n && chain_of(
            parents,
            (k / n) as nat,
        ).contains((k % n) as usize))
}

/// Whether bit `k` belongs to one of the first rows and is set there.
spec fn row_set(parents: Seq<usize>, n: int, rows: int, k: int) -> bool {
    k < rows * n && chain_of(parents, (k / n) as nat).contains((k % n) as usize)
}

proof fn lemma_row_of(n: int, i: int, k: int)
    requires
        n > 0,
        i >= 0,
        k >= 0,
    ensures
        (i + 1) * n == i * n + n,
        i * n <= k < i * n + n ==> k / n == i && k % n == k - i * n,
{
    assert((i + 1) * n == i * n + n) by (nonlinear_arith);
    if i * n <= k < i * n + n {
        let r = k - i * n;
        assert(k == i * n + r && 0 <= r < n);
        vstd::arithmetic::div_mod::lemma_fundamental_div_mod_converse(k, n, i, r);
    }
}

proof fn lemma_set_bit(x: u8, b: u8, t: u8)
    requires
        b < 8,
        t < 8,
    ensures
        ((x | (1u8 << b)) >> t) & 1u8 == (if t == b {
            1u8
        } else {
            (x >> t) & 1u8
        }),
{
    assert(((x | (1u8 << b)) >> t) & 1u8 == (if t == b {
        1u8
    } else {
        (x >> t) & 1u8
    })) by (bit_vector)
        requires
            b < 8,
            t < 8,
    ;
}

proof fn lemma_levels_ascend(branching: Seq<usize>, k: int, d: int)
    requires
        0 <= k <= d,
    ensures
        level_start(branching, k) + level_size(branching, k) <= level_start(branching, d + 1),
    decreases d - k,
{
    if k < d {
        lemma_levels_ascend(branching, k, d - 1);
    }
}

proof fn lemma_parent_in_level(from: int, size: int, width: int, q: int)
    requires
        0 <= from,
        0 <= q < size * width,
        width >= 0,
        size >= 0,
    ensures
        width > 0,
        0 <= q / width < size,
{
    assert(width > 0) by (nonlinear_arith)
        requires
            0 <= q < size * width,
            width >= 0,
    ;
    assert(0 <= q / width < size) by (nonlinear_arith)
        requires
            0 <= q < size * width,
            width > 0,
    ;
}

/// Every node stands in a level.
proof fn lemma_level_of(branching: Seq<usize>, n: int, node: int) -> (at: (int, int))
    requires
        0 <= n,
        0 <= node < level_start(branching, n + 1),
    ensures
        0 <= at.0 <= n,
        0 <= at.1 < level_size(branching, at.0),
        node == level_start(branching, at.0) + at.1,
    decreases n,
{
    if node >= level_start(branching, n) {
        (n, node - level_start(branching, n))
    } else {
        lemma_level_of(branching, n - 1, node)
    }
}

/// Counted: each depth has as many nodes as the branching factors above it multiply
/// to, and each node has as many children as its depth branches, the deepest nodes none.
pub proof fn lemma_tree_counts(tree: Eagle3Tree, branching: Seq<usize>, d: int, k: int)
    requires
        tree.well_formed(),
        tree.shaped(branching),
        0 <= d <= branching.len(),
        0 <= k < level_size(branching, d),
    ensures
        tree.of_depth(d).finite(),
        tree.of_depth(d).len() == level_size(branching, d),
        tree.children(level_start(branching, d) + k).finite(),
        tree.children(level_start(branching, d) + k).len() == (if d < branching.len() {
            branching[d] as nat
        } else {
            0
        }),
{
    let n = branching.len() as int;
    let node = level_start(branching, d) + k;
    let from = level_start(branching, d) as int;
    let size = level_size(branching, d) as int;
    lemma_levels_ascend(branching, d, n);
    assert forall|c: int| tree.of_depth(d).contains(c) == (from <= c < from + size) by {
        if 0 <= c < tree.parents().len() {
            let at = lemma_level_of(branching, n, c);
            assert(tree.depths()[level_start(branching, at.0) + at.1] == at.0);
        }
        if from <= c < from + size {
            assert(tree.depths()[level_start(branching, d) + (c - from)] == d);
        }
    }
    assert(tree.of_depth(d) =~= vstd::set_lib::set_int_range(from, from + size));
    vstd::set_lib::lemma_int_range(from, from + size);
    assert forall|c: int| tree.children(node).contains(c) implies d < n && {
        let below = level_start(branching, d + 1) + k * branching[d];
        below <= c < below + branching[d]
    } by {
        let at = lemma_level_of(branching, n, c);
        assert(at.0 > 0) by {
            reveal_with_fuel(level_start, 2);
            reveal_with_fuel(level_size, 2);
        }
        let width = branching[at.0 - 1] as int;
        assert(tree.parents()[level_start(branching, at.0) + at.1] == level_start(
            branching,
            at.0 - 1,
        ) + at.1 / width);
        lemma_parent_in_level(0, level_size(branching, at.0 - 1) as int, width, at.1);
        lemma_one_level(branching, d, k, at.0 - 1, at.1 / width);
        vstd::arithmetic::div_mod::lemma_fundamental_div_mod(at.1, width);
        assert(k * width <= at.1 < k * width + width) by (nonlinear_arith)
            requires
                at.1 == width * k + at.1 % width,
                0 <= at.1 % width < width,
        ;
    }
    if d < n {
        let width = branching[d] as int;
        let below = level_start(branching, d + 1) + k * width;
        lemma_levels_ascend(branching, d + 1, n);
        assert(0 <= k * width && k * width + width <= size * width) by (nonlinear_arith)
            requires
                0 <= k < size,
                0 <= width,
        ;
        assert forall|c: int| below <= c < below + width implies tree.children(node).contains(
            c,
        ) by {
            let q = c - level_start(branching, d + 1);
            assert(level_size(branching, d + 1) == size * width);
            assert(tree.parents()[level_start(branching, d + 1) + q] == from + q / width);
            lemma_row_of(width, k, q);
            lemma_levels_ascend(branching, 0, d);
        }
        assert(tree.children(node) =~= vstd::set_lib::set_int_range(below, below + width));
        vstd::set_lib::lemma_int_range(below, below + width);
    } else {
        assert(tree.children(node) =~= Set::<int>::empty());
    }
}

/// A node stands in one level only.
proof fn lemma_one_level(branching: Seq<usize>, d: int, k: int, e: int, j: int)
    requires
        0 <= d,
        0 <= e,
        0 <= k < level_size(branching, d),
        0 <= j < level_size(branching, e),
        level_start(branching, d) + k == level_start(branching, e) + j,
    ensures
        d == e,
        k == j,
{
    if d < e {
        lemma_levels_ascend(branching, d, e - 1);
    } else if e < d {
        lemma_levels_ascend(branching, e, d - 1);
    }
}

proof fn lemma_chain(parents: Seq<usize>, node: nat)
    requires
        node < parents.len() <= usize::MAX,
        forall|i: int| 1 <= i < parents.len() ==> (#[trigger] parents[i]) < i,
    ensures
        chain_of(parents, node).len() > 0,
        chain_of(parents, node)[0] == node,
        chain_of(parents, node).last() == 0,
        forall|i: int|
            0 <= i < chain_of(parents, node).len() ==> (#[trigger] chain_of(parents, node)[i])
                <= node,
        forall|i: int, j: int|
            0 <= i < j < chain_of(parents, node).len() ==> (#[trigger] chain_of(parents, node)[i])
                > (#[trigger] chain_of(parents, node)[j]),
    decreases node,
{
    if node > 0 {
        assert(parents[node as int] < node);
        let rest = chain_of(parents, parents[node as int] as nat);
        lemma_chain(parents, parents[node as int] as nat);
        let chain = chain_of(parents, node);
        assert forall|i: int| 1 <= i < chain.len() implies (#[trigger] chain[i]) == rest[i - 1] by {}
        assert forall|i: int, j: int| 0 <= i < j < chain.len() implies (#[trigger] chain[i]) > (
        #[trigger] chain[j]) by {
            assert(chain[j] == rest[j - 1]);
            if i > 0 {
                assert(chain[i] == rest[i - 1]);
            }
        }
    }
}

/// Every chain leads from its node to the root, one depth at a time: it has one
/// node more than the node is deep, and no node twice.
pub proof fn lemma_chain_reaches_root(tree: Eagle3Tree, node: nat)
    requires
        tree.well_formed(),
        node < tree.parents().len(),
    ensures
        ({
            let chain = chain_of(tree.parents(), node);
            &&& chain.len() == tree.depths()[node as int] + 1
            &&& chain[0] == node
            &&& chain.last() == 0
            &&& chain.no_duplicates()
            &&& forall|i: int|
                0 <= i < chain.len() ==> tree.depths()[(#[trigger] chain[i]) as int]
                    == tree.depths()[node as int] - i
        }),
    decreases node,
{
    lemma_chain(tree.parents(), node);
    let chain = chain_of(tree.parents(), node);
    assert forall|i: int, j: int| 0 <= i < chain.len() && 0 <= j < chain.len() && i
        != j implies chain[i] != chain[j] by {
        if i < j {
            assert(chain[i] > chain[j]);
        } else {
            assert(chain[j] > chain[i]);
        }
    }
    if node > 0 {
        let up = tree.parents()[node as int] as nat;
        assert(tree.parents()[node as int] < node);
        lemma_chain_reaches_root(tree, up);
        let rest = chain_of(tree.parents(), up);
        assert forall|i: int| 0 <= i < chain.len() implies tree.depths()[(
        #[trigger] chain[i]) as int] == tree.depths()[node as int] - i by {
            if i > 0 {
                assert(chain[i] == rest[i - 1]);
            }
        }
    }
}

/// The nodes that a row of the mask attends.
pub open spec fn attended(mask: Seq<u8>, n: int, i: int) -> Set<usize> {
    Set::new(|j: usize| j < n && mask_bit(mask, i * n + j))
}

/// A row of the mask attends the node's ancestors and itself and no other node,
/// one key more than the node is deep.
pub proof fn lemma_mask_row_is_the_chain(tree: Eagle3Tree, mask: Seq<u8>, i: int)
    requires
        tree.well_formed(),
        0 <= i < tree.parents().len(),
        is_ancestor_mask(mask, tree.parents()),
    ensures
        attended(mask, tree.parents().len() as int, i) == chain_of(
            tree.parents(),
            i as nat,
        ).to_set(),
        attended(mask, tree.parents().len() as int, i).len() == tree.depths()[i] + 1,
{
    let n = tree.parents().len() as int;
    let chain = chain_of(tree.parents(), i as nat);
    lemma_chain(tree.parents(), i as nat);
    lemma_chain_reaches_root(tree, i as nat);
    assert(i * n + n <= n * n) by (nonlinear_arith)
        requires
            i < n,
            n > 0,
    ;
    assert forall|j: usize| attended(mask, n, i).contains(j) == chain.to_set().contains(j) by {
        if j < n {
            lemma_row_of(n, i, i * n + j);
            assert(i * n >= 0) by (nonlinear_arith)
                requires
                    i >= 0,
                    n > 0,
            ;
            assert(0 <= i * n + j < 8 * mask.len());
            assert(mask_bit(mask, i * n + j) == chain.contains(j));
        } else if chain.contains(j) {
            let w = chain.index_of(j);
            assert(chain[w] <= i);
        }
    }
    assert(attended(mask, n, i) =~= chain.to_set());
    chain.unique_seq_to_set();
}

/// Each node of a chain is followed by its parent.
pub proof fn lemma_chain_goes_from_parent_to_parent(tree: Eagle3Tree, node: nat, i: int)
    requires
        tree.well_formed(),
        node < tree.parents().len(),
        0 <= i,
        i + 1 < chain_of(tree.parents(), node).len(),
    ensures
        chain_of(tree.parents(), node)[i + 1] == tree.parents()[chain_of(
            tree.parents(),
            node,
        )[i] as int],
    decreases node,
{
    let chain = chain_of(tree.parents(), node);
    if node > 0 {
        let up = tree.parents()[node as int] as nat;
        assert(tree.parents()[node as int] < node);
        let rest = chain_of(tree.parents(), up);
        lemma_chain(tree.parents(), up);
        assert(chain[i + 1] == rest[i]);
        if i > 0 {
            lemma_chain_goes_from_parent_to_parent(tree, up, i - 1);
            assert(chain[i] == rest[i - 1]);
        }
    }
}

/// Nodes are numbered breadth first: a later node is no less deep, and no earlier node has
/// a later parent.
pub proof fn lemma_nodes_are_in_breadth_first_order(
    tree: Eagle3Tree,
    branching: Seq<usize>,
    a: int,
    b: int,
)
    requires
        tree.well_formed(),
        tree.shaped(branching),
        0 <= a <= b < tree.parents().len(),
    ensures
        tree.depths()[a] <= tree.depths()[b],
        tree.parents()[a] <= tree.parents()[b],
{
    let n = branching.len() as int;
    let x = lemma_level_of(branching, n, a);
    let y = lemma_level_of(branching, n, b);
    assert(tree.depths()[level_start(branching, x.0) + x.1] == x.0);
    assert(tree.depths()[level_start(branching, y.0) + y.1] == y.0);
    if y.0 < x.0 {
        lemma_levels_ascend(branching, y.0, x.0 - 1);
    }
    reveal_with_fuel(level_start, 2);
    reveal_with_fuel(level_size, 2);
    if a > 0 {
        assert(x.0 > 0 && y.0 > 0);
        let (w, v) = (branching[x.0 - 1] as int, branching[y.0 - 1] as int);
        assert(tree.parents()[level_start(branching, x.0) + x.1] == level_start(
            branching,
            x.0 - 1,
        ) + x.1 / w);
        assert(tree.parents()[level_start(branching, y.0) + y.1] == level_start(
            branching,
            y.0 - 1,
        ) + y.1 / v);
        lemma_parent_in_level(0, level_size(branching, x.0 - 1) as int, w, x.1);
        lemma_parent_in_level(0, level_size(branching, y.0 - 1) as int, v, y.1);
        if x.0 == y.0 {
            vstd::arithmetic::div_mod::lemma_div_is_ordered(x.1, y.1, w);
        } else {
            lemma_levels_ascend(branching, x.0 - 1, y.0 - 2);
        }
    }
}

/// Every node stands in the level of its depth, from the root's to the deepest, which is
/// the last.
pub proof fn lemma_levels_hold_their_depths(
    tree: Eagle3Tree,
    branching: Seq<usize>,
    d: int,
    q: int,
)
    requires
        tree.well_formed(),
        tree.shaped(branching),
        0 <= d < tree.level_count(),
    ensures
        0 <= q < tree.nodes_at(d).len() ==> tree.nodes_at(d)[q] < tree.depths().len()
            && tree.depths()[tree.nodes_at(d)[q] as int] == d,
        forall|node: int|
            0 <= node < tree.depths().len() ==> (#[trigger] tree.depths()[node])
                < tree.level_count(),
        tree.level_count() == branching.len() + 1,
{
    let n = branching.len() as int;
    assert forall|node: int| 0 <= node < tree.depths().len() implies (#[trigger] tree.depths()[node])
        < tree.level_count() by {
        let at = lemma_level_of(branching, n, node);
        assert(tree.depths()[level_start(branching, at.0) + at.1] == at.0);
    }
    assert(tree.nodes_at(d) == Seq::new(
        level_size(branching, d),
        |q: int| (level_start(branching, d) + q) as usize,
    ));
    lemma_levels_ascend(branching, d, n);
    if 0 <= q < level_size(branching, d) {
        assert(tree.depths()[level_start(branching, d) + q] == d);
    }
}

} // verus!
