//! Taproot outputs of BIP-341: script trees, output keys and control blocks.
use vstd::prelude::*;
use crate::bytes::{be_nat, joined, push_slice, to_vec};
use crate::curve::{
    curve_order, discrete_log, generator_multiple, has_even_y_of, is_scalar, point_sum, with_even_y,
    x_of, Point, Scalar,
};
use crate::hash::{tagged_hash, tagged_hash_of};
use crate::varint::{push_varint, varint};

verus! {

/// The leaf version of tapscript.
pub const LEAF_VERSION: u8 = 0xc0;

/// The hash of a script leaf.
pub open spec fn leaf_hash(script: Seq<u8>) -> Seq<u8> {
    tagged_hash_of("TapLeaf", seq![LEAF_VERSION] + varint(script.len()) + script)
}

/// Whether `a` comes before `b` in byte order, from position `i` on.
pub open spec fn bytes_less(a: Seq<u8>, b: Seq<u8>, i: nat) -> bool
    decreases a.len() - i,
{
    if i >= a.len() {
        i < b.len()
    } else if i >= b.len() {
        false
    } else if a[i as int] != b[i as int] {
        a[i as int] < b[i as int]
    } else {
        bytes_less(a, b, i + 1)
    }
}

/// The hash of a branch: its two children, the smaller first.
pub open spec fn branch_hash(a: Seq<u8>, b: Seq<u8>) -> Seq<u8> {
    tagged_hash_of(
        "TapBranch",
        if bytes_less(b, a, 0) {
            b + a
        } else {
            a + b
        },
    )
}

/// The next level of a script tree: neighbours are paired, and a last one without a
/// neighbour moves up.
pub open spec fn next_level(nodes: Seq<Seq<u8>>) -> Seq<Seq<u8>> {
    Seq::new(
        (nodes.len() + 1) / 2,
        |i: int|
            if 2 * i + 1 < nodes.len() {
                branch_hash(nodes[2 * i], nodes[2 * i + 1])
            } else {
                nodes[2 * i]
            },
    )
}

/// The root of a script tree over the given leaves.
pub open spec fn tree_root(nodes: Seq<Seq<u8>>) -> Option<Seq<u8>>
    decreases nodes.len(),
{
    if nodes.len() == 0 {
        None
    } else if nodes.len() == 1 {
        Some(nodes[0])
    } else {
        tree_root(next_level(nodes))
    }
}

/// The neighbour of the node at a position, where it has one.
pub open spec fn neighbour(nodes: Seq<Seq<u8>>, i: int) -> Seq<Seq<u8>> {
    if i % 2 == 1 {
        seq![nodes[i - 1]]
    } else if i + 1 < nodes.len() {
        seq![nodes[i + 1]]
    } else {
        Seq::empty()
    }
}

/// The hashes next to the way from a leaf up to the root.
pub open spec fn tree_path(nodes: Seq<Seq<u8>>, i: int) -> Seq<Seq<u8>>
    decreases nodes.len(),
{
    if nodes.len() <= 1 {
        Seq::empty()
    } else {
        neighbour(nodes, i) + tree_path(next_level(nodes), i / 2)
    }
}

/// The root that a leaf and its path lead to.
pub open spec fn fold_path(node: Seq<u8>, path: Seq<Seq<u8>>) -> Seq<u8>
    decreases path.len(),
{
    if path.len() == 0 {
        node
    } else {
        fold_path(branch_hash(node, path[0]), path.drop_first())
    }
}

/// A taproot output: the internal key and the leaf scripts.
pub struct TapRootModel {
    pub inner: Seq<u8>,
    pub scripts: Seq<Seq<u8>>,
}

impl TapRootModel {
    /// The hashes of the leaves.
    pub open spec fn leaf_hashes(self) -> Seq<Seq<u8>> {
        Seq::new(self.scripts.len(), |i: int| leaf_hash(self.scripts[i]))
    }

    /// The tweak of the internal key: a hash of the key and the root of the tree.
    pub open spec fn tap_tweak(self) -> Seq<u8> {
        tagged_hash_of(
            "TapTweak",
            match tree_root(self.leaf_hashes()) {
                None => x_of(self.inner),
                Some(root) => x_of(self.inner) + root,
            },
        )
    }

    /// The output key as a multiple of the generator. `None` where the tweak is not a
    /// scalar or the output key would be infinity.
    pub open spec fn output_exponent(self) -> Option<nat> {
        let q = (with_even_y(discrete_log(self.inner)) + be_nat(self.tap_tweak())) % curve_order();
        if is_scalar(self.tap_tweak()) && q != 0 {
            Some(q)
        } else {
            None
        }
    }

    /// The output key.
    pub open spec fn output_key(self) -> Option<Seq<u8>> {
        match self.output_exponent() {
            None => None,
            Some(q) => Some(generator_multiple(q)),
        }
    }

    /// The scriptpubkey: `OP_1 <X coordinate of the output key>`.
    pub open spec fn scriptpubkey(self) -> Option<Seq<u8>> {
        match self.output_key() {
            None => None,
            Some(q) => Some(seq![0x51u8, 0x20u8] + x_of(q)),
        }
    }

    /// The control block of a leaf: leaf version and parity of the output key, the
    /// internal key, and the path of the leaf.
    pub open spec fn control_block(self, i: int) -> Option<Seq<u8>> {
        match self.output_key() {
            None => None,
            Some(q) => Some(
                seq![
                    if has_even_y_of(q) {
                        LEAF_VERSION
                    } else {
                        (LEAF_VERSION + 1) as u8
                    },
                ] + x_of(self.inner) + joined(tree_path(self.leaf_hashes(), i)),
            ),
        }
    }
}

/// A leaf of a script tree.
pub struct TapLeaf {
    script: Vec<u8>,
}

impl View for TapLeaf {
    type V = Seq<u8>;

    closed spec fn view(&self) -> Seq<u8> {
        self.script@
    }
}

impl TapLeaf {
    pub fn new(script: Vec<u8>) -> (r: TapLeaf)
        ensures
            r@ == script@,
    {
        TapLeaf { script }
    }

    /// The script.
    pub fn tap_script(&self) -> (r: Vec<u8>)
        ensures
            r@ == self@,
    {
        to_vec(&self.script)
    }

    /// The hash of the leaf.
    pub fn tapleaf_hash(&self) -> (r: [u8; 32])
        ensures
            r@ == leaf_hash(self@),
    {
        let mut preimage: Vec<u8> = Vec::new();
        preimage.push(LEAF_VERSION);
        push_varint(&mut preimage, self.script.len() as u64);
        push_slice(&mut preimage, &self.script);
        assert(preimage@ =~= seq![LEAF_VERSION] + varint(self@.len()) + self@);
        tagged_hash("TapLeaf", &preimage)
    }
}

/// Hashes by their bytes.
pub open spec fn hashes_view(hashes: Seq<[u8; 32]>) -> Seq<Seq<u8>> {
    Seq::new(hashes.len(), |i: int| hashes[i]@)
}

/// Leaves by their scripts.
pub open spec fn leaves_view(leaves: Seq<TapLeaf>) -> Seq<Seq<u8>> {
    Seq::new(leaves.len(), |i: int| leaves[i]@)
}

fn less(a: &[u8; 32], b: &[u8; 32]) -> (r: bool)
    ensures
        r == bytes_less(a@, b@, 0),
{
    let mut i: usize = 0;
    while i < 32
        invariant
            i <= 32,
            bytes_less(a@, b@, 0) == bytes_less(a@, b@, i as nat),
        decreases 32 - i,
    {
        if a[i] != b[i] {
            return a[i] < b[i];
        }
        i = i + 1;
    }
    false
}

fn branch(a: &[u8; 32], b: &[u8; 32]) -> (r: [u8; 32])
    ensures
        r@ == branch_hash(a@, b@),
{
    let mut preimage: Vec<u8> = Vec::new();
    if less(b, a) {
        push_slice(&mut preimage, b);
        push_slice(&mut preimage, a);
        assert(preimage@ =~= b@ + a@);
    } else {
        push_slice(&mut preimage, a);
        push_slice(&mut preimage, b);
        assert(preimage@ =~= a@ + b@);
    }
    tagged_hash("TapBranch", &preimage)
}

fn level_up(nodes: &Vec<[u8; 32]>) -> (r: Vec<[u8; 32]>)
    ensures
        hashes_view(r@) == next_level(hashes_view(nodes@)),
{
    let ghost all = hashes_view(nodes@);
    let count: usize = nodes.len();
    let pairs: usize = count / 2 + count % 2;
    let mut up: Vec<[u8; 32]> = Vec::new();
    let mut i: usize = 0;
    while i < pairs
        invariant
            count == nodes@.len(),
            pairs == (count + 1) / 2,
            i <= pairs,
            all == hashes_view(nodes@),
            up@.len() == i,
            forall|j: int| 0 <= j < i ==> (#[trigger] up@[j])@ == next_level(all)[j],
        decreases pairs - i,
    {
        if i < count / 2 {
            up.push(branch(&nodes[2 * i], &nodes[2 * i + 1]));
        } else {
            up.push(nodes[2 * i]);
        }
        i = i + 1;
    }
    assert(hashes_view(up@) =~= next_level(all));
    up
}

/// The order of the two children of a branch does not matter.
proof fn lemma_branch_symmetric(a: Seq<u8>, b: Seq<u8>, i: nat)
    requires
        i <= a.len(),
        i <= b.len(),
        forall|j: int| 0 <= j < i ==> a[j] == b[j],
    ensures
        bytes_less(a, b, i) ==> !bytes_less(b, a, i),
        !bytes_less(a, b, i) && !bytes_less(b, a, i) ==> a == b,
    decreases a.len() - i,
{
    if i >= a.len() || i >= b.len() {
        if a.len() == b.len() {
            assert(a =~= b);
        }
    } else if a[i as int] == b[i as int] {
        lemma_branch_symmetric(a, b, i + 1);
    }
}

/// A leaf and its path lead to the root of the tree.
pub proof fn theorem_path_leads_to_root(nodes: Seq<Seq<u8>>, i: int)
    requires
        0 <= i < nodes.len(),
    ensures
        tree_root(nodes) == Some(fold_path(nodes[i], tree_path(nodes, i))),
    decreases nodes.len(),
{
    if nodes.len() > 1 {
        let up = next_level(nodes);
        let path = tree_path(nodes, i);
        let rest = tree_path(up, i / 2);
        theorem_path_leads_to_root(up, i / 2);
        if i % 2 == 1 {
            lemma_branch_symmetric(nodes[i], nodes[i - 1], 0);
            assert(up[i / 2] == branch_hash(nodes[i], nodes[i - 1]));
            assert(path[0] == nodes[i - 1]);
            assert(path.drop_first() =~= rest);
        } else if i + 1 < nodes.len() {
            assert(up[i / 2] == branch_hash(nodes[i], nodes[i + 1]));
            assert(path.drop_first() =~= rest);
        } else {
            assert(up[i / 2] == nodes[i]);
            assert(path =~= rest);
        }
    } else {
        assert(tree_path(nodes, i) =~= Seq::empty());
    }
}

/// The output key commits to every leaf script: the tweak of the internal key follows
/// from the script and the path of its leaf alone.
pub proof fn theorem_output_commits_to_script(t: TapRootModel, i: int)
    requires
        0 <= i < t.scripts.len(),
    ensures
        t.tap_tweak() == tagged_hash_of(
            "TapTweak",
            x_of(t.inner) + fold_path(leaf_hash(t.scripts[i]), tree_path(t.leaf_hashes(), i)),
        ),
{
    theorem_path_leads_to_root(t.leaf_hashes(), i);
}

/// A taproot output.
pub struct TapRoot {
    inner_key: Point,
    leaves: Vec<TapLeaf>,
}

impl View for TapRoot {
    type V = TapRootModel;

    closed spec fn view(&self) -> TapRootModel {
        TapRootModel { inner: self.inner_key@, scripts: leaves_view(self.leaves@) }
    }
}

impl TapRoot {
    /// An output that the internal key or one script can spend.
    pub fn key_and_script_path_single(inner_key: Point, leaf: TapLeaf) -> (r: TapRoot)
        ensures
            r@ == (TapRootModel { inner: inner_key@, scripts: seq![leaf@] }),
    {
        let mut leaves: Vec<TapLeaf> = Vec::new();
        leaves.push(leaf);
        let r = TapRoot { inner_key, leaves };
        assert(r@.scripts =~= seq![leaf@]);
        r
    }

    /// An output that the internal key or any of several scripts can spend.
    pub fn key_and_script_path_multi(inner_key: Point, leaves: Vec<TapLeaf>) -> (r: TapRoot)
        ensures
            r@ == (TapRootModel { inner: inner_key@, scripts: leaves_view(leaves@) }),
    {
        TapRoot { inner_key, leaves }
    }

    /// The leaf at a position, if there is one.
    pub fn leaf(&self, index: usize) -> (r: Option<&TapLeaf>)
        ensures
            match r {
                None => index >= self@.scripts.len(),
                Some(leaf) => index < self@.scripts.len() && leaf@ == self@.scripts[index as int],
            },
    {
        if index < self.leaves.len() {
            Some(&self.leaves[index])
        } else {
            None
        }
    }

    fn leaf_level(&self) -> (r: Vec<[u8; 32]>)
        ensures
            hashes_view(r@) == self@.leaf_hashes(),
            r@.len() == self@.scripts.len(),
    {
        let mut level: Vec<[u8; 32]> = Vec::new();
        let mut i: usize = 0;
        while i < self.leaves.len()
            invariant
                i <= self.leaves@.len(),
                level@.len() == i,
                forall|j: int| 0 <= j < i ==> (#[trigger] level@[j])@ == self@.leaf_hashes()[j],
            decreases self.leaves@.len() - i,
        {
            level.push(self.leaves[i].tapleaf_hash());
            i = i + 1;
        }
        assert(hashes_view(level@) =~= self@.leaf_hashes());
        level
    }

    fn merkle_root(&self) -> (r: Option<[u8; 32]>)
        ensures
            match r {
                None => tree_root(self@.leaf_hashes()) is None,
                Some(root) => tree_root(self@.leaf_hashes()) == Some(root@),
            },
    {
        let mut level = self.leaf_level();
        if level.len() == 0 {
            return None;
        }
        while level.len() > 1
            invariant
                level@.len() >= 1,
                tree_root(hashes_view(level@)) == tree_root(self@.leaf_hashes()),
            decreases level@.len(),
        {
            let up = level_up(&level);
            assert(hashes_view(up@).len() == up@.len());
            level = up;
        }
        Some(level[0])
    }

    /// The tweak of the internal key.
    pub fn tap_tweak(&self) -> (r: [u8; 32])
        ensures
            r@ == self@.tap_tweak(),
    {
        let mut preimage: Vec<u8> = Vec::new();
        let x = self.inner_key.serialize_xonly();
        push_slice(&mut preimage, &x);
        assert(preimage@ =~= x@);
        match self.merkle_root() {
            None => {},
            Some(root) => {
                push_slice(&mut preimage, &root);
            },
        }
        tagged_hash("TapTweak", &preimage)
    }

    /// The output key. Fails where the tweak is not a scalar or the key is infinity.
    pub fn tweaked_key(&self) -> (r: Option<Point>)
        ensures
            match r {
                None => self@.output_exponent() is None,
                Some(q) => {
                    &&& self@.output_exponent() == Some(q.exponent())
                    &&& self@.output_key() == Some(q@)
                },
            },
    {
        match Scalar::from_slice(&self.tap_tweak()) {
            None => None,
            Some(t) => point_sum(&Some(self.inner_key.to_even_y()), &Some(t.base_point_mul())),
        }
    }

    /// The scriptpubkey.
    pub fn spk(&self) -> (r: Option<Vec<u8>>)
        ensures
            match r {
                None => self@.scriptpubkey() is None,
                Some(bytes) => self@.scriptpubkey() == Some(bytes@),
            },
    {
        match self.tweaked_key() {
            None => None,
            Some(q) => {
                let mut spk: Vec<u8> = Vec::new();
                spk.push(0x51);
                spk.push(0x20);
                push_slice(&mut spk, &q.serialize_xonly());
                assert(spk@ =~= seq![0x51u8, 0x20u8] + x_of(q@));
                Some(spk)
            },
        }
    }

    /// The hashes of the path of a leaf, one after the other.
    fn path_bytes(&self, index: usize) -> (r: Vec<u8>)
        requires
            index < self@.scripts.len(),
        ensures
            r@ == joined(tree_path(self@.leaf_hashes(), index as int)),
    {
        let ghost all = tree_path(self@.leaf_hashes(), index as int);
        let mut level = self.leaf_level();
        let mut position: usize = index;
        let mut bytes: Vec<u8> = Vec::new();
        let ghost mut done: Seq<Seq<u8>> = Seq::empty();
        assert(done + tree_path(hashes_view(level@), position as int) =~= all);
        while level.len() > 1
            invariant
                position < level@.len(),
                done + tree_path(hashes_view(level@), position as int) == all,
                bytes@ == joined(done),
            decreases level@.len(),
        {
            let ghost nodes = hashes_view(level@);
            let ghost before = done;
            if position % 2 == 1 {
                push_slice(&mut bytes, &level[position - 1]);
                proof {
                    done = before.push(nodes[position - 1]);
                    assert(done.drop_last() =~= before);
                }
            } else if position < level.len() - 1 {
                push_slice(&mut bytes, &level[position + 1]);
                proof {
                    done = before.push(nodes[position + 1]);
                    assert(done.drop_last() =~= before);
                }
            }
            let up = level_up(&level);
            proof {
                assert(hashes_view(up@).len() == up@.len());
                assert(done =~= before + neighbour(nodes, position as int));
                assert(done + tree_path(hashes_view(up@), position as int / 2) =~= all);
            }
            level = up;
            position = position / 2;
        }
        assert(done =~= all);
        bytes
    }

    /// The control block of a leaf. Fails where there is no such leaf or no output
    /// key.
    pub fn control_block(&self, index: usize) -> (r: Option<Vec<u8>>)
        ensures
            match r {
                None => index >= self@.scripts.len() || self@.output_exponent() is None,
                Some(bytes) => {
                    &&& index < self@.scripts.len()
                    &&& self@.control_block(index as int) == Some(bytes@)
                },
            },
    {
        if index >= self.leaves.len() {
            return None;
        }
        match self.tweaked_key() {
            None => None,
            Some(q) => {
                let mut block: Vec<u8> = Vec::new();
                block.push(if q.has_even_y() { LEAF_VERSION } else { LEAF_VERSION + 1 });
                push_slice(&mut block, &self.inner_key.serialize_xonly());
                let path = self.path_bytes(index);
                push_slice(&mut block, &path);
                assert(block@ =~= self@.control_block(index as int)->0);
                Some(block)
            },
        }
    }
}

/// The byte order of hashes: `a` comes before `b` if and only if, at the first place where
/// they differ, `a` has the smaller byte, or `a` ends there.
pub proof fn theorem_byte_order(a: Seq<u8>, b: Seq<u8>, i: nat)
    requires
        i <= a.len(),
        i <= b.len(),
        forall|j: int| 0 <= j < i ==> a[j] == b[j],
    ensures
        i < a.len() && i < b.len() && a[i as int] < b[i as int] ==> bytes_less(a, b, 0),
        i < a.len() && i < b.len() && a[i as int] > b[i as int] ==> !bytes_less(a, b, 0),
        i == a.len() ==> (bytes_less(a, b, 0) <==> a.len() < b.len()),
        i == b.len() ==> !bytes_less(a, b, 0),
{
    lemma_skip_equal(a, b, 0, i);
}

proof fn lemma_skip_equal(a: Seq<u8>, b: Seq<u8>, from: nat, i: nat)
    requires
        from <= i <= a.len(),
        i <= b.len(),
        forall|j: int| 0 <= j < i ==> a[j] == b[j],
    ensures
        bytes_less(a, b, from) == bytes_less(a, b, i),
    decreases i - from,
{
    if from < i {
        lemma_skip_equal(a, b, from + 1, i);
    }
}

/// The hash of a branch covers both children, the smaller first: it does not depend on
/// their order.
pub proof fn theorem_branches_are_sorted(a: Seq<u8>, b: Seq<u8>)
    ensures
        branch_hash(a, b) == branch_hash(b, a),
        bytes_less(a, b, 0) ==> branch_hash(a, b) == tagged_hash_of("TapBranch", a + b),
        a == b ==> branch_hash(a, b) == tagged_hash_of("TapBranch", a + b),
{
    lemma_branch_symmetric(a, b, 0);
    lemma_branch_symmetric(b, a, 0);
}

/// The hash of a leaf covers the tapscript version, the length of the script and the
/// script: different scripts are hashed from different bytes.
pub proof fn theorem_leaf_hash_covers_script(script: Seq<u8>)
    requires
        script.len() <= u64::MAX,
    ensures
        exists|p: Seq<u8>|
            {
                &&& #[trigger] tagged_hash_of("TapLeaf", p) == leaf_hash(script)
                &&& p[0] == 0xc0
                &&& p.len() > script.len()
                &&& p.skip(p.len() - script.len()) == script
                &&& p.subrange(1, p.len() - script.len()) == varint(script.len())
            },
{
    let p = seq![0xc0u8] + varint(script.len()) + script;
    assert(p.skip(p.len() - script.len()) =~= script);
    assert(p.subrange(1, p.len() - script.len()) =~= varint(script.len()));
    assert(tagged_hash_of("TapLeaf", p) == leaf_hash(script));
}

/// Whether a script is a leaf of an output can be checked from its control block alone:
/// the block names the tapscript version and the parity of the output key, the internal
/// key, and a path; script and path lead to the root, and root and internal key to the
/// tweak that turns the internal key into the output key.
pub proof fn theorem_control_block_proves_leaf(t: TapRootModel, i: int)
    requires
        0 <= i < t.scripts.len(),
        t.output_exponent() is Some,
    ensures
        t.control_block(i) is Some,
        exists|path: Seq<Seq<u8>>|
            {
                let tweak = tagged_hash_of(
                    "TapTweak",
                    x_of(t.inner) + #[trigger] fold_path(leaf_hash(t.scripts[i]), path),
                );
                let q = (with_even_y(discrete_log(t.inner)) + be_nat(tweak)) % curve_order();
                &&& t.output_exponent() == Some(q)
                &&& t.output_key() == Some(generator_multiple(q))
                &&& t.control_block(i)->0 == seq![
                    (if has_even_y_of(generator_multiple(q)) {
                        0xc0u8
                    } else {
                        0xc1u8
                    }),
                ] + x_of(t.inner) + joined(path)
            },
{
    theorem_output_commits_to_script(t, i);
    let path = tree_path(t.leaf_hashes(), i);
    assert(fold_path(leaf_hash(t.scripts[i]), path) == fold_path(leaf_hash(t.scripts[i]), path));
    assert(t.control_block(i)->0 =~= seq![
        (if has_even_y_of(t.output_key()->0) {
            0xc0u8
        } else {
            0xc1u8
        }),
    ] + x_of(t.inner) + joined(path));
}

/// The scriptpubkey of an output is version one and the X coordinate of the output key.
/// An output without scripts is tweaked by its internal key alone.
pub proof fn theorem_scriptpubkey_shows_output_key(t: TapRootModel)
    ensures
        t.scriptpubkey() is Some <==> t.output_key() is Some,
        t.output_key() is Some ==> {
            &&& t.scriptpubkey()->0.take(2) == seq![0x51u8, 0x20u8]
            &&& t.scriptpubkey()->0.skip(2) == x_of(t.output_key()->0)
        },
        t.scripts.len() == 0 ==> t.tap_tweak() == tagged_hash_of("TapTweak", x_of(t.inner)),
        t.output_key() is Some <==> is_scalar(t.tap_tweak()) && (with_even_y(discrete_log(t.inner))
            + be_nat(t.tap_tweak())) % curve_order() != 0,
{
    if t.output_key() is Some {
        let spk = t.scriptpubkey()->0;
        assert(spk.take(2) =~= seq![0x51u8, 0x20u8]);
        assert(spk.skip(2) =~= x_of(t.output_key()->0));
    }
}

/// A script tree is balanced: a leaf of a tree of up to `2^k` leaves has at most `k`
/// hashes on its path, and one of a single leaf none.
pub proof fn theorem_trees_are_balanced(nodes: Seq<Seq<u8>>, i: int, k: nat)
    requires
        0 <= i < nodes.len(),
        nodes.len() <= vstd::arithmetic::power2::pow2(k),
    ensures
        tree_path(nodes, i).len() <= k,
    decreases nodes.len(),
{
    vstd::arithmetic::power2::lemma2_to64();
    if nodes.len() > 1 {
        if k > 0 {
            vstd::arithmetic::power2::lemma_pow2_unfold(k);
            theorem_trees_are_balanced(next_level(nodes), i / 2, (k - 1) as nat);
        }
    }
}

/// The shape of a script tree: its first leaves, as many as a power of two, and the rest,
/// which are no more, are trees of their own, and the root is the branch of their roots.
pub proof fn theorem_trees_split(a: Seq<Seq<u8>>, b: Seq<Seq<u8>>, k: nat)
    requires
        a.len() == vstd::arithmetic::power2::pow2(k),
        1 <= b.len() <= a.len(),
    ensures
        tree_root(a) is Some,
        tree_root(b) is Some,
        tree_root(a + b) == Some(branch_hash(tree_root(a)->0, tree_root(b)->0)),
    decreases k,
{
    vstd::arithmetic::power2::lemma2_to64();
    let up = next_level(a + b);
    let up_a = next_level(a);
    let up_b = next_level(b);
    if k == 0 {
        assert(up.len() == 1);
        assert(up[0] == branch_hash(a[0], b[0]));
        assert(tree_root(up) == Some(up[0]));
    } else {
        vstd::arithmetic::power2::lemma_pow2_unfold(k);
        vstd::arithmetic::power2::lemma_pow2_pos((k - 1) as nat);
        assert(up =~= up_a + up_b) by {
            assert forall|i: int| 0 <= i < up.len() implies up[i] == (up_a + up_b)[i] by {
                if i >= up_a.len() {
                    let j = i - up_a.len();
                    assert((a + b)[2 * i] == b[2 * j]);
                    if 2 * j + 1 < b.len() {
                        assert((a + b)[2 * i + 1] == b[2 * j + 1]);
                    }
                }
            }
        }
        theorem_trees_split(up_a, up_b, (k - 1) as nat);
        if b.len() == 1 {
            assert(up_b =~= b);
        }
    }
}

/// One leaf is a tree of its own, and no leaf is none.
pub proof fn theorem_smallest_trees(leaf: Seq<u8>)
    ensures
        tree_root(seq![leaf]) == Some(leaf),
        tree_root(Seq::empty()) is None,
{
}

/// What an output is made of and what it gives: its leaves by position, its tweak, its
/// key, its scriptpubkey and its control blocks.
pub proof fn theorem_outputs_are_computed(
    inner_key: Point,
    leaves: Vec<TapLeaf>,
    t: TapRoot,
    i: usize,
    leaf: Option<&TapLeaf>,
    tweak: [u8; 32],
    key: Option<Point>,
    spk: Option<Vec<u8>>,
    block: Option<Vec<u8>>,
)
    requires
        call_ensures(TapRoot::key_and_script_path_multi, (inner_key, leaves), t),
        call_ensures(TapRoot::leaf, (&t, i), leaf),
        call_ensures(TapRoot::tap_tweak, (&t,), tweak),
        call_ensures(TapRoot::tweaked_key, (&t,), key),
        call_ensures(TapRoot::spk, (&t,), spk),
        call_ensures(TapRoot::control_block, (&t, i), block),
    ensures
        t@.inner == inner_key@,
        leaf is Some <==> i < leaves@.len(),
        leaf is Some ==> (leaf->0)@ == leaves@[i as int]@,
        leaves@.len() == 0 ==> tweak@ == tagged_hash_of("TapTweak", x_of(inner_key@)),
        leaves@.len() > 0 ==> tweak@ == tagged_hash_of(
            "TapTweak",
            x_of(inner_key@) + tree_root(t@.leaf_hashes())->0,
        ),
        key is Some <==> is_scalar(tweak@) && (with_even_y(discrete_log(inner_key@)) + be_nat(
            tweak@,
        )) % curve_order() != 0,
        key is Some ==> (key->0).exponent() == (with_even_y(discrete_log(inner_key@)) + be_nat(
            tweak@,
        )) % curve_order(),
        spk is Some <==> key is Some,
        spk is Some ==> spk->0@ == seq![0x51u8, 0x20u8] + x_of((key->0)@),
        block is Some <==> key is Some && i < leaves@.len(),
        block is Some ==> block->0@ == seq![
            (if has_even_y_of((key->0)@) {
                0xc0u8
            } else {
                0xc1u8
            }),
        ] + x_of(inner_key@) + joined(tree_path(t@.leaf_hashes(), i as int)),
{
    if leaves@.len() > 0 {
        theorem_path_leads_to_root(t@.leaf_hashes(), 0);
    }
}

/// The hash of a leaf is that of its script, which it gives back.
pub proof fn theorem_leaves_hold_their_script(
    script: Vec<u8>,
    leaf: TapLeaf,
    given: Vec<u8>,
    hash: [u8; 32],
)
    requires
        call_ensures(TapLeaf::new, (script,), leaf),
        call_ensures(TapLeaf::tap_script, (&leaf,), given),
        call_ensures(TapLeaf::tapleaf_hash, (&leaf,), hash),
    ensures
        given@ == script@,
        hash@ == tagged_hash_of("TapLeaf", seq![0xc0u8] + varint(script@.len()) + script@),
{
}

/// An output with a single script is one with that script as its only leaf.
pub proof fn theorem_single_script_is_one_leaf(
    inner_key: Point,
    leaf: TapLeaf,
    t: TapRoot,
    first: Option<&TapLeaf>,
    second: Option<&TapLeaf>,
)
    requires
        call_ensures(TapRoot::key_and_script_path_single, (inner_key, leaf), t),
        call_ensures(TapRoot::leaf, (&t, 0), first),
        call_ensures(TapRoot::leaf, (&t, 1), second),
    ensures
        t@.inner == inner_key@,
        first is Some,
        (first->0)@ == leaf@,
        second is None,
        t@.tap_tweak() == tagged_hash_of("TapTweak", x_of(inner_key@) + leaf_hash(leaf@)),
{
    assert(t@.leaf_hashes() =~= seq![leaf_hash(leaf@)]);
}

} // verus!
