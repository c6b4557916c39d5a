//! Timeout trees: a contract pot as outputs that its participants can exit alone.
//!
//! A contract holds a pot that is attributed to participants. The pot is rendered as
//! a funding output under a value-bound key, which fans out into one leaf output per
//! participant. Each leaf can be spent by account and engine together, by the account
//! alone after a delay, by the engine after expiry and, where a disprove hash is set,
//! by the account with the disprove secret.
use vstd::prelude::*;
use crate::curve::{
    discrete_log, even_point, generator_multiple, is_point, lemma_discrete_log, names_point, x_of,
    Point,
};
use crate::hash::tagged_hash_of;
use crate::musig::inner_exponent;
use crate::projector::{
    all_projected, key_projector_agg, key_values, projected, projected_at, projected_keys,
    projector_aggregates, theorem_keys_are_projected_in_place, theorem_projection_keeps_keys_apart,
};
use crate::script::{
    disprove_clause, disprove_script, exit_clause, exit_script, expiry_clause, expiry_script, xonly,
    LOCK_TIME_THRESHOLD,
};
use crate::taproot::{
    fold_path, leaf_hash, leaves_view, theorem_output_commits_to_script, tree_path, TapLeaf, TapRoot,
    TapRootModel,
};

verus! {

/// The sum of the allocated values.
pub open spec fn total_value(allocations: Seq<([u8; 32], u64)>) -> nat
    decreases allocations.len(),
{
    if allocations.len() == 0 {
        0
    } else {
        total_value(allocations.drop_last()) + allocations.last().1 as nat
    }
}

/// Whether every account key and the engine key are X coordinates of points.
pub open spec fn keys_valid(engine_key: Seq<u8>, allocations: Seq<([u8; 32], u64)>) -> bool {
    &&& is_point(even_point(engine_key))
    &&& forall|i: int|
        0 <= i < allocations.len() ==> is_point(even_point((#[trigger] allocations[i]).0@))
}

/// The keys of a funding output with the values that bind them: each account with its
/// value, then the engine with the total.
pub open spec fn funding_keys(engine_key: Seq<u8>, allocations: Seq<([u8; 32], u64)>) -> Seq<
    (Seq<u8>, u64),
> {
    Seq::new(
        allocations.len(),
        |i: int| (even_point(allocations[i].0@), allocations[i].1),
    ).push((even_point(engine_key), total_value(allocations) as u64))
}

/// Whether a funding output exists: its keys are valid and aggregate.
pub open spec fn has_funding_output(
    engine_key: Seq<u8>,
    allocations: Seq<([u8; 32], u64)>,
) -> bool {
    &&& keys_valid(engine_key, allocations)
    &&& projector_aggregates(funding_keys(engine_key, allocations), None)
}

/// The funding output: the value-bound aggregate key, or the engine after expiry.
pub open spec fn funding_output(
    engine_key: Seq<u8>,
    allocations: Seq<([u8; 32], u64)>,
    expiry_height: u32,
) -> TapRootModel {
    TapRootModel {
        inner: generator_multiple(
            inner_exponent(projected_keys(funding_keys(engine_key, allocations))),
        ),
        scripts: seq![expiry_clause(expiry_height, engine_key)],
    }
}

/// The keys of a leaf output: account and engine, both bound to the value.
pub open spec fn leaf_keys(account_key: Seq<u8>, engine_key: Seq<u8>, value: u64) -> Seq<
    (Seq<u8>, u64),
> {
    seq![(even_point(account_key), value), (even_point(engine_key), value)]
}

/// Whether a leaf output exists: its keys are valid and aggregate.
pub open spec fn has_leaf_output(account_key: Seq<u8>, engine_key: Seq<u8>, value: u64) -> bool {
    &&& is_point(even_point(account_key))
    &&& is_point(even_point(engine_key))
    &&& projector_aggregates(leaf_keys(account_key, engine_key, value), None)
}

/// The scripts of a leaf output: expiry, exit and, with a disprove hash, disprove.
pub open spec fn leaf_scripts(
    account_key: Seq<u8>,
    engine_key: Seq<u8>,
    expiry_height: u32,
    exit_delay: u16,
    disprove_hash: Option<[u8; 32]>,
) -> Seq<Seq<u8>> {
    let two = seq![
        expiry_clause(expiry_height, engine_key),
        exit_clause(exit_delay, account_key),
    ];
    match disprove_hash {
        None => two,
        Some(h) => two.push(disprove_clause(h@, account_key)),
    }
}

/// The sum of the values of leaf outputs.
pub open spec fn leaf_sum(leaves: Seq<VtxoLeaf>) -> nat
    decreases leaves.len(),
{
    if leaves.len() == 0 {
        0
    } else {
        leaf_sum(leaves.drop_last()) + leaves.last().value_in_satoshis as nat
    }
}

/// The hash, script and control block that a leaf script is spent with.
pub open spec fn spend_elements(t: TapRootModel, i: int) -> Option<(Seq<u8>, Seq<u8>, Seq<u8>)> {
    if i < t.scripts.len() && t.output_exponent() is Some {
        Some((leaf_hash(t.scripts[i]), t.scripts[i], t.control_block(i)->0))
    } else {
        None
    }
}

/// Spend elements by their bytes.
pub open spec fn elements_view(elements: Option<([u8; 32], Vec<u8>, Vec<u8>)>) -> Option<
    (Seq<u8>, Seq<u8>, Seq<u8>),
> {
    match elements {
        None => None,
        Some(e) => Some((e.0@, e.1@, e.2@)),
    }
}

proof fn lemma_total_value_prefix(allocations: Seq<([u8; 32], u64)>, i: int)
    requires
        0 <= i <= allocations.len(),
    ensures
        total_value(allocations.take(i)) <= total_value(allocations),
    decreases allocations.len() - i,
{
    if i < allocations.len() {
        lemma_total_value_prefix(allocations, i + 1);
        assert(allocations.take(i + 1).drop_last() =~= allocations.take(i));
    } else {
        assert(allocations.take(i) =~= allocations);
    }
}

/// The sum of the allocated values, where it fits.
fn checked_total(allocations: &[([u8; 32], u64)]) -> (r: Option<u64>)
    ensures
        match r {
            None => total_value(allocations@) > u64::MAX,
            Some(total) => total == total_value(allocations@),
        },
{
    let mut total: u64 = 0;
    let mut i: usize = 0;
    assert(allocations@.take(0) =~= Seq::empty());
    while i < allocations.len()
        invariant
            i <= allocations@.len(),
            total == total_value(allocations@.take(i as int)),
        decreases allocations@.len() - i,
    {
        proof {
            lemma_total_value_prefix(allocations@, i + 1);
            assert(allocations@.take(i + 1).drop_last() =~= allocations@.take(i as int));
        }
        match total.checked_add(allocations[i].1) {
            None => {
                return None;
            },
            Some(sum) => {
                total = sum;
            },
        }
        i = i + 1;
    }
    assert(allocations@.take(i as int) =~= allocations@);
    Some(total)
}

/// The sum of the allocated values.
pub fn total_of(allocations: &[([u8; 32], u64)]) -> (r: u64)
    requires
        total_value(allocations@) <= u64::MAX,
    ensures
        r == total_value(allocations@),
{
    checked_total(allocations).unwrap()
}

/// The keys of a funding output with the values that bind them. Fails where a key is
/// not the X coordinate of a point.
pub fn funding_keys_and_values(engine_key: [u8; 32], allocations: &[([u8; 32], u64)]) -> (r: Option<
    Vec<(Point, u64)>,
>)
    requires
        keys_valid(engine_key@, allocations@) ==> total_value(allocations@) <= u64::MAX,
    ensures
        match r {
            None => !keys_valid(engine_key@, allocations@),
            Some(keys) => {
                &&& keys_valid(engine_key@, allocations@)
                &&& key_values(keys@) == funding_keys(engine_key@, allocations@)
            },
        },
{
    let total = match checked_total(allocations) {
        None => {
            return None;
        },
        Some(t) => t,
    };
    let ghost all = funding_keys(engine_key@, allocations@);
    let mut keys: Vec<(Point, u64)> = Vec::new();
    let mut i: usize = 0;
    while i < allocations.len()
        invariant
            i <= allocations@.len(),
            all == funding_keys(engine_key@, allocations@),
            keys@.len() == i,
            forall|j: int| 0 <= j < i ==> is_point(even_point((#[trigger] allocations@[j]).0@)),
            forall|j: int| 0 <= j < i ==> key_values(keys@)[j] == #[trigger] all[j],
        decreases allocations@.len() - i,
    {
        let pair = &allocations[i];
        match Point::lift_x(&pair.0) {
            None => {
                assert(!is_point(even_point(allocations@[i as int].0@)));
                return None;
            },
            Some(p) => {
                keys.push((p, pair.1));
            },
        }
        i = i + 1;
    }
    match Point::lift_x(&engine_key) {
        None => {
            return None;
        },
        Some(p) => {
            keys.push((p, total));
        },
    }
    assert(key_values(keys@) =~= all);
    Some(keys)
}

/// The funding output. Fails where its keys are not valid or do not aggregate.
pub fn funding_taproot(
    engine_key: [u8; 32],
    allocations: &[([u8; 32], u64)],
    expiry_height: u32,
) -> (r: Option<TapRoot>)
    requires
        has_funding_output(engine_key@, allocations@) ==> {
            &&& total_value(allocations@) <= u64::MAX
            &&& expiry_height < LOCK_TIME_THRESHOLD
        },
    ensures
        match r {
            None => !has_funding_output(engine_key@, allocations@),
            Some(t) => {
                &&& has_funding_output(engine_key@, allocations@)
                &&& t@ == funding_output(engine_key@, allocations@, expiry_height)
                &&& discrete_log(t@.inner) == inner_exponent(
                    projected_keys(funding_keys(engine_key@, allocations@)),
                )
            },
        },
{
    if !xonly(&engine_key) || checked_total(allocations).is_none() {
        return None;
    }
    let keys = match funding_keys_and_values(engine_key, allocations) {
        None => {
            return None;
        },
        Some(keys) => keys,
    };
    match key_projector_agg(&keys, None) {
        None => None,
        Some(agg) => Some(
            TapRoot::key_and_script_path_single(
                agg.agg_inner_key(),
                TapLeaf::new(expiry_script(expiry_height, &engine_key)),
            ),
        ),
    }
}

/// The leaf output of one participant.
pub struct VtxoLeaf {
    pub account_key: [u8; 32],
    pub engine_key: [u8; 32],
    pub value_in_satoshis: u64,
    pub expiry_height: u32,
    pub exit_delay: u16,
    pub disprove_hash: Option<[u8; 32]>,
    pub taproot: TapRoot,
}

impl VtxoLeaf {
    /// Whether the output is the one that the other fields describe.
    pub open spec fn is_rendered(&self) -> bool {
        &&& has_leaf_output(self.account_key@, self.engine_key@, self.value_in_satoshis)
        &&& self.taproot@ == (TapRootModel {
            inner: generator_multiple(
                inner_exponent(
                    projected_keys(
                        leaf_keys(self.account_key@, self.engine_key@, self.value_in_satoshis),
                    ),
                ),
            ),
            scripts: leaf_scripts(
                self.account_key@,
                self.engine_key@,
                self.expiry_height,
                self.exit_delay,
                self.disprove_hash,
            ),
        })
    }

    /// Renders the output of one participant. Fails where its keys are not valid or do
    /// not aggregate.
    pub fn build(
        account_key: [u8; 32],
        engine_key: [u8; 32],
        value_in_satoshis: u64,
        expiry_height: u32,
        exit_delay: u16,
        disprove_hash: Option<[u8; 32]>,
    ) -> (r: Option<VtxoLeaf>)
        requires
            has_leaf_output(account_key@, engine_key@, value_in_satoshis) ==> expiry_height
                < LOCK_TIME_THRESHOLD,
        ensures
            match r {
                None => !has_leaf_output(account_key@, engine_key@, value_in_satoshis),
                Some(leaf) => {
                    &&& leaf.account_key == account_key
                    &&& leaf.engine_key == engine_key
                    &&& leaf.value_in_satoshis == value_in_satoshis
                    &&& leaf.expiry_height == expiry_height
                    &&& leaf.exit_delay == exit_delay
                    &&& leaf.disprove_hash == disprove_hash
                    &&& leaf.is_rendered()
                },
            },
    {
        let account_point = match Point::lift_x(&account_key) {
            None => {
                return None;
            },
            Some(p) => p,
        };
        let engine_point = match Point::lift_x(&engine_key) {
            None => {
                return None;
            },
            Some(p) => p,
        };
        if !xonly(&account_key) || !xonly(&engine_key) {
            return None;
        }
        let mut keys: Vec<(Point, u64)> = Vec::new();
        keys.push((account_point, value_in_satoshis));
        keys.push((engine_point, value_in_satoshis));
        assert(key_values(keys@) =~= leaf_keys(account_key@, engine_key@, value_in_satoshis));
        let inner_key = match key_projector_agg(&keys, None) {
            None => {
                return None;
            },
            Some(agg) => agg.agg_inner_key(),
        };
        let mut leaves: Vec<TapLeaf> = Vec::new();
        leaves.push(TapLeaf::new(expiry_script(expiry_height, &engine_key)));
        leaves.push(TapLeaf::new(exit_script(exit_delay, &account_key)));
        match &disprove_hash {
            None => {},
            Some(h) => {
                leaves.push(TapLeaf::new(disprove_script(h, &account_key)));
            },
        }
        assert(leaves_view(leaves@) =~= leaf_scripts(
            account_key@,
            engine_key@,
            expiry_height,
            exit_delay,
            disprove_hash,
        ));
        let taproot = TapRoot::key_and_script_path_multi(inner_key, leaves);
        Some(
            VtxoLeaf {
                account_key,
                engine_key,
                value_in_satoshis,
                expiry_height,
                exit_delay,
                disprove_hash,
                taproot,
            },
        )
    }

    /// The scriptpubkey of the output.
    pub fn scriptpubkey(&self) -> (r: Option<Vec<u8>>)
        ensures
            match r {
                None => self.taproot@.scriptpubkey() is None,
                Some(bytes) => self.taproot@.scriptpubkey() == Some(bytes@),
            },
    {
        self.taproot.spk()
    }

    /// Leaf hash, script and control block of the unilateral exit.
    pub fn exit_spend_elements(&self) -> (r: Option<([u8; 32], Vec<u8>, Vec<u8>)>)
        ensures
            elements_view(r) == spend_elements(self.taproot@, 1),
    {
        self.script_path_elements(1)
    }

    /// Leaf hash, script and control block of the expiry.
    pub fn expiry_spend_elements(&self) -> (r: Option<([u8; 32], Vec<u8>, Vec<u8>)>)
        ensures
            elements_view(r) == spend_elements(self.taproot@, 0),
    {
        self.script_path_elements(0)
    }

    /// Leaf hash, script and control block of the disprove path, where there is one.
    pub fn disprove_spend_elements(&self) -> (r: Option<([u8; 32], Vec<u8>, Vec<u8>)>)
        ensures
            self.disprove_hash is None ==> r is None,
            self.disprove_hash is Some ==> elements_view(r) == spend_elements(self.taproot@, 2),
    {
        if self.disprove_hash.is_none() {
            return None;
        }
        self.script_path_elements(2)
    }

    fn script_path_elements(&self, index: usize) -> (r: Option<([u8; 32], Vec<u8>, Vec<u8>)>)
        ensures
            elements_view(r) == spend_elements(self.taproot@, index as int),
    {
        let leaf = match self.taproot.leaf(index) {
            None => {
                return None;
            },
            Some(leaf) => leaf,
        };
        match self.taproot.control_block(index) {
            None => None,
            Some(block) => Some((leaf.tapleaf_hash(), leaf.tap_script(), block)),
        }
    }
}

/// The disprove hash of the participant at a position.
pub open spec fn disprove_at(hashes: Option<Seq<[u8; 32]>>, i: int) -> Option<[u8; 32]> {
    match hashes {
        None => None,
        Some(h) => Some(h[i]),
    }
}

/// Whether a tree exists: there are allocations, a disprove hash for each or for none,
/// and all its outputs exist.
pub open spec fn has_tree(
    engine_key: Seq<u8>,
    allocations: Seq<([u8; 32], u64)>,
    disprove_hashes: Option<Seq<[u8; 32]>>,
) -> bool {
    &&& allocations.len() > 0
    &&& match disprove_hashes {
        None => true,
        Some(h) => h.len() == allocations.len(),
    }
    &&& has_funding_output(engine_key, allocations)
    &&& forall|i: int|
        0 <= i < allocations.len() ==> has_leaf_output(
            (#[trigger] allocations[i]).0@,
            engine_key,
            allocations[i].1,
        )
}

/// Optional hashes by their sequence.
pub open spec fn hashes_option(hashes: Option<&[[u8; 32]]>) -> Option<Seq<[u8; 32]>> {
    match hashes {
        None => None,
        Some(h) => Some(h@),
    }
}

/// A contract pot, rendered as outputs.
pub struct TimeoutTree {
    pub engine_key: [u8; 32],
    pub expiry_height: u32,
    pub exit_delay: u16,
    /// The pot under the value-bound key, or the engine after expiry.
    pub funding_taproot: TapRoot,
    pub leaves: Vec<VtxoLeaf>,
    pub total_value_in_satoshis: u64,
}

impl TimeoutTree {
    /// Whether the tree renders the given allocations.
    pub open spec fn renders(
        &self,
        allocations: Seq<([u8; 32], u64)>,
        disprove_hashes: Option<Seq<[u8; 32]>>,
    ) -> bool {
        &&& self.funding_taproot@ == funding_output(
            self.engine_key@,
            allocations,
            self.expiry_height,
        )
        &&& self.total_value_in_satoshis == total_value(allocations)
        &&& self.leaves@.len() == allocations.len()
        &&& forall|i: int|
            0 <= i < allocations.len() ==> {
                let leaf = #[trigger] self.leaves@[i];
                &&& leaf.is_rendered()
                &&& leaf.account_key == allocations[i].0
                &&& leaf.engine_key == self.engine_key
                &&& leaf.value_in_satoshis == allocations[i].1
                &&& leaf.expiry_height == self.expiry_height
                &&& leaf.exit_delay == self.exit_delay
                &&& leaf.disprove_hash == disprove_at(disprove_hashes, i)
            }
    }

    /// Renders allocations of a pot. Disprove hashes, where given, go with the
    /// allocations by position. Fails where there is nothing allocated, where the
    /// disprove hashes are not as many as the allocations, or where an output does not
    /// exist.
    pub fn build(
        engine_key: [u8; 32],
        allocations: &[([u8; 32], u64)],
        expiry_height: u32,
        exit_delay: u16,
        disprove_hashes: Option<&[[u8; 32]]>,
    ) -> (r: Option<TimeoutTree>)
        requires
            has_tree(engine_key@, allocations@, hashes_option(disprove_hashes)) ==> {
                &&& total_value(allocations@) <= u64::MAX
                &&& expiry_height < LOCK_TIME_THRESHOLD
            },
        ensures
            match r {
                None => !has_tree(engine_key@, allocations@, hashes_option(disprove_hashes)),
                Some(tree) => {
                    &&& has_tree(engine_key@, allocations@, hashes_option(disprove_hashes))
                    &&& tree.engine_key == engine_key
                    &&& tree.expiry_height == expiry_height
                    &&& tree.exit_delay == exit_delay
                    &&& tree.renders(allocations@, hashes_option(disprove_hashes))
                },
            },
    {
        if allocations.len() == 0 {
            return None;
        }
        if let Some(hashes) = disprove_hashes {
            if hashes.len() != allocations.len() {
                return None;
            }
        }
        let total_value_in_satoshis = match checked_total(allocations) {
            None => {
                return None;
            },
            Some(total) => total,
        };
        if expiry_height >= LOCK_TIME_THRESHOLD {
            return None;
        }
        let funding = match funding_taproot(engine_key, allocations, expiry_height) {
            None => {
                return None;
            },
            Some(t) => t,
        };
        let ghost hashes_seq = hashes_option(disprove_hashes);
        let mut leaves: Vec<VtxoLeaf> = Vec::new();
        let mut i: usize = 0;
        while i < allocations.len()
            invariant
                i <= allocations@.len(),
                expiry_height < LOCK_TIME_THRESHOLD,
                hashes_seq == hashes_option(disprove_hashes),
                match disprove_hashes {
                    None => true,
                    Some(h) => h@.len() == allocations@.len(),
                },
                leaves@.len() == i,
                forall|j: int|
                    0 <= j < i ==> {
                        let leaf = #[trigger] leaves@[j];
                        &&& leaf.is_rendered()
                        &&& leaf.account_key == allocations@[j].0
                        &&& leaf.engine_key == engine_key
                        &&& leaf.value_in_satoshis == allocations@[j].1
                        &&& leaf.expiry_height == expiry_height
                        &&& leaf.exit_delay == exit_delay
                        &&& leaf.disprove_hash == disprove_at(hashes_seq, j)
                    },
                forall|j: int|
                    0 <= j < i ==> has_leaf_output(
                        (#[trigger] allocations@[j]).0@,
                        engine_key@,
                        allocations@[j].1,
                    ),
            decreases allocations@.len() - i,
        {
            let pair = &allocations[i];
            let disprove_hash: Option<[u8; 32]> = match disprove_hashes {
                None => None,
                Some(hashes) => Some(hashes[i]),
            };
            match VtxoLeaf::build(
                pair.0,
                engine_key,
                pair.1,
                expiry_height,
                exit_delay,
                disprove_hash,
            ) {
                None => {
                    assert(!has_leaf_output(
                        allocations@[i as int].0@,
                        engine_key@,
                        allocations@[i as int].1,
                    ));
                    return None;
                },
                Some(leaf) => {
                    leaves.push(leaf);
                },
            }
            i = i + 1;
        }
        Some(
            TimeoutTree {
                engine_key,
                expiry_height,
                exit_delay,
                funding_taproot: funding,
                leaves,
                total_value_in_satoshis,
            },
        )
    }

    /// The scriptpubkey of the funding output.
    pub fn funding_scriptpubkey(&self) -> (r: Option<Vec<u8>>)
        ensures
            match r {
                None => self.funding_taproot@.scriptpubkey() is None,
                Some(bytes) => self.funding_taproot@.scriptpubkey() == Some(bytes@),
            },
    {
        self.funding_taproot.spk()
    }

    /// The sum of the values of the leaf outputs.
    pub fn leaves_value_sum(&self) -> (r: u64)
        requires
            leaf_sum(self.leaves@) <= u64::MAX,
        ensures
            r == leaf_sum(self.leaves@),
    {
        let mut sum: u64 = 0;
        let mut i: usize = 0;
        assert(self.leaves@.take(0) =~= Seq::empty());
        while i < self.leaves.len()
            invariant
                i <= self.leaves@.len(),
                leaf_sum(self.leaves@) <= u64::MAX,
                sum == leaf_sum(self.leaves@.take(i as int)),
            decreases self.leaves@.len() - i,
        {
            proof {
                lemma_leaf_sum_prefix(self.leaves@, i + 1);
                assert(self.leaves@.take(i + 1).drop_last() =~= self.leaves@.take(i as int));
            }
            sum = sum + self.leaves[i].value_in_satoshis;
            i = i + 1;
        }
        assert(self.leaves@.take(i as int) =~= self.leaves@);
        sum
    }
}

proof fn lemma_leaf_sum_prefix(leaves: Seq<VtxoLeaf>, i: int)
    requires
        0 <= i <= leaves.len(),
    ensures
        leaf_sum(leaves.take(i)) <= leaf_sum(leaves),
    decreases leaves.len() - i,
{
    if i < leaves.len() {
        lemma_leaf_sum_prefix(leaves, i + 1);
        assert(leaves.take(i + 1).drop_last() =~= leaves.take(i));
    } else {
        assert(leaves.take(i) =~= leaves);
    }
}

/// Every claim is covered: the leaf outputs of a tree add up to the pot.
pub proof fn theorem_leaves_add_up_to_pot(
    tree: TimeoutTree,
    allocations: Seq<([u8; 32], u64)>,
    disprove_hashes: Option<Seq<[u8; 32]>>,
)
    requires
        tree.renders(allocations, disprove_hashes),
    ensures
        leaf_sum(tree.leaves@) == tree.total_value_in_satoshis,
{
    lemma_sums_agree(tree.leaves@, allocations);
}

proof fn lemma_sums_agree(leaves: Seq<VtxoLeaf>, allocations: Seq<([u8; 32], u64)>)
    requires
        leaves.len() == allocations.len(),
        forall|i: int|
            0 <= i < leaves.len() ==> (#[trigger] leaves[i]).value_in_satoshis == allocations[i].1,
    ensures
        leaf_sum(leaves) == total_value(allocations),
    decreases leaves.len(),
{
    if leaves.len() > 0 {
        lemma_sums_agree(leaves.drop_last(), allocations.drop_last());
    }
}

/// Whether a script can spend an output at a position: it is the one that is handed out
/// there, and the output key commits to it.
pub open spec fn opens_at(t: TapRootModel, i: int, script: Seq<u8>) -> bool {
    &&& spend_elements(t, i) == Some((leaf_hash(script), script, t.control_block(i)->0))
    &&& t.tap_tweak() == tagged_hash_of(
        "TapTweak",
        x_of(t.inner) + fold_path(leaf_hash(script), tree_path(t.leaf_hashes(), i)),
    )
}

/// The ways to spend a leaf output without the other side: the holder alone after the
/// exit delay, the engine alone after expiry, and the holder with the disprove secret
/// where there is a disprove hash.
pub proof fn theorem_leaf_opens_without_the_other_side(leaf: VtxoLeaf)
    requires
        leaf.is_rendered(),
        leaf.taproot@.output_exponent() is Some,
    ensures
        opens_at(leaf.taproot@, 0, expiry_clause(leaf.expiry_height, leaf.engine_key@)),
        opens_at(leaf.taproot@, 1, exit_clause(leaf.exit_delay, leaf.account_key@)),
        match leaf.disprove_hash {
            None => spend_elements(leaf.taproot@, 2) is None,
            Some(h) => opens_at(leaf.taproot@, 2, disprove_clause(h@, leaf.account_key@)),
        },
{
    let t = leaf.taproot@;
    theorem_output_commits_to_script(t, 0);
    theorem_output_commits_to_script(t, 1);
    if leaf.disprove_hash is Some {
        theorem_output_commits_to_script(t, 2);
    }
}

/// The values of two lists of allocations add up, and one allocation counts its value.
pub proof fn theorem_total_adds_up(
    a: Seq<([u8; 32], u64)>,
    b: Seq<([u8; 32], u64)>,
    one: ([u8; 32], u64),
)
    ensures
        total_value(a + b) == total_value(a) + total_value(b),
        total_value(seq![one]) == one.1,
        total_value(a.push(one)) == total_value(a) + one.1,
    decreases b.len(),
{
    reveal_with_fuel(total_value, 2);
    assert(a.push(one).drop_last() =~= a);
    assert(seq![one].drop_last() =~= Seq::empty());
    if b.len() == 0 {
        assert(a + b =~= a);
    } else {
        theorem_total_adds_up(a, b.drop_last(), one);
        assert((a + b).drop_last() =~= a + b.drop_last());
        assert((a + b).last() == b.last());
    }
}

/// The values of two lists of leaf outputs add up, and one leaf counts its value.
pub proof fn theorem_leaf_sum_adds_up(a: Seq<VtxoLeaf>, b: Seq<VtxoLeaf>, one: VtxoLeaf)
    ensures
        leaf_sum(a + b) == leaf_sum(a) + leaf_sum(b),
        leaf_sum(seq![one]) == one.value_in_satoshis,
    decreases b.len(),
{
    reveal_with_fuel(leaf_sum, 2);
    assert(seq![one].drop_last() =~= Seq::empty());
    if b.len() == 0 {
        assert(a + b =~= a);
    } else {
        theorem_leaf_sum_adds_up(a, b.drop_last(), one);
        assert((a + b).drop_last() =~= a + b.drop_last());
        assert((a + b).last() == b.last());
    }
}

/// Who signs a leaf output: its internal key is the aggregate of two keys, the account's
/// at the first and the engine's at the second place, each projected by the value of the
/// leaf and its place.
pub proof fn theorem_leaf_signers(
    account_key: [u8; 32],
    engine_key: [u8; 32],
    value: u64,
    expiry_height: u32,
    exit_delay: u16,
    disprove_hash: Option<[u8; 32]>,
    leaf: VtxoLeaf,
)
    requires
        call_ensures(
            VtxoLeaf::build,
            (account_key, engine_key, value, expiry_height, exit_delay, disprove_hash),
            Some(leaf),
        ),
    ensures
        ({
            let account = projected(discrete_log(even_point(account_key@)), value, 0);
            let engine = projected(discrete_log(even_point(engine_key@)), value, 1);
            let signers = seq![generator_multiple(account->0), generator_multiple(engine->0)];
            &&& account is Some
            &&& engine is Some
            &&& leaf.taproot@.inner == generator_multiple(inner_exponent(signers))
        }),
{
    let keys = leaf_keys(account_key@, engine_key@, value);
    theorem_keys_are_projected_in_place(keys, 0);
    theorem_keys_are_projected_in_place(keys, 1);
    let account = projected(discrete_log(even_point(account_key@)), value, 0);
    let engine = projected(discrete_log(even_point(engine_key@)), value, 1);
    assert(projected_keys(keys) =~= seq![
        generator_multiple(account->0),
        generator_multiple(engine->0),
    ]);
}

/// The secrets of account and engine, projected by the value of the leaf and their place,
/// are the secrets of the keys that its internal key aggregates.
pub proof fn theorem_leaf_secrets(
    account_key: [u8; 32],
    engine_key: [u8; 32],
    value: u64,
    account_secret: nat,
    engine_secret: nat,
)
    requires
        has_leaf_output(account_key@, engine_key@, value),
        names_point(account_secret),
        names_point(engine_secret),
        generator_multiple(account_secret) == even_point(account_key@),
        generator_multiple(engine_secret) == even_point(engine_key@),
    ensures
        projected_keys(leaf_keys(account_key@, engine_key@, value)) == seq![
            generator_multiple(projected(account_secret, value, 0)->0),
            generator_multiple(projected(engine_secret, value, 1)->0),
        ],
{
    let keys = leaf_keys(account_key@, engine_key@, value);
    theorem_keys_are_projected_in_place(keys, 0);
    theorem_keys_are_projected_in_place(keys, 1);
    assert(projected_keys(keys) =~= seq![
        generator_multiple(projected(account_secret, value, 0)->0),
        generator_multiple(projected(engine_secret, value, 1)->0),
    ]);
}

/// Leaves of different accounts have different signers, and so have leaves of one account
/// under different engines.
pub proof fn theorem_leaf_signers_differ(
    account1: Seq<u8>,
    account2: Seq<u8>,
    engine1: Seq<u8>,
    engine2: Seq<u8>,
    value: u64,
)
    requires
        has_leaf_output(account1, engine1, value),
        has_leaf_output(account2, engine2, value),
        names_point(projected(discrete_log(even_point(account1)), value, 0)->0),
        names_point(projected(discrete_log(even_point(account2)), value, 0)->0),
        names_point(projected(discrete_log(even_point(engine1)), value, 1)->0),
        names_point(projected(discrete_log(even_point(engine2)), value, 1)->0),
    ensures
        account1 != account2 ==> projected_keys(leaf_keys(account1, engine1, value))[0]
            != projected_keys(leaf_keys(account2, engine2, value))[0],
        engine1 != engine2 ==> projected_keys(leaf_keys(account1, engine1, value))[1]
            != projected_keys(leaf_keys(account2, engine2, value))[1],
{
    let k1 = leaf_keys(account1, engine1, value);
    let k2 = leaf_keys(account2, engine2, value);
    theorem_keys_are_projected_in_place(k1, 0);
    theorem_keys_are_projected_in_place(k1, 1);
    theorem_keys_are_projected_in_place(k2, 0);
    theorem_keys_are_projected_in_place(k2, 1);
    lemma_discrete_log(even_point(account1));
    lemma_discrete_log(even_point(account2));
    lemma_discrete_log(even_point(engine1));
    lemma_discrete_log(even_point(engine2));
    assert(even_point(account1).drop_first() =~= account1);
    assert(even_point(account2).drop_first() =~= account2);
    assert(even_point(engine1).drop_first() =~= engine1);
    assert(even_point(engine2).drop_first() =~= engine2);
    if account1 != account2 {
        theorem_projection_keeps_keys_apart(
            discrete_log(even_point(account1)),
            discrete_log(even_point(account2)),
            value,
            0,
        );
    }
    if engine1 != engine2 {
        theorem_projection_keeps_keys_apart(
            discrete_log(even_point(engine1)),
            discrete_log(even_point(engine2)),
            value,
            1,
        );
    }
}

/// The scripts of a leaf output: the engine after expiry, the account after the exit
/// delay and, with a disprove hash, the account with its preimage; there is no other.
pub proof fn theorem_leaf_has_its_clauses(
    account_key: [u8; 32],
    engine_key: [u8; 32],
    value: u64,
    expiry_height: u32,
    exit_delay: u16,
    disprove_hash: Option<[u8; 32]>,
    leaf: VtxoLeaf,
)
    requires
        call_ensures(
            VtxoLeaf::build,
            (account_key, engine_key, value, expiry_height, exit_delay, disprove_hash),
            Some(leaf),
        ),
    ensures
        leaf.value_in_satoshis == value,
        leaf.account_key == account_key,
        leaf.engine_key == engine_key,
        leaf.taproot@.scripts.len() == if disprove_hash is Some {
            3int
        } else {
            2
        },
        leaf.taproot@.scripts[0] == expiry_clause(expiry_height, engine_key@),
        leaf.taproot@.scripts[1] == exit_clause(exit_delay, account_key@),
        disprove_hash is Some ==> leaf.taproot@.scripts[2] == disprove_clause(
            disprove_hash->0@,
            account_key@,
        ),
{
}

/// There is a leaf output if and only if account and engine are keys that have a
/// projection by the value, and the two projections aggregate.
pub proof fn theorem_leaf_is_owed(
    account_key: [u8; 32],
    engine_key: [u8; 32],
    value: u64,
    expiry_height: u32,
    exit_delay: u16,
    disprove_hash: Option<[u8; 32]>,
    r: Option<VtxoLeaf>,
)
    requires
        call_ensures(
            VtxoLeaf::build,
            (account_key, engine_key, value, expiry_height, exit_delay, disprove_hash),
            r,
        ),
    ensures
        ({
            let account = projected(discrete_log(even_point(account_key@)), value, 0);
            let engine = projected(discrete_log(even_point(engine_key@)), value, 1);
            r is Some <==> {
                &&& is_point(even_point(account_key@))
                &&& is_point(even_point(engine_key@))
                &&& account is Some
                &&& engine is Some
                &&& inner_exponent(
                    seq![generator_multiple(account->0), generator_multiple(engine->0)],
                ) != 0
            }
        }),
{
    let keys = leaf_keys(account_key@, engine_key@, value);
    theorem_keys_are_projected_in_place(keys, 0);
    theorem_keys_are_projected_in_place(keys, 1);
    let account = projected(discrete_log(even_point(account_key@)), value, 0);
    let engine = projected(discrete_log(even_point(engine_key@)), value, 1);
    assert(projected_keys(keys) =~= seq![
        generator_multiple(account->0),
        generator_multiple(engine->0),
    ]);
    assert(projected_at(keys, 0) == account);
    assert(projected_at(keys, 1) == engine);
    assert(all_projected(keys) <==> account is Some && engine is Some) by {
        if account is Some && engine is Some {
            assert forall|i: int| 0 <= i < keys.len() implies (#[trigger] projected_at(keys, i))
                is Some by {
                assert(i == 0 || i == 1);
            }
        }
    }
}

/// Who signs the funding output of a pot: every account, in the order of the allocations
/// and projected by its own value, and behind them the engine, projected by the total; the
/// one script is the engine's after expiry.
pub proof fn theorem_funding_signers(
    engine_key: [u8; 32],
    allocations: &[([u8; 32], u64)],
    expiry_height: u32,
    t: TapRoot,
    signers: Seq<Seq<u8>>,
)
    requires
        call_ensures(funding_taproot, (engine_key, allocations, expiry_height), Some(t)),
        allocations@.len() < 0xffff_ffff,
        total_value(allocations@) <= u64::MAX,
        signers.len() == allocations@.len() + 1,
        forall|i: int|
            0 <= i < allocations@.len() ==> #[trigger] signers[i] == generator_multiple(
                projected(
                    discrete_log(even_point(allocations@[i].0@)),
                    allocations@[i].1,
                    i as u32,
                )->0,
            ),
        signers.last() == generator_multiple(
            projected(
                discrete_log(even_point(engine_key@)),
                total_value(allocations@) as u64,
                allocations@.len() as u32,
            )->0,
        ),
    ensures
        t@.inner == generator_multiple(inner_exponent(signers)),
        t@.scripts == seq![expiry_clause(expiry_height, engine_key@)],
{
    let keys = funding_keys(engine_key@, allocations@);
    assert(keys.len() == signers.len());
    assert forall|i: int| 0 <= i < keys.len() implies projected_keys(keys)[i] == signers[i] by {
        theorem_keys_are_projected_in_place(keys, i);
        if i < allocations@.len() {
            assert(signers[i] == generator_multiple(
                projected(
                    discrete_log(even_point(allocations@[i].0@)),
                    allocations@[i].1,
                    i as u32,
                )->0,
            ));
        }
    }
    assert(projected_keys(keys) =~= signers);
}

/// A tree has one leaf for each allocation, in order, with the account, the value and the
/// disprove hash of its place, and the expiry and the delay of the tree; its pot is the
/// sum of the allocations.
pub proof fn theorem_tree_covers_every_allocation(
    engine_key: [u8; 32],
    allocations: &[([u8; 32], u64)],
    expiry_height: u32,
    exit_delay: u16,
    disprove_hashes: Option<&[[u8; 32]]>,
    tree: TimeoutTree,
    leaf: Option<VtxoLeaf>,
    i: int,
)
    requires
        call_ensures(
            TimeoutTree::build,
            (engine_key, allocations, expiry_height, exit_delay, disprove_hashes),
            Some(tree),
        ),
        0 <= i < allocations@.len(),
        call_ensures(
            VtxoLeaf::build,
            (
                allocations@[i].0,
                engine_key,
                allocations@[i].1,
                expiry_height,
                exit_delay,
                match disprove_hashes {
                    None => None,
                    Some(h) => Some(h@[i]),
                },
            ),
            leaf,
        ),
    ensures
        tree.leaves@.len() == allocations@.len(),
        tree.total_value_in_satoshis == total_value(allocations@),
        leaf is Some,
        tree.leaves@[i].account_key == allocations@[i].0,
        tree.leaves@[i].value_in_satoshis == allocations@[i].1,
        tree.leaves@[i].disprove_hash == leaf->0.disprove_hash,
        tree.leaves@[i].taproot@ == leaf->0.taproot@,
{
    let l = tree.leaves@[i];
    assert(l.is_rendered());
}

/// There is a tree if and only if something is allocated, the disprove hashes are none or
/// as many as the allocations, and every output exists: the funding output and the leaf
/// of each allocation.
pub proof fn theorem_tree_is_owed(
    engine_key: [u8; 32],
    allocations: &[([u8; 32], u64)],
    expiry_height: u32,
    exit_delay: u16,
    disprove_hashes: Option<&[[u8; 32]]>,
    r: Option<TimeoutTree>,
    funding: Option<TapRoot>,
)
    requires
        call_ensures(
            TimeoutTree::build,
            (engine_key, allocations, expiry_height, exit_delay, disprove_hashes),
            r,
        ),
        call_ensures(funding_taproot, (engine_key, allocations, expiry_height), funding),
    ensures
        r is Some <==> {
            &&& allocations@.len() > 0
            &&& match disprove_hashes {
                None => true,
                Some(h) => h@.len() == allocations@.len(),
            }
            &&& funding is Some
            &&& forall|i: int|
                0 <= i < allocations@.len() ==> has_leaf_output(
                    (#[trigger] allocations@[i]).0@,
                    engine_key@,
                    allocations@[i].1,
                )
        },
        r is Some ==> (r->0).funding_taproot@ == funding->0@,
{
}

/// What a leaf output hands out to spend it by a script: the script at the asked place,
/// its hash and its control block; the exit is at the second place, the expiry at the
/// first and the disprove path, where there is one, at the third.
pub proof fn theorem_leaf_hands_out_its_clauses(
    leaf: VtxoLeaf,
    exit: Option<([u8; 32], Vec<u8>, Vec<u8>)>,
    expiry: Option<([u8; 32], Vec<u8>, Vec<u8>)>,
    disprove: Option<([u8; 32], Vec<u8>, Vec<u8>)>,
)
    requires
        leaf.is_rendered(),
        leaf.taproot@.output_exponent() is Some,
        call_ensures(VtxoLeaf::exit_spend_elements, (&leaf,), exit),
        call_ensures(VtxoLeaf::expiry_spend_elements, (&leaf,), expiry),
        call_ensures(VtxoLeaf::disprove_spend_elements, (&leaf,), disprove),
    ensures
        exit is Some,
        (exit->0).1@ == exit_clause(leaf.exit_delay, leaf.account_key@),
        (exit->0).0@ == leaf_hash((exit->0).1@),
        leaf.taproot@.control_block(1) == Some((exit->0).2@),
        expiry is Some,
        (expiry->0).1@ == expiry_clause(leaf.expiry_height, leaf.engine_key@),
        (expiry->0).0@ == leaf_hash((expiry->0).1@),
        leaf.taproot@.control_block(0) == Some((expiry->0).2@),
        disprove is Some <==> leaf.disprove_hash is Some,
        disprove is Some ==> {
            &&& (disprove->0).1@ == disprove_clause(leaf.disprove_hash->0@, leaf.account_key@)
            &&& (disprove->0).0@ == leaf_hash((disprove->0).1@)
            &&& leaf.taproot@.control_block(2) == Some((disprove->0).2@)
        },
{
}

/// There is a funding output if and only if every account and the engine are keys, every
/// one of them has its projection, and the projections aggregate.
pub proof fn theorem_funding_is_owed(
    engine_key: [u8; 32],
    allocations: &[([u8; 32], u64)],
    expiry_height: u32,
    r: Option<TapRoot>,
    signers: Seq<Seq<u8>>,
)
    requires
        call_ensures(funding_taproot, (engine_key, allocations, expiry_height), r),
        allocations@.len() < 0xffff_ffff,
        signers.len() == allocations@.len() + 1,
        forall|i: int|
            0 <= i < allocations@.len() ==> #[trigger] signers[i] == generator_multiple(
                projected(
                    discrete_log(even_point(allocations@[i].0@)),
                    allocations@[i].1,
                    i as u32,
                )->0,
            ),
        signers.last() == generator_multiple(
            projected(
                discrete_log(even_point(engine_key@)),
                total_value(allocations@) as u64,
                allocations@.len() as u32,
            )->0,
        ),
    ensures
        r is Some <==> {
            &&& is_point(even_point(engine_key@))
            &&& forall|i: int|
                0 <= i < allocations@.len() ==> is_point(
                    even_point((#[trigger] allocations@[i]).0@),
                )
            &&& forall|i: int|
                0 <= i < allocations@.len() ==> projected(
                    discrete_log(even_point((#[trigger] allocations@[i]).0@)),
                    allocations@[i].1,
                    i as u32,
                ) is Some
            &&& projected(
                discrete_log(even_point(engine_key@)),
                total_value(allocations@) as u64,
                allocations@.len() as u32,
            ) is Some
            &&& inner_exponent(signers) != 0
        },
{
    let keys = funding_keys(engine_key@, allocations@);
    let n = allocations@.len() as int;
    assert(keys.len() == signers.len());
    assert forall|i: int| 0 <= i < keys.len() implies projected_keys(keys)[i] == signers[i] by {
        theorem_keys_are_projected_in_place(keys, i);
        if i < n {
            assert(signers[i] == generator_multiple(
                projected(
                    discrete_log(even_point(allocations@[i].0@)),
                    allocations@[i].1,
                    i as u32,
                )->0,
            ));
        }
    }
    assert(projected_keys(keys) =~= signers);
    theorem_keys_are_projected_in_place(keys, n);
    assert(projected_at(keys, n) == projected(
        discrete_log(even_point(engine_key@)),
        total_value(allocations@) as u64,
        n as u32,
    ));
    assert forall|i: int| 0 <= i < n implies projected_at(keys, i) == projected(
        discrete_log(even_point((#[trigger] allocations@[i]).0@)),
        allocations@[i].1,
        i as u32,
    ) by {
        theorem_keys_are_projected_in_place(keys, i);
    }
    if all_projected(keys) {
        assert forall|i: int| 0 <= i < n implies projected(
            discrete_log(even_point((#[trigger] allocations@[i]).0@)),
            allocations@[i].1,
            i as u32,
        ) is Some by {
            assert(projected_at(keys, i) is Some);
        }
    } else {
        let i = choose|i: int| 0 <= i < keys.len() && (#[trigger] projected_at(keys, i)) is None;
        if i < n {
            let a = allocations@[i];
            assert(projected_at(keys, i) == projected(
                discrete_log(even_point(a.0@)),
                a.1,
                i as u32,
            ));
        }
    }
}

/// What is added up: the allocations of a pot and the leaves of a tree; and the
/// scriptpubkeys that are shown are those of the outputs.
pub proof fn theorem_sums_and_scripts_are_computed(
    allocations: &[([u8; 32], u64)],
    total: u64,
    tree: TimeoutTree,
    leaf: VtxoLeaf,
    leaf_spk: Option<Vec<u8>>,
    leaf_taproot_spk: Option<Vec<u8>>,
    funding_spk: Option<Vec<u8>>,
    funding_taproot_spk: Option<Vec<u8>>,
    sum: u64,
)
    requires
        call_ensures(total_of, (allocations,), total),
        call_ensures(VtxoLeaf::scriptpubkey, (&leaf,), leaf_spk),
        call_ensures(TapRoot::spk, (&leaf.taproot,), leaf_taproot_spk),
        call_ensures(TimeoutTree::funding_scriptpubkey, (&tree,), funding_spk),
        call_ensures(TapRoot::spk, (&tree.funding_taproot,), funding_taproot_spk),
        call_ensures(TimeoutTree::leaves_value_sum, (&tree,), sum),
    ensures
        total == total_value(allocations@),
        sum == leaf_sum(tree.leaves@),
        leaf_spk is Some <==> leaf_taproot_spk is Some,
        leaf_spk is Some ==> leaf_spk->0@ == leaf_taproot_spk->0@,
        funding_spk is Some <==> funding_taproot_spk is Some,
        funding_spk is Some ==> funding_spk->0@ == funding_taproot_spk->0@,
{
}

/// A tree keeps what it was made with, and so does each of its leaves.
pub proof fn theorem_tree_keeps_its_terms(
    engine_key: [u8; 32],
    allocations: &[([u8; 32], u64)],
    expiry_height: u32,
    exit_delay: u16,
    disprove_hashes: Option<&[[u8; 32]]>,
    tree: TimeoutTree,
    i: int,
)
    requires
        call_ensures(
            TimeoutTree::build,
            (engine_key, allocations, expiry_height, exit_delay, disprove_hashes),
            Some(tree),
        ),
        0 <= i < allocations@.len(),
    ensures
        tree.engine_key == engine_key,
        tree.expiry_height == expiry_height,
        tree.exit_delay == exit_delay,
        tree.leaves@[i].engine_key == engine_key,
        tree.leaves@[i].expiry_height == expiry_height,
        tree.leaves@[i].exit_delay == exit_delay,
        disprove_hashes is None ==> tree.leaves@[i].disprove_hash is None,
        disprove_hashes is Some ==> tree.leaves@[i].disprove_hash == Some(
            (disprove_hashes->0)@[i],
        ),
{
    let leaf = tree.leaves@[i];
    assert(leaf.is_rendered());
}

} // verus!
