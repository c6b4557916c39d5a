//! Entries of a batch and the outputs that they spend.
use vstd::prelude::*;
use crate::bytes::to_vec;
use crate::liftv2::scripts_view;
use crate::txn::{OutPoint, OutPointModel, TxInModel, TxOut, TxOutModel};

verus! {

/// What a script-path spend needs: the hash of the leaf, its script and its control
/// block.
pub struct SpendModel {
    pub leaf_hash: Seq<u8>,
    pub script: Seq<u8>,
    pub control_block: Seq<u8>,
}

/// What a script-path spend needs.
pub struct SpendElements {
    pub leaf_hash: [u8; 32],
    pub script: Vec<u8>,
    pub control_block: Vec<u8>,
}

impl View for SpendElements {
    type V = SpendModel;

    open spec fn view(&self) -> SpendModel {
        SpendModel {
            leaf_hash: self.leaf_hash@,
            script: self.script@,
            control_block: self.control_block@,
        }
    }
}

impl SpendElements {
    /// A copy.
    pub fn copy(&self) -> (r: SpendElements)
        ensures
            r@ == self@,
    {
        SpendElements {
            leaf_hash: self.leaf_hash,
            script: to_vec(&self.script),
            control_block: to_vec(&self.control_block),
        }
    }
}

/// A deposit that the engine can lift alone.
pub struct LiftV1Model {
    pub outpoint: OutPointModel,
    pub txout: TxOutModel,
    pub spend: SpendModel,
}

/// A deposit that the engine can lift only together with the depositor.
pub struct LiftV2Model {
    pub outpoint: OutPointModel,
    pub txout: TxOutModel,
    pub account_key: Seq<u8>,
    pub engine_key: Seq<u8>,
    pub scripts: Seq<Seq<u8>>,
}

/// A deposit.
pub enum LiftModel {
    LiftV1(LiftV1Model),
    LiftV2(LiftV2Model),
    Unknown { input: TxInModel },
}

impl LiftModel {
    /// The deposit as an input.
    pub open spec fn input(self) -> TxInModel {
        match self {
            LiftModel::LiftV1(l) => TxInModel { outpoint: l.outpoint, txout: l.txout },
            LiftModel::LiftV2(l) => TxInModel { outpoint: l.outpoint, txout: l.txout },
            LiftModel::Unknown { input } => input,
        }
    }
}

/// A deposit that the engine can lift alone, by a script path.
pub struct LiftV1 {
    pub outpoint: OutPoint,
    pub txout: TxOut,
    pub spend: SpendElements,
}

impl View for LiftV1 {
    type V = LiftV1Model;

    open spec fn view(&self) -> LiftV1Model {
        LiftV1Model { outpoint: self.outpoint@, txout: self.txout@, spend: self.spend@ }
    }
}

impl LiftV1 {
    /// A copy.
    pub fn copy(&self) -> (r: LiftV1)
        ensures
            r@ == self@,
    {
        LiftV1 { outpoint: self.outpoint, txout: self.txout.copy(), spend: self.spend.copy() }
    }
}

/// A deposit whose key path is the aggregate of account and engine. `scripts` are the
/// leaf scripts of its output.
pub struct LiftV2 {
    pub outpoint: OutPoint,
    pub txout: TxOut,
    pub account_key: [u8; 32],
    pub engine_key: [u8; 32],
    pub scripts: Vec<Vec<u8>>,
}

impl View for LiftV2 {
    type V = LiftV2Model;

    open spec fn view(&self) -> LiftV2Model {
        LiftV2Model {
            outpoint: self.outpoint@,
            txout: self.txout@,
            account_key: self.account_key@,
            engine_key: self.engine_key@,
            scripts: scripts_view(self.scripts@),
        }
    }
}

/// A copy of scripts.
pub fn copy_scripts(scripts: &Vec<Vec<u8>>) -> (r: Vec<Vec<u8>>)
    ensures
        scripts_view(r@) == scripts_view(scripts@),
{
    let mut r: Vec<Vec<u8>> = Vec::new();
    let mut i: usize = 0;
    while i < scripts.len()
        invariant
            i <= scripts@.len(),
            r@.len() == i,
            forall|j: int| 0 <= j < i ==> (#[trigger] r@[j])@ == scripts@[j]@,
        decreases scripts@.len() - i,
    {
        r.push(to_vec(&scripts[i]));
        i = i + 1;
    }
    assert(scripts_view(r@) =~= scripts_view(scripts@));
    r
}

impl LiftV2 {
    /// A copy.
    pub fn copy(&self) -> (r: LiftV2)
        ensures
            r@ == self@,
    {
        LiftV2 {
            outpoint: self.outpoint,
            txout: self.txout.copy(),
            account_key: self.account_key,
            engine_key: self.engine_key,
            scripts: copy_scripts(&self.scripts),
        }
    }
}

/// A deposit to lift into the rollup.
pub enum Lift {
    LiftV1(LiftV1),
    LiftV2(LiftV2),
    Unknown { outpoint: OutPoint, txout: TxOut },
}

impl View for Lift {
    type V = LiftModel;

    open spec fn view(&self) -> LiftModel {
        match self {
            Lift::LiftV1(l) => LiftModel::LiftV1(l@),
            Lift::LiftV2(l) => LiftModel::LiftV2(l@),
            Lift::Unknown { outpoint, txout } => LiftModel::Unknown {
                input: TxInModel { outpoint: outpoint@, txout: txout@ },
            },
        }
    }
}

impl Lift {
    /// The outpoint of the deposit.
    pub fn outpoint(&self) -> (r: OutPoint)
        ensures
            r@ == self@.input().outpoint,
    {
        match self {
            Lift::LiftV1(l) => l.outpoint,
            Lift::LiftV2(l) => l.outpoint,
            Lift::Unknown { outpoint, txout } => *outpoint,
        }
    }

    /// The output of the deposit.
    pub fn txout(&self) -> (r: TxOut)
        ensures
            r@ == self@.input().txout,
    {
        match self {
            Lift::LiftV1(l) => l.txout.copy(),
            Lift::LiftV2(l) => l.txout.copy(),
            Lift::Unknown { outpoint, txout } => txout.copy(),
        }
    }

    /// A copy.
    pub fn copy(&self) -> (r: Lift)
        ensures
            r@ == self@,
    {
        match self {
            Lift::LiftV1(l) => Lift::LiftV1(l.copy()),
            Lift::LiftV2(l) => Lift::LiftV2(l.copy()),
            Lift::Unknown { outpoint, txout } => Lift::Unknown {
                outpoint: *outpoint,
                txout: txout.copy(),
            },
        }
    }
}

/// An account, by how far it is known to the registery.
#[derive(Clone, Copy)]
pub enum RootAccount {
    UnregisteredRootAccount { account_key: [u8; 32], bls_key: [u8; 48] },
    RegisteredButUnconfiguredRootAccount {
        account_key: [u8; 32],
        registery_index: u64,
        bls_key: [u8; 48],
    },
    RegisteredAndConfiguredRootAccount {
        account_key: [u8; 32],
        registery_index: u64,
        bls_key: [u8; 48],
    },
}

impl RootAccount {
    /// The account key.
    pub open spec fn spec_account_key(self) -> [u8; 32] {
        match self {
            RootAccount::UnregisteredRootAccount { account_key, .. } => account_key,
            RootAccount::RegisteredButUnconfiguredRootAccount { account_key, .. } => account_key,
            RootAccount::RegisteredAndConfiguredRootAccount { account_key, .. } => account_key,
        }
    }

    /// The BLS key.
    pub open spec fn spec_bls_key(self) -> [u8; 48] {
        match self {
            RootAccount::UnregisteredRootAccount { bls_key, .. } => bls_key,
            RootAccount::RegisteredButUnconfiguredRootAccount { bls_key, .. } => bls_key,
            RootAccount::RegisteredAndConfiguredRootAccount { bls_key, .. } => bls_key,
        }
    }

    /// The account key.
    pub fn account_key(&self) -> (r: [u8; 32])
        ensures
            r == self.spec_account_key(),
    {
        match self {
            RootAccount::UnregisteredRootAccount { account_key, .. } => *account_key,
            RootAccount::RegisteredButUnconfiguredRootAccount { account_key, .. } => *account_key,
            RootAccount::RegisteredAndConfiguredRootAccount { account_key, .. } => *account_key,
        }
    }

    /// The BLS key.
    pub fn bls_key(&self) -> (r: [u8; 48])
        ensures
            r == self.spec_bls_key(),
    {
        match self {
            RootAccount::UnregisteredRootAccount { bls_key, .. } => *bls_key,
            RootAccount::RegisteredButUnconfiguredRootAccount { bls_key, .. } => *bls_key,
            RootAccount::RegisteredAndConfiguredRootAccount { bls_key, .. } => *bls_key,
        }
    }
}

/// The batch that an entry is for.
#[derive(Clone, Copy)]
pub struct Target {
    pub targeted_at_batch_height: u64,
}

/// An entry that lifts deposits.
pub struct Liftup {
    pub account: RootAccount,
    pub target: Target,
    pub lift_tx_inputs: Vec<Lift>,
}

impl Liftup {
    /// A liftup of deposits by an account, for the batch after the tip.
    pub fn for_next_batch(account: RootAccount, lifts: &[Lift], batch_height_tip: u64) -> (r:
        Liftup)
        requires
            batch_height_tip < u64::MAX,
        ensures
            r.account == account,
            r.target.targeted_at_batch_height == batch_height_tip + 1,
            lifts_view(r.lift_tx_inputs@) == lifts_view(lifts@),
    {
        let mut lift_tx_inputs: Vec<Lift> = Vec::new();
        let mut i: usize = 0;
        while i < lifts.len()
            invariant
                i <= lifts@.len(),
                lift_tx_inputs@.len() == i,
                forall|j: int| 0 <= j < i ==> (#[trigger] lift_tx_inputs@[j])@ == lifts@[j]@,
            decreases lifts@.len() - i,
        {
            lift_tx_inputs.push(lifts[i].copy());
            i = i + 1;
        }
        assert(lifts_view(lift_tx_inputs@) =~= lifts_view(lifts@));
        Liftup {
            account,
            target: Target { targeted_at_batch_height: batch_height_tip + 1 },
            lift_tx_inputs,
        }
    }
}

/// An entry that pays out of the rollup. The scriptpubkey is missing where it cannot
/// be calculated.
pub struct Swapout {
    pub amount: u32,
    pub scriptpubkey: Option<Vec<u8>>,
}

/// An entry of a batch, as far as the batch transaction depends on it.
pub enum Entry {
    Liftup(Liftup),
    Swapout(Swapout),
    Other,
}

/// An optional byte string by its bytes.
pub open spec fn bytes_option(bytes: Option<Vec<u8>>) -> Option<Seq<u8>> {
    match bytes {
        None => None,
        Some(b) => Some(b@),
    }
}

/// Deposits by their models.
pub open spec fn lifts_view(lifts: Seq<Lift>) -> Seq<LiftModel> {
    Seq::new(lifts.len(), |i: int| lifts[i]@)
}

/// The deposits that an entry lifts.
pub open spec fn entry_lifts(entry: Entry) -> Seq<LiftModel> {
    match entry {
        Entry::Liftup(l) => lifts_view(l.lift_tx_inputs@),
        _ => Seq::empty(),
    }
}

/// The deposits that entries lift, in order.
pub open spec fn lifts_of(entries: Seq<Entry>) -> Seq<LiftModel>
    decreases entries.len(),
{
    if entries.len() == 0 {
        Seq::empty()
    } else {
        lifts_of(entries.drop_last()) + entry_lifts(entries.last())
    }
}

/// The deposits that entries lift, in order.
pub fn collect_lifts(entries: &[Entry]) -> (r: Vec<Lift>)
    ensures
        lifts_view(r@) == lifts_of(entries@),
{
    let mut r: Vec<Lift> = Vec::new();
    let mut i: usize = 0;
    assert(lifts_view(r@) =~= lifts_of(entries@.take(0)));
    while i < entries.len()
        invariant
            i <= entries@.len(),
            lifts_view(r@) == lifts_of(entries@.take(i as int)),
        decreases entries@.len() - i,
    {
        let ghost start = lifts_view(r@);
        assert(entries@.take(i + 1).drop_last() =~= entries@.take(i as int));
        match &entries[i] {
            Entry::Liftup(liftup) => {
                let ghost new = lifts_view(liftup.lift_tx_inputs@);
                let mut j: usize = 0;
                assert(lifts_view(r@) =~= start + new.take(0));
                while j < liftup.lift_tx_inputs.len()
                    invariant
                        j <= liftup.lift_tx_inputs@.len(),
                        new == lifts_view(liftup.lift_tx_inputs@),
                        lifts_view(r@) == start + new.take(j as int),
                    decreases liftup.lift_tx_inputs@.len() - j,
                {
                    let ghost before = r@;
                    r.push(liftup.lift_tx_inputs[j].copy());
                    assert(lifts_view(r@) =~= lifts_view(before).push(new[j as int]));
                    j = j + 1;
                    assert(lifts_view(r@) =~= start + new.take(j as int));
                }
                assert(new.take(j as int) =~= new);
            },
            _ => {
                assert(start =~= start + Seq::<LiftModel>::empty());
            },
        }
        i = i + 1;
    }
    assert(entries@.take(i as int) =~= entries@);
    r
}

/// The number of deposits that entries lift.
pub open spec fn lift_count(entries: Seq<Entry>) -> nat
    decreases entries.len(),
{
    if entries.len() == 0 {
        0
    } else {
        lift_count(entries.drop_last()) + if entries.last() is Liftup {
            entries.last()->Liftup_0.lift_tx_inputs@.len()
        } else {
            0
        }
    }
}

/// The deposits of entries follow each other in the order of the entries and, within an
/// entry, in its own order: none is left out, none is added.
pub proof fn theorem_every_lift_is_collected(entries: &[Entry], lifts: Vec<Lift>, i: int, j: int)
    requires
        call_ensures(collect_lifts, (entries,), lifts),
    ensures
        lifts@.len() == lift_count(entries@),
        0 <= i < entries@.len() && entries@[i] is Liftup && 0 <= j
            < entries@[i]->Liftup_0.lift_tx_inputs@.len() ==> {
            let at = lift_count(entries@.take(i)) + j;
            &&& at < lifts@.len()
            &&& lifts@[at]@ == entries@[i]->Liftup_0.lift_tx_inputs@[j]@
        },
{
    lemma_lifts_at(entries@, i, j);
}

pub proof fn lemma_lifts_at(entries: Seq<Entry>, i: int, j: int)
    ensures
        lifts_of(entries).len() == lift_count(entries),
        0 <= i < entries.len() && entries[i] is Liftup && 0 <= j
            < entries[i]->Liftup_0.lift_tx_inputs@.len() ==> {
            let at = lift_count(entries.take(i)) + j;
            &&& at < lifts_of(entries).len()
            &&& lifts_of(entries)[at] == entries[i]->Liftup_0.lift_tx_inputs@[j]@
        },
    decreases entries.len(),
{
    if entries.len() > 0 {
        let before = entries.drop_last();
        lemma_lifts_at(before, i, j);
        if 0 <= i < before.len() {
            assert(before.take(i) =~= entries.take(i));
        } else if i == before.len() {
            assert(entries.take(i) =~= before);
        }
    }
}

/// The input that a deposit is: the outpoint and the output that it was found at.
pub proof fn theorem_lift_input(lift: Lift)
    ensures
        match lift {
            Lift::LiftV1(l) => {
                &&& lift@.input().outpoint.txid == l.outpoint.txid@
                &&& lift@.input().outpoint.vout == l.outpoint.vout
                &&& lift@.input().txout.value == l.txout.value
                &&& lift@.input().txout.script_pubkey == l.txout.script_pubkey@
            },
            Lift::LiftV2(l) => {
                &&& lift@.input().outpoint.txid == l.outpoint.txid@
                &&& lift@.input().outpoint.vout == l.outpoint.vout
                &&& lift@.input().txout.value == l.txout.value
                &&& lift@.input().txout.script_pubkey == l.txout.script_pubkey@
                &&& lift@->LiftV2_0.account_key == l.account_key@
                &&& lift@->LiftV2_0.engine_key == l.engine_key@
                &&& lift@->LiftV2_0.scripts.len() == l.scripts@.len()
                &&& forall|k: int|
                    0 <= k < l.scripts@.len() ==> #[trigger] lift@->LiftV2_0.scripts[k]
                        == l.scripts@[k]@
            },
            Lift::Unknown { outpoint, txout } => {
                &&& lift@.input().outpoint.txid == outpoint.txid@
                &&& lift@.input().outpoint.vout == outpoint.vout
                &&& lift@.input().txout.value == txout.value
                &&& lift@.input().txout.script_pubkey == txout.script_pubkey@
            },
        },
{
}

/// A liftup for the next batch is for the one above the tip, and lifts what it was given.
pub proof fn theorem_liftups_target_next_batch(
    account: RootAccount,
    lifts: &[Lift],
    tip: u64,
    r: Liftup,
    i: int,
)
    requires
        call_ensures(Liftup::for_next_batch, (account, lifts, tip), r),
    ensures
        r.target.targeted_at_batch_height - tip == 1,
        r.account == account,
        r.lift_tx_inputs@.len() == lifts@.len(),
        0 <= i < lifts@.len() ==> r.lift_tx_inputs@[i]@ == lifts@[i]@,
{
    assert(lifts_view(r.lift_tx_inputs@).len() == lifts_view(lifts@).len());
    if 0 <= i < lifts@.len() {
        assert(lifts_view(r.lift_tx_inputs@)[i] == lifts_view(lifts@)[i]);
    }
}

/// The keys of an account are its own, however far it is registered.
pub proof fn theorem_account_keys(
    account: RootAccount,
    account_key: [u8; 32],
    bls_key: [u8; 48],
)
    requires
        call_ensures(RootAccount::account_key, (&account,), account_key),
        call_ensures(RootAccount::bls_key, (&account,), bls_key),
    ensures
        account is UnregisteredRootAccount ==> {
            &&& account_key == account->UnregisteredRootAccount_account_key
            &&& bls_key == account->UnregisteredRootAccount_bls_key
        },
        account is RegisteredButUnconfiguredRootAccount ==> {
            &&& account_key == account->RegisteredButUnconfiguredRootAccount_account_key
            &&& bls_key == account->RegisteredButUnconfiguredRootAccount_bls_key
        },
        account is RegisteredAndConfiguredRootAccount ==> {
            &&& account_key == account->RegisteredAndConfiguredRootAccount_account_key
            &&& bls_key == account->RegisteredAndConfiguredRootAccount_bls_key
        },
{
}

} // verus!
