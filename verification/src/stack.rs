//! The stack of the virtual machine, and opcodes that work on it.
use vstd::prelude::*;
use crate::bytes::to_vec;

verus! {

/// The number of ops that `OP_SWAP` counts for.
pub const OP_SWAP_OPS: u32 = 1;

/// The number of ops that `OP_BLOCKHASH` counts for.
pub const BLOCKHASH_OPS: u32 = 1;

/// An item on the stack.
pub struct StackItem {
    bytes: Vec<u8>,
}

impl View for StackItem {
    type V = Seq<u8>;

    closed spec fn view(&self) -> Seq<u8> {
        self.bytes@
    }
}

impl StackItem {
    pub fn new(bytes: Vec<u8>) -> (r: StackItem)
        ensures
            r@ == bytes@,
    {
        StackItem { bytes }
    }

    pub fn bytes(&self) -> (r: &[u8])
        ensures
            r@ == self@,
    {
        &self.bytes
    }
}

/// Why the stack cannot do what it is asked.
#[derive(Clone, Copy, PartialEq, Eq, Structural, Debug)]
pub enum StackError {
    EmptyStackError,
    StackOverflowError,
    OpsBudgetExceededError,
}

/// The state of the stack.
pub struct StackModel {
    /// The items, the top one last.
    pub items: Seq<Seq<u8>>,
    /// How many items fit.
    pub capacity: nat,
    /// How many ops were counted.
    pub ops: nat,
    /// How many ops may be counted.
    pub budget: nat,
    /// Whether the code is executed rather than skipped.
    pub active: bool,
    pub block_hash: Seq<u8>,
}

/// The stack of an execution.
pub struct StackHolder {
    items: Vec<StackItem>,
    capacity: usize,
    ops: u32,
    budget: u32,
    active: bool,
    block_hash: [u8; 32],
}

/// Items by their bytes.
pub open spec fn items_view(items: Seq<StackItem>) -> Seq<Seq<u8>> {
    Seq::new(items.len(), |i: int| items[i]@)
}

impl View for StackHolder {
    type V = StackModel;

    closed spec fn view(&self) -> StackModel {
        StackModel {
            items: items_view(self.items@),
            capacity: self.capacity as nat,
            ops: self.ops as nat,
            budget: self.budget as nat,
            active: self.active,
            block_hash: self.block_hash@,
        }
    }
}

impl StackHolder {
    #[verifier::type_invariant]
    closed spec fn within_capacity(&self) -> bool {
        self.items@.len() <= self.capacity
    }

    /// An empty stack.
    pub fn new(capacity: usize, budget: u32, active: bool, block_hash: [u8; 32]) -> (r: StackHolder)
        ensures
            r@ == (StackModel {
                items: Seq::empty(),
                capacity: capacity as nat,
                ops: 0,
                budget: budget as nat,
                active,
                block_hash: block_hash@,
            }),
    {
        let r = StackHolder { items: Vec::new(), capacity, ops: 0, budget, active, block_hash };
        assert(r@.items =~= Seq::empty());
        r
    }

    /// Whether the code is executed rather than skipped.
    pub fn active_execution(&self) -> (r: bool)
        ensures
            r == self@.active,
    {
        self.active
    }

    /// The hash that anchors the batch of this execution.
    pub fn block_hash(&self) -> (r: [u8; 32])
        ensures
            r@ == self@.block_hash,
    {
        self.block_hash
    }

    /// How many ops were counted.
    pub fn ops_counter(&self) -> (r: u32)
        ensures
            r == self@.ops,
    {
        self.ops
    }

    /// A copy of the item at a depth, the top one at zero.
    pub fn item_from_top(&self, depth: usize) -> (r: Option<Vec<u8>>)
        ensures
            match r {
                None => depth >= self@.items.len(),
                Some(b) => depth < self@.items.len() && b@ == self@.items[self@.items.len() - 1
                    - depth],
            },
    {
        let count: usize = self.items.len();
        if depth < count {
            Some(to_vec(self.items[count - 1 - depth].bytes()))
        } else {
            None
        }
    }

    /// Puts an item on top. Fails where the stack is full.
    pub fn push(&mut self, item: StackItem) -> (r: Result<(), StackError>)
        ensures
            old(self)@.items.len() >= old(self)@.capacity ==> r == Err::<(), StackError>(
                StackError::StackOverflowError,
            ) && final(self)@ == old(self)@,
            old(self)@.items.len() < old(self)@.capacity ==> r == Ok::<(), StackError>(())
                && final(self)@ == (StackModel { items: old(self)@.items.push(item@), ..old(self)@ }),
    {
        if self.items.len() >= self.capacity {
            return Err(StackError::StackOverflowError);
        }
        let mut items: Vec<StackItem> = Vec::new();
        std::mem::swap(&mut items, &mut self.items);
        items.push(item);
        self.items = items;
        assert(self@.items =~= old(self)@.items.push(item@));
        Ok(())
    }

    /// Takes the top item. Fails where the stack is empty.
    pub fn pop(&mut self) -> (r: Result<StackItem, StackError>)
        ensures
            old(self)@.items.len() == 0 ==> r == Err::<StackItem, StackError>(
                StackError::EmptyStackError,
            ) && final(self)@ == old(self)@,
            old(self)@.items.len() > 0 ==> {
                &&& r is Ok
                &&& r->Ok_0@ == old(self)@.items.last()
                &&& final(self)@ == (StackModel {
                    items: old(self)@.items.drop_last(),
                    ..old(self)@
                })
            },
    {
        proof {
            use_type_invariant(&*self);
        }
        let mut items: Vec<StackItem> = Vec::new();
        std::mem::swap(&mut items, &mut self.items);
        let top = items.pop();
        self.items = items;
        match top {
            None => {
                assert(self@.items =~= old(self)@.items);
                Err(StackError::EmptyStackError)
            },
            Some(item) => {
                assert(self@.items =~= old(self)@.items.drop_last());
                Ok(item)
            },
        }
    }

    /// Counts ops. Fails where that would exceed the budget.
    pub fn increment_ops(&mut self, count: u32) -> (r: Result<(), StackError>)
        ensures
            old(self)@.ops + count > old(self)@.budget ==> r == Err::<(), StackError>(
                StackError::OpsBudgetExceededError,
            ) && final(self)@ == old(self)@,
            old(self)@.ops + count <= old(self)@.budget ==> r == Ok::<(), StackError>(())
                && final(self)@ == (StackModel { ops: old(self)@.ops + count as nat, ..old(self)@ }),
    {
        match self.ops.checked_add(count) {
            None => Err(StackError::OpsBudgetExceededError),
            Some(ops) => {
                if ops > self.budget {
                    return Err(StackError::OpsBudgetExceededError);
                }
                proof {
                    use_type_invariant(&*self);
                }
                self.ops = ops;
                assert(self@.items =~= old(self)@.items);
                Ok(())
            },
        }
    }
}

/// The items with the top two exchanged.
pub open spec fn swapped(items: Seq<Seq<u8>>) -> Seq<Seq<u8>> {
    let n = items.len();
    items.update(n - 1, items[n - 2]).update(n - 2, items[n - 1])
}

/// Counts ops on a stack: the result and the state.
pub open spec fn counted(m: StackModel, count: nat) -> (Result<(), StackError>, StackModel) {
    if m.ops + count > m.budget {
        (Err(StackError::OpsBudgetExceededError), m)
    } else {
        (Ok(()), StackModel { ops: m.ops + count, ..m })
    }
}

/// What `OP_SWAP` does: nothing where code is skipped; else it exchanges the top two
/// items and counts its ops. With fewer than two items it fails, and the one item is
/// gone.
pub open spec fn swap_effect(m: StackModel) -> (Result<(), StackError>, StackModel) {
    if !m.active {
        (Ok(()), m)
    } else if m.items.len() < 2 {
        (Err(StackError::EmptyStackError), StackModel { items: Seq::empty(), ..m })
    } else {
        counted(StackModel { items: swapped(m.items), ..m }, OP_SWAP_OPS as nat)
    }
}

/// What `OP_BLOCKHASH` does: nothing where code is skipped; else it pushes the block hash
/// and counts its ops.
pub open spec fn blockhash_effect(m: StackModel) -> (Result<(), StackError>, StackModel) {
    if !m.active {
        (Ok(()), m)
    } else if m.items.len() >= m.capacity {
        (Err(StackError::StackOverflowError), m)
    } else {
        counted(
            StackModel { items: m.items.push(m.block_hash), ..m },
            BLOCKHASH_OPS as nat,
        )
    }
}

/// The top two items on the stack are swapped.
#[derive(Debug, Clone, Copy, PartialEq, Eq)]
#[allow(non_camel_case_types)]
pub struct OP_SWAP;

impl OP_SWAP {
    /// Executes the opcode.
    pub fn execute(stack_holder: &mut StackHolder) -> (r: Result<(), StackError>)
        ensures
            (r, final(stack_holder)@) == swap_effect(old(stack_holder)@),
    {
        if !stack_holder.active_execution() {
            return Ok(());
        }
        proof {
            use_type_invariant(&*stack_holder);
        }
        let ghost start = stack_holder@;
        let top_item = match stack_holder.pop() {
            Err(e) => {
                assert(start.items =~= Seq::empty());
                return Err(e);
            },
            Ok(item) => item,
        };
        let second_to_top_item = match stack_holder.pop() {
            Err(e) => {
                assert(stack_holder@.items =~= Seq::empty());
                return Err(e);
            },
            Ok(item) => item,
        };
        match stack_holder.push(top_item) {
            Err(e) => {
                return Err(e);
            },
            Ok(()) => {},
        }
        match stack_holder.push(second_to_top_item) {
            Err(e) => {
                return Err(e);
            },
            Ok(()) => {},
        }
        assert(stack_holder@.items =~= swapped(start.items));
        stack_holder.increment_ops(OP_SWAP_OPS)
    }

    /// The bytecode of the opcode.
    pub fn bytecode() -> (r: Vec<u8>)
        ensures
            r@ == seq![0x7cu8],
    {
        let mut code: Vec<u8> = Vec::new();
        code.push(0x7c);
        assert(code@ =~= seq![0x7cu8]);
        code
    }
}

/// Pushes the hash that anchors the batch of this execution to Bitcoin.
///
/// Contracts that need unpredictable randomness should draw against the hash of a later
/// batch than the one in which entries were committed, since the value of any single
/// block can be influenced.
#[derive(Debug, Clone, Copy, PartialEq, Eq)]
#[allow(non_camel_case_types)]
pub struct OP_BLOCKHASH;

impl OP_BLOCKHASH {
    /// Executes the opcode.
    pub fn execute(stack_holder: &mut StackHolder) -> (r: Result<(), StackError>)
        ensures
            (r, final(stack_holder)@) == blockhash_effect(old(stack_holder)@),
    {
        if !stack_holder.active_execution() {
            return Ok(());
        }
        let block_hash = stack_holder.block_hash();
        match stack_holder.push(StackItem::new(to_vec(&block_hash))) {
            Err(e) => {
                return Err(e);
            },
            Ok(()) => {},
        }
        stack_holder.increment_ops(BLOCKHASH_OPS)
    }

    /// The bytecode of the opcode.
    pub fn bytecode() -> (r: Vec<u8>)
        ensures
            r@ == seq![0xd3u8],
    {
        let mut code: Vec<u8> = Vec::new();
        code.push(0xd3);
        assert(code@ =~= seq![0xd3u8]);
        code
    }
}

/// Swapping twice gives the stack back, but for the ops that it counts for.
pub proof fn theorem_swap_twice(m: StackModel)
    requires
        swap_effect(m).0 is Ok,
        swap_effect(swap_effect(m).1).0 is Ok,
    ensures
        swap_effect(swap_effect(m).1).1.items == m.items,
{
    if m.active {
        assert(swapped(swapped(m.items)) =~= m.items);
    }
}

/// An opcode leaves all items below those that it works on as they are, and the number
/// of items of a full execution is known: a swap keeps it, a block hash adds one.
pub proof fn theorem_opcodes_keep_the_rest(m: StackModel, i: int)
    requires
        m.active,
        0 <= i < m.items.len(),
    ensures
        swap_effect(m).0 is Ok ==> swap_effect(m).1.items.len() == m.items.len(),
        swap_effect(m).0 is Ok && i < m.items.len() - 2 ==> swap_effect(m).1.items[i] == m.items[i],
        blockhash_effect(m).0 is Ok ==> blockhash_effect(m).1.items.len() == m.items.len() + 1,
        blockhash_effect(m).0 is Ok ==> blockhash_effect(m).1.items[i] == m.items[i],
{
}

/// A swap exchanges the top two items and counts one op. It touches nothing else, fails
/// with fewer than two items or without budget, and does nothing where code is skipped.
pub proof fn theorem_swap_exchanges_top_two()
    ensures
        forall|s: &mut StackHolder, r: Result<(), StackError>| #[trigger]
            call_ensures(OP_SWAP::execute, (s,), r) ==> {
                let n = s@.items.len() as int;
                let after = final(s)@;
                &&& after.capacity == s@.capacity
                &&& after.budget == s@.budget
                &&& after.active == s@.active
                &&& after.block_hash == s@.block_hash
                &&& !s@.active ==> r is Ok && after.items == s@.items && after.ops == s@.ops
                &&& s@.active && n < 2 ==> r == Err::<(), StackError>(StackError::EmptyStackError)
                    && after.ops == s@.ops
                &&& s@.active && n >= 2 ==> {
                    &&& after.items.len() == n
                    &&& after.items[n - 1] == s@.items[n - 2]
                    &&& after.items[n - 2] == s@.items[n - 1]
                    &&& forall|i: int| 0 <= i < n - 2 ==> #[trigger] after.items[i] == s@.items[i]
                    &&& r is Ok <==> s@.ops < s@.budget
                    &&& r is Ok ==> after.ops == s@.ops + 1
                    &&& r is Err ==> after.ops == s@.ops && r == Err::<(), StackError>(
                        StackError::OpsBudgetExceededError,
                    )
                }
            },
{
}

/// The opcode for the block hash puts that hash on top of what is there and counts one op.
/// It fails on a full stack or without budget, and does nothing where code is skipped.
pub proof fn theorem_blockhash_is_pushed()
    ensures
        forall|s: &mut StackHolder, r: Result<(), StackError>| #[trigger]
            call_ensures(OP_BLOCKHASH::execute, (s,), r) ==> {
                let n = s@.items.len() as int;
                let after = final(s)@;
                &&& after.capacity == s@.capacity
                &&& after.budget == s@.budget
                &&& after.active == s@.active
                &&& after.block_hash == s@.block_hash
                &&& !s@.active ==> r is Ok && after.items == s@.items && after.ops == s@.ops
                &&& s@.active && n >= s@.capacity ==> r == Err::<(), StackError>(
                    StackError::StackOverflowError,
                ) && after.items == s@.items && after.ops == s@.ops
                &&& s@.active && n < s@.capacity ==> {
                    &&& after.items.len() == n + 1
                    &&& after.items[n] == s@.block_hash
                    &&& forall|i: int| 0 <= i < n ==> #[trigger] after.items[i] == s@.items[i]
                    &&& r is Ok <==> s@.ops < s@.budget
                    &&& r is Ok ==> after.ops == s@.ops + 1
                    &&& r is Err ==> after.ops == s@.ops && r == Err::<(), StackError>(
                        StackError::OpsBudgetExceededError,
                    )
                }
            },
{
}

/// What is pushed is popped again: popping gives the item and the stack from before.
pub proof fn theorem_pop_undoes_push(item: StackItem)
    ensures
        forall|s: &mut StackHolder, t: &mut StackHolder, r: Result<StackItem, StackError>|
            {
                &&& #[trigger] call_ensures(StackHolder::push, (s, item), Ok::<(), StackError>(()))
                &&& #[trigger] call_ensures(StackHolder::pop, (t,), r)
                &&& t@ == final(s)@
            } ==> {
                &&& r is Ok
                &&& r->Ok_0@ == item@
                &&& final(t)@ == s@
            },
{
    assert forall|s: &mut StackHolder, t: &mut StackHolder, r: Result<StackItem, StackError>|
        {
            &&& #[trigger] call_ensures(StackHolder::push, (s, item), Ok::<(), StackError>(()))
            &&& #[trigger] call_ensures(StackHolder::pop, (t,), r)
            &&& t@ == final(s)@
        } implies {
        &&& r is Ok
        &&& r->Ok_0@ == item@
        &&& final(t)@ == s@
    } by {
        assert(t@.items.drop_last() =~= s@.items);
    }
}

/// A push goes through if and only if the stack is not full; a pop if and only if it is
/// not empty; counting if and only if the budget is kept. What does not go through leaves
/// the stack as it is.
pub proof fn theorem_stack_operations_are_owed(item: StackItem, count: u32)
    ensures
        forall|s: &mut StackHolder, r: Result<(), StackError>| #[trigger]
            call_ensures(StackHolder::push, (s, item), r) ==> {
                &&& r is Ok <==> s@.items.len() < s@.capacity
                &&& r is Err ==> r->Err_0 == StackError::StackOverflowError && final(s)@ == s@
            },
        forall|s: &mut StackHolder, r: Result<StackItem, StackError>| #[trigger]
            call_ensures(StackHolder::pop, (s,), r) ==> {
                &&& r is Ok <==> s@.items.len() > 0
                &&& r is Err ==> r->Err_0 == StackError::EmptyStackError && final(s)@ == s@
            },
        forall|s: &mut StackHolder, r: Result<(), StackError>| #[trigger]
            call_ensures(StackHolder::increment_ops, (s, count), r) ==> {
                &&& r is Ok <==> s@.ops + count <= s@.budget
                &&& r is Ok ==> final(s)@.ops == s@.ops + count && final(s)@.items == s@.items
                &&& r is Err ==> r->Err_0 == StackError::OpsBudgetExceededError && final(s)@ == s@
            },
{
}

/// Items are seen from the top: the last one at depth zero, the first one deepest, and
/// none below it.
pub proof fn theorem_items_are_seen_from_top(s: StackHolder, depth: usize, r: Option<Vec<u8>>)
    requires
        call_ensures(StackHolder::item_from_top, (&s, depth), r),
    ensures
        r is Some <==> depth < s@.items.len(),
        depth == 0 && s@.items.len() > 0 ==> r->0@ == s@.items.last(),
        r is Some ==> r->0@ == s@.items.reverse()[depth as int],
{
}

/// The opcodes are told apart by their one byte.
pub proof fn theorem_opcode_bytes(swap: Vec<u8>, blockhash: Vec<u8>)
    requires
        call_ensures(OP_SWAP::bytecode, (), swap),
        call_ensures(OP_BLOCKHASH::bytecode, (), blockhash),
    ensures
        swap@.len() == 1,
        swap@[0] == 0x7c,
        blockhash@.len() == 1,
        blockhash@[0] == 0xd3,
{
}

/// A new stack is empty, with nothing counted and what it was made with.
pub proof fn theorem_new_stack_is_empty(
    capacity: usize,
    budget: u32,
    active: bool,
    block_hash: [u8; 32],
    s: StackHolder,
    ops: u32,
    hash: [u8; 32],
    executed: bool,
    top: Option<Vec<u8>>,
)
    requires
        call_ensures(StackHolder::new, (capacity, budget, active, block_hash), s),
        call_ensures(StackHolder::ops_counter, (&s,), ops),
        call_ensures(StackHolder::block_hash, (&s,), hash),
        call_ensures(StackHolder::active_execution, (&s,), executed),
        call_ensures(StackHolder::item_from_top, (&s, 0), top),
    ensures
        ops == 0,
        hash@ == block_hash@,
        executed == active,
        top is None,
        s@.capacity == capacity,
        s@.budget == budget,
{
}

} // verus!
