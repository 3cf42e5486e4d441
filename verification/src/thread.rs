//! A pool of calculators that threads share. Making a calculator is costly,
//! so calculators that are not in use wait in the pool for the next caller.
//!
//! The slots of the pool lie behind one lock, which is held for as long as a
//! slot is looked at or changed. What is done to the slots while the lock is
//! held is written down and proved on the slots alone.

use std::sync::Arc;
use vstd::prelude::*;
use crate::error::{InternalFault, MinaCalcError, MinaCalcResult};
use crate::wrapper::Calc;

verus! {

/// No calculator lies in two slots.
pub open spec fn no_shared_handle(slots: Seq<Calc>) -> bool {
    forall|i: int, j: int| 0 <= i < j < slots.len() ==> slots[i].token() != slots[j].token()
}

/// Some slot holds the calculator with the handle `token`.
pub open spec fn is_pooled(slots: Seq<Calc>, token: usize) -> bool {
    exists|i: int| 0 <= i < slots.len() && (#[trigger] slots[i]).token() == token
}

/// Takes the calculator that was put in last out of the slots, and hands it
/// on if it is valid. An invalid one is taken out all the same and not
/// handed on.
pub fn take_reusable(slots: &mut Vec<Calc>) -> (r: Option<Calc>)
    ensures
        old(slots)@.len() == 0 ==> r is None && final(slots)@ == old(slots)@,
        old(slots)@.len() > 0 ==> final(slots)@ == old(slots)@.drop_last() && r == if old(
            slots,
        )@.last().token() != 0 {
            Some(old(slots)@.last())
        } else {
            None
        },
{
    match slots.pop() {
        Some(calc) => {
            if calc.is_valid() {
                Some(calc)
            } else {
                None
            }
        },
        None => None,
    }
}

/// Puts a calculator into the slots if it is valid; an invalid one is let go.
pub fn put_back(slots: &mut Vec<Calc>, calc: Calc)
    ensures
        final(slots)@ == if calc.token() != 0 {
            old(slots)@.push(calc)
        } else {
            old(slots)@
        },
{
    if calc.is_valid() {
        slots.push(calc);
    }
}

/// `added` are calculators that `create` made, all of them valid.
pub open spec fn made_by<F: Fn() -> usize>(create: &F, added: Seq<Calc>) -> bool {
    forall|i: int|
        0 <= i < added.len() ==> (#[trigger] added[i]).token() != 0 && create.ensures(
            (),
            added[i].token(),
        )
}

/// Makes `count` calculators and puts them into the slots. Stops at the first
/// that cannot be made; those made before it stay in the slots.
pub fn fill<F: Fn() -> usize>(slots: &mut Vec<Calc>, count: usize, create: &F) -> (r:
    MinaCalcResult<()>)
    requires
        create.requires(()),
    ensures
        exists|added: Seq<Calc>|
            {
                &&& final(slots)@ == old(slots)@ + added
                &&& #[trigger] made_by(create, added)
                &&& match r {
                    Ok(()) => added.len() == count,
                    Err(e) => added.len() < count && e == MinaCalcError::CalculatorCreationFailed
                        && create.ensures((), 0usize),
                }
            },
{
    let ghost before = slots@;
    let ghost mut added: Seq<Calc> = Seq::empty();
    let mut made: usize = 0;
    assert(slots@ =~= before + added);
    while made < count
        invariant
            made <= count,
            create.requires(()),
            added.len() == made,
            before == old(slots)@,
            slots@ == before + added,
            made_by(create, added),
        decreases count - made,
    {
        match Calc::new(create) {
            Ok(calc) => {
                proof {
                    assert(slots@.push(calc) =~= before + added.push(calc));
                    added = added.push(calc);
                }
                slots.push(calc);
            },
            Err(e) => {
                assert(made_by(create, added));
                return Err(e);
            },
        }
        made += 1;
    }
    assert(made_by(create, added));
    Ok(())
}

/// How one attempt to get a calculator within a time limit ends.
#[derive(Debug, PartialEq, Eq)]
pub enum Polling {
    /// Here is the calculator.
    Ready(Calc),
    /// None could be had and the time is not up: wait a little and try again.
    Wait,
    /// None could be had and the time is up.
    TimedOut(MinaCalcError),
}

/// What follows from one attempt to get a calculator: success ends the
/// polling; after a failure the time decides.
pub open spec fn next_step(
    attempt: MinaCalcResult<Calc>,
    elapsed_ms: u64,
    timeout_ms: u64,
) -> Polling {
    match attempt {
        Ok(calc) => Polling::Ready(calc),
        Err(_) => if elapsed_ms >= timeout_ms {
            Polling::TimedOut(
                MinaCalcError::InternalError(InternalFault::AcquireTimeout { timeout_ms }),
            )
        } else {
            Polling::Wait
        },
    }
}

/// Decides how the polling goes on after one attempt, `elapsed_ms`
/// milliseconds after it began.
pub fn after_attempt(attempt: MinaCalcResult<Calc>, elapsed_ms: u64, timeout_ms: u64) -> (r:
    Polling)
    ensures
        r == next_step(attempt, elapsed_ms, timeout_ms),
{
    match attempt {
        Ok(calc) => Polling::Ready(calc),
        Err(_) => {
            if elapsed_ms >= timeout_ms {
                Polling::TimedOut(
                    MinaCalcError::InternalError(InternalFault::AcquireTimeout { timeout_ms }),
                )
            } else {
                Polling::Wait
            }
        },
    }
}

/// Hands on the calculator that was taken for reuse; where none was taken,
/// has the engine make a new one.
pub fn reuse_or_make<F: Fn() -> usize>(taken: Option<Calc>, create: &F) -> (r: MinaCalcResult<
    Calc,
>)
    requires
        taken is None ==> create.requires(()),
    ensures
        match taken {
            Some(calc) => r == Ok::<Calc, MinaCalcError>(calc),
            None => match r {
                Ok(calc) => calc.token() != 0 && create.ensures((), calc.token()),
                Err(e) => e == MinaCalcError::CalculatorCreationFailed && create.ensures(
                    (),
                    0usize,
                ),
            },
        },
{
    match taken {
        Some(calc) => Ok(calc),
        None => Calc::new(create),
    }
}

/// A calculator that is taken out of the slots lies in no slot any more, and
/// the slots still hold no calculator twice: whoever has it has it alone
/// until it is put back.
pub proof fn lemma_taken_is_gone(slots: Seq<Calc>)
    requires
        no_shared_handle(slots),
        slots.len() > 0,
    ensures
        no_shared_handle(slots.drop_last()),
        !is_pooled(slots.drop_last(), slots.last().token()),
{
    let rest = slots.drop_last();
    assert forall|i: int, j: int| 0 <= i < j < rest.len() implies rest[i].token()
        != rest[j].token() by {
        assert(rest[i] == slots[i] && rest[j] == slots[j]);
    }
    assert forall|i: int| 0 <= i < rest.len() implies (#[trigger] rest[i]).token()
        != slots.last().token() by {
        assert(rest[i] == slots[i]);
        assert(slots[i].token() != slots[slots.len() - 1].token());
    }
}

/// The handles that callers hold, apart from the slots: a calculator is in a
/// slot or with one caller, never both.
pub open spec fn held_apart(slots: Seq<Calc>, lent: Set<usize>) -> bool {
    &&& no_shared_handle(slots)
    &&& forall|i: int| 0 <= i < slots.len() ==> !lent.contains((#[trigger] slots[i]).token())
}

/// No calculator is with two callers at once. While the calculators that
/// callers hold are apart from the slots, a calculator taken out of the slots
/// is one that no caller holds, and they stay apart when it goes to its
/// caller.
pub proof fn lemma_acquire_keeps_apart(slots: Seq<Calc>, lent: Set<usize>)
    requires
        held_apart(slots, lent),
        slots.len() > 0,
    ensures
        !lent.contains(slots.last().token()),
        held_apart(slots.drop_last(), lent.insert(slots.last().token())),
{
    lemma_taken_is_gone(slots);
    let rest = slots.drop_last();
    assert(!lent.contains(slots[slots.len() - 1].token()));
    assert forall|i: int| 0 <= i < rest.len() implies !lent.insert(slots.last().token()).contains(
        (#[trigger] rest[i]).token(),
    ) by {
        assert(rest[i] == slots[i]);
        assert(slots[i].token() != slots[slots.len() - 1].token());
    }
}

/// The calculators that callers hold stay apart from the slots when a caller
/// puts back the one it holds.
pub proof fn lemma_release_keeps_apart(slots: Seq<Calc>, lent: Set<usize>, calc: Calc)
    requires
        held_apart(slots, lent),
        lent.contains(calc.token()),
    ensures
        held_apart(slots.push(calc), lent.remove(calc.token())),
{
    let more = slots.push(calc);
    assert forall|i: int, j: int| 0 <= i < j < more.len() implies more[i].token()
        != more[j].token() by {
        assert(more[i] == slots[i]);
        if j < slots.len() {
            assert(more[j] == slots[j]);
        }
    }
    assert forall|i: int| 0 <= i < more.len() implies !lent.remove(calc.token()).contains(
        (#[trigger] more[i]).token(),
    ) by {
        if i < slots.len() {
            assert(more[i] == slots[i]);
        }
    }
}

/// One step in the life of a pool, as its callers see it.
pub enum PoolStep {
    /// A caller gets a calculator; `fresh` is the handle that the engine
    /// gives if it is asked for a new one.
    Get { fresh: usize },
    /// A caller puts back a calculator.
    Return { calc: Calc },
}

/// The handle of the calculator that a step hands to its caller, if it hands
/// one out: getting hands out the calculator in the last slot if it is valid,
/// and else the new one if the engine made it.
pub open spec fn handed_out(slots: Seq<Calc>, step: PoolStep) -> Option<usize> {
    match step {
        PoolStep::Get { fresh } => if slots.len() > 0 && slots.last().token() != 0 {
            Some(slots.last().token())
        } else if fresh != 0 {
            Some(fresh)
        } else {
            None
        },
        PoolStep::Return { calc } => None,
    }
}

/// The slots after a step, as `take_reusable` and `put_back` leave them.
pub open spec fn slots_after(slots: Seq<Calc>, step: PoolStep) -> Seq<Calc> {
    match step {
        PoolStep::Get { fresh } => if slots.len() > 0 {
            slots.drop_last()
        } else {
            slots
        },
        PoolStep::Return { calc } => if calc.token() != 0 {
            slots.push(calc)
        } else {
            slots
        },
    }
}

/// The handles that callers hold after a step.
pub open spec fn lent_after(slots: Seq<Calc>, lent: Set<usize>, step: PoolStep) -> Set<usize> {
    match step {
        PoolStep::Get { fresh } => match handed_out(slots, step) {
            Some(token) => lent.insert(token),
            None => lent,
        },
        PoolStep::Return { calc } => lent.remove(calc.token()),
    }
}

/// A step is in order if a calculator that is put back is one that a caller
/// holds, and a calculator that the engine makes is a new one: in no slot
/// and with no caller.
pub open spec fn in_order(slots: Seq<Calc>, lent: Set<usize>, step: PoolStep) -> bool {
    match step {
        PoolStep::Get { fresh } => !lent.contains(fresh) && !is_pooled(slots, fresh),
        PoolStep::Return { calc } => lent.contains(calc.token()),
    }
}

/// The slots after the first `n` of `steps`.
pub open spec fn slots_at(slots: Seq<Calc>, lent: Set<usize>, steps: Seq<PoolStep>, n: int) -> Seq<
    Calc,
>
    decreases n,
{
    if n <= 0 {
        slots
    } else {
        slots_after(slots_at(slots, lent, steps, n - 1), steps[n - 1])
    }
}

/// The handles that callers hold after the first `n` of `steps`.
pub open spec fn lent_at(slots: Seq<Calc>, lent: Set<usize>, steps: Seq<PoolStep>, n: int) -> Set<
    usize,
>
    decreases n,
{
    if n <= 0 {
        lent
    } else {
        lent_after(
            slots_at(slots, lent, steps, n - 1),
            lent_at(slots, lent, steps, n - 1),
            steps[n - 1],
        )
    }
}

/// One step that is in order hands out no calculator that a caller holds,
/// and leaves the calculators that callers hold apart from the slots.
pub proof fn lemma_step_keeps_apart(slots: Seq<Calc>, lent: Set<usize>, step: PoolStep)
    requires
        held_apart(slots, lent),
        in_order(slots, lent, step),
    ensures
        handed_out(slots, step) matches Some(token) ==> !lent.contains(token),
        held_apart(slots_after(slots, step), lent_after(slots, lent, step)),
{
    match step {
        PoolStep::Get { fresh } => {
            if slots.len() > 0 {
                lemma_acquire_keeps_apart(slots, lent);
                let rest = slots.drop_last();
                assert forall|i: int| 0 <= i < rest.len() implies !lent_after(
                    slots,
                    lent,
                    step,
                ).contains((#[trigger] rest[i]).token()) by {
                    assert(rest[i] == slots[i]);
                    assert(slots[i].token() != slots[slots.len() - 1].token());
                }
            }
        },
        PoolStep::Return { calc } => {
            if calc.token() != 0 {
                lemma_release_keeps_apart(slots, lent, calc);
            } else {
                assert forall|i: int| 0 <= i < slots.len() implies !lent.remove(
                    calc.token(),
                ).contains((#[trigger] slots[i]).token()) by {}
            }
        },
    }
}

/// No calculator is with two callers at once, whatever the callers do in
/// whatever order: as long as every step is in order, no step hands out a
/// calculator that a caller holds at the time.
pub proof fn lemma_never_with_two_callers(
    slots: Seq<Calc>,
    lent: Set<usize>,
    steps: Seq<PoolStep>,
    n: int,
)
    requires
        held_apart(slots, lent),
        0 <= n < steps.len(),
        forall|k: int|
            0 <= k <= n ==> in_order(
                slots_at(slots, lent, steps, k),
                lent_at(slots, lent, steps, k),
                #[trigger] steps[k],
            ),
    ensures
        held_apart(slots_at(slots, lent, steps, n), lent_at(slots, lent, steps, n)),
        handed_out(slots_at(slots, lent, steps, n), steps[n]) matches Some(token) ==> !lent_at(
            slots,
            lent,
            steps,
            n,
        ).contains(token),
    decreases n,
{
    if n > 0 {
        lemma_never_with_two_callers(slots, lent, steps, n - 1);
        lemma_step_keeps_apart(
            slots_at(slots, lent, steps, n - 1),
            lent_at(slots, lent, steps, n - 1),
            steps[n - 1],
        );
    }
    lemma_step_keeps_apart(
        slots_at(slots, lent, steps, n),
        lent_at(slots, lent, steps, n),
        steps[n],
    );
}

/// The lock of parking_lot, here around the slots of a pool.
#[verifier::external_type_specification]
#[verifier::external_body]
#[verifier::reject_recursive_types(R)]
#[verifier::reject_recursive_types(T)]
pub struct ExMutex<R, T: ?Sized>(parking_lot::lock_api::Mutex<R, T>);

/// The raw lock that parking_lot's `Mutex` is built on.
#[verifier::external_type_specification]
#[verifier::external_body]
pub struct ExRawMutex(parking_lot::RawMutex);

/// Every calculator of `slots` is valid.
pub open spec fn all_valid(slots: Seq<Calc>) -> bool {
    forall|i: int| 0 <= i < slots.len() ==> (#[trigger] slots[i]).token() != 0
}

/// The slots of a pool: the calculators that wait in it for the next caller.
/// Only valid calculators are let in, so every one that waits is valid.
struct Slots {
    waiting: Vec<Calc>,
}

impl Slots {
    #[verifier::type_invariant]
    spec fn only_valid(self) -> bool {
        all_valid(self.waiting@)
    }
}

/// Lifts the calculators out of the slots, which are empty until they are
/// set again.
fn lift(slots: &mut Slots) -> (waiting: Vec<Calc>)
    ensures
        waiting@ == old(slots).waiting@,
        all_valid(waiting@),
        final(slots).waiting@ == Seq::<Calc>::empty(),
{
    let mut lifted = Slots { waiting: Vec::new() };
    std::mem::swap(slots, &mut lifted);
    proof {
        use_type_invariant(&lifted);
    }
    lifted.waiting
}

/// Sets the calculators that wait in the slots.
fn set(slots: &mut Slots, waiting: Vec<Calc>)
    requires
        all_valid(waiting@),
    ensures
        final(slots).waiting@ == waiting@,
{
    *slots = Slots { waiting };
}

/// The held lock of a pool: parking_lot's `MutexGuard` around its slots. The
/// lock is held from `lock` until this value is dropped.
#[verifier::external_body]
struct SlotsGuard<'a> {
    guard: parking_lot::MutexGuard<'a, Slots>,
}

/// `parking_lot::Mutex::new`: a lock around slots. Nothing is claimed of it.
#[verifier::external_body]
fn new_lock(slots: Slots) -> parking_lot::Mutex<Slots> {
    parking_lot::Mutex::new(slots)
}

/// `parking_lot::Mutex::lock`: waits for the lock and holds it until the
/// guard is dropped. It does not come back in a thread that holds the lock
/// already, so the pool takes the lock only where it calls nothing while it
/// holds it. Nothing is claimed of the slots behind the lock: other threads
/// may have changed them.
#[verifier::external_body]
fn lock<'a>(calculators: &'a Arc<parking_lot::Mutex<Slots>>) -> SlotsGuard<'a> {
    SlotsGuard { guard: calculators.lock() }
}

/// `DerefMut` of parking_lot's `MutexGuard`: the slots behind the held lock.
/// Nothing is claimed of what they hold.
#[verifier::external_body]
fn guarded<'a, 'b>(guard: &'a mut SlotsGuard<'b>) -> (slots: &'a mut Slots) {
    &mut *guard.guard
}

/// A pool of calculators behind a lock.
pub struct ThreadSafeCalcPool {
    calculators: Arc<parking_lot::Mutex<Slots>>,
}

impl ThreadSafeCalcPool {
    /// An empty pool.
    pub fn new() -> Self {
        ThreadSafeCalcPool { calculators: Arc::new(new_lock(Slots { waiting: Vec::new() })) }
    }

    /// Takes a calculator for reuse out of the pool, with the lock held.
    fn take(&self) -> (r: Option<Calc>)
        ensures
            r matches Some(calc) ==> calc.token() != 0,
    {
        let mut guard = lock(&self.calculators);
        let slots = guarded(&mut guard);
        let mut waiting = lift(slots);
        let r = take_reusable(&mut waiting);
        set(slots, waiting);
        r
    }

    /// Moves calculators into the pool in their order, with the lock held,
    /// and leaves none of them behind; one that is not valid is let go.
    fn put_all(&self, made: &mut Vec<Calc>)
        ensures
            final(made)@ == Seq::<Calc>::empty(),
    {
        let mut last_first: Vec<Calc> = Vec::new();
        while made.len() > 0
            decreases made@.len(),
        {
            match made.pop() {
                Some(calc) => last_first.push(calc),
                None => {},
            }
        }
        let mut guard = lock(&self.calculators);
        let slots = guarded(&mut guard);
        let mut waiting = lift(slots);
        while last_first.len() > 0
            invariant
                all_valid(waiting@),
            decreases last_first@.len(),
        {
            match last_first.pop() {
                Some(calc) => put_back(&mut waiting, calc),
                None => {},
            }
        }
        set(slots, waiting);
        assert(made@ =~= Seq::<Calc>::empty());
    }

    /// Gets a calculator: the one that was put into the pool last if it is
    /// valid, and else a new one, which `create` has the engine make. The
    /// calculator that is handed out is valid. The lock is held while the
    /// pool is looked at, not while the engine makes a calculator.
    pub fn get_calc<F: Fn() -> usize>(&self, create: &F) -> (r: MinaCalcResult<Calc>)
        requires
            create.requires(()),
        ensures
            match r {
                Ok(calc) => calc.token() != 0,
                Err(e) => e == MinaCalcError::CalculatorCreationFailed && create.ensures(
                    (),
                    0usize,
                ),
            },
    {
        let taken = self.take();
        reuse_or_make(taken, create)
    }

    /// Puts a calculator back into the pool if it is valid.
    pub fn return_calc(&self, calc: Calc) {
        if calc.is_valid() {
            let mut guard = lock(&self.calculators);
            let slots = guarded(&mut guard);
            let mut waiting = lift(slots);
            put_back(&mut waiting, calc);
            set(slots, waiting);
        }
    }

    /// The number of calculators in the pool at the time of the call.
    pub fn pool_size(&self) -> usize {
        let mut guard = lock(&self.calculators);
        let slots = guarded(&mut guard);
        let waiting = lift(slots);
        let size = waiting.len();
        set(slots, waiting);
        size
    }

    /// Empties the pool and hands out what was in it, for the caller to
    /// dispose of: valid calculators, one for each that waited.
    pub fn clear_pool(&self) -> (cleared: Vec<Calc>)
        ensures
            all_valid(cleared@),
    {
        let mut guard = lock(&self.calculators);
        let slots = guarded(&mut guard);
        lift(slots)
    }

    /// Makes `count` calculators in advance and puts them into the pool.
    /// Stops at the first that cannot be made; those made before it go into
    /// the pool all the same. It succeeds if `create` made `count` valid
    /// calculators, and fails if `create` made fewer and then none.
    pub fn pre_populate<F: Fn() -> usize>(&self, count: usize, create: &F) -> (r: MinaCalcResult<
        (),
    >)
        requires
            create.requires(()),
        ensures
            exists|added: Seq<Calc>|
                {
                    &&& #[trigger] made_by(create, added)
                    &&& match r {
                        Ok(()) => added.len() == count,
                        Err(e) => added.len() < count && e
                            == MinaCalcError::CalculatorCreationFailed && create.ensures(
                            (),
                            0usize,
                        ),
                    }
                },
    {
        let mut made: Vec<Calc> = Vec::new();
        let r = fill(&mut made, count, create);
        self.put_all(&mut made);
        r
    }

    /// One attempt to get a calculator within `timeout_ms` milliseconds. If
    /// none can be had, `elapsed_ms` is asked how many milliseconds have gone
    /// by since the first attempt. The caller waits a millisecond and calls
    /// again for as long as it is told to wait.
    pub fn get_calc_with_timeout<F: Fn() -> usize, G: Fn() -> u64>(
        &self,
        timeout_ms: u64,
        create: &F,
        elapsed_ms: &G,
    ) -> (r: Polling)
        requires
            create.requires(()),
            elapsed_ms.requires(()),
        ensures
            match r {
                Polling::Ready(calc) => calc.token() != 0,
                Polling::Wait => create.ensures((), 0usize) && exists|elapsed: u64|
                    elapsed_ms.ensures((), elapsed) && elapsed < timeout_ms,
                Polling::TimedOut(e) => create.ensures((), 0usize) && (exists|elapsed: u64|
                    elapsed_ms.ensures((), elapsed) && elapsed >= timeout_ms) && e
                    == MinaCalcError::InternalError(InternalFault::AcquireTimeout { timeout_ms }),
            },
    {
        match self.get_calc(create) {
            Ok(calc) => Polling::Ready(calc),
            Err(e) => {
                let elapsed: u64 = elapsed_ms();
                after_attempt(Err(e), elapsed, timeout_ms)
            },
        }
    }
}

} // verus!
