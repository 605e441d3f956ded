//! Snapshots of the stacks of other threads.
use vstd::prelude::*;

verus! {

/// The right to read a region of memory.
pub const VM_PROT_READ: i32 = 1;

/// How a sample was taken.
#[derive(Clone, Copy, Debug, PartialEq, Eq, Structural)]
pub enum CaptureKind {
    /// Registers and a copy of the stack.
    RawContext,
}

/// What a thread was doing.
#[derive(Clone, Debug)]
pub struct ThreadSample {
    pub os_tid: u64,
    pub stack_pointer: u64,
    pub instruction_pointer: u64,
    pub frame_pointer: u64,
    pub link_register: Option<u64>,
    pub stack_bytes: Vec<u8>,
    /// Whether there was more stack than was copied.
    pub truncated: bool,
    pub kind: CaptureKind,
    /// The addresses of its frames, once they are resolved.
    pub frames: Vec<u64>,
}

/// How much of each thread a snapshot takes.
#[derive(Clone, Copy, Debug, PartialEq, Eq, Structural)]
pub struct SnapshotConfig {
    pub max_stack_bytes: usize,
}

/// How a snapshot went.
#[derive(Clone, Copy, Debug, PartialEq, Eq, Structural)]
pub struct SnapshotStats {
    pub threads_total: u32,
    pub threads_captured: u32,
    pub threads_dropped: u32,
    pub pause_nanos: u64,
}

/// What the other threads were doing, and how the snapshot went.
#[derive(Debug)]
pub struct Snapshot {
    pub stats: SnapshotStats,
    pub threads: Vec<ThreadSample>,
    pub frames_resolved: bool,
}

/// Whether a sample holds some stack, within the limit, and no frames yet.
pub open spec fn sample_fits(sample: ThreadSample, config: SnapshotConfig) -> bool {
    0 < sample.stack_bytes@.len() <= config.max_stack_bytes && sample.frames@.len() == 0
}

/// A region of memory around a stack pointer, as the host describes it.
#[derive(Clone, Copy, Debug, PartialEq, Eq, Structural)]
pub struct StackRegion {
    pub address: u64,
    pub size: u64,
    pub protection: i32,
}

/// Whether a region holds the stack pointer and may be read.
pub open spec fn holds_stack(region: StackRegion, sp: u64) -> bool {
    &&& region.address + region.size <= u64::MAX
    &&& region.address <= sp < region.address + region.size
    &&& region.protection & VM_PROT_READ != 0
}

/// How much stack there is from the stack pointer on, and how much of it to
/// copy.
#[derive(Clone, Copy, Debug, PartialEq, Eq, Structural)]
pub struct StackPlan {
    pub available: usize,
    pub want: usize,
}

pub open spec fn smaller(first: int, second: int) -> int {
    if first < second { first } else { second }
}

/// What to copy of a stack: from the stack pointer to the end of its region, but
/// no more than the limit and the buffer allow. Nothing of a region that does
/// not hold the stack pointer or may not be read.
pub fn plan_stack_copy(region: StackRegion, sp: u64, limit: usize, buffer: usize) -> (plan:
    StackPlan)
    ensures
        if holds_stack(region, sp) {
            &&& plan.available == smaller(
                region.address + region.size - sp,
                usize::MAX as int,
            )
            &&& plan.want == smaller(
                smaller(plan.available as int, limit as int),
                buffer as int,
            )
        } else {
            plan.available == 0 && plan.want == 0
        },
{
    let end = match region.address.checked_add(region.size) {
        Some(end) => end,
        None => {
            return StackPlan { available: 0, want: 0 };
        },
    };
    if region.address > sp || sp >= end || region.protection & VM_PROT_READ == 0 {
        return StackPlan { available: 0, want: 0 };
    }
    let span: u64 = end - sp;
    let available: usize = if span > usize::MAX as u64 { usize::MAX } else { span as usize };
    let bounded: usize = if available < limit { available } else { limit };
    let want: usize = if bounded < buffer { bounded } else { buffer };
    StackPlan { available, want }
}

/// How much was copied: never more than was asked for, whatever the host says.
pub fn copied_bytes(plan: StackPlan, reported: Option<u64>) -> (copied: usize)
    ensures
        copied <= plan.want,
        copied == match reported {
            Some(reported) => smaller(reported as int, plan.want as int),
            None => 0,
        },
{
    match reported {
        Some(reported) => if reported < plan.want as u64 {
            reported as usize
        } else {
            plan.want
        },
        None => 0,
    }
}

/// The copy stays within the region of the stack, the limit and the buffer.
pub proof fn stack_copies_stay_within_bounds(
    region: StackRegion,
    sp: u64,
    limit: usize,
    buffer: usize,
    plan: StackPlan,
    copied: usize,
)
    requires
        holds_stack(region, sp),
        plan.available == smaller(region.address + region.size - sp, usize::MAX as int),
        plan.want == smaller(smaller(plan.available as int, limit as int), buffer as int),
        copied <= plan.want,
    ensures
        sp + copied <= region.address + region.size,
        copied <= limit,
        copied <= buffer,
{
}

/// What the kernel answers where all went well.
pub const KERN_SUCCESS: i32 = 0;

/// Why there is no snapshot.
#[derive(Clone, Copy, Debug, PartialEq, Eq)]
pub enum SnapshotError {
    /// A call of the kernel failed.
    Mach { operation: &'static str, code: i32 },
}

impl SnapshotError {
    /// Whether this is the failure of that call.
    pub open spec fn is_of(&self, call: Seq<char>, status: i32) -> bool {
        match *self {
            SnapshotError::Mach { operation, code } => operation@ == call && code == status,
        }
    }
}

/// Whether the threads of the process could be listed.
pub fn enumerate(code: i32) -> (listed: Result<(), SnapshotError>)
    ensures
        match listed {
            Ok(()) => code == KERN_SUCCESS,
            Err(error) => code != KERN_SUCCESS && error.is_of("task_threads"@, code),
        },
{
    if code != KERN_SUCCESS {
        return Err(SnapshotError::Mach { operation: "task_threads", code });
    }
    Ok(())
}

/// Whether there is a sample: the registers are known and some stack was copied.
pub open spec fn has_sample(
    registers: Option<(u64, u64, u64, Option<u64>)>,
    stack: Option<StackPlan>,
    reported: Option<u64>,
) -> bool {
    registers is Some && stack is Some && reported is Some && smaller(
        reported->Some_0 as int,
        stack->Some_0.want as int,
    ) > 0
}

/// What the capture of a thread came to: a sample and for how long the thread was paused,
/// or nothing. `resumed` is what the kernel answered to resuming the thread, if it was
/// suspended: a thread that cannot be resumed is a failure, whatever else was found. The
/// copy of its stack is at the front of `scratch`, and is as long as the host reported,
/// but no longer than it was asked for.
pub fn capture_thread(
    os_tid: Option<u64>,
    resumed: Option<i32>,
    registers: Option<(u64, u64, u64, Option<u64>)>,
    stack: Option<StackPlan>,
    reported: Option<u64>,
    scratch: &[u8],
    nanos: u128,
    config: SnapshotConfig,
) -> (captured: Result<Option<(ThreadSample, u64)>, SnapshotError>)
    requires
        stack is Some ==> stack->Some_0.want <= scratch@.len() && stack->Some_0.want
            <= config.max_stack_bytes,
    ensures
        match captured {
            Err(error) => os_tid is Some && resumed is Some && resumed->Some_0 != KERN_SUCCESS
                && error.is_of("thread_resume"@, resumed->Some_0),
            Ok(Some((sample, pause))) => {
                let copied = smaller(reported->Some_0 as int, stack->Some_0.want as int);
                &&& os_tid is Some && resumed == Some(KERN_SUCCESS)
                &&& has_sample(registers, stack, reported)
                &&& sample.os_tid == os_tid->Some_0
                &&& sample.stack_pointer == registers->Some_0.0
                &&& sample.instruction_pointer == registers->Some_0.1
                &&& sample.frame_pointer == registers->Some_0.2
                &&& sample.link_register == registers->Some_0.3
                &&& sample.stack_bytes@ == scratch@.take(copied)
                &&& sample.truncated == (copied < stack->Some_0.available)
                &&& sample.kind == CaptureKind::RawContext
                &&& sample_fits(sample, config)
                &&& pause == smaller(nanos as int, u64::MAX as int)
            },
            Ok(None) => os_tid is None || resumed is None || (resumed == Some(KERN_SUCCESS)
                && !has_sample(registers, stack, reported)),
        },
{
    let (os_tid, code) = match (os_tid, resumed) {
        (Some(os_tid), Some(code)) => (os_tid, code),
        _ => {
            return Ok(None);
        },
    };
    if code != KERN_SUCCESS {
        return Err(SnapshotError::Mach { operation: "thread_resume", code });
    }
    let (sp, ip, fp, lr) = match registers {
        Some(registers) => registers,
        None => {
            return Ok(None);
        },
    };
    let plan = match stack {
        Some(plan) => plan,
        None => {
            return Ok(None);
        },
    };
    let copied = copied_bytes(plan, reported);
    if copied == 0 {
        return Ok(None);
    }
    let front = vstd::slice::slice_subrange(scratch, 0, copied);
    assert(front@ =~= scratch@.take(copied as int));
    let sample = ThreadSample {
        os_tid,
        stack_pointer: sp,
        instruction_pointer: ip,
        frame_pointer: fp,
        link_register: lr,
        stack_bytes: crate::symbolize::codec::copy_bytes(front),
        truncated: copied < plan.available,
        kind: CaptureKind::RawContext,
        frames: Vec::new(),
    };
    Ok(Some((sample, pause_of(nanos))))
}

/// A time as a 64-bit number of nanoseconds, the largest where it does not fit.
pub fn pause_of(nanos: u128) -> (pause: u64)
    ensures
        pause == smaller(nanos as int, u64::MAX as int),
{
    if nanos > u64::MAX as u128 {
        u64::MAX
    } else {
        nanos as u64
    }
}

/// Whether a thread of the process is another than the one that takes the
/// snapshot: by its identifier, or by its handle where that is not known.
pub fn is_sibling(
    own_tid: Option<u64>,
    own_handle: u32,
    tid: Option<u64>,
    handle: u32,
) -> (sibling: bool)
    ensures
        sibling == match own_tid {
            Some(own) => tid != Some(own),
            None => handle != own_handle,
        },
{
    match own_tid {
        Some(own) => match tid {
            Some(tid) => tid != own,
            None => true,
        },
        None => handle != own_handle,
    }
}

/// What became of one thread.
pub type ThreadOutcome = Result<Option<(ThreadSample, u64)>, SnapshotError>;

/// The samples that were taken, in order.
pub open spec fn samples_of(outcomes: Seq<ThreadOutcome>) -> Seq<ThreadSample>
    decreases outcomes.len(),
{
    if outcomes.len() == 0 {
        Seq::empty()
    } else {
        match outcomes.last() {
            Ok(Some((sample, _))) => samples_of(outcomes.drop_last()).push(sample),
            _ => samples_of(outcomes.drop_last()),
        }
    }
}

/// For how long threads were paused, all together.
pub open spec fn paused(outcomes: Seq<ThreadOutcome>) -> nat
    decreases outcomes.len(),
{
    if outcomes.len() == 0 {
        0
    } else {
        paused(outcomes.drop_last()) + match outcomes.last() {
            Ok(Some((_, pause))) => pause as nat,
            _ => 0,
        }
    }
}

/// The first failure, which ends a snapshot.
pub open spec fn first_failure(outcomes: Seq<ThreadOutcome>) -> Option<SnapshotError>
    decreases outcomes.len(),
{
    if outcomes.len() == 0 {
        None
    } else {
        match (first_failure(outcomes.drop_last()), outcomes.last()) {
            (Some(error), _) => Some(error),
            (None, Err(error)) => Some(error),
            (None, Ok(_)) => None,
        }
    }
}

proof fn lemma_failure_stays(outcomes: Seq<ThreadOutcome>, upto: int)
    requires
        0 <= upto <= outcomes.len(),
        first_failure(outcomes.take(upto)) is Some,
    ensures
        first_failure(outcomes) == first_failure(outcomes.take(upto)),
    decreases outcomes.len() - upto,
{
    if upto == outcomes.len() {
        assert(outcomes.take(upto) =~= outcomes);
    } else {
        assert(outcomes.take(upto + 1).drop_last() =~= outcomes.take(upto));
        lemma_failure_stays(outcomes, upto + 1);
    }
}

/// A snapshot of the other threads, from what became of each: every thread is captured or
/// dropped, and the pauses are added up without wrapping. The first failure ends it, and
/// no snapshot is handed out.
pub fn capture(outcomes: Vec<ThreadOutcome>, config: SnapshotConfig) -> (captured: Result<
    Snapshot,
    SnapshotError,
>)
    requires
        outcomes@.len() <= u32::MAX,
        forall|i: int|
            0 <= i < outcomes@.len() && (#[trigger] outcomes@[i]) is Ok && outcomes@[i]->Ok_0 is Some
                ==> sample_fits(outcomes@[i]->Ok_0->Some_0.0, config),
    ensures
        match captured {
            Err(error) => first_failure(outcomes@) == Some(error),
            Ok(snapshot) => {
                &&& first_failure(outcomes@) is None
                &&& snapshot.threads@ == samples_of(outcomes@)
                &&& snapshot.stats.threads_total == outcomes@.len()
                &&& snapshot.stats.threads_captured == snapshot.threads@.len()
                &&& snapshot.stats.threads_total == snapshot.stats.threads_captured
                    + snapshot.stats.threads_dropped
                &&& snapshot.stats.pause_nanos == smaller(
                    paused(outcomes@) as int,
                    u64::MAX as int,
                )
                &&& forall|i: int|
                    0 <= i < snapshot.threads@.len() ==> sample_fits(
                        #[trigger] snapshot.threads@[i],
                        config,
                    )
                &&& !snapshot.frames_resolved
            },
        },
{
    let ghost all = outcomes@;
    let total: u32 = outcomes.len() as u32;
    let mut threads: Vec<ThreadSample> = Vec::new();
    let mut taken: u32 = 0;
    let mut dropped: u32 = 0;
    let mut pause_nanos: u64 = 0;
    for outcome in iter: outcomes
        invariant
            iter.seq() == all,
            all == outcomes@,
            all.len() <= u32::MAX,
            first_failure(all.take(iter.index() as int)) is None,
            threads@ == samples_of(all.take(iter.index() as int)),
            threads@.len() == taken,
            taken + dropped == iter.index(),
            pause_nanos == smaller(paused(all.take(iter.index() as int)) as int, u64::MAX as int),
            forall|i: int|
                0 <= i < all.len() && (#[trigger] all[i]) is Ok && all[i]->Ok_0 is Some
                    ==> sample_fits(all[i]->Ok_0->Some_0.0, config),
            forall|i: int|
                0 <= i < threads@.len() ==> sample_fits(#[trigger] threads@[i], config),
    {
        let ghost at = iter.index() as int;
        proof {
            assert(all.take(at + 1).drop_last() =~= all.take(at));
            assert(all.take(at + 1).last() == all[at]);
            assert(all[at] == outcome);
        }
        match outcome {
            Ok(Some((sample, pause))) => {
                threads.push(sample);
                taken = taken + 1;
                pause_nanos = if pause_nanos > u64::MAX - pause {
                    u64::MAX
                } else {
                    pause_nanos + pause
                };
            },
            Ok(None) => {
                dropped = dropped + 1;
            },
            Err(error) => {
                proof {
                    lemma_failure_stays(all, at + 1);
                }
                return Err(error);
            },
        }
    }
    assert(all.take(all.len() as int) =~= all);
    Ok(
        Snapshot {
            stats: SnapshotStats {
                threads_total: total,
                threads_captured: taken,
                threads_dropped: dropped,
                pause_nanos,
            },
            threads,
            frames_resolved: false,
        },
    )
}

/// A thread that was suspended.
#[derive(Clone, Copy, Debug, PartialEq, Eq, Structural)]
pub struct Suspension {
    active: bool,
}

impl Suspension {
    pub closed spec fn spec_active(&self) -> bool {
        self.active
    }

    /// A suspension, where the host granted it.
    pub fn new(suspended: bool) -> (suspension: Option<Self>)
        ensures
            suspension is Some == suspended,
            suspension is Some ==> suspension->Some_0.spec_active(),
    {
        if suspended {
            Some(Suspension { active: true })
        } else {
            None
        }
    }

    /// Takes the outcome of resuming the thread.
    pub fn resume(&mut self, resumed: bool)
        ensures
            final(self).spec_active() == (old(self).spec_active() && !resumed),
    {
        if resumed {
            self.active = false;
        }
    }

    /// Whether the thread has to be resumed before it is forgotten.
    pub fn resumes_on_drop(&self) -> (resumes: bool)
        ensures
            resumes == self.spec_active(),
    {
        self.active
    }
}

/// What is reported of threads adds up thread by thread: samples and pauses of those that were
/// sampled, and the first failure of all.
pub proof fn threads_add_up(
    first: Seq<ThreadOutcome>,
    second: Seq<ThreadOutcome>,
    sample: ThreadSample,
    pause: u64,
    error: SnapshotError,
)
    ensures
        samples_of(first + second) == samples_of(first) + samples_of(second),
        paused(first + second) == paused(first) + paused(second),
        first_failure(first + second) == if first_failure(first) is Some {
            first_failure(first)
        } else {
            first_failure(second)
        },
        samples_of(seq![Ok(Some((sample, pause)))]) == seq![sample],
        paused(seq![Ok(Some((sample, pause)))]) == pause,
        first_failure(seq![Ok(Some((sample, pause)))]) is None,
        samples_of(seq![Ok(None)]).len() == 0 && paused(seq![Ok(None)]) == 0,
        first_failure(seq![Ok(None)]) is None,
        samples_of(seq![Err(error)]).len() == 0 && paused(seq![Err(error)]) == 0,
        first_failure(seq![Err(error)]) == Some(error),
    decreases second.len(),
{
    let taken: Seq<ThreadOutcome> = seq![Ok(Some((sample, pause)))];
    let gone: Seq<ThreadOutcome> = seq![Ok(None)];
    let failed: Seq<ThreadOutcome> = seq![Err(error)];
    assert(taken.drop_last() =~= Seq::empty() && gone.drop_last() =~= Seq::empty()
        && failed.drop_last() =~= Seq::empty());
    reveal_with_fuel(samples_of, 2);
    reveal_with_fuel(paused, 2);
    reveal_with_fuel(first_failure, 2);
    assert(samples_of(taken) =~= seq![sample]);
    if second.len() == 0 {
        assert(first + second =~= first);
        assert(samples_of(first) + samples_of(second) =~= samples_of(first));
    } else {
        threads_add_up(first, second.drop_last(), sample, pause, error);
        assert((first + second).drop_last() =~= first + second.drop_last());
        assert((first + second).last() == second.last());
        assert(samples_of(first + second) =~= samples_of(first) + samples_of(second));
    }
}

/// A thread is sampled only where its registers, its stack and the copy of it were all had, and
/// the copy is not empty.
pub proof fn samples_take_all_three(
    registers: Option<(u64, u64, u64, Option<u64>)>,
    stack: Option<StackPlan>,
    reported: Option<u64>,
)
    ensures
        has_sample(registers, stack, reported) <==> {
            &&& registers is Some
            &&& stack is Some && stack->Some_0.want > 0
            &&& reported is Some && reported->Some_0 > 0
        },
{
}

/// As much of a stack is copied as there is, as is allowed, and as there is room for: the least
/// of the three.
pub proof fn copies_are_as_long_as_they_may_be(
    region: StackRegion,
    sp: u64,
    limit: usize,
    buffer: usize,
    plan: StackPlan,
    reported: u64,
    copied: usize,
)
    requires
        call_ensures(plan_stack_copy, (region, sp, limit, buffer), plan),
        call_ensures(copied_bytes, (plan, Some(reported)), copied),
        region.address <= sp < region.address + region.size <= usize::MAX,
        region.protection & 1 != 0,
    ensures
        plan.available == region.address + region.size - sp,
        plan.want <= plan.available && plan.want <= limit && plan.want <= buffer,
        plan.want == plan.available || plan.want == limit || plan.want == buffer,
        copied <= plan.want && copied <= reported,
        copied == plan.want || copied == reported,
{
}

/// Every thread is a sibling but the one that asks, told by its number where that is known and
/// by its handle otherwise.
pub proof fn all_but_the_asking_thread_are_siblings(
    own_tid: Option<u64>,
    own_handle: u32,
    tid: u64,
    handle: u32,
    itself: bool,
    other: bool,
)
    requires
        call_ensures(is_sibling, (own_tid, own_handle, own_tid, own_handle), itself),
        call_ensures(is_sibling, (own_tid, own_handle, Some(tid), handle), other),
    ensures
        !itself,
        own_tid is Some ==> (other <==> tid != own_tid->Some_0),
        own_tid is None ==> (other <==> handle != own_handle),
{
}

/// Every thread is counted once, as sampled or as dropped, and a failure leaves no snapshot.
pub proof fn every_thread_is_counted_once(
    outcomes: Vec<ThreadOutcome>,
    config: SnapshotConfig,
    captured: Result<Snapshot, SnapshotError>,
    at: int,
)
    requires
        call_ensures(capture, (outcomes, config), captured),
    ensures
        captured is Ok ==> {
            let stats = captured->Ok_0.stats;
            &&& stats.threads_total == outcomes@.len()
            &&& stats.threads_captured == captured->Ok_0.threads@.len()
            &&& stats.threads_captured + stats.threads_dropped == outcomes@.len()
        },
        0 <= at < outcomes@.len() && outcomes@[at] is Err ==> captured is Err,
{
    if 0 <= at < outcomes@.len() && outcomes@[at] is Err {
        lemma_failures_are_noticed(outcomes@, at);
    }
}

proof fn lemma_failures_are_noticed(outcomes: Seq<ThreadOutcome>, at: int)
    requires
        0 <= at < outcomes.len(),
        outcomes[at] is Err,
    ensures
        first_failure(outcomes) is Some,
    decreases outcomes.len(),
{
    if at < outcomes.len() - 1 {
        lemma_failures_are_noticed(outcomes.drop_last(), at);
    }
}

} // verus!
