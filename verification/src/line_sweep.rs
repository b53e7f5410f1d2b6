//! Which instruction-cache lines have to be invalidated after code was
//! written, on machines whose instruction cache does not follow the data path
//! by itself.
//!
//! The privileged instructions themselves are not issued here. A [`LineSweep`]
//! says which operation is due next; the caller carries it out and reports
//! back what the machine answered.

use crate::cache_line::{
    align_down, covers, decoded_line_size, is_line_size, lemma_covers_coarser,
    lemma_covers_within, lemma_decoded_line_size, lemma_line_start, lemma_lines_left,
    lemma_pass_covers, lemma_pass_step, line_addresses, line_count, line_size, line_sizes_below,
    line_start,
};
use vstd::prelude::*;

verus! {

/// The limit in force before any pass was made: larger than every line size.
pub const NO_PASS_YET: usize = 0xFFFF_FFFF;

/// The addresses that one full pass over `[start, end)` for each of `sizes`,
/// in their order, invalidates.
pub open spec fn swept(start: int, end: int, sizes: Seq<int>) -> Seq<int>
    decreases sizes.len(),
{
    if sizes.len() == 0 {
        Seq::empty()
    } else {
        swept(start, end, sizes.drop_last()) + line_addresses(start, end, sizes.last())
    }
}

/// Whether each of `sizes` is smaller than all before it.
pub open spec fn strictly_decreasing(sizes: Seq<int>) -> bool {
    forall|i: int, j: int| 0 <= i < j < sizes.len() ==> sizes[i] > sizes[j]
}

/// Where a sweep stands.
#[derive(Clone, Copy, Debug, PartialEq, Eq)]
pub enum Phase {
    /// The range is no longer than one instruction: the line that holds its
    /// first word is still to be invalidated, and nothing else.
    Single { address: usize },
    /// The line size is to be read. `limit` is the size that the last pass
    /// went by, or `NO_PASS_YET`.
    Query { limit: usize },
    /// A pass by lines of `size` bytes is under way, and the line at `next`
    /// is the next to be invalidated.
    Pass { size: usize, next: usize },
    /// Nothing is left to do.
    Finished,
}

/// What the caller of a sweep has to do next.
#[derive(Clone, Copy, Debug, PartialEq, Eq)]
pub enum SweepAction {
    /// Read the cache-geometry register and hand its value to
    /// [`LineSweep::line_size_read`].
    ReadLineSize,
    /// Invalidate the instruction-cache line that holds this address.
    InvalidateLine(usize),
    /// The sweep is over.
    Finished,
}

/// A sweep as the contracts see it: the range, the phase, and what has
/// happened so far.
pub struct SweepState {
    pub start: int,
    pub end: int,
    pub phase: Phase,
    /// The line sizes that were read, in the order in which they came.
    pub observed: Seq<int>,
    /// The addresses that were handed out for invalidation, in their order.
    pub invalidated: Seq<int>,
}

impl SweepState {
    /// The state in which a sweep over `len` bytes from `start` begins.
    pub open spec fn initial(start: usize, len: usize) -> SweepState {
        SweepState {
            start: start as int,
            end: start + len,
            phase: if len <= 4 {
                Phase::Single { address: line_start(start as int, 4) as usize }
            } else {
                Phase::Query { limit: NO_PASS_YET }
            },
            observed: Seq::empty(),
            invalidated: Seq::empty(),
        }
    }

    /// The action that is due in this state.
    pub open spec fn pending(self) -> SweepAction {
        match self.phase {
            Phase::Single { address } => SweepAction::InvalidateLine(address),
            Phase::Query { .. } => SweepAction::ReadLineSize,
            Phase::Pass { next, .. } => SweepAction::InvalidateLine(next),
            Phase::Finished => SweepAction::Finished,
        }
    }

    /// The state after the pending action was handed out. A pass goes on to
    /// its next line, or, behind the last line of the range, to a new reading
    /// of the line size.
    pub open spec fn advanced(self) -> SweepState {
        match self.phase {
            Phase::Single { address } => SweepState {
                phase: Phase::Finished,
                invalidated: self.invalidated.push(address as int),
                ..self
            },
            Phase::Pass { size, next } => SweepState {
                phase: if next + size < self.end {
                    Phase::Pass { size, next: (next + size) as usize }
                } else {
                    Phase::Query { limit: size }
                },
                invalidated: self.invalidated.push(next as int),
                ..self
            },
            _ => self,
        }
    }

    /// The state after the register value `geometry` was read. A size below
    /// the limit starts a pass by that size; any other ends the sweep. A
    /// state that waits for no line size stays as it is.
    pub open spec fn informed(self, geometry: usize) -> SweepState {
        match self.phase {
            Phase::Query { limit } => {
                let size = decoded_line_size(geometry);
                SweepState {
                    phase: if limit > size {
                        Phase::Pass { size, next: line_start(self.start, size as int) as usize }
                    } else {
                        Phase::Finished
                    },
                    observed: self.observed.push(size as int),
                    ..self
                }
            },
            _ => self,
        }
    }

    /// No pass over the range invalidates more lines than this.
    pub open spec fn lines_bound(self) -> int {
        (self.end - self.start) / 4 + 2
    }

    /// The sweep has no more steps left than this, where handing out an
    /// invalidation is a step, and so is taking in a line size that was
    /// awaited. A pass has its own lines left, then a reading, and for each
    /// smaller line size room for one more pass and the reading behind it.
    pub open spec fn budget(self) -> int {
        match self.phase {
            Phase::Single { .. } => 1,
            Phase::Query { limit } => 1 + line_sizes_below(limit as int) * (self.lines_bound() + 1),
            Phase::Pass { size, next } => line_count(next as int, self.end, size as int) + 1
                + line_sizes_below(size as int) * (self.lines_bound() + 1),
            Phase::Finished => 0,
        }
    }

    /// What holds of every state that a sweep reaches: the phase fits the
    /// range, and the addresses handed out are exactly those of the passes
    /// made so far.
    pub open spec fn wf(self) -> bool {
        let n = self.observed.len() as int;
        &&& 0 <= self.start <= self.end <= usize::MAX
        &&& forall|i: int| 0 <= i < n ==> is_line_size(#[trigger] self.observed[i])
        &&& match self.phase {
            Phase::Single { address } => {
                &&& self.end - self.start <= 4
                &&& address == line_start(self.start, 4)
                &&& n == 0
                &&& self.invalidated == Seq::<int>::empty()
            },
            Phase::Query { limit } => {
                &&& self.end - self.start > 4
                &&& strictly_decreasing(self.observed)
                &&& limit == if n == 0 {
                    NO_PASS_YET as int
                } else {
                    self.observed.last()
                }
                &&& self.invalidated == swept(self.start, self.end, self.observed)
            },
            Phase::Pass { size, next } => {
                &&& self.end - self.start > 4
                &&& n > 0
                &&& strictly_decreasing(self.observed)
                &&& size == self.observed.last()
                &&& next % size == 0
                &&& line_start(self.start, size as int) <= next < self.end
                &&& self.invalidated == swept(self.start, self.end, self.observed.drop_last())
                    + line_addresses(self.start, next as int, size as int)
            },
            Phase::Finished => if self.end - self.start <= 4 {
                &&& n == 0
                &&& self.invalidated == seq![line_start(self.start, 4)]
            } else {
                &&& n >= 2
                &&& strictly_decreasing(self.observed.drop_last())
                &&& self.observed[n - 1] >= self.observed[n - 2]
                &&& self.invalidated == swept(self.start, self.end, self.observed.drop_last())
            },
        }
    }
}

/// A sweep of the instruction-cache lines that hold a range of addresses.
///
/// The sweep itself touches no cache. It says what is due next, and takes in
/// what the machine answered:
///
/// * [`next_action`](LineSweep::next_action) hands out the next operation;
/// * after `SweepAction::ReadLineSize` the caller reads the cache-geometry
///   register and reports its value with
///   [`line_size_read`](LineSweep::line_size_read);
/// * after `SweepAction::Finished` nothing is left to do.
///
/// A range of at most four bytes takes one invalidation and no reading of the
/// line size. A longer range is swept line by line, and swept again for as
/// long as the line size that is read after a pass is smaller than the one
/// the pass went by: on a machine whose cores differ, a pass may have run on
/// a core whose lines are longer than those of the core that runs the code.
pub struct LineSweep {
    start: usize,
    end: usize,
    phase: Phase,
    observed: Ghost<Seq<int>>,
    invalidated: Ghost<Seq<int>>,
}

impl View for LineSweep {
    type V = SweepState;

    closed spec fn view(&self) -> SweepState {
        SweepState {
            start: self.start as int,
            end: self.end as int,
            phase: self.phase,
            observed: self.observed@,
            invalidated: self.invalidated@,
        }
    }
}

impl LineSweep {
    #[verifier::type_invariant]
    spec fn well_formed(self) -> bool {
        self@.wf()
    }

    /// Begins the sweep of the `len` bytes from the address `start`.
    pub fn new(start: usize, len: usize) -> (sweep: LineSweep)
        requires
            start + len <= usize::MAX,
        ensures
            sweep@ == SweepState::initial(start, len),
            sweep@.wf(),
    {
        proof {
            lemma_initial_wf(start, len);
        }
        let phase = if len <= 4 {
            Phase::Single { address: align_down(start, 4) }
        } else {
            Phase::Query { limit: NO_PASS_YET }
        };
        LineSweep {
            start,
            end: start + len,
            phase,
            observed: Ghost(Seq::empty()),
            invalidated: Ghost(Seq::empty()),
        }
    }

    /// Whether nothing is left to do.
    pub fn is_finished(&self) -> (finished: bool)
        ensures
            finished == (self@.phase == Phase::Finished),
    {
        match self.phase {
            Phase::Finished => true,
            _ => false,
        }
    }

    /// Hands out the operation that is due, and moves on. While a line size
    /// is awaited, and when the sweep is over, the state stays as it is.
    pub fn next_action(&mut self) -> (action: SweepAction)
        ensures
            action == old(self)@.pending(),
            final(self)@ == old(self)@.advanced(),
            final(self)@.wf(),
    {
        proof {
            use_type_invariant(&*self);
            lemma_advanced_wf(self@);
        }
        match self.phase {
            Phase::Single { address } => {
                *self = LineSweep {
                    start: self.start,
                    end: self.end,
                    phase: Phase::Finished,
                    observed: self.observed,
                    invalidated: Ghost(self.invalidated@.push(address as int)),
                };
                SweepAction::InvalidateLine(address)
            },
            Phase::Query { .. } => SweepAction::ReadLineSize,
            Phase::Pass { size, next } => {
                let phase = if self.end - next > size {
                    Phase::Pass { size, next: next + size }
                } else {
                    Phase::Query { limit: size }
                };
                *self = LineSweep {
                    start: self.start,
                    end: self.end,
                    phase,
                    observed: self.observed,
                    invalidated: Ghost(self.invalidated@.push(next as int)),
                };
                SweepAction::InvalidateLine(next)
            },
            Phase::Finished => SweepAction::Finished,
        }
    }

    /// Takes in the value that was read from the cache-geometry register.
    /// Where no line size is awaited, the value is ignored.
    pub fn line_size_read(&mut self, geometry: usize)
        ensures
            final(self)@ == old(self)@.informed(geometry),
            final(self)@.wf(),
    {
        proof {
            use_type_invariant(&*self);
            lemma_informed_wf(self@, geometry);
        }
        match self.phase {
            Phase::Query { limit } => {
                let size = line_size(geometry);
                let phase = if limit > size {
                    Phase::Pass { size, next: align_down(self.start, size) }
                } else {
                    Phase::Finished
                };
                *self = LineSweep {
                    start: self.start,
                    end: self.end,
                    phase,
                    observed: Ghost(self.observed@.push(size as int)),
                    invalidated: self.invalidated,
                };
            },
            _ => {},
        }
    }

    /// Runs a sweep of the `len` bytes from the address `start` on the
    /// register values in `geometry` in place of a machine: each reading of
    /// the line size is answered with the next of them. Returns the sweep
    /// as it stands at the end, and the addresses that it handed out for
    /// invalidation, in their order.
    ///
    /// The sweep is over at the end, unless it was left waiting for a line
    /// size when all of `geometry` had been read. A sweep that is over has
    /// read at most 17 values. For every line size that it read, it handed
    /// out an address in the line of each byte of the range; for every size
    /// that a pass went by, which is every size read but the last, it handed
    /// out the start of each such line.
    pub fn replay(start: usize, len: usize, geometry: &[usize]) -> (outcome: (LineSweep, Vec<usize>))
        requires
            start + len <= usize::MAX,
        ensures
            outcome.0@.wf(),
            outcome.0@.start == start,
            outcome.0@.end == start + len,
            outcome.1@.map_values(|address: usize| address as int) == outcome.0@.invalidated,
            outcome.0@.observed == geometry@.take(outcome.0@.observed.len() as int).map_values(
                |value: usize| decoded_line_size(value) as int,
            ),
            outcome.0@.observed.len() <= geometry@.len(),
            outcome.0@.observed.len() <= 17,
            outcome.0@.phase == Phase::Finished || (outcome.0@.pending()
                == SweepAction::ReadLineSize && outcome.0@.observed.len() == geometry@.len()),
            outcome.0@.phase == Phase::Finished ==> forall|i: int|
                0 <= i < outcome.0@.observed.len() ==> covers(
                    outcome.0@.invalidated,
                    start as int,
                    start + len,
                    #[trigger] outcome.0@.observed[i],
                ),
            outcome.0@.phase == Phase::Finished ==> forall|i: int, address: int|
                0 <= i < outcome.0@.observed.len() - 1 && start <= address < start + len
                    ==> outcome.0@.invalidated.contains(
                    #[trigger] line_start(address, outcome.0@.observed[i]),
                ),
    {
        let mut sweep = LineSweep::new(start, len);
        let mut addresses: Vec<usize> = Vec::new();
        let mut read: usize = 0;
        let mut starved = false;
        assert(addresses@.map_values(|address: usize| address as int) =~= sweep@.invalidated);
        assert(sweep@.observed =~= geometry@.take(0).map_values(
            |value: usize| decoded_line_size(value) as int,
        ));
        while !sweep.is_finished() && !starved
            invariant
                sweep@.wf(),
                sweep@.start == start,
                sweep@.end == start + len,
                read == sweep@.observed.len(),
                read <= geometry@.len(),
                addresses@.map_values(|address: usize| address as int) == sweep@.invalidated,
                sweep@.observed == geometry@.take(read as int).map_values(
                    |value: usize| decoded_line_size(value) as int,
                ),
                starved ==> sweep@.pending() == SweepAction::ReadLineSize && read
                    == geometry@.len(),
            decreases
                    sweep@.budget() + if starved {
                        0int
                    } else {
                        1int
                    },
        {
            let ghost before = sweep@;
            match sweep.next_action() {
                SweepAction::InvalidateLine(address) => {
                    proof {
                        lemma_steps_spend_budget(before, 0);
                        assert(addresses@.push(address).map_values(
                            |address: usize| address as int,
                        ) =~= before.invalidated.push(address as int));
                    }
                    addresses.push(address);
                },
                SweepAction::ReadLineSize => {
                    if read < geometry.len() {
                        let value = geometry[read];
                        proof {
                            lemma_steps_spend_budget(before, value);
                            assert(geometry@.take(read + 1).map_values(
                                |value: usize| decoded_line_size(value) as int,
                            ) =~= before.observed.push(decoded_line_size(value) as int));
                        }
                        sweep.line_size_read(value);
                        read = read + 1;
                    } else {
                        proof {
                            lemma_steps_spend_budget(before, 0);
                        }
                        starved = true;
                    }
                },
                SweepAction::Finished => {},
            }
            proof {
                lemma_steps_spend_budget(sweep@, 0);
            }
        }
        proof {
            let state = sweep@;
            lemma_rounds_bounded(state);
            if state.phase == Phase::Finished {
                assert forall|i: int| 0 <= i < state.observed.len() implies covers(
                    state.invalidated,
                    start as int,
                    start + len,
                    #[trigger] state.observed[i],
                ) by {
                    lemma_finished_sweep_covers(state, i);
                }
                assert forall|i: int, address: int|
                    0 <= i < state.observed.len() - 1 && start <= address < start
                        + len implies state.invalidated.contains(
                    #[trigger] line_start(address, state.observed[i]),
                ) by {
                    lemma_finished_sweep_holds_line_starts(state, i, address);
                }
            }
        }
        (sweep, addresses)
    }
}

/// A sweep begins in a state that is well formed.
pub proof fn lemma_initial_wf(start: usize, len: usize)
    requires
        start + len <= usize::MAX,
    ensures
        SweepState::initial(start, len).wf(),
{
    lemma_line_start(start as int, 4);
}

/// Handing out the pending action keeps a state well formed.
pub proof fn lemma_advanced_wf(state: SweepState)
    requires
        state.wf(),
    ensures
        state.advanced().wf(),
{
    match state.phase {
        Phase::Single { address } => {
            assert(state.advanced().invalidated =~= seq![line_start(state.start, 4)]);
        },
        Phase::Pass { size, next } => {
            let passed = swept(state.start, state.end, state.observed.drop_last());
            let after = state.advanced();
            if next + size < state.end {
                lemma_pass_step(state.start, next as int, next + size, size as int);
                vstd::arithmetic::div_mod::lemma_mod_adds(next as int, size as int, size as int);
                lemma_line_start(state.start, size as int);
                assert(after.invalidated =~= passed + line_addresses(
                    state.start,
                    next + size,
                    size as int,
                ));
            } else {
                lemma_pass_step(state.start, next as int, state.end, size as int);
                assert(after.invalidated =~= passed + line_addresses(
                    state.start,
                    state.end,
                    size as int,
                ));
            }
        },
        _ => {},
    }
}

/// Taking in a value of the register keeps a state well formed.
pub proof fn lemma_informed_wf(state: SweepState, geometry: usize)
    requires
        state.wf(),
    ensures
        state.informed(geometry).wf(),
{
    lemma_decoded_line_size(geometry);
    match state.phase {
        Phase::Query { limit } => {
            let size = decoded_line_size(geometry);
            let after = state.informed(geometry);
            assert(after.observed.drop_last() =~= state.observed);
            if limit > size {
                lemma_line_start(state.start, size as int);
                assert(line_addresses(state.start, line_start(state.start, size as int), size as int)
                    =~= Seq::<int>::empty());
                assert(after.invalidated =~= swept(state.start, state.end, state.observed)
                    + line_addresses(
                    state.start,
                    line_start(state.start, size as int),
                    size as int,
                ));
            }
        },
        _ => {},
    }
}

/// Passes by a number of sizes hit, for each of the sizes, the line of every
/// byte of the range.
proof fn lemma_swept_covers(start: int, end: int, sizes: Seq<int>, i: int)
    requires
        forall|j: int| 0 <= j < sizes.len() ==> is_line_size(#[trigger] sizes[j]),
        0 <= i < sizes.len(),
    ensures
        covers(swept(start, end, sizes), start, end, sizes[i]),
    decreases sizes.len(),
{
    let earlier = swept(start, end, sizes.drop_last());
    let last = line_addresses(start, end, sizes.last());
    if i == sizes.len() - 1 {
        lemma_pass_covers(start, end, sizes.last());
        lemma_covers_within(earlier, last, Seq::empty(), start, end, sizes[i]);
        assert(earlier + last + Seq::<int>::empty() =~= earlier + last);
    } else {
        lemma_swept_covers(start, end, sizes.drop_last(), i);
        lemma_covers_within(Seq::empty(), earlier, last, start, end, sizes[i]);
        assert(Seq::<int>::empty() + earlier + last =~= earlier + last);
    }
}

/// Passes by a number of sizes hold, for each of the sizes, the start of
/// every line that holds a byte of the range.
proof fn lemma_swept_holds(start: int, end: int, sizes: Seq<int>, i: int, k: int)
    requires
        0 <= i < sizes.len(),
        0 <= k < line_count(start, end, sizes[i]),
    ensures
        swept(start, end, sizes).contains(line_addresses(start, end, sizes[i])[k]),
    decreases sizes.len(),
{
    let earlier = swept(start, end, sizes.drop_last());
    let last = line_addresses(start, end, sizes.last());
    let all = swept(start, end, sizes);
    if i == sizes.len() - 1 {
        assert(all[earlier.len() + k] == last[k]);
    } else {
        lemma_swept_holds(start, end, sizes.drop_last(), i, k);
        let address = line_addresses(start, end, sizes[i])[k];
        let at = choose|at: int| 0 <= at < earlier.len() && earlier[at] == address;
        assert(all[at] == address);
    }
}

/// When a sweep is over, each pass was made in full: for every line size
/// read but the last, which no pass went by, the start of each line of that
/// size that holds a byte of the range was handed out for invalidation.
pub proof fn lemma_finished_sweep_holds_passes(state: SweepState, i: int, k: int)
    requires
        state.wf(),
        state.phase == Phase::Finished,
        0 <= i < state.observed.len() - 1,
        0 <= k < line_count(state.start, state.end, state.observed[i]),
    ensures
        state.invalidated.contains(line_addresses(state.start, state.end, state.observed[i])[k]),
{
    lemma_swept_holds(state.start, state.end, state.observed.drop_last(), i, k);
}

/// When a sweep is over, the start of the line of every byte of the range
/// was handed out for invalidation, for every line size that a pass went by:
/// all sizes read but the last.
pub proof fn lemma_finished_sweep_holds_line_starts(state: SweepState, i: int, address: int)
    requires
        state.wf(),
        state.phase == Phase::Finished,
        0 <= i < state.observed.len() - 1,
        state.start <= address < state.end,
    ensures
        state.invalidated.contains(line_start(address, state.observed[i])),
{
    let size = state.observed[i];
    assert(is_line_size(size));
    let k = address / size - state.start / size;
    vstd::arithmetic::div_mod::lemma_div_is_ordered(state.start, address, size);
    vstd::arithmetic::div_mod::lemma_div_is_ordered(address, state.end - 1, size);
    lemma_line_start(address, size);
    assert(line_addresses(state.start, state.end, size)[k] == line_start(address, size));
    lemma_finished_sweep_holds_passes(state, i, k);
}

/// When a sweep is over, what was handed out for invalidation is known to
/// the last address. For a range of at most four bytes it is the start of
/// the word that holds the first byte. For a longer range it is one full
/// pass over the range for each line size read but the last, in the order
/// in which the sizes were read; each of these is smaller than the one
/// before it, and the last size read is not smaller than the one before it.
pub proof fn lemma_finished_sweep_is_its_passes(state: SweepState)
    requires
        state.wf(),
        state.phase == Phase::Finished,
    ensures
        state.end - state.start <= 4 ==> state.observed.len() == 0 && state.invalidated
            == seq![line_start(state.start, 4)],
        state.end - state.start > 4 ==> {
            let n = state.observed.len() as int;
            &&& 2 <= n <= 17
            &&& state.invalidated == swept(state.start, state.end, state.observed.drop_last())
            &&& strictly_decreasing(state.observed.drop_last())
            &&& state.observed[n - 1] >= state.observed[n - 2]
        },
{
    lemma_rounds_bounded(state);
}

/// When a sweep is over, every line that any of the line sizes read on the
/// way implies for a byte of the range has been invalidated: for each size
/// read and each byte of the range, an address was handed out for
/// invalidation that lies in the byte's line of that size. This holds of the
/// last size read as well, which no pass went by.
pub proof fn lemma_finished_sweep_covers(state: SweepState, i: int)
    requires
        state.wf(),
        state.phase == Phase::Finished,
        0 <= i < state.observed.len(),
    ensures
        covers(state.invalidated, state.start, state.end, state.observed[i]),
{
    let n = state.observed.len() as int;
    let passes = state.observed.drop_last();
    if i < n - 1 {
        lemma_swept_covers(state.start, state.end, passes, i);
    } else {
        lemma_swept_covers(state.start, state.end, passes, n - 2);
        lemma_covers_coarser(
            state.invalidated,
            state.start,
            state.end,
            state.observed[n - 2],
            state.observed[n - 1],
        );
    }
}

/// In a run of line sizes that fall, each has as many larger sizes above it
/// as stand before it.
proof fn lemma_falling_sizes(sizes: Seq<int>, i: int)
    requires
        forall|j: int| 0 <= j < sizes.len() ==> is_line_size(#[trigger] sizes[j]),
        strictly_decreasing(sizes),
        0 <= i < sizes.len(),
    ensures
        line_sizes_below(sizes[i]) + i <= 15,
    decreases i,
{
    if i > 0 {
        lemma_falling_sizes(sizes, i - 1);
        assert(sizes[i - 1] > sizes[i]);
    }
}

/// A sweep reads the line size at most 17 times and makes at most 16
/// passes: each pass goes by a smaller size than the pass before it, there
/// are 16 sizes, and the reading that ends the sweep starts no pass.
pub proof fn lemma_rounds_bounded(state: SweepState)
    requires
        state.wf(),
    ensures
        state.observed.len() <= 17,
        state.phase != Phase::Finished ==> state.observed.len() <= 16,
{
    let n = state.observed.len() as int;
    if state.phase == Phase::Finished {
        if n >= 2 {
            lemma_falling_sizes(state.observed.drop_last(), n - 2);
        }
    } else if n > 0 {
        lemma_falling_sizes(state.observed, n - 1);
    }
}

/// A sweep has a budget of steps that no step leaves as it was: handing out
/// an invalidation takes from it, and so does taking in a line size that
/// was awaited. The budget is never negative and is used up exactly when
/// the sweep is over, so every sweep ends, after no more steps than the
/// budget it began with.
pub proof fn lemma_steps_spend_budget(state: SweepState, geometry: usize)
    requires
        state.wf(),
    ensures
        state.budget() >= 0,
        state.budget() == 0 <==> state.phase == Phase::Finished,
        state.pending() is InvalidateLine ==> state.advanced().budget() < state.budget(),
        state.pending() == SweepAction::ReadLineSize ==> state.informed(geometry).budget()
            < state.budget(),
        state.budget() <= 1 + 16 * (state.lines_bound() + 1),
{
    let bound = state.lines_bound();
    assert(bound >= 2);
    match state.phase {
        Phase::Query { limit } => {
            let size = decoded_line_size(geometry);
            lemma_decoded_line_size(geometry);
            let below = line_sizes_below(limit as int);
            assert(0 <= below * (bound + 1) <= 16 * (bound + 1)) by (nonlinear_arith)
                requires
                    0 <= below <= 16,
                    bound >= 0,
            ;
            if limit > size {
                let first = line_start(state.start, size as int);
                lemma_line_start(state.start, size as int);
                lemma_lines_left(state.start, first, state.end, size as int);
                let fewer = line_sizes_below(size as int);
                assert(fewer + 1 <= below);
                assert((fewer + 1) * (bound + 1) <= below * (bound + 1)) by (nonlinear_arith)
                    requires
                        fewer + 1 <= below,
                        bound >= 0,
                ;
                assert((fewer + 1) * (bound + 1) == fewer * (bound + 1) + bound + 1)
                    by (nonlinear_arith);
            }
        },
        Phase::Pass { size, next } => {
            lemma_lines_left(state.start, next as int, state.end, size as int);
            let below = line_sizes_below(size as int);
            assert(0 <= below * (bound + 1) <= 15 * (bound + 1)) by (nonlinear_arith)
                requires
                    0 <= below <= 15,
                    bound >= 0,
            ;
        },
        _ => {},
    }
}

} // verus!
