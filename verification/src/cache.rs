//! The precompute cache: one slot for the result of a background inference
//! run on the current input. Every submission of a new input takes a new
//! generation number; a run carries the number it was started under, and a
//! result that arrives under an old number is dropped.

use vstd::prelude::*;
use crate::artifact::{ArtifactView, NpyData};
use crate::orchestrator::InferenceError;

verus! {

/// What the slot holds.
pub enum SlotView {
    /// No result, no background run.
    Empty,
    /// A background run on the current input is under way.
    Pending,
    /// The result for the current input.
    Ready(ArtifactView),
}

/// What the caller of `consume_or_trigger` is to do.
pub enum ConsumeView {
    Cached(ArtifactView),
    Await,
    Trigger(ArtifactView),
}

/// Mathematical model of the cache.
pub struct CacheView {
    pub generation: u64,
    pub input: ArtifactView,
    pub slot: SlotView,
}

impl CacheView {
    /// A new input: the next generation, an empty slot. The generation
    /// number stops at its largest value.
    pub open spec fn submit(self, input: ArtifactView) -> CacheView {
        CacheView {
            generation: if self.generation < u64::MAX {
                (self.generation + 1) as u64
            } else {
                self.generation
            },
            input,
            slot: SlotView::Empty,
        }
    }

    /// A background run may start: the slot is empty, and the generation
    /// number is not the largest one, under which later inputs could not be
    /// told apart.
    pub open spec fn can_begin(self) -> bool {
        self.slot is Empty && self.generation < u64::MAX
    }

    /// The cache after `begin_precompute`.
    pub open spec fn begin_precompute(self) -> CacheView {
        if self.can_begin() {
            CacheView { slot: SlotView::Pending, ..self }
        } else {
            self
        }
    }

    /// The cache after a background run that was started under `generation`
    /// has ended with `outcome` (`None` for a failure).
    pub open spec fn complete(self, generation: u64, outcome: Option<ArtifactView>) -> CacheView {
        if generation != self.generation {
            self
        } else {
            match (self.slot, outcome) {
                (SlotView::Pending, Some(result)) => CacheView {
                    slot: SlotView::Ready(result),
                    ..self
                },
                (SlotView::Ready(_), Some(result)) => CacheView {
                    slot: SlotView::Ready(result),
                    ..self
                },
                (SlotView::Pending, None) => CacheView { slot: SlotView::Empty, ..self },
                _ => self,
            }
        }
    }

    /// What `consume_or_trigger` answers.
    pub open spec fn consume(self) -> ConsumeView {
        match self.slot {
            SlotView::Ready(result) => ConsumeView::Cached(result),
            SlotView::Pending => ConsumeView::Await,
            SlotView::Empty => ConsumeView::Trigger(self.input),
        }
    }
}

/// One step in the life of a cache.
pub enum CacheStep {
    Submit(ArtifactView),
    BeginPrecompute,
    Complete(u64, Option<ArtifactView>),
}

impl CacheView {
    /// The cache after one step.
    pub open spec fn step(self, step: CacheStep) -> CacheView {
        match step {
            CacheStep::Submit(input) => self.submit(input),
            CacheStep::BeginPrecompute => self.begin_precompute(),
            CacheStep::Complete(generation, outcome) => self.complete(generation, outcome),
        }
    }

    /// The cache after a sequence of steps.
    pub open spec fn run(self, steps: Seq<CacheStep>) -> CacheView
        decreases steps.len(),
    {
        if steps.len() == 0 {
            self
        } else {
            self.run(steps.drop_last()).step(steps.last())
        }
    }
}

/// What the slot holds.
pub enum Slot {
    Empty,
    Pending,
    Ready(NpyData),
}

impl View for Slot {
    type V = SlotView;

    open spec fn view(&self) -> SlotView {
        match self {
            Slot::Empty => SlotView::Empty,
            Slot::Pending => SlotView::Pending,
            Slot::Ready(result) => SlotView::Ready(result@),
        }
    }
}

/// What a background run is started with.
#[derive(Debug, PartialEq, Eq)]
pub struct Ticket {
    /// The generation under which the run was started; `complete` takes it
    /// back.
    pub generation: u64,
    /// The input of the run.
    pub input: NpyData,
}

/// What the caller of `consume_or_trigger` is to do.
#[derive(Debug, PartialEq, Eq)]
pub enum Consume {
    /// The result for the current input is here; no run is needed.
    Cached(NpyData),
    /// A background run on the current input is under way: wait until it has
    /// been reported with `complete`, then ask again.
    Await,
    /// Run inference on this input now and hand the outcome to the user; it
    /// is not stored.
    Trigger(NpyData),
}

impl View for Consume {
    type V = ConsumeView;

    open spec fn view(&self) -> ConsumeView {
        match self {
            Consume::Cached(result) => ConsumeView::Cached(result@),
            Consume::Await => ConsumeView::Await,
            Consume::Trigger(input) => ConsumeView::Trigger(input@),
        }
    }
}

/// The precompute cache of one editing session.
pub struct PrecomputeCache {
    generation: u64,
    input: NpyData,
    slot: Slot,
}

impl View for PrecomputeCache {
    type V = CacheView;

    closed spec fn view(&self) -> CacheView {
        CacheView { generation: self.generation, input: self.input@, slot: self.slot@ }
    }
}

/// The model of an outcome: the result, or nothing for a failure.
pub open spec fn outcome_view(outcome: Result<NpyData, InferenceError>) -> Option<ArtifactView> {
    match outcome {
        Ok(result) => Some(result@),
        Err(_) => None,
    }
}

impl PrecomputeCache {
    /// The cache of a session that starts with `input`: generation zero, an
    /// empty slot.
    pub fn new(input: NpyData) -> (r: PrecomputeCache)
        ensures
            r@ == (CacheView { generation: 0, input: input@, slot: SlotView::Empty }),
    {
        PrecomputeCache { generation: 0, input, slot: Slot::Empty }
    }

    /// The cache of a session that goes on at `generation` with `input`.
    pub fn starting_at(generation: u64, input: NpyData) -> (r: PrecomputeCache)
        ensures
            r@ == (CacheView { generation, input: input@, slot: SlotView::Empty }),
    {
        PrecomputeCache { generation, input, slot: Slot::Empty }
    }

    /// The current generation.
    pub fn generation(&self) -> (r: u64)
        ensures
            r == self@.generation,
    {
        self.generation
    }

    /// Whether a background run on the current input is under way.
    pub fn in_flight(&self) -> (r: bool)
        ensures
            r == (self@.slot is Pending),
    {
        match self.slot {
            Slot::Pending => true,
            _ => false,
        }
    }

    /// Whether the result for the current input is here.
    pub fn is_ready(&self) -> (r: bool)
        ensures
            r == (self@.slot is Ready),
    {
        match self.slot {
            Slot::Ready(_) => true,
            _ => false,
        }
    }

    /// Takes a new input. Whatever the slot held is discarded, and a run that
    /// is still under way for an earlier input will find its generation out
    /// of date.
    pub fn submit(&mut self, input: NpyData)
        ensures
            final(self)@ == old(self)@.submit(input@),
    {
        if self.generation < u64::MAX {
            self.generation = self.generation + 1;
        }
        self.input = input;
        self.slot = Slot::Empty;
    }

    /// Marks the slot as pending and returns what a background run is to be
    /// started with, or nothing where no run is to be started: the slot is
    /// not empty, or the generation numbers are used up.
    pub fn begin_precompute(&mut self) -> (ticket: Option<Ticket>)
        ensures
            final(self)@ == old(self)@.begin_precompute(),
            old(self)@.can_begin() ==> (ticket matches Some(t) && t.generation == old(
                self,
            )@.generation && t.input@ == old(self)@.input),
            !old(self)@.can_begin() ==> ticket.is_none(),
    {
        let empty = match self.slot {
            Slot::Empty => true,
            _ => false,
        };
        if empty && self.generation < u64::MAX {
            self.slot = Slot::Pending;
            Some(Ticket { generation: self.generation, input: self.input.duplicate() })
        } else {
            None
        }
    }

    /// Takes the outcome of a background run that was started under
    /// `generation`. Under the current generation a result fills the slot,
    /// and a failure empties a pending slot without a trace. Under any other
    /// generation the outcome is dropped. The answer says whether the slot
    /// changed.
    pub fn complete(
        &mut self,
        generation: u64,
        outcome: Result<NpyData, InferenceError>,
    ) -> (changed: bool)
        ensures
            final(self)@ == old(self)@.complete(generation, outcome_view(outcome)),
            changed == (generation == old(self)@.generation && (old(self)@.slot is Pending || (old(
                self,
            )@.slot is Ready && outcome is Ok))),
    {
        if generation != self.generation {
            return false;
        }
        let pending = self.in_flight();
        let ready = self.is_ready();
        match outcome {
            Ok(result) => {
                if pending || ready {
                    self.slot = Slot::Ready(result);
                    true
                } else {
                    false
                }
            },
            Err(_) => {
                if pending {
                    self.slot = Slot::Empty;
                    true
                } else {
                    false
                }
            },
        }
    }

    /// Answers the user's request for the result: the cached result where
    /// there is one, else the order to wait for the run that is under way,
    /// else the order to run inference on the current input now. The cache
    /// does not change.
    pub fn consume_or_trigger(&self) -> (r: Consume)
        ensures
            r@ == self@.consume(),
    {
        match &self.slot {
            Slot::Ready(result) => Consume::Cached(result.duplicate()),
            Slot::Pending => Consume::Await,
            Slot::Empty => Consume::Trigger(self.input.duplicate()),
        }
    }
}

/// A result that arrives after its input was superseded never shows: with a
/// run started for input `a` and input `b` submitted after that, the outcome
/// of the run leaves the cache as the submission of `b` left it, empty, and
/// the next request is answered with the order to run inference on `b`.
pub proof fn lemma_stale_result_is_dropped(
    c: CacheView,
    a: ArtifactView,
    b: ArtifactView,
    outcome: Option<ArtifactView>,
)
    requires
        c.submit(a).can_begin(),
    ensures
        ({
            let tag = c.submit(a).generation;
            let superseded = c.submit(a).begin_precompute().submit(b);
            let after = superseded.complete(tag, outcome);
            &&& after == superseded
            &&& after.slot is Empty
            &&& after.consume() == ConsumeView::Trigger(b)
        }),
{
}

/// A result that arrives under the current generation is served from the
/// cache: after a run started for input `x` has ended with `result`, every
/// request is answered with `result` and none with an order to run
/// inference.
pub proof fn lemma_fast_path(c: CacheView, x: ArtifactView, result: ArtifactView)
    requires
        c.submit(x).can_begin(),
    ensures
        ({
            let tag = c.submit(x).generation;
            let done = c.submit(x).begin_precompute().complete(tag, Some(result));
            &&& done.slot == SlotView::Ready(result)
            &&& done.consume() == ConsumeView::Cached(result)
        }),
{
}

/// A background run that fails leaves no trace: the slot is empty again, and
/// the next request is answered with the order to run inference anew.
pub proof fn lemma_failed_precompute_resets(c: CacheView, x: ArtifactView)
    requires
        c.submit(x).can_begin(),
    ensures
        ({
            let tag = c.submit(x).generation;
            let done = c.submit(x).begin_precompute().complete(tag, None);
            &&& done == c.submit(x)
            &&& done.consume() == ConsumeView::Trigger(x)
        }),
{
}

/// No outcome that is reported under another generation than the current one
/// changes the cache, whatever state it is in.
pub proof fn lemma_other_generation_changes_nothing(
    c: CacheView,
    generation: u64,
    outcome: Option<ArtifactView>,
)
    requires
        generation != c.generation,
    ensures
        c.complete(generation, outcome) == c,
{
}

/// At most one background run is pending: while the slot is pending or
/// ready, `begin_precompute` starts nothing.
pub proof fn lemma_single_pending(c: CacheView)
    ensures
        !c.begin_precompute().can_begin(),
        c.begin_precompute().begin_precompute() == c.begin_precompute(),
{
}

/// Whatever happens to a cache, its generation number does not go back.
pub proof fn lemma_generation_never_goes_back(c: CacheView, steps: Seq<CacheStep>)
    ensures
        c.run(steps).generation >= c.generation,
    decreases steps.len(),
{
    if steps.len() > 0 {
        lemma_generation_never_goes_back(c, steps.drop_last());
    }
}

/// A superseded run stays superseded: once a new input has been submitted
/// after a run was started, the outcome of that run changes nothing, at
/// whatever later time it arrives and whatever happened in between.
pub proof fn lemma_superseded_for_good(
    c: CacheView,
    a: ArtifactView,
    b: ArtifactView,
    steps: Seq<CacheStep>,
    outcome: Option<ArtifactView>,
)
    requires
        c.submit(a).can_begin(),
    ensures
        ({
            let tag = c.submit(a).generation;
            let later = c.submit(a).begin_precompute().submit(b).run(steps);
            later.complete(tag, outcome) == later
        }),
{
    lemma_generation_never_goes_back(c.submit(a).begin_precompute().submit(b), steps);
}

/// The step reports a result under the generation `generation`.
pub open spec fn reports_result(step: CacheStep, generation: u64) -> bool {
    step matches CacheStep::Complete(tag, Some(_)) && tag == generation
}

/// A result in the slot belongs to the current input: whatever happened
/// before, after a submission the slot holds a result only if one was
/// reported under the generation of that submission.
pub proof fn lemma_result_is_current(c: CacheView, input: ArtifactView, steps: Seq<CacheStep>)
    requires
        forall|k: int|
            0 <= k < steps.len() ==> !reports_result(
                #[trigger] steps[k],
                c.submit(input).generation,
            ),
        forall|k: int| 0 <= k < steps.len() ==> !(#[trigger] steps[k] is Submit),
    ensures
        !(c.submit(input).run(steps).slot is Ready),
        c.submit(input).run(steps).generation == c.submit(input).generation,
        c.submit(input).run(steps).input == input,
    decreases steps.len(),
{
    if steps.len() > 0 {
        let shorter = steps.drop_last();
        assert forall|k: int| 0 <= k < shorter.len() implies !reports_result(
            #[trigger] shorter[k],
            c.submit(input).generation,
        ) by {
            assert(shorter[k] == steps[k]);
        }
        assert forall|k: int| 0 <= k < shorter.len() implies !(#[trigger] shorter[k]
            is Submit) by {
            assert(shorter[k] == steps[k]);
        }
        lemma_result_is_current(c, input, shorter);
        assert(steps.last() == steps[steps.len() - 1]);
    }
}

} // verus!
