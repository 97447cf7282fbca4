//! Frame orchestration core: in-flight submission tracking and the per-tick
//! synchronization discipline.
//!
//! Each logical frame the orchestrator first reclaims the submissions whose
//! GPU completion signal has fired (a non-blocking poll recorded through
//! [`FrameOrchestrator::mark_completed`], never a timer), then books one new
//! submission against the swap-chain image the presentation surface handed
//! out. The GPU work itself — acquisition, command recording, queue
//! submission, presentation — happens outside; the orchestrator decides, and
//! its decisions carry the resource-lifetime guarantees: nothing is removed
//! from the in-flight collection while its work may still be executing, and
//! submission identifiers grow in tick order, so presents follow their
//! submissions in order.

use vstd::prelude::*;
use vstd::seq_lib::*;
use vstd::set_lib::lemma_int_range;
use vstd::set_lib::set_int_range;
use vstd::set_lib::lemma_len_subset;

verus! {

/// A fatal frame-loop condition. None of these is retried: each propagates to
/// the caller, which terminates the loop.
#[derive(Clone, Copy, Debug, PartialEq, Eq, Structural)]
pub enum FrameError {
    /// Swap-chain image acquisition did not complete within the bounded wait:
    /// the presentation engine is stuck.
    AcquireTimeout,
    /// The graphics device misbehaved (an image index outside the swap
    /// chain): device lost or equivalent.
    Device,
    /// Startup handed the orchestrator fewer swap-chain images than the
    /// minimum of two.
    Configuration,
}

/// What the presentation surface answered when asked for the next image
/// within the bounded wait.
#[derive(Clone, Copy, Debug, PartialEq, Eq, Structural)]
pub enum AcquireOutcome {
    /// The index of the next image slot to render into.
    Image { index: usize },
    /// The bounded wait elapsed without an image.
    Timeout,
}

/// What one successful tick decided: which image slot to render into and
/// present, and the identifier booked for the submission.
#[derive(Clone, Copy, Debug, PartialEq, Eq, Structural)]
pub struct TickOutcome {
    pub image_index: usize,
    pub submission_id: u64,
}

/// Mathematical value of one in-flight submission record.
pub ghost struct SubmissionModel {
    pub id: int,
    pub image: int,
    pub completed: bool,
}

/// One previously submitted unit of GPU work: the submission's identifier,
/// the swap-chain image it renders into, and whether its completion signal
/// has been observed.
#[derive(Clone, Copy)]
pub struct InFlightSubmission {
    id: u64,
    image_index: usize,
    completed: bool,
}

impl View for InFlightSubmission {
    type V = SubmissionModel;

    closed spec fn view(&self) -> SubmissionModel {
        SubmissionModel {
            id: self.id as int,
            image: self.image_index as int,
            completed: self.completed,
        }
    }
}

impl InFlightSubmission {
    /// The non-blocking completion check: reads the recorded completion
    /// signal and changes nothing, so checking twice answers the same both
    /// times.
    pub fn is_complete(&self) -> (complete: bool)
        ensures
            complete == self@.completed,
    {
        self.completed
    }

    pub fn id(&self) -> (id: u64)
        ensures
            id == self@.id,
    {
        self.id
    }

    pub fn image_index(&self) -> (index: usize)
        ensures
            index == self@.image,
    {
        self.image_index
    }
}

/// Mathematical state of the orchestrator.
pub ghost struct OrchestratorModel {
    pub num_images: int,
    pub in_flight: Seq<SubmissionModel>,
    pub next_id: int,
}

/// The mathematical values of a sequence of in-flight records.
pub open spec fn views_of(s: Seq<InFlightSubmission>) -> Seq<SubmissionModel> {
    s.map_values(|e: InFlightSubmission| e@)
}

/// The in-flight collection after a reclaim pass: exactly the submissions
/// whose completion signal has not fired are retained, in order.
pub open spec fn reclaimed(s: Seq<SubmissionModel>) -> Seq<SubmissionModel> {
    s.filter(|e: SubmissionModel| !e.completed)
}

/// The in-flight collection after the completion signal of submission `id`
/// is observed: that record is marked complete, everything else is untouched.
pub open spec fn marked_completed(s: Seq<SubmissionModel>, id: int) -> Seq<SubmissionModel> {
    s.map_values(
        |e: SubmissionModel|
            if e.id == id {
                SubmissionModel { id: e.id, image: e.image, completed: true }
            } else {
                e
            },
    )
}

/// `r` holds of every pair of entries, in collection order.
pub open spec fn pairwise(
    s: Seq<SubmissionModel>,
    r: spec_fn(SubmissionModel, SubmissionModel) -> bool,
) -> bool {
    forall|i: int, j: int| 0 <= i < j < s.len() ==> r(#[trigger] s[i], #[trigger] s[j])
}

/// No two in-flight submissions render into the same swap-chain image.
pub open spec fn distinct_images(s: Seq<SubmissionModel>) -> bool {
    pairwise(s, |a: SubmissionModel, b: SubmissionModel| a.image != b.image)
}

/// Submission identifiers grow in collection order: the collection lists
/// submissions in the order the ticks issued them.
pub open spec fn ids_increasing(s: Seq<SubmissionModel>) -> bool {
    pairwise(s, |a: SubmissionModel, b: SubmissionModel| a.id < b.id)
}

/// The orchestrator's invariant: at least two swap-chain images, every
/// in-flight record within the swap chain, and identifiers below the next
/// free one and growing in tick order.
pub open spec fn orchestrator_inv(m: OrchestratorModel) -> bool {
    &&& m.num_images >= 2
    &&& forall|i: int|
        0 <= i < m.in_flight.len() ==> 0 <= (#[trigger] m.in_flight[i]).image < m.num_images
    &&& forall|i: int| 0 <= i < m.in_flight.len() ==> 0 <= (#[trigger] m.in_flight[i]).id < m.next_id
    &&& ids_increasing(m.in_flight)
    &&& 0 <= m.next_id
}

/// Drives one frame of work per [`FrameOrchestrator::tick`]: reclaims retired
/// submissions, then books new GPU work against the acquired image.
pub struct FrameOrchestrator {
    num_images: usize,
    in_flight: Vec<InFlightSubmission>,
    next_id: u64,
}

impl View for FrameOrchestrator {
    type V = OrchestratorModel;

    closed spec fn view(&self) -> OrchestratorModel {
        OrchestratorModel {
            num_images: self.num_images as int,
            in_flight: views_of(self.in_flight@),
            next_id: self.next_id as int,
        }
    }
}

impl FrameOrchestrator {
    /// Set up over a swap chain of `num_images` image slots, queried at
    /// startup. A swap chain needs at least two images; fewer is a startup
    /// configuration failure.
    pub fn new(num_images: usize) -> (r: Result<Self, FrameError>)
        ensures
            num_images < 2 ==> r == Err::<Self, FrameError>(FrameError::Configuration),
            num_images >= 2 ==> (r matches Ok(o) && o@ == (OrchestratorModel {
                num_images: num_images as int,
                in_flight: Seq::empty(),
                next_id: 0,
            }) && orchestrator_inv(o@)),
    {
        if num_images < 2 {
            Err(FrameError::Configuration)
        } else {
            let o = FrameOrchestrator { num_images, in_flight: Vec::new(), next_id: 0 };
            proof {
                assert(o@.in_flight =~= Seq::<SubmissionModel>::empty());
            }
            Ok(o)
        }
    }

    pub fn num_images(&self) -> (n: usize)
        ensures
            n == self@.num_images,
    {
        self.num_images
    }

    /// How many submissions are currently tracked as in flight.
    pub fn in_flight_count(&self) -> (n: usize)
        ensures
            n == self@.in_flight.len(),
    {
        self.in_flight.len()
    }

    /// The identifier the next booked submission will get. Identifiers are
    /// never reused, so a caller can see how close the supply is to running
    /// out.
    pub fn next_submission_id(&self) -> (id: u64)
        ensures
            id == self@.next_id,
    {
        self.next_id
    }

    /// The in-flight record at position `i` (submissions stand in tick
    /// order), or `None` past the end of the collection.
    pub fn submission_at(&self, i: usize) -> (s: Option<InFlightSubmission>)
        ensures
            match s {
                Some(e) => i < self@.in_flight.len() && e@ == self@.in_flight[i as int],
                None => i >= self@.in_flight.len(),
            },
    {
        if i < self.in_flight.len() {
            Some(self.in_flight[i])
        } else {
            None
        }
    }

    /// Record that the completion signal of submission `id` has fired (the
    /// caller's non-blocking poll observed it). The record stays in the
    /// collection — only the next reclaim pass, never this observation,
    /// frees it.
    pub fn mark_completed(&mut self, id: u64)
        ensures
            final(self)@.in_flight == marked_completed(old(self)@.in_flight, id as int),
            final(self)@.num_images == old(self)@.num_images,
            final(self)@.next_id == old(self)@.next_id,
    {
        let n = self.in_flight.len();
        let mut updated: Vec<InFlightSubmission> = Vec::new();
        let mut i: usize = 0;
        while i < n
            invariant
                n == self.in_flight.len(),
                i <= n,
                self@ == old(self)@,
                views_of(updated@) == marked_completed(
                    old(self)@.in_flight.subrange(0, i as int),
                    id as int,
                ),
            decreases n - i,
        {
            let entry = self.in_flight[i];
            let new_entry = if entry.id == id {
                InFlightSubmission { id: entry.id, image_index: entry.image_index, completed: true }
            } else {
                entry
            };
            proof {
                assert(old(self)@.in_flight.len() == n);
                assert(views_of(updated@).len() == updated@.len());
                assert(old(self)@.in_flight.subrange(0, i as int).len() == i);
                assert(marked_completed(old(self)@.in_flight.subrange(0, i as int), id as int).len()
                    == i);
                assert(updated@.len() == i);
                assert(entry@ == old(self)@.in_flight[i as int]);
                let lhs = views_of(updated@.push(new_entry));
                let rhs = marked_completed(
                    old(self)@.in_flight.subrange(0, i as int + 1),
                    id as int,
                );
                assert(rhs[i as int] == new_entry@);
                assert forall|j: int| 0 <= j < i implies lhs[j] == rhs[j] by {
                    assert(lhs[j] == updated@[j]@);
                    assert(views_of(updated@)[j] == updated@[j]@);
                    assert(rhs[j] == marked_completed(
                        old(self)@.in_flight.subrange(0, i as int),
                        id as int,
                    )[j]);
                }
                assert(lhs =~= rhs);
            }
            updated.push(new_entry);
            i = i + 1;
        }
        proof {
            assert(old(self)@.in_flight.subrange(0, n as int) =~= old(self)@.in_flight);
        }
        self.in_flight = updated;
    }

    /// The reclaim pass: retain every submission whose completion signal has
    /// not been observed — its GPU work may still be executing — and discard
    /// the rest. This is the only place old submissions are freed.
    pub fn reclaim(&mut self)
        ensures
            final(self)@.in_flight == reclaimed(old(self)@.in_flight),
            final(self)@.num_images == old(self)@.num_images,
            final(self)@.next_id == old(self)@.next_id,
    {
        let n = self.in_flight.len();
        let mut kept: Vec<InFlightSubmission> = Vec::new();
        let mut i: usize = 0;
        while i < n
            invariant
                n == self.in_flight.len(),
                i <= n,
                self@ == old(self)@,
                views_of(kept@) == reclaimed(old(self)@.in_flight.subrange(0, i as int)),
            decreases n - i,
        {
            let entry = self.in_flight[i];
            proof {
                let pre = old(self)@.in_flight.subrange(0, i as int);
                let cur = old(self)@.in_flight.subrange(0, i as int + 1);
                assert(cur.drop_last() =~= pre);
                assert(cur.last() == old(self)@.in_flight[i as int]);
                reveal(Seq::filter);
                if !entry@.completed {
                    assert(views_of(kept@.push(entry)) =~= reclaimed(cur));
                } else {
                    assert(views_of(kept@) =~= reclaimed(cur));
                }
            }
            if !entry.completed {
                kept.push(entry);
            }
            i = i + 1;
        }
        proof {
            assert(old(self)@.in_flight.subrange(0, n as int) =~= old(self)@.in_flight);
        }
        self.in_flight = kept;
    }

    /// One logical frame. First the reclaim pass runs; then, if the surface
    /// handed out an image within the swap chain, the tick books one new
    /// in-flight submission against it under a fresh identifier and reports
    /// which image to render and present. An acquisition timeout or an image
    /// index outside the swap chain is fatal and books nothing.
    ///
    /// The tick succeeds exactly when the surface produced a valid image.
    pub fn tick(&mut self, acquired: AcquireOutcome) -> (r: Result<TickOutcome, FrameError>)
        requires
            old(self)@.next_id < u64::MAX,
        ensures
            final(self)@.num_images == old(self)@.num_images,
            (r is Ok) <==> (acquired matches AcquireOutcome::Image { index } && index
                < old(self)@.num_images),
            (match acquired {
                AcquireOutcome::Timeout => {
                    &&& r == Err::<TickOutcome, FrameError>(FrameError::AcquireTimeout)
                    &&& final(self)@.in_flight == reclaimed(old(self)@.in_flight)
                    &&& final(self)@.next_id == old(self)@.next_id
                },
                AcquireOutcome::Image { index } => {
                    if index < old(self)@.num_images {
                        &&& r == Ok::<TickOutcome, FrameError>(TickOutcome {
                            image_index: index,
                            submission_id: (old(self)@.next_id) as u64,
                        })
                        &&& final(self)@.in_flight == reclaimed(old(self)@.in_flight).push(
                            SubmissionModel {
                                id: old(self)@.next_id,
                                image: index as int,
                                completed: false,
                            },
                        )
                        &&& final(self)@.next_id == old(self)@.next_id + 1
                    } else {
                        &&& r == Err::<TickOutcome, FrameError>(FrameError::Device)
                        &&& final(self)@.in_flight == reclaimed(old(self)@.in_flight)
                        &&& final(self)@.next_id == old(self)@.next_id
                    }
                },
            }),
            orchestrator_inv(old(self)@) ==> orchestrator_inv(final(self)@),
    {
        self.reclaim();
        proof {
            if orchestrator_inv(old(self)@) {
                lemma_reclaimed_elements(old(self)@.in_flight);
                lemma_reclaimed_pairwise(
                    old(self)@.in_flight,
                    |a: SubmissionModel, b: SubmissionModel| a.id < b.id,
                );
            }
        }
        match acquired {
            AcquireOutcome::Timeout => Err(FrameError::AcquireTimeout),
            AcquireOutcome::Image { index } => {
                if index >= self.num_images {
                    Err(FrameError::Device)
                } else {
                    let id = self.next_id;
                    let entry = InFlightSubmission { id, image_index: index, completed: false };
                    self.in_flight.push(entry);
                    self.next_id = id + 1;
                    proof {
                        let recl = reclaimed(old(self)@.in_flight);
                        assert(self@.in_flight =~= recl.push(entry@));
                        if orchestrator_inv(old(self)@) {
                            assert forall|k: int|
                                0 <= k < self@.in_flight.len() implies 0 <= (
                            #[trigger] self@.in_flight[k]).image < self@.num_images && 0
                                <= self@.in_flight[k].id < self@.next_id by {
                                if k < recl.len() {
                                    let e = recl[k];
                                    let w = choose|w: int|
                                        0 <= w < old(self)@.in_flight.len() && old(
                                            self,
                                        )@.in_flight[w] == e;
                                    assert(0 <= old(self)@.in_flight[w].image < old(
                                        self,
                                    )@.num_images);
                                }
                            }
                            assert forall|a: int, b: int|
                                0 <= a < b < self@.in_flight.len() implies (
                            #[trigger] self@.in_flight[a]).id < (
                            #[trigger] self@.in_flight[b]).id by {
                                if b < recl.len() {
                                    assert(ids_increasing(recl));
                                } else {
                                    if a < recl.len() {
                                        let e = recl[a];
                                        let w = choose|w: int|
                                            0 <= w < old(self)@.in_flight.len() && old(
                                                self,
                                            )@.in_flight[w] == e;
                                        assert(0 <= old(self)@.in_flight[w].id < old(
                                            self,
                                        )@.next_id);
                                    }
                                }
                            }
                        }
                    }
                    Ok(TickOutcome { image_index: index, submission_id: id })
                }
            },
        }
    }
}

/// Every entry that survives a reclaim pass is a live entry of the original
/// collection.
proof fn lemma_reclaimed_elements(s: Seq<SubmissionModel>)
    ensures
        forall|i: int|
            0 <= i < reclaimed(s).len() ==> !(#[trigger] reclaimed(s)[i]).completed && s.contains(
                reclaimed(s)[i],
            ),
    decreases s.len(),
{
    reveal(Seq::filter);
    if s.len() > 0 {
        let d = s.drop_last();
        lemma_reclaimed_elements(d);
        assert forall|i: int|
            0 <= i < reclaimed(s).len() implies !(#[trigger] reclaimed(s)[i]).completed
            && s.contains(reclaimed(s)[i]) by {
            if i < reclaimed(d).len() {
                let e = reclaimed(d)[i];
                let w = choose|w: int| 0 <= w < d.len() && d[w] == e;
                assert(s[w] == e);
            } else {
                assert(reclaimed(s)[i] == s.last());
                assert(s[s.len() - 1] == s.last());
            }
        }
    }
}

/// A reclaim pass keeps every pairwise, order-respecting relation between
/// the surviving entries: reclaiming removes entries but never reorders.
proof fn lemma_reclaimed_pairwise(
    s: Seq<SubmissionModel>,
    r: spec_fn(SubmissionModel, SubmissionModel) -> bool,
)
    requires
        pairwise(s, r),
    ensures
        pairwise(reclaimed(s), r),
    decreases s.len(),
{
    reveal(Seq::filter);
    if s.len() > 0 {
        let d = s.drop_last();
        assert(pairwise(d, r)) by {
            assert forall|i: int, j: int| 0 <= i < j < d.len() implies r(
                #[trigger] d[i],
                #[trigger] d[j],
            ) by {
                assert(r(s[i], s[j]));
            }
        }
        lemma_reclaimed_pairwise(d, r);
        lemma_reclaimed_elements(d);
        if !s.last().completed {
            assert forall|i: int, j: int| 0 <= i < j < reclaimed(s).len() implies r(
                #[trigger] reclaimed(s)[i],
                #[trigger] reclaimed(s)[j],
            ) by {
                if j < reclaimed(d).len() {
                    assert(pairwise(reclaimed(d), r));
                } else {
                    let e = reclaimed(d)[i];
                    let w = choose|w: int| 0 <= w < d.len() && d[w] == e;
                    assert(s[w] == e);
                    assert(r(s[w], s[s.len() - 1]));
                    assert(reclaimed(s)[j] == s.last());
                }
            }
        }
    }
}

/// Reclaim law: reclaiming is idempotent. Every entry that survives a
/// reclaim pass still reports "not complete", so a second pass removes
/// nothing — just as the non-blocking completion check itself answers the
/// same on an already-completed submission however often it is asked.
pub proof fn lemma_reclaim_idempotent(s: Seq<SubmissionModel>)
    ensures
        reclaimed(reclaimed(s)) == reclaimed(s),
{
    lemma_reclaimed_elements(s);
    lemma_reclaim_keeps_live(reclaimed(s));
}

/// A collection of only-live entries passes a reclaim pass unchanged.
pub proof fn lemma_reclaim_keeps_live(s: Seq<SubmissionModel>)
    requires
        forall|i: int| 0 <= i < s.len() ==> !(#[trigger] s[i]).completed,
    ensures
        reclaimed(s) == s,
    decreases s.len(),
{
    reveal(Seq::filter);
    if s.len() > 0 {
        let d = s.drop_last();
        lemma_reclaim_keeps_live(d);
        assert(reclaimed(s) =~= s);
    }
}

/// A collection of only-completed entries is emptied by a reclaim pass.
pub proof fn lemma_reclaim_drops_completed(s: Seq<SubmissionModel>)
    requires
        forall|i: int| 0 <= i < s.len() ==> (#[trigger] s[i]).completed,
    ensures
        reclaimed(s) == Seq::<SubmissionModel>::empty(),
    decreases s.len(),
{
    reveal(Seq::filter);
    if s.len() > 0 {
        let d = s.drop_last();
        lemma_reclaim_drops_completed(d);
        assert(reclaimed(s) =~= Seq::<SubmissionModel>::empty());
    }
}

/// Bounded resource growth law, submission step: a tick that books work on an
/// image slot whose earlier submissions have all completed keeps the
/// in-flight image indices pairwise distinct.
pub proof fn lemma_tick_keeps_images_distinct(s: Seq<SubmissionModel>, entry: SubmissionModel)
    requires
        distinct_images(s),
        !entry.completed,
        forall|i: int|
            0 <= i < s.len() && (#[trigger] s[i]).image == entry.image ==> s[i].completed,
    ensures
        distinct_images(reclaimed(s).push(entry)),
{
    lemma_reclaimed_pairwise(s, |a: SubmissionModel, b: SubmissionModel| a.image != b.image);
    lemma_reclaimed_elements(s);
    let out = reclaimed(s).push(entry);
    assert forall|i: int, j: int| 0 <= i < j < out.len() implies (#[trigger] out[i]).image != (
    #[trigger] out[j]).image by {
        if j < reclaimed(s).len() {
            assert(distinct_images(reclaimed(s)));
        } else {
            let e = reclaimed(s)[i];
            let w = choose|w: int| 0 <= w < s.len() && s[w] == e;
            assert(out[j] == entry);
            if s[w].image == entry.image {
                assert(s[w].completed);
            }
        }
    }
}

/// Bounded resource growth law, composed over one tick: starting from a
/// well-formed orchestrator whose in-flight submissions render into pairwise
/// distinct images, a tick that books the acquired image `index` after every
/// earlier submission into that image completed leaves the images pairwise
/// distinct and the collection no larger than the swap chain. Along any run
/// of ticks in which the presentation surface only hands out image slots
/// whose prior work completed, the bound therefore holds at every step. (When
/// completion signals never fire the hypothesis fails, and growth is indeed
/// unbounded.)
pub proof fn lemma_tick_preserves_bound(
    pre: OrchestratorModel,
    post: OrchestratorModel,
    index: int,
)
    requires
        orchestrator_inv(pre),
        distinct_images(pre.in_flight),
        0 <= index < pre.num_images,
        forall|i: int|
            0 <= i < pre.in_flight.len() && (#[trigger] pre.in_flight[i]).image == index
                ==> pre.in_flight[i].completed,
        post.in_flight == reclaimed(pre.in_flight).push(
            SubmissionModel { id: pre.next_id, image: index, completed: false },
        ),
        post.num_images == pre.num_images,
    ensures
        distinct_images(post.in_flight),
        post.in_flight.len() <= post.num_images,
{
    let entry = SubmissionModel { id: pre.next_id, image: index, completed: false };
    lemma_tick_keeps_images_distinct(pre.in_flight, entry);
    lemma_reclaimed_elements(pre.in_flight);
    assert forall|i: int|
        0 <= i < post.in_flight.len() implies 0 <= (#[trigger] post.in_flight[i]).image
        < post.num_images by {
        if i < reclaimed(pre.in_flight).len() {
            let e = reclaimed(pre.in_flight)[i];
            let w = choose|w: int| 0 <= w < pre.in_flight.len() && pre.in_flight[w] == e;
            assert(0 <= pre.in_flight[w].image < pre.num_images);
        }
    }
    lemma_in_flight_bounded(post.in_flight, post.num_images);
}

/// Bounded resource growth law, counting step: when the in-flight image
/// indices are pairwise distinct and all within the swap chain, the number of
/// live in-flight submissions cannot exceed the number of swap-chain images.
pub proof fn lemma_in_flight_bounded(s: Seq<SubmissionModel>, num_images: int)
    requires
        distinct_images(s),
        forall|i: int| 0 <= i < s.len() ==> 0 <= (#[trigger] s[i]).image < num_images,
        0 <= num_images,
    ensures
        s.len() <= num_images,
{
    let images = s.map_values(|e: SubmissionModel| e.image);
    assert(images.no_duplicates()) by {
        assert forall|i: int, j: int|
            0 <= i < images.len() && 0 <= j < images.len() && i != j implies images[i]
            != images[j] by {
            if i < j {
                assert((s[i]).image != (s[j]).image);
            } else {
                assert((s[j]).image != (s[i]).image);
            }
        }
    }
    images.unique_seq_to_set();
    let range = set_int_range(0, num_images);
    lemma_int_range(0, num_images);
    assert(images.to_set().subset_of(range)) by {
        assert forall|x: int| images.to_set().contains(x) implies range.contains(x) by {
            let w = choose|w: int| 0 <= w < images.len() && images[w] == x;
            assert(0 <= s[w].image < num_images);
        }
    }
    lemma_len_subset(images.to_set(), range);
}

} // verus!
