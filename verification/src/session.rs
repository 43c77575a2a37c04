use vstd::prelude::*;
use crate::commands::{Command, BatchPromptCommand, Decision};
use crate::commands::{parse_command, parse_batch_prompt, spec_parse_command,
    spec_parse_batch_prompt};

verus! {

/// One image's position within a batch: its handle, the decision recorded so
/// far, and whether it could actually be rendered this round.
#[derive(Clone, Copy, PartialEq, Eq, Structural, Debug)]
pub struct Slot {
    pub image: u64,
    pub decision: Option<Decision>,
    pub displayed: bool,
}

/// Where the review session stands.
#[derive(Clone, Copy, PartialEq, Eq, Structural, Debug)]
pub enum SessionState {
    /// No batch is in hand; the next round samples one.
    SelectingBatch,
    /// A batch is sampled and waits to be rendered.
    Rendering,
    /// The slot at `slot` is prompted for a decision. While `awaiting_trash`
    /// holds, a bin request is out and the next event is its outcome.
    Deciding { slot: usize, awaiting_trash: bool },
    /// Every displayed slot is decided; the end-of-batch prompt is up.
    BatchComplete,
    /// The working set is exhausted (or nothing could be displayed).
    Finished,
    /// The user asked to quit.
    Quitting,
}

/// What the caller must do next. The session itself performs no I/O: it hands
/// one action back per event and the caller reports what happened.
#[derive(Clone, Copy, PartialEq, Eq, Structural, Debug)]
pub enum Action {
    /// Render the current batch, then report per-slot success.
    Render,
    /// Prompt for a key for the slot at this index.
    PromptDecision { slot: usize },
    /// Ask the trash collaborator to remove this image, then report back.
    RequestTrash { image: u64 },
    /// Clear the screen and redraw the undecided slots, then prompt again.
    Redraw,
    /// Show the current image's scaling info, wait for a key, prompt again.
    ShowImageInfo { image: u64 },
    /// Show the whole batch's scaling info, wait for a key, prompt again.
    ShowBatchInfo,
    /// Open the external previewer on this image; fire and forget.
    Preview { image: u64 },
    /// Signal an invalid or failed input, then prompt again.
    Bell,
    /// Show the continue/restart/quit prompt.
    PromptContinue,
    /// Proceed to the next round (after a screen clear when `clear` holds).
    Proceed { clear: bool },
    /// Restore the terminal and exit.
    Quit,
    /// All images are reviewed (or none could be shown); tear down.
    Finished,
}

pub open spec fn seq_distinct(s: Seq<u64>) -> bool {
    forall|i: int, j: int| 0 <= i < j < s.len() ==> s[i] != s[j]
}

pub open spec fn batch_images_distinct(batch: Seq<Slot>) -> bool {
    forall|i: int, j: int| 0 <= i < j < batch.len() ==> batch[i].image != batch[j].image
}

/// Count of slots holding a recorded decision.
pub open spec fn decided_count(batch: Seq<Slot>) -> int
    decreases batch.len(),
{
    if batch.len() == 0 {
        0
    } else {
        decided_count(batch.drop_last()) + if batch.last().decision is Some {
            1int
        } else {
            0int
        }
    }
}

/// Whether `id` is the image of some slot with a recorded decision.
pub open spec fn decided_image(batch: Seq<Slot>, id: u64) -> bool {
    exists|j: int| 0 <= j < batch.len() && (#[trigger] batch[j]).decision is Some
        && batch[j].image == id
}

/// Index of the first slot at or after `from` that was displayed and still
/// has no decision, or the batch length when none is left. Decisions are
/// taken strictly left to right, so this is always the slot to prompt next.
pub open spec fn first_pending(batch: Seq<Slot>, from: int) -> int
    decreases batch.len() - from,
{
    if from < 0 || from >= batch.len() {
        batch.len() as int
    } else if batch[from].displayed && batch[from].decision is None {
        from
    } else {
        first_pending(batch, from + 1)
    }
}

pub proof fn lemma_first_pending(batch: Seq<Slot>, from: int)
    requires
        0 <= from <= batch.len(),
    ensures
        from <= first_pending(batch, from) <= batch.len(),
        first_pending(batch, from) < batch.len() ==> {
            let fp = first_pending(batch, from);
            batch[fp].displayed && batch[fp].decision is None
        },
        forall|k: int| from <= k < first_pending(batch, from)
            ==> !((#[trigger] batch[k]).displayed && batch[k].decision is None),
    decreases batch.len() - from,
{
    if from < batch.len() && !(batch[from].displayed && batch[from].decision is None) {
        lemma_first_pending(batch, from + 1);
    }
}

/// Searching for the first pending slot may start past any pending-free
/// stretch.
pub proof fn lemma_first_pending_skip(batch: Seq<Slot>, lo: int, mid: int)
    requires
        0 <= lo <= mid <= batch.len(),
        forall|k: int| lo <= k < mid
            ==> !((#[trigger] batch[k]).displayed && batch[k].decision is None),
    ensures
        first_pending(batch, lo) == first_pending(batch, mid),
    decreases mid - lo,
{
    if lo < mid {
        lemma_first_pending_skip(batch, lo + 1, mid);
    }
}

/// The batch after recording decision `d` for the slot at `slot`.
pub open spec fn batch_with_decision(batch: Seq<Slot>, slot: int, d: Decision) -> Seq<Slot> {
    batch.update(
        slot,
        Slot { image: batch[slot].image, decision: Some(d), displayed: batch[slot].displayed },
    )
}

/// The batch after a render pass reported per-slot success.
pub open spec fn batch_with_display(batch: Seq<Slot>, ok: Seq<bool>) -> Seq<Slot> {
    Seq::new(
        batch.len(),
        |j: int| Slot { image: batch[j].image, decision: batch[j].decision, displayed: ok[j] },
    )
}

/// The interactive review session: an explicit state machine owning the
/// working set of images and the batch in hand. Every decision removes its
/// image from the working set for good once the batch completes; the session
/// ends when the working set is empty or the user quits.
pub struct Session {
    /// Handles of the images not yet reviewed, all distinct.
    pub working: Vec<u64>,
    /// The batch in hand, in display order.
    pub batch: Vec<Slot>,
    /// Whether the alternate per-slot scaling policy is active.
    pub per_slot_mode: bool,
    /// Whether the mode-toggle key is recognized at all.
    pub mode_toggle_enabled: bool,
    pub state: SessionState,
}

impl Session {
    pub open spec fn wf(self) -> bool {
        &&& seq_distinct(self.working@)
        &&& batch_images_distinct(self.batch@)
        &&& (match self.state {
            SessionState::SelectingBatch => self.batch@.len() == 0,
            SessionState::Rendering => forall|j: int| 0 <= j < self.batch@.len()
                ==> self.working@.contains((#[trigger] self.batch@[j]).image),
            SessionState::Deciding { slot, awaiting_trash } => {
                &&& forall|j: int| 0 <= j < self.batch@.len()
                    ==> self.working@.contains((#[trigger] self.batch@[j]).image)
                &&& slot < self.batch@.len()
                &&& self.batch@[slot as int].displayed
                &&& self.batch@[slot as int].decision is None
                &&& first_pending(self.batch@, 0) == slot as int
            },
            SessionState::BatchComplete => first_pending(self.batch@, 0)
                == self.batch@.len(),
            SessionState::Finished => true,
            SessionState::Quitting => true,
        })
    }

    /// Start a session over a working set of distinct image handles.
    pub fn new(images: Vec<u64>, mode_toggle_enabled: bool) -> (s: Session)
        requires
            seq_distinct(images@),
        ensures
            s.wf(),
            s.working@ == images@,
            s.batch@.len() == 0,
            s.state == SessionState::SelectingBatch,
            !s.per_slot_mode,
            s.mode_toggle_enabled == mode_toggle_enabled,
    {
        Session {
            working: images,
            batch: Vec::new(),
            per_slot_mode: false,
            mode_toggle_enabled,
            state: SessionState::SelectingBatch,
        }
    }

    /// Begin a round: sample a fresh batch of up to three distinct images
    /// uniformly at random without replacement, or finish when the working
    /// set is empty. The sample's size is exact, `min(3, |working set|)`.
    pub fn start_round(&mut self) -> (a: Action)
        requires
            old(self).wf(),
            old(self).state == SessionState::SelectingBatch,
        ensures
            final(self).wf(),
            final(self).working@ == old(self).working@,
            final(self).per_slot_mode == old(self).per_slot_mode,
            final(self).mode_toggle_enabled == old(self).mode_toggle_enabled,
            old(self).working@.len() == 0 ==> {
                &&& final(self).state == SessionState::Finished
                &&& a == Action::Finished
            },
            old(self).working@.len() > 0 ==> {
                &&& final(self).state == SessionState::Rendering
                &&& a == Action::Render
                &&& final(self).batch@.len() == vstd::math::min(
                    3,
                    old(self).working@.len() as int,
                )
                &&& forall|j: int| 0 <= j < final(self).batch@.len()
                    ==> (#[trigger] final(self).batch@[j]).decision is None
                        && !final(self).batch@[j].displayed
            },
    {
        if self.working.len() == 0 {
            self.state = SessionState::Finished;
            return Action::Finished;
        }
        let k: usize = if self.working.len() < 3 {
            self.working.len()
        } else {
            3
        };
        let picks = sample_distinct_indices(self.working.len(), k);
        let mut batch: Vec<Slot> = Vec::new();
        let mut i: usize = 0;
        while i < picks.len()
            invariant
                i <= picks@.len(),
                picks@.len() == k,
                k <= self.working@.len(),
                seq_distinct(self.working@),
                forall|x: int| 0 <= x < picks@.len() ==> #[trigger] picks@[x] < self.working@.len(),
                forall|x: int, y: int| 0 <= x < y < picks@.len()
                    ==> picks@[x] != picks@[y],
                batch@.len() == i,
                forall|x: int| 0 <= x < i
                    ==> (#[trigger] batch@[x]).image == self.working@[picks@[x] as int]
                        && batch@[x].decision is None && !batch@[x].displayed,
            decreases picks@.len() - i,
        {
            let idx: usize = picks[i];
            batch.push(Slot { image: self.working[idx], decision: None, displayed: false });
            i = i + 1;
        }
        proof {
            assert forall|x: int, y: int| 0 <= x < y < batch@.len()
                implies batch@[x].image != batch@[y].image by {
                assert(picks@[x] != picks@[y]);
            }
            assert forall|j: int| 0 <= j < batch@.len()
                implies self.working@.contains((#[trigger] batch@[j]).image) by {
                assert(batch@[j].image == self.working@[picks@[j] as int]);
            }
        }
        self.batch = batch;
        self.state = SessionState::Rendering;
        Action::Render
    }
}

/// Relies on rand::seq::index::sample: it returns exactly `amount` indices
/// drawn from `0..length` without replacement, so they are distinct and in
/// range; it panics when `amount > length`. Nothing further is assumed of
/// the order, which is random.
#[verifier::external_body]
fn sample_distinct_indices(length: usize, amount: usize) -> (r: Vec<usize>)
    requires
        amount <= length,
    ensures
        r@.len() == amount,
        forall|i: int| 0 <= i < r@.len() ==> #[trigger] r@[i] < length,
        forall|i: int, j: int| 0 <= i < j < r@.len() ==> r@[i] != r@[j],
{
    let mut rng = rand::rng();
    rand::seq::index::sample(&mut rng, length, amount).into_vec()
}

/// Find the first slot at or after `from` that was displayed and still has no
/// decision: the next slot to prompt, decided strictly left to right.
fn next_pending(batch: &Vec<Slot>, from: usize) -> (r: Option<usize>)
    ensures
        ({
            let fp = first_pending(batch@, from as int);
            match r {
                Option::Some(j) => j as int == fp && fp < batch@.len(),
                Option::None => fp == batch@.len(),
            }
        }),
{
    if from >= batch.len() {
        return None;
    }
    let mut j: usize = from;
    while j < batch.len()
        invariant
            from <= j <= batch@.len(),
            first_pending(batch@, from as int) == first_pending(batch@, j as int),
        decreases batch@.len() - j,
    {
        if batch[j].displayed && batch[j].decision.is_none() {
            return Some(j);
        }
        j = j + 1;
    }
    None
}

/// Remove the one occurrence of `x` from a duplicate-free vector.
fn remove_first(v: &mut Vec<u64>, x: u64)
    requires
        old(v)@.contains(x),
        seq_distinct(old(v)@),
    ensures
        final(v)@.len() == old(v)@.len() - 1,
        seq_distinct(final(v)@),
        !final(v)@.contains(x),
        forall|y: u64| y != x ==> (final(v)@.contains(y) <==> old(v)@.contains(y)),
{
    let ghost orig = v@;
    let mut i: usize = 0;
    while i < v.len()
        invariant
            orig == old(v)@,
            v@ == orig,
            i <= orig.len(),
            orig.contains(x),
            seq_distinct(orig),
            forall|k: int| 0 <= k < i ==> orig[k] != x,
        decreases orig.len() - i,
    {
        if v[i] == x {
            let ghost idx = i as int;
            v.remove(i);
            proof {
                assert(v@ =~= orig.subrange(0, idx).add(
                    orig.subrange(idx + 1, orig.len() as int),
                ));
                assert forall|a: int, b: int| 0 <= a < b < v@.len()
                    implies v@[a] != v@[b] by {
                    let a0 = if a < idx { a } else { a + 1 };
                    let b0 = if b < idx { b } else { b + 1 };
                    assert(v@[a] == orig[a0] && v@[b] == orig[b0]);
                }
                assert(!v@.contains(x)) by {
                    if v@.contains(x) {
                        let w = choose|w: int| 0 <= w < v@.len() && v@[w] == x;
                        let w0 = if w < idx { w } else { w + 1 };
                        assert(orig[w0] == x && orig[idx] == x && w0 != idx);
                    }
                }
                assert forall|y: u64| y != x implies (v@.contains(y) <==> orig.contains(
                    y,
                )) by {
                    if v@.contains(y) {
                        let w = choose|w: int| 0 <= w < v@.len() && v@[w] == y;
                        let w0 = if w < idx { w } else { w + 1 };
                        assert(orig[w0] == y);
                    }
                    if orig.contains(y) {
                        let w0 = choose|w0: int| 0 <= w0 < orig.len() && orig[w0] == y;
                        let w = if w0 < idx { w0 } else { w0 - 1 };
                        assert(w0 != idx);
                        assert(v@[w] == y);
                    }
                }
            }
            return;
        }
        i = i + 1;
    }
    proof {
        let w = choose|w: int| 0 <= w < orig.len() && orig[w] == x;
        assert(orig[w] != x);
        assert(false);
    }
}

/// `decided_image` over a prefix grows one slot at a time.
proof fn lemma_decided_prefix(batch: Seq<Slot>, j: int, id: u64)
    requires
        0 <= j < batch.len(),
    ensures
        decided_image(batch.subrange(0, j + 1), id) <==> (decided_image(
            batch.subrange(0, j),
            id,
        ) || (batch[j].decision is Some && batch[j].image == id)),
{
    let pre = batch.subrange(0, j);
    let cur = batch.subrange(0, j + 1);
    if decided_image(pre, id) {
        let k = choose|k: int| 0 <= k < pre.len() && (#[trigger] pre[k]).decision is Some
            && pre[k].image == id;
        assert(cur[k] == pre[k]);
        assert(decided_image(cur, id));
    }
    if batch[j].decision is Some && batch[j].image == id {
        assert(cur[j] == batch[j]);
        assert(decided_image(cur, id));
    }
    if decided_image(cur, id) {
        let k = choose|k: int| 0 <= k < cur.len() && (#[trigger] cur[k]).decision is Some
            && cur[k].image == id;
        if k < j {
            assert(pre[k] == cur[k]);
            assert(decided_image(pre, id));
        } else {
            assert(cur[k] == batch[j]);
        }
    }
}

/// Remove every image with a recorded decision from the working set: the
/// batch-completion step. The working set shrinks by exactly the number of
/// decided slots, and exactly the decided images leave it.
fn remove_decided(working: &mut Vec<u64>, batch: &Vec<Slot>)
    requires
        seq_distinct(old(working)@),
        batch_images_distinct(batch@),
        forall|j: int| 0 <= j < batch@.len()
            ==> old(working)@.contains((#[trigger] batch@[j]).image),
    ensures
        seq_distinct(final(working)@),
        final(working)@.len() == old(working)@.len() - decided_count(batch@),
        forall|y: u64|
            #![trigger final(working)@.contains(y)]
            #![trigger old(working)@.contains(y)]
            final(working)@.contains(y) <==> (old(working)@.contains(y)
                && !decided_image(batch@, y)),
{
    let ghost orig = working@;
    let mut j: usize = 0;
    while j < batch.len()
        invariant
            orig == old(working)@,
            j <= batch@.len(),
            seq_distinct(working@),
            batch_images_distinct(batch@),
            forall|k: int| 0 <= k < batch@.len() ==> orig.contains((#[trigger] batch@[k]).image),
            working@.len() == orig.len() - decided_count(batch@.subrange(0, j as int)),
            forall|y: u64| working@.contains(y) <==> (orig.contains(y) && !decided_image(
                batch@.subrange(0, j as int),
                y,
            )),
        decreases batch@.len() - j,
    {
        let ghost pre = batch@.subrange(0, j as int);
        let ghost cur = batch@.subrange(0, j as int + 1);
        proof {
            assert(cur.drop_last() =~= pre);
            assert(cur.last() == batch@[j as int]);
            lemma_decided_prefix(batch@, j as int, batch@[j as int].image);
        }
        if batch[j].decision.is_some() {
            proof {
                assert(!decided_image(pre, batch@[j as int].image)) by {
                    if decided_image(pre, batch@[j as int].image) {
                        let k = choose|k: int| 0 <= k < pre.len()
                            && (#[trigger] pre[k]).decision is Some
                            && pre[k].image == batch@[j as int].image;
                        assert(batch@[k] == pre[k]);
                    }
                }
                assert(working@.contains(batch@[j as int].image));
            }
            remove_first(working, batch[j].image);
        }
        proof {
            assert forall|y: u64| working@.contains(y) implies (orig.contains(y)
                && !decided_image(cur, y)) by {
                lemma_decided_prefix(batch@, j as int, y);
            }
            assert forall|y: u64| orig.contains(y) && !decided_image(cur, y)
                implies working@.contains(y) by {
                lemma_decided_prefix(batch@, j as int, y);
            }
        }
        j = j + 1;
    }
    proof {
        assert(batch@.subrange(0, batch@.len() as int) =~= batch@);
    }
}

/// Fields an event never touches.
pub open spec fn same_flags(pre: Session, post: Session) -> bool {
    &&& post.per_slot_mode == pre.per_slot_mode
    &&& post.mode_toggle_enabled == pre.mode_toggle_enabled
}

/// The session after a decision `d` is recorded for the slot at `slot`:
/// the decision is written, and either the next pending slot is prompted
/// (the working set untouched), or — when no pending slot is left — the
/// batch completes: exactly the decided images leave the working set, whose
/// size drops by exactly the number of decided slots.
pub open spec fn decided_transition(
    pre: Session,
    post: Session,
    a: Action,
    slot: int,
    d: Decision,
) -> bool {
    let b2 = batch_with_decision(pre.batch@, slot, d);
    let fp = first_pending(b2, 0);
    &&& post.batch@ == b2
    &&& same_flags(pre, post)
    &&& if fp < b2.len() {
        &&& post.working@ == pre.working@
        &&& post.state == (SessionState::Deciding { slot: fp as usize, awaiting_trash: false })
        &&& a == (Action::PromptDecision { slot: fp as usize })
    } else {
        &&& post.working@.len() == pre.working@.len() - decided_count(b2)
        &&& (forall|y: u64|
            #![trigger post.working@.contains(y)]
            #![trigger pre.working@.contains(y)]
            post.working@.contains(y) <==> (pre.working@.contains(y)
                && !decided_image(b2, y)))
        &&& post.state == SessionState::BatchComplete
        &&& a == Action::PromptContinue
    }
}

impl Session {
    /// The slot currently being decided.
    pub open spec fn deciding_slot(self) -> int {
        match self.state {
            SessionState::Deciding { slot, .. } => slot as int,
            _ => vstd::pervasive::arbitrary(),
        }
    }

    /// Record decision `d` for the current slot and move on: to the next
    /// pending slot, or to batch completion, which removes every decided
    /// image from the working set for the rest of the run.
    fn record_and_advance(&mut self, d: Decision) -> (a: Action)
        requires
            old(self).wf(),
            old(self).state matches SessionState::Deciding { .. },
        ensures
            final(self).wf(),
            decided_transition(*old(self), *final(self), a, old(self).deciding_slot(), d),
    {
        let slot: usize = match self.state {
            SessionState::Deciding { slot, .. } => slot,
            _ => 0,
        };
        let cur: Slot = self.batch[slot];
        self.batch.set(
            slot,
            Slot { image: cur.image, decision: Some(d), displayed: cur.displayed },
        );
        let blen: usize = self.batch.len();
        assert(slot < blen);
        let ghost b2 = self.batch@;
        proof {
            assert(b2 == batch_with_decision(old(self).batch@, slot as int, d));
            assert(batch_images_distinct(b2)) by {
                assert forall|i: int, j: int| 0 <= i < j < b2.len() implies b2[i].image
                    != b2[j].image by {
                    assert(b2[i].image == old(self).batch@[i].image);
                    assert(b2[j].image == old(self).batch@[j].image);
                }
            }
            assert forall|j: int| 0 <= j < b2.len() implies self.working@.contains(
                (#[trigger] b2[j]).image,
            ) by {
                assert(b2[j].image == old(self).batch@[j].image);
            }
            // No slot before or at `slot` is pending any more.
            lemma_first_pending(old(self).batch@, 0);
            assert forall|k: int| 0 <= k < slot as int + 1 implies !((#[trigger] b2[k]).displayed
                && b2[k].decision is None) by {
                if k < slot as int {
                    assert(b2[k] == old(self).batch@[k]);
                }
            }
            lemma_first_pending_skip(b2, 0, slot as int + 1);
        }
        match next_pending(&self.batch, slot + 1) {
            Some(j) => {
                proof {
                    lemma_first_pending(b2, slot as int + 1);
                }
                self.state = SessionState::Deciding { slot: j, awaiting_trash: false };
                Action::PromptDecision { slot: j }
            },
            None => {
                remove_decided(&mut self.working, &self.batch);
                self.state = SessionState::BatchComplete;
                Action::PromptContinue
            },
        }
    }

    /// Handle one keypress at the decision prompt. Side-channel commands
    /// leave the session as it stands and only ask the caller to act; a keep
    /// records the decision at once; a bin first asks the caller to try the
    /// trash operation, whose outcome arrives via `on_trash_result`.
    pub fn on_key(&mut self, key: u8) -> (a: Action)
        requires
            old(self).wf(),
            old(self).state matches SessionState::Deciding { slot: _, awaiting_trash: false },
        ensures
            final(self).wf(),
            final(self).mode_toggle_enabled == old(self).mode_toggle_enabled,
            ({
                let slot = old(self).deciding_slot();
                let image = old(self).batch@[slot].image;
                match spec_parse_command(key, old(self).mode_toggle_enabled) {
                    Command::Redraw => *final(self) == *old(self) && a == Action::Redraw,
                    Command::ImageInfo => *final(self) == *old(self)
                        && a == (Action::ShowImageInfo { image }),
                    Command::BatchInfo => *final(self) == *old(self) && a == Action::ShowBatchInfo,
                    Command::Preview => *final(self) == *old(self)
                        && a == (Action::Preview { image }),
                    Command::Invalid => *final(self) == *old(self) && a == Action::Bell,
                    Command::Quit => {
                        &&& final(self).working@ == old(self).working@
                        &&& final(self).batch@ == old(self).batch@
                        &&& same_flags(*old(self), *final(self))
                        &&& final(self).state == SessionState::Quitting
                        &&& a == Action::Quit
                    },
                    Command::ModeToggle => {
                        &&& final(self).working@ == old(self).working@
                        &&& final(self).batch@ == old(self).batch@
                        &&& final(self).per_slot_mode == !old(self).per_slot_mode
                        &&& final(self).state == SessionState::Rendering
                        &&& a == Action::Render
                    },
                    Command::Bin => {
                        &&& final(self).working@ == old(self).working@
                        &&& final(self).batch@ == old(self).batch@
                        &&& same_flags(*old(self), *final(self))
                        &&& final(self).state == (SessionState::Deciding {
                            slot: slot as usize,
                            awaiting_trash: true,
                        })
                        &&& a == (Action::RequestTrash { image })
                    },
                    Command::Keep => decided_transition(
                        *old(self),
                        *final(self),
                        a,
                        slot,
                        Decision::Keep,
                    ),
                }
            }),
    {
        let slot: usize = match self.state {
            SessionState::Deciding { slot, .. } => slot,
            _ => 0,
        };
        let image: u64 = self.batch[slot].image;
        match parse_command(key, self.mode_toggle_enabled) {
            Command::Redraw => Action::Redraw,
            Command::ImageInfo => Action::ShowImageInfo { image },
            Command::BatchInfo => Action::ShowBatchInfo,
            Command::Preview => Action::Preview { image },
            Command::Invalid => Action::Bell,
            Command::Quit => {
                self.state = SessionState::Quitting;
                Action::Quit
            },
            Command::ModeToggle => {
                self.per_slot_mode = !self.per_slot_mode;
                self.state = SessionState::Rendering;
                Action::Render
            },
            Command::Bin => {
                self.state = SessionState::Deciding { slot, awaiting_trash: true };
                Action::RequestTrash { image }
            },
            Command::Keep => self.record_and_advance(Decision::Keep),
        }
    }

    /// Handle the outcome of a requested trash operation. On success the bin
    /// decision is recorded and the session moves on exactly as for a keep;
    /// on failure nothing is recorded and the same slot is prompted again —
    /// a failed bin is never auto-resolved, the slot is re-prompted until a
    /// keep, a successful bin, or quit.
    pub fn on_trash_result(&mut self, ok: bool) -> (a: Action)
        requires
            old(self).wf(),
            old(self).state matches SessionState::Deciding { slot: _, awaiting_trash: true },
        ensures
            final(self).wf(),
            ({
                let slot = old(self).deciding_slot();
                if ok {
                    decided_transition(*old(self), *final(self), a, slot, Decision::Bin)
                } else {
                    &&& final(self).working@ == old(self).working@
                    &&& final(self).batch@ == old(self).batch@
                    &&& same_flags(*old(self), *final(self))
                    &&& final(self).state == (SessionState::Deciding {
                        slot: slot as usize,
                        awaiting_trash: false,
                    })
                    &&& final(self).batch@[slot].decision is None
                    &&& a == Action::Bell
                }
            }),
    {
        let slot: usize = match self.state {
            SessionState::Deciding { slot, .. } => slot,
            _ => 0,
        };
        if ok {
            self.record_and_advance(Decision::Bin)
        } else {
            self.state = SessionState::Deciding { slot, awaiting_trash: false };
            Action::Bell
        }
    }

    /// Report the outcome of rendering the batch, slot by slot. The first
    /// displayed undecided slot is prompted next; when none is left the
    /// batch completes if it holds any decision, and otherwise — nothing
    /// could be shown at all — the session ends.
    pub fn on_rendered(&mut self, ok: &Vec<bool>) -> (a: Action)
        requires
            old(self).wf(),
            old(self).state == SessionState::Rendering,
            ok@.len() == old(self).batch@.len(),
        ensures
            final(self).wf(),
            same_flags(*old(self), *final(self)),
            ({
                let b2 = batch_with_display(old(self).batch@, ok@);
                let fp = first_pending(b2, 0);
                &&& final(self).batch@ == b2
                &&& if fp < b2.len() {
                    &&& final(self).working@ == old(self).working@
                    &&& final(self).state == (SessionState::Deciding {
                        slot: fp as usize,
                        awaiting_trash: false,
                    })
                    &&& a == (Action::PromptDecision { slot: fp as usize })
                } else if decided_count(b2) > 0 {
                    &&& final(self).working@.len() == old(self).working@.len()
                        - decided_count(b2)
                    &&& (forall|y: u64|
                        #![trigger final(self).working@.contains(y)]
                        #![trigger old(self).working@.contains(y)]
                        final(self).working@.contains(y)
                            <==> (old(self).working@.contains(y) && !decided_image(b2, y)))
                    &&& final(self).state == SessionState::BatchComplete
                    &&& a == Action::PromptContinue
                } else {
                    &&& final(self).working@ == old(self).working@
                    &&& final(self).state == SessionState::Finished
                    &&& a == Action::Finished
                }
            }),
    {
        let mut updated: Vec<Slot> = Vec::new();
        let mut j: usize = 0;
        while j < self.batch.len()
            invariant
                j <= self.batch@.len(),
                ok@.len() == self.batch@.len(),
                updated@.len() == j,
                forall|k: int| 0 <= k < j ==> #[trigger] updated@[k] == (Slot {
                    image: self.batch@[k].image,
                    decision: self.batch@[k].decision,
                    displayed: ok@[k],
                }),
            decreases self.batch@.len() - j,
        {
            let cur: Slot = self.batch[j];
            updated.push(Slot { image: cur.image, decision: cur.decision, displayed: ok[j] });
            j = j + 1;
        }
        proof {
            assert(updated@ =~= batch_with_display(self.batch@, ok@));
        }
        self.batch = updated;
        let ghost b2 = self.batch@;
        proof {
            assert(batch_images_distinct(b2)) by {
                assert forall|x: int, y: int| 0 <= x < y < b2.len() implies b2[x].image
                    != b2[y].image by {
                    assert(b2[x].image == old(self).batch@[x].image);
                    assert(b2[y].image == old(self).batch@[y].image);
                }
            }
            assert forall|k: int| 0 <= k < b2.len() implies self.working@.contains(
                (#[trigger] b2[k]).image,
            ) by {
                assert(b2[k].image == old(self).batch@[k].image);
            }
        }
        match next_pending(&self.batch, 0) {
            Some(fp) => {
                proof {
                    lemma_first_pending(b2, 0);
                }
                self.state = SessionState::Deciding { slot: fp, awaiting_trash: false };
                Action::PromptDecision { slot: fp }
            },
            None => {
                let decided = count_decided(&self.batch);
                if decided > 0 {
                    remove_decided(&mut self.working, &self.batch);
                    self.state = SessionState::BatchComplete;
                    Action::PromptContinue
                } else {
                    self.state = SessionState::Finished;
                    Action::Finished
                }
            },
        }
    }

    /// Handle one keypress at the end-of-batch prompt. Continue and restart
    /// clear the batch and loop back to sampling; neither touches the
    /// working set — only recorded decisions ever shrink it.
    pub fn on_batch_key(&mut self, key: u8) -> (a: Action)
        requires
            old(self).wf(),
            old(self).state == SessionState::BatchComplete,
        ensures
            final(self).wf(),
            final(self).working@ == old(self).working@,
            same_flags(*old(self), *final(self)),
            ({
                match spec_parse_batch_prompt(key) {
                    BatchPromptCommand::Continue => {
                        &&& final(self).batch@.len() == 0
                        &&& final(self).state == SessionState::SelectingBatch
                        &&& a == (Action::Proceed { clear: false })
                    },
                    BatchPromptCommand::Restart => {
                        &&& final(self).batch@.len() == 0
                        &&& final(self).state == SessionState::SelectingBatch
                        &&& a == (Action::Proceed { clear: true })
                    },
                    BatchPromptCommand::Quit => {
                        &&& final(self).batch@ == old(self).batch@
                        &&& final(self).state == SessionState::Quitting
                        &&& a == Action::Quit
                    },
                    BatchPromptCommand::Invalid => *final(self) == *old(self)
                        && a == Action::Bell,
                }
            }),
    {
        match parse_batch_prompt(key) {
            BatchPromptCommand::Continue => {
                self.batch = Vec::new();
                self.state = SessionState::SelectingBatch;
                Action::Proceed { clear: false }
            },
            BatchPromptCommand::Restart => {
                self.batch = Vec::new();
                self.state = SessionState::SelectingBatch;
                Action::Proceed { clear: true }
            },
            BatchPromptCommand::Quit => {
                self.state = SessionState::Quitting;
                Action::Quit
            },
            BatchPromptCommand::Invalid => Action::Bell,
        }
    }
}

/// Count the slots holding a recorded decision.
fn count_decided(batch: &Vec<Slot>) -> (n: usize)
    ensures
        n as int == decided_count(batch@),
{
    let mut n: usize = 0;
    let mut j: usize = 0;
    while j < batch.len()
        invariant
            j <= batch@.len(),
            n <= j,
            n as int == decided_count(batch@.subrange(0, j as int)),
        decreases batch@.len() - j,
    {
        proof {
            assert(batch@.subrange(0, j + 1 as int).drop_last() =~= batch@.subrange(0, j as int));
            assert(batch@.subrange(0, j + 1 as int).last() == batch@[j as int]);
        }
        if batch[j].decision.is_some() {
            n = n + 1;
        }
        j = j + 1;
    }
    proof {
        assert(batch@.subrange(0, batch@.len() as int) =~= batch@);
    }
    n
}

} // verus!
