//! The staged filesystem sink: writes are first staged, then committed in a
//! second pass that diffs, asks for confirmation and notifies hooks.
//!
//! Staging itself (creating the temporary copy of a payload) and every step
//! of the commit that touches the disk, a process or the operator is done by
//! the caller. This module keeps the ordered list of pending changes and
//! decides, step by step, what the commit does next.
use vstd::prelude::*;

use crate::hooks::{strings_view, ApplyAllContext, ApplyEachContext};
use crate::paths::{parent, parent_spec};

verus! {

fn same_bytes(a: &Vec<u8>, b: &Vec<u8>) -> (r: bool)
    ensures
        r == (a@ == b@),
{
    let r = *a == *b;
    proof {
        if r {
            assert(a@ =~= b@);
        }
    }
    r
}

/// A write that has been staged: where its payload waits, and where it goes.
pub struct PendingChange {
    pub staged: String,
    pub destination: String,
}

impl View for PendingChange {
    type V = (Seq<char>, Seq<char>);

    open spec fn view(&self) -> (Seq<char>, Seq<char>) {
        (self.staged@, self.destination@)
    }
}

pub open spec fn pending_view(v: Seq<PendingChange>) -> Seq<(Seq<char>, Seq<char>)> {
    v.map_values(|c: PendingChange| c@)
}

/// The destinations of a list of pending changes, in staging order.
pub open spec fn destinations_of(p: Seq<(Seq<char>, Seq<char>)>) -> Seq<Seq<char>> {
    p.map_values(|c: (Seq<char>, Seq<char>)| c.1)
}

/// Index of the most recent entry of `p` bound for `dst`, or -1.
pub open spec fn latest_for(p: Seq<(Seq<char>, Seq<char>)>, dst: Seq<char>) -> int
    decreases p.len(),
{
    if p.len() == 0 {
        -1
    } else if p.last().1 == dst {
        p.len() - 1
    } else {
        latest_for(p.drop_last(), dst)
    }
}

/// A sink that buffers writes until they are persisted.
pub struct BufferedFsAccess {
    repo: String,
    mappings: Vec<PendingChange>,
    diff_tool: String,
}

pub struct BufferedView {
    pub repo: Seq<char>,
    pub pending: Seq<(Seq<char>, Seq<char>)>,
    pub diff_tool: Seq<char>,
}

impl View for BufferedFsAccess {
    type V = BufferedView;

    closed spec fn view(&self) -> BufferedView {
        BufferedView {
            repo: self.repo@,
            pending: pending_view(self.mappings@),
            diff_tool: self.diff_tool@,
        }
    }
}

proof fn lemma_latest_for_prefix(p: Seq<(Seq<char>, Seq<char>)>, dst: Seq<char>, i: int)
    requires
        0 <= i <= p.len(),
        forall|k: int| i <= k < p.len() ==> p[k].1 != dst,
    ensures
        latest_for(p, dst) == latest_for(p.subrange(0, i), dst),
    decreases p.len() - i,
{
    if i < p.len() {
        assert(p.drop_last() == p.subrange(0, p.len() - 1));
        lemma_latest_for_prefix(p.drop_last(), dst, i);
        assert(p.drop_last().subrange(0, i) == p.subrange(0, i));
    } else {
        assert(p.subrange(0, i) == p);
    }
}

impl BufferedFsAccess {
    /// A sink with nothing staged, committing for `repo` and showing
    /// differences with `diff_tool`.
    pub fn new(repo: String, diff_tool: String) -> (r: Self)
        ensures
            r@.repo == repo@,
            r@.diff_tool == diff_tool@,
            r@.pending == Seq::<(Seq<char>, Seq<char>)>::empty(),
    {
        let r = BufferedFsAccess { mappings: Vec::new(), repo, diff_tool };
        assert(pending_view(r.mappings@) =~= Seq::<(Seq<char>, Seq<char>)>::empty());
        r
    }

    /// Records that the payload for `destination` now waits at `staged`.
    /// The entry goes last: commit order is staging order.
    pub fn stage(&mut self, staged: String, destination: String)
        ensures
            final(self)@.repo == old(self)@.repo,
            final(self)@.diff_tool == old(self)@.diff_tool,
            final(self)@.pending == old(self)@.pending.push((staged@, destination@)),
    {
        let ghost before = self.mappings@;
        self.mappings.push(PendingChange { staged, destination });
        assert(pending_view(self.mappings@) =~= pending_view(before).push(
            (staged@, destination@),
        ));
    }

    /// Where the most recent payload staged for `destination` waits, if any
    /// was staged: that is where permissions meant for it are applied.
    pub fn staged_for(&self, destination: &String) -> (r: Option<String>)
        ensures
            latest_for(self@.pending, destination@) < 0 ==> r is None,
            latest_for(self@.pending, destination@) >= 0 ==> r is Some && r->0@
                == self@.pending[latest_for(self@.pending, destination@)].0,
    {
        let n = self.mappings.len();
        let mut i = n;
        while i > 0
            invariant
                n == self.mappings@.len(),
                i <= n,
                forall|k: int|
                    i <= k < n ==> (#[trigger] pending_view(self.mappings@)[k]).1 != destination@,
            decreases i,
        {
            let entry = &self.mappings[i - 1];
            if entry.destination == *destination {
                proof {
                    lemma_latest_for_prefix(pending_view(self.mappings@), destination@, i as int);
                }
                return Some(entry.staged.clone());
            }
            i = i - 1;
        }
        proof {
            lemma_latest_for_prefix(pending_view(self.mappings@), destination@, 0);
        }
        None
    }

    /// Starts the commit of everything staged so far. The sink is left
    /// empty: a second commit finds nothing to do.
    pub fn persist(&mut self) -> (r: (Persist, PersistAction))
        ensures
            final(self)@.repo == old(self)@.repo,
            final(self)@.diff_tool == old(self)@.diff_tool,
            final(self)@.pending == Seq::<(Seq<char>, Seq<char>)>::empty(),
            r.0.wf(),
            r.0@ == start_state(old(self)@),
            r.1@ == start_action(old(self)@),
    {
        let mut pending: Vec<PendingChange> = Vec::new();
        std::mem::swap(&mut pending, &mut self.mappings);
        assert(pending_view(self.mappings@) =~= Seq::<(Seq<char>, Seq<char>)>::empty());
        let machine = Persist {
            repo: self.repo.clone(),
            diff_tool: self.diff_tool.clone(),
            pending,
            index: 0,
            phase: Phase::BeforeAll,
        };
        let action = PersistAction::BeforeAll(machine.all_context());
        (machine, action)
    }
}

/// Where a commit stands: the step whose outcome it waits for.
#[derive(PartialEq, Eq, Structural, Clone, Copy, Debug)]
pub enum Phase {
    BeforeAll,
    Inspecting,
    Confirming,
    Skipping,
    EnsuringParent,
    BeforeEach,
    Copying,
    AfterEach,
    AfterAll,
    Finished,
    Failed,
}

/// What the caller is asked to do next.
pub enum PersistAction {
    /// Run the hooks that precede the commit.
    BeforeAll(ApplyAllContext),
    /// Tell whether `destination` exists; if it does, read it and `staged`.
    Inspect { staged: String, destination: String },
    /// Show the difference between the two files with `diff_tool`, then ask
    /// the operator whether to apply the change.
    Confirm { diff_tool: String, existing: String, staged: String },
    /// The change to `destination` was declined; report it as skipped.
    Skip { destination: String },
    /// Create `directory` and its ancestors where missing.
    EnsureParent { directory: String },
    /// Run the hooks that precede the write of one file.
    BeforeEach(ApplyEachContext),
    /// Copy the staged payload over the destination.
    CopyStaged { staged: String, destination: String },
    /// Run the hooks that follow the write of one file.
    AfterEach(ApplyEachContext),
    /// Run the hooks that follow the commit.
    AfterAll(ApplyAllContext),
    /// The commit is over; release the staged payloads.
    Finished,
}

pub enum ActionView {
    BeforeAll { repo: Seq<char>, paths: Seq<Seq<char>> },
    Inspect { staged: Seq<char>, destination: Seq<char> },
    Confirm { diff_tool: Seq<char>, existing: Seq<char>, staged: Seq<char> },
    Skip { destination: Seq<char> },
    EnsureParent { directory: Seq<char> },
    BeforeEach { repo: Seq<char>, src: Seq<char>, dst: Seq<char> },
    CopyStaged { staged: Seq<char>, destination: Seq<char> },
    AfterEach { repo: Seq<char>, src: Seq<char>, dst: Seq<char> },
    AfterAll { repo: Seq<char>, paths: Seq<Seq<char>> },
    Finished,
}

impl View for PersistAction {
    type V = ActionView;

    open spec fn view(&self) -> ActionView {
        match self {
            PersistAction::BeforeAll(c) => ActionView::BeforeAll { repo: c@.repo, paths: c@.paths },
            PersistAction::Inspect { staged, destination } => ActionView::Inspect {
                staged: staged@,
                destination: destination@,
            },
            PersistAction::Confirm { diff_tool, existing, staged } => ActionView::Confirm {
                diff_tool: diff_tool@,
                existing: existing@,
                staged: staged@,
            },
            PersistAction::Skip { destination } => ActionView::Skip { destination: destination@ },
            PersistAction::EnsureParent { directory } => ActionView::EnsureParent {
                directory: directory@,
            },
            PersistAction::BeforeEach(c) => ActionView::BeforeEach {
                repo: c@.repo,
                src: c@.src,
                dst: c@.dst,
            },
            PersistAction::CopyStaged { staged, destination } => ActionView::CopyStaged {
                staged: staged@,
                destination: destination@,
            },
            PersistAction::AfterEach(c) => ActionView::AfterEach {
                repo: c@.repo,
                src: c@.src,
                dst: c@.dst,
            },
            PersistAction::AfterAll(c) => ActionView::AfterAll { repo: c@.repo, paths: c@.paths },
            PersistAction::Finished => ActionView::Finished,
        }
    }
}

/// What the caller reports back after doing what it was asked.
pub enum PersistEvent {
    /// The step succeeded.
    Done,
    /// The destination of the inspected change does not exist.
    Absent,
    /// The destination exists; here are the checksums of the staged payload
    /// and of the existing file, computed over their contents.
    Present { staged_checksum: Vec<u8>, existing_checksum: Vec<u8> },
    /// The operator's answer to the confirmation prompt.
    Answer(bool),
}

pub enum EventView {
    Done,
    Absent,
    Present { staged_checksum: Seq<u8>, existing_checksum: Seq<u8> },
    Answer(bool),
}

impl View for PersistEvent {
    type V = EventView;

    open spec fn view(&self) -> EventView {
        match self {
            PersistEvent::Done => EventView::Done,
            PersistEvent::Absent => EventView::Absent,
            PersistEvent::Present { staged_checksum, existing_checksum } => EventView::Present {
                staged_checksum: staged_checksum@,
                existing_checksum: existing_checksum@,
            },
            PersistEvent::Answer(b) => EventView::Answer(*b),
        }
    }
}

/// Why a commit stopped.
#[derive(PartialEq, Eq, Structural, Clone, Copy, Debug)]
pub enum PersistError {
    /// The event does not answer the step the commit waits for.
    UnexpectedEvent,
}

/// A commit in progress.
pub struct Persist {
    repo: String,
    diff_tool: String,
    pending: Vec<PendingChange>,
    index: usize,
    phase: Phase,
}

pub struct PersistState {
    pub repo: Seq<char>,
    pub diff_tool: Seq<char>,
    pub pending: Seq<(Seq<char>, Seq<char>)>,
    pub index: int,
    pub phase: Phase,
}

impl View for Persist {
    type V = PersistState;

    closed spec fn view(&self) -> PersistState {
        PersistState {
            repo: self.repo@,
            diff_tool: self.diff_tool@,
            pending: pending_view(self.pending@),
            index: self.index as int,
            phase: self.phase,
        }
    }
}

/// A phase in which the commit works on one entry.
pub open spec fn at_entry(phase: Phase) -> bool {
    match phase {
        Phase::Inspecting | Phase::Confirming | Phase::Skipping | Phase::EnsuringParent
        | Phase::BeforeEach | Phase::Copying | Phase::AfterEach => true,
        _ => false,
    }
}

pub open spec fn state_wf(s: PersistState) -> bool {
    &&& 0 <= s.index <= s.pending.len()
    &&& at_entry(s.phase) ==> s.index < s.pending.len()
}

pub open spec fn start_state(b: BufferedView) -> PersistState {
    PersistState {
        repo: b.repo,
        diff_tool: b.diff_tool,
        pending: b.pending,
        index: 0,
        phase: Phase::BeforeAll,
    }
}

pub open spec fn start_action(b: BufferedView) -> ActionView {
    ActionView::BeforeAll { repo: b.repo, paths: destinations_of(b.pending) }
}

/// Moves on to entry `i`, or to the closing hooks once every entry is done.
pub open spec fn next_entry(s: PersistState, i: int) -> (PersistState, ActionView) {
    if i < s.pending.len() {
        (
            PersistState { index: i, phase: Phase::Inspecting, ..s },
            ActionView::Inspect { staged: s.pending[i].0, destination: s.pending[i].1 },
        )
    } else {
        (
            PersistState { index: i, phase: Phase::AfterAll, ..s },
            ActionView::AfterAll { repo: s.repo, paths: destinations_of(s.pending) },
        )
    }
}

/// The current entry is accepted: its write begins with its parent directory.
pub open spec fn accept(s: PersistState) -> (PersistState, ActionView) {
    (
        PersistState { phase: Phase::EnsuringParent, ..s },
        ActionView::EnsureParent { directory: parent_spec(s.pending[s.index].1) },
    )
}

/// One step of the commit: the state and the next action after `e`, or
/// `None` when `e` does not answer the step that the commit waits for.
pub open spec fn step_spec(s: PersistState, e: EventView) -> Option<(PersistState, ActionView)> {
    let staged = s.pending[s.index].0;
    let dst = s.pending[s.index].1;
    match (s.phase, e) {
        (Phase::BeforeAll, EventView::Done) => Some(next_entry(s, 0)),
        (Phase::Inspecting, EventView::Absent) => Some(accept(s)),
        (Phase::Inspecting, EventView::Present { staged_checksum, existing_checksum }) => {
            if staged_checksum == existing_checksum {
                Some(accept(s))
            } else {
                Some(
                    (
                        PersistState { phase: Phase::Confirming, ..s },
                        ActionView::Confirm { diff_tool: s.diff_tool, existing: dst, staged },
                    ),
                )
            }
        },
        (Phase::Confirming, EventView::Answer(yes)) => {
            if yes {
                Some(accept(s))
            } else {
                Some(
                    (
                        PersistState { phase: Phase::Skipping, ..s },
                        ActionView::Skip { destination: dst },
                    ),
                )
            }
        },
        (Phase::Skipping, EventView::Done) => Some(next_entry(s, s.index + 1)),
        (Phase::EnsuringParent, EventView::Done) => Some(
            (
                PersistState { phase: Phase::BeforeEach, ..s },
                ActionView::BeforeEach { repo: s.repo, src: staged, dst },
            ),
        ),
        (Phase::BeforeEach, EventView::Done) => Some(
            (
                PersistState { phase: Phase::Copying, ..s },
                ActionView::CopyStaged { staged, destination: dst },
            ),
        ),
        (Phase::Copying, EventView::Done) => Some(
            (
                PersistState { phase: Phase::AfterEach, ..s },
                ActionView::AfterEach { repo: s.repo, src: staged, dst },
            ),
        ),
        (Phase::AfterEach, EventView::Done) => Some(next_entry(s, s.index + 1)),
        (Phase::AfterAll, EventView::Done) => Some(
            (PersistState { phase: Phase::Finished, ..s }, ActionView::Finished),
        ),
        _ => None,
    }
}

impl Persist {
    pub open spec fn wf(&self) -> bool {
        state_wf(self@)
    }

    /// The step that the commit waits for.
    pub fn phase(&self) -> (r: Phase)
        ensures
            r == self@.phase,
    {
        self.phase
    }

    fn destinations(&self) -> (r: Vec<String>)
        ensures
            strings_view(r@) == destinations_of(self@.pending),
    {
        let mut out: Vec<String> = Vec::new();
        let n = self.pending.len();
        for i in 0..n
            invariant
                n == self.pending@.len(),
                out@.len() == i,
                forall|k: int| 0 <= k < i ==> (#[trigger] out@[k])@ == destinations_of(self@.pending)[k],
        {
            let d = self.pending[i].destination.clone();
            assert(d@ == destinations_of(self@.pending)[i as int]);
            out.push(d);
        }
        assert(strings_view(out@) =~= destinations_of(self@.pending));
        out
    }

    fn all_context(&self) -> (r: ApplyAllContext)
        ensures
            r@.repo == self@.repo,
            r@.paths == destinations_of(self@.pending),
    {
        ApplyAllContext { repo: self.repo.clone(), paths: self.destinations() }
    }

    fn each_context(&self) -> (r: ApplyEachContext)
        requires
            self.index < self.pending@.len(),
        ensures
            r@.repo == self@.repo,
            r@.src == self@.pending[self@.index].0,
            r@.dst == self@.pending[self@.index].1,
    {
        let entry = &self.pending[self.index];
        ApplyEachContext {
            repo: self.repo.clone(),
            src: entry.staged.clone(),
            dst: entry.destination.clone(),
        }
    }

    fn move_to_entry(&mut self, i: usize) -> (r: PersistAction)
        requires
            old(self).wf(),
            i <= old(self).pending@.len(),
        ensures
            final(self).wf(),
            (final(self)@, r@) == next_entry(old(self)@, i as int),
    {
        self.index = i;
        if i < self.pending.len() {
            self.phase = Phase::Inspecting;
            let entry = &self.pending[i];
            PersistAction::Inspect {
                staged: entry.staged.clone(),
                destination: entry.destination.clone(),
            }
        } else {
            self.phase = Phase::AfterAll;
            PersistAction::AfterAll(self.all_context())
        }
    }

    fn accept_current(&mut self) -> (r: PersistAction)
        requires
            old(self).wf(),
            old(self).index < old(self).pending@.len(),
        ensures
            final(self).wf(),
            (final(self)@, r@) == accept(old(self)@),
    {
        self.phase = Phase::EnsuringParent;
        let directory = parent(self.pending[self.index].destination.as_str());
        PersistAction::EnsureParent { directory }
    }

    /// Advances the commit by the outcome of the step it waited for, and
    /// says what to do next. An event that does not answer that step stops
    /// the commit.
    pub fn step(&mut self, event: PersistEvent) -> (r: Result<PersistAction, PersistError>)
        requires
            old(self).wf(),
        ensures
            final(self).wf(),
            match step_spec(old(self)@, event@) {
                Some((s, a)) => r is Ok && r->Ok_0@ == a && final(self)@ == s,
                None => r == Err::<PersistAction, PersistError>(PersistError::UnexpectedEvent)
                    && final(self)@ == (PersistState { phase: Phase::Failed, ..old(self)@ }),
            },
    {
        let n = self.pending.len();
        assert(at_entry(self.phase) ==> self.index < n);
        match (self.phase, event) {
            (Phase::BeforeAll, PersistEvent::Done) => Ok(self.move_to_entry(0)),
            (Phase::Inspecting, PersistEvent::Absent) => Ok(self.accept_current()),
            (Phase::Inspecting, PersistEvent::Present { staged_checksum, existing_checksum }) => {
                if same_bytes(&staged_checksum, &existing_checksum) {
                    Ok(self.accept_current())
                } else {
                    self.phase = Phase::Confirming;
                    let entry = &self.pending[self.index];
                    Ok(
                        PersistAction::Confirm {
                            diff_tool: self.diff_tool.clone(),
                            existing: entry.destination.clone(),
                            staged: entry.staged.clone(),
                        },
                    )
                }
            },
            (Phase::Confirming, PersistEvent::Answer(yes)) => {
                if yes {
                    Ok(self.accept_current())
                } else {
                    self.phase = Phase::Skipping;
                    Ok(
                        PersistAction::Skip {
                            destination: self.pending[self.index].destination.clone(),
                        },
                    )
                }
            },
            (Phase::Skipping, PersistEvent::Done) => Ok(self.move_to_entry(self.index + 1)),
            (Phase::EnsuringParent, PersistEvent::Done) => {
                self.phase = Phase::BeforeEach;
                Ok(PersistAction::BeforeEach(self.each_context()))
            },
            (Phase::BeforeEach, PersistEvent::Done) => {
                self.phase = Phase::Copying;
                let entry = &self.pending[self.index];
                Ok(
                    PersistAction::CopyStaged {
                        staged: entry.staged.clone(),
                        destination: entry.destination.clone(),
                    },
                )
            },
            (Phase::Copying, PersistEvent::Done) => {
                self.phase = Phase::AfterEach;
                Ok(PersistAction::AfterEach(self.each_context()))
            },
            (Phase::AfterEach, PersistEvent::Done) => Ok(self.move_to_entry(self.index + 1)),
            (Phase::AfterAll, PersistEvent::Done) => {
                self.phase = Phase::Finished;
                Ok(PersistAction::Finished)
            },
            _ => {
                self.phase = Phase::Failed;
                Err(PersistError::UnexpectedEvent)
            },
        }
    }
}

/// The state and the actions that the events `events` lead to from `s`, one
/// action per event, or `None` once an event does not answer its step.
pub open spec fn run(s: PersistState, events: Seq<EventView>) -> Option<(PersistState, Seq<ActionView>)>
    decreases events.len(),
{
    if events.len() == 0 {
        Some((s, Seq::empty()))
    } else {
        match step_spec(s, events[0]) {
            Some((next, a)) => match run(next, events.drop_first()) {
                Some((last, rest)) => Some((last, seq![a] + rest)),
                None => None,
            },
            None => None,
        }
    }
}

/// The actions that write the current entry once it is accepted: its parent
/// directory, the hooks before, the copy, the hooks after.
pub open spec fn write_actions(s: PersistState) -> Seq<ActionView> {
    let staged = s.pending[s.index].0;
    let dst = s.pending[s.index].1;
    seq![
        ActionView::EnsureParent { directory: parent_spec(dst) },
        ActionView::BeforeEach { repo: s.repo, src: staged, dst },
        ActionView::CopyStaged { staged, destination: dst },
        ActionView::AfterEach { repo: s.repo, src: staged, dst },
    ]
}

pub open spec fn done_events(n: nat) -> Seq<EventView> {
    Seq::new(n, |i: int| EventView::Done)
}

proof fn lemma_write_steps(s: PersistState)
    requires
        state_wf(s),
        s.phase == Phase::EnsuringParent,
    ensures
        run(s, done_events(3)) == Some(
            (
                PersistState { phase: Phase::AfterEach, ..s },
                write_actions(s).drop_first(),
            ),
        ),
{
    let d3 = done_events(3);
    let s1 = PersistState { phase: Phase::BeforeEach, ..s };
    let s2 = PersistState { phase: Phase::Copying, ..s };
    let s3 = PersistState { phase: Phase::AfterEach, ..s };
    assert(d3.drop_first() == done_events(2));
    assert(done_events(2).drop_first() == done_events(1));
    assert(done_events(1).drop_first() == done_events(0));
    assert(run(s3, done_events(0)) == Some((s3, Seq::<ActionView>::empty())));
    assert(run(s2, done_events(1)) == Some((s3, seq![write_actions(s)[3]])));
    assert(run(s1, done_events(2)) == Some((s3, seq![write_actions(s)[2], write_actions(s)[3]])));
    assert(write_actions(s).drop_first() =~= seq![
        write_actions(s)[1],
        write_actions(s)[2],
        write_actions(s)[3],
    ]);
}

/// A staged change whose content has the checksum of the file it would
/// replace is committed without a difference shown and without a prompt:
/// the parent directory is ensured, the hooks before run, the payload is
/// copied and the hooks after run, as for any accepted change.
pub proof fn lemma_identical_content_commits_silently(s: PersistState, checksum: Seq<u8>)
    requires
        state_wf(s),
        s.phase == Phase::Inspecting,
    ensures
        run(
            s,
            seq![EventView::Present { staged_checksum: checksum, existing_checksum: checksum }]
                + done_events(3),
        ) == Some((PersistState { phase: Phase::AfterEach, ..s }, write_actions(s))),
{
    let events = seq![EventView::Present { staged_checksum: checksum, existing_checksum: checksum }]
        + done_events(3);
    let s1 = PersistState { phase: Phase::EnsuringParent, ..s };
    lemma_write_steps(s1);
    assert(events.drop_first() == done_events(3));
    assert(write_actions(s) =~= seq![write_actions(s)[0]] + write_actions(s1).drop_first());
}

/// A change whose destination does not exist yet is committed without a
/// prompt: parent directory, hooks before, copy, hooks after.
pub proof fn lemma_new_file_commits_silently(s: PersistState)
    requires
        state_wf(s),
        s.phase == Phase::Inspecting,
    ensures
        run(s, seq![EventView::Absent] + done_events(3)) == Some(
            (PersistState { phase: Phase::AfterEach, ..s }, write_actions(s)),
        ),
{
    let events = seq![EventView::Absent] + done_events(3);
    let s1 = PersistState { phase: Phase::EnsuringParent, ..s };
    lemma_write_steps(s1);
    assert(events.drop_first() == done_events(3));
    assert(write_actions(s) =~= seq![write_actions(s)[0]] + write_actions(s1).drop_first());
}

/// A change whose content differs from the file it would replace is shown
/// with the diff tool and confirmed first; once the operator accepts, it is
/// written like any other: parent directory, hooks before, copy, hooks after.
pub proof fn lemma_confirmed_change_is_written(s: PersistState, staged_checksum: Seq<u8>, existing_checksum: Seq<u8>)
    requires
        state_wf(s),
        s.phase == Phase::Inspecting,
        staged_checksum != existing_checksum,
    ensures
        run(
            s,
            seq![EventView::Present { staged_checksum, existing_checksum }, EventView::Answer(true)]
                + done_events(3),
        ) == Some(
            (
                PersistState { phase: Phase::AfterEach, ..s },
                seq![ActionView::Confirm {
                    diff_tool: s.diff_tool,
                    existing: s.pending[s.index].1,
                    staged: s.pending[s.index].0,
                }] + write_actions(s),
            ),
        ),
{
    let events = seq![EventView::Present { staged_checksum, existing_checksum }, EventView::Answer(true)]
        + done_events(3);
    let s1 = PersistState { phase: Phase::Confirming, ..s };
    let s2 = PersistState { phase: Phase::EnsuringParent, ..s };
    lemma_write_steps(s2);
    assert(events.drop_first() == seq![EventView::Answer(true)] + done_events(3));
    assert((seq![EventView::Answer(true)] + done_events(3)).drop_first() == done_events(3));
    assert(write_actions(s) =~= seq![write_actions(s)[0]] + write_actions(s2).drop_first());
    let confirm = ActionView::Confirm {
        diff_tool: s.diff_tool,
        existing: s.pending[s.index].1,
        staged: s.pending[s.index].0,
    };
    let s3 = PersistState { phase: Phase::AfterEach, ..s };
    assert(step_spec(s, events[0]) == Some((s1, confirm)));
    assert(step_spec(s1, EventView::Answer(true)) == Some((s2, write_actions(s)[0])));
    assert(run(s1, seq![EventView::Answer(true)] + done_events(3)) == Some(
        (s3, seq![write_actions(s)[0]] + write_actions(s2).drop_first()),
    ));
    assert(seq![confirm] + write_actions(s) =~= seq![confirm] + (seq![write_actions(s)[0]]
        + write_actions(s2).drop_first()));
}

/// Declining a change skips it: nothing is written to its destination and
/// no hook runs for it; the commit goes on with the next entry, or with the
/// closing hooks after the last one.
pub proof fn lemma_declined_change_is_skipped(s: PersistState)
    requires
        state_wf(s),
        s.phase == Phase::Confirming,
    ensures
        run(s, seq![EventView::Answer(false), EventView::Done]) == Some(
            (
                next_entry(s, s.index + 1).0,
                seq![ActionView::Skip { destination: s.pending[s.index].1 }, next_entry(s, s.index + 1).1],
            ),
        ),
        s.index + 1 < s.pending.len() ==> next_entry(s, s.index + 1).1 == (ActionView::Inspect {
            staged: s.pending[s.index + 1].0,
            destination: s.pending[s.index + 1].1,
        }),
        s.index + 1 == s.pending.len() ==> next_entry(s, s.index + 1).1 == (ActionView::AfterAll {
            repo: s.repo,
            paths: destinations_of(s.pending),
        }),
{
    let events = seq![EventView::Answer(false), EventView::Done];
    let s1 = PersistState { phase: Phase::Skipping, ..s };
    assert(events.drop_first() == seq![EventView::Done]);
    assert(seq![EventView::Done].drop_first() == Seq::<EventView>::empty());
    assert(run(next_entry(s, s.index + 1).0, Seq::<EventView>::empty()) == Some(
        (next_entry(s, s.index + 1).0, Seq::<ActionView>::empty()),
    ));
    assert(run(s1, seq![EventView::Done]) == Some(
        (next_entry(s, s.index + 1).0, seq![next_entry(s, s.index + 1).1]),
    ));
}

/// Whether an event reports a destination whose content differs, by
/// checksum, from what was staged for it.
pub open spec fn reports_change(e: EventView) -> bool {
    match e {
        EventView::Present { staged_checksum, existing_checksum } => staged_checksum
            != existing_checksum,
        _ => false,
    }
}

proof fn lemma_confirm_needs_change(s: PersistState, e: EventView)
    requires
        step_spec(s, e) matches Some((_, a)) && a is Confirm,
    ensures
        reports_change(e),
{
}

/// A commit in which no existing destination differs from what was staged
/// for it, as when the same tree is applied a second time, never shows a
/// difference nor asks the operator, whatever else happens.
pub proof fn lemma_unchanged_tree_asks_nothing(s: PersistState, events: Seq<EventView>)
    requires
        forall|i: int| 0 <= i < events.len() ==> !reports_change(#[trigger] events[i]),
    ensures
        run(s, events) matches Some((_, actions)) ==> forall|k: int|
            0 <= k < actions.len() ==> !(#[trigger] actions[k] is Confirm),
    decreases events.len(),
{
    if events.len() > 0 {
        if let Some((next, a)) = step_spec(s, events[0]) {
            assert(!reports_change(events[0]));
            if a is Confirm {
                lemma_confirm_needs_change(s, events[0]);
            }
            assert forall|i: int| 0 <= i < events.drop_first().len() implies !reports_change(
                #[trigger] events.drop_first()[i],
            ) by {
                assert(events.drop_first()[i] == events[i + 1]);
            }
            lemma_unchanged_tree_asks_nothing(next, events.drop_first());
            if let Some((last, rest)) = run(next, events.drop_first()) {
                let actions = seq![a] + rest;
                assert forall|k: int| 0 <= k < actions.len() implies !(
                #[trigger] actions[k] is Confirm) by {
                    if k > 0 {
                        assert(actions[k] == rest[k - 1]);
                    }
                }
            }
        }
    }
}

proof fn lemma_step_keeps_entries(s: PersistState, e: EventView)
    requires
        state_wf(s),
    ensures
        step_spec(s, e) matches Some((t, _)) ==> {
            &&& state_wf(t)
            &&& t.pending == s.pending
            &&& t.repo == s.repo
            &&& t.diff_tool == s.diff_tool
        },
{
}

/// Every state that a commit reaches keeps the staged changes, the
/// repository and the diff tool it started with, and stays well formed; so
/// the laws above on the entry under inspection hold for each staged change
/// that the commit reaches from where `persist` starts it.
pub proof fn lemma_run_keeps_entries(s: PersistState, events: Seq<EventView>)
    requires
        state_wf(s),
    ensures
        run(s, events) matches Some((t, _)) ==> {
            &&& state_wf(t)
            &&& t.pending == s.pending
            &&& t.repo == s.repo
            &&& t.diff_tool == s.diff_tool
        },
    decreases events.len(),
{
    if events.len() > 0 {
        lemma_step_keeps_entries(s, events[0]);
        if let Some((next, _)) = step_spec(s, events[0]) {
            lemma_run_keeps_entries(next, events.drop_first());
        }
    }
}

/// The commit reaches the staged changes one after the other, in staging
/// order: it starts with the first, moves to the next once an entry has
/// been written or skipped, and after the last runs the closing hooks with
/// every destination, written or not.
pub proof fn lemma_entries_in_staging_order(b: BufferedView, s: PersistState)
    requires
        state_wf(s),
        s.phase == Phase::AfterEach,
    ensures
        step_spec(start_state(b), EventView::Done) == Some(next_entry(start_state(b), 0)),
        step_spec(s, EventView::Done) == Some(next_entry(s, s.index + 1)),
        s.index + 1 < s.pending.len() ==> next_entry(s, s.index + 1).1 == (ActionView::Inspect {
            staged: s.pending[s.index + 1].0,
            destination: s.pending[s.index + 1].1,
        }),
        s.index + 1 == s.pending.len() ==> next_entry(s, s.index + 1).1 == (ActionView::AfterAll {
            repo: s.repo,
            paths: destinations_of(s.pending),
        }),
{
}

} // verus!
