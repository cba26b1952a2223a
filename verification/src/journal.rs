//! The undo/redo journal and the in-flight bookkeeping of asynchronous undo.
use crate::ids::contains_id;
use crate::note::{DeskId, NoteId};
use crate::ops::{op_subject_ids, subject_ids, OpSource, VaultOp};
use crate::text::{extend_str, has_prefix, starts_with, string_from_chars};
use vstd::prelude::*;

verus! {

/// Where an operation happened: the desk it was on and the note it acted on.
#[derive(Clone, Copy, PartialEq, Eq, Debug, Structural, Default)]
pub struct OpContext {
    pub desk: Option<DeskId>,
    pub note: Option<NoteId>,
}

/// One undoable step: a label for the menu and the action that reverses it.
#[derive(Debug)]
pub struct JournalEntry<A> {
    pub label: String,
    pub inverse: A,
    pub context: OpContext,
}

/// The undo and redo stacks (tops last).
pub struct Journal<A> {
    undo: Vec<JournalEntry<A>>,
    redo: Vec<JournalEntry<A>>,
}

/// The journal's stacks as sequences, oldest entry first.
pub struct JournalModel<A> {
    pub undo: Seq<JournalEntry<A>>,
    pub redo: Seq<JournalEntry<A>>,
}

impl<A> View for Journal<A> {
    type V = JournalModel<A>;

    closed spec fn view(&self) -> JournalModel<A> {
        JournalModel { undo: self.undo@, redo: self.redo@ }
    }
}

impl<A> Journal<A> {
    /// An empty journal.
    pub fn new() -> (j: Journal<A>)
        ensures
            j@.undo.len() == 0,
            j@.redo.len() == 0,
    {
        Journal { undo: Vec::new(), redo: Vec::new() }
    }

    /// Records a fresh user action: it becomes the next undo, and the redo
    /// history is dropped.
    pub fn push(&mut self, entry: JournalEntry<A>)
        ensures
            final(self)@.undo == old(self)@.undo.push(entry),
            final(self)@.redo.len() == 0,
    {
        self.undo.push(entry);
        self.redo.clear();
    }

    /// Puts an entry back on the undo stack without touching redo (a redo
    /// that ran, or a failed undo being restored).
    pub fn push_undo_from_redo(&mut self, entry: JournalEntry<A>)
        ensures
            final(self)@.undo == old(self)@.undo.push(entry),
            final(self)@.redo == old(self)@.redo,
    {
        self.undo.push(entry);
    }

    /// Puts an entry on the redo stack.
    pub fn push_redo(&mut self, entry: JournalEntry<A>)
        ensures
            final(self)@.redo == old(self)@.redo.push(entry),
            final(self)@.undo == old(self)@.undo,
    {
        self.redo.push(entry);
    }

    /// Takes the top undo entry.
    pub fn pop_undo(&mut self) -> (r: Option<JournalEntry<A>>)
        ensures
            old(self)@.undo.len() == 0 ==> r is None && final(self)@.undo == old(self)@.undo,
            old(self)@.undo.len() > 0 ==> r == Some(old(self)@.undo.last()) && final(self)@.undo
                == old(self)@.undo.drop_last(),
            final(self)@.redo == old(self)@.redo,
    {
        self.undo.pop()
    }

    /// Takes the top redo entry.
    pub fn pop_redo(&mut self) -> (r: Option<JournalEntry<A>>)
        ensures
            old(self)@.redo.len() == 0 ==> r is None && final(self)@.redo == old(self)@.redo,
            old(self)@.redo.len() > 0 ==> r == Some(old(self)@.redo.last()) && final(self)@.redo
                == old(self)@.redo.drop_last(),
            final(self)@.undo == old(self)@.undo,
    {
        self.redo.pop()
    }

    /// Label of the entry the next undo would reverse.
    pub fn undo_label(&self) -> (r: Option<&str>)
        ensures
            self@.undo.len() == 0 ==> r is None,
            self@.undo.len() > 0 ==> (r matches Some(l) && l@ == self@.undo.last().label@),
    {
        if self.undo.len() == 0 {
            None
        } else {
            Some(self.undo[self.undo.len() - 1].label.as_str())
        }
    }

    /// Label of the entry the next redo would re-apply.
    pub fn redo_label(&self) -> (r: Option<&str>)
        ensures
            self@.redo.len() == 0 ==> r is None,
            self@.redo.len() > 0 ==> (r matches Some(l) && l@ == self@.redo.last().label@),
    {
        if self.redo.len() == 0 {
            None
        } else {
            Some(self.redo[self.redo.len() - 1].label.as_str())
        }
    }
}

/// Which stack an in-flight vault undo/redo came from.
#[derive(Clone, Copy, PartialEq, Eq, Debug, Structural)]
pub enum UndoRedoKind {
    Undo,
    Redo,
}

/// The journal plus the asynchronous undo/redo in flight, if any: while the
/// vault executes an undo/redo, its entry is stashed here.
pub struct UndoRedoState<A> {
    pub journal: Journal<A>,
    pub pending_undo_redo: Option<UndoRedoKind>,
    pub pending_undo_entry: Option<JournalEntry<A>>,
}

impl<A> UndoRedoState<A> {
    /// An empty journal with nothing in flight.
    pub fn new() -> (s: UndoRedoState<A>)
        ensures
            s.journal@.undo.len() == 0,
            s.journal@.redo.len() == 0,
            s.pending_undo_redo is None,
            s.pending_undo_entry is None,
    {
        UndoRedoState { journal: Journal::new(), pending_undo_redo: None, pending_undo_entry: None }
    }
}

/// If a vault undo/redo op fails, clear the in-flight guard and restore the
/// stashed entry to the stack it came from so the user can retry. Without
/// this the guard stays set and all future vault undo/redo is blocked.
pub fn restore_failed_undo_redo<A>(state: &mut UndoRedoState<A>)
    ensures
        final(state)@ == fail_model(old(state)@),
        final(state).pending_undo_redo is None,
        final(state).pending_undo_entry is None,
        old(state).pending_undo_redo == Some(UndoRedoKind::Undo)
            && old(state).pending_undo_entry is Some ==> final(state).journal@.undo == old(
            state,
        ).journal@.undo.push(old(state).pending_undo_entry->0) && final(state).journal@.redo
            == old(state).journal@.redo,
        old(state).pending_undo_redo == Some(UndoRedoKind::Redo)
            && old(state).pending_undo_entry is Some ==> final(state).journal@.redo == old(
            state,
        ).journal@.redo.push(old(state).pending_undo_entry->0) && final(state).journal@.undo
            == old(state).journal@.undo,
        old(state).pending_undo_redo is None || old(state).pending_undo_entry is None
            ==> final(state).journal@ == old(state).journal@,
{
    let kind = state.pending_undo_redo.take();
    let entry = state.pending_undo_entry.take();
    if let (Some(kind), Some(entry)) = (kind, entry) {
        match kind {
            UndoRedoKind::Undo => {
                // Entry was popped from undo; push it back without clearing redo.
                state.journal.push_undo_from_redo(entry);
            },
            UndoRedoKind::Redo => {
                state.journal.push_redo(entry);
            },
        }
    }
}

/// What reverses a journal entry: a vault op, or one or more session ops
/// (applied in order).
#[derive(Debug)]
pub enum InverseAction<S> {
    Vault(VaultOp),
    Session(S),
    Sessions(Vec<S>),
}

/// The journal's stacks and the undo/redo in flight, as values.
pub struct HistoryModel<A> {
    pub undo: Seq<JournalEntry<A>>,
    pub redo: Seq<JournalEntry<A>>,
    pub pending: Option<UndoRedoKind>,
    pub stash: Option<JournalEntry<A>>,
}

impl<A> View for UndoRedoState<A> {
    type V = HistoryModel<A>;

    open spec fn view(&self) -> HistoryModel<A> {
        HistoryModel {
            undo: self.journal@.undo,
            redo: self.journal@.redo,
            pending: self.pending_undo_redo,
            stash: self.pending_undo_entry,
        }
    }
}

/// The status line after an undo: `Undid: <label>`, and for a split the
/// note that its split-off card went to the trash.
pub open spec fn undo_echo(label: Seq<char>) -> Seq<char> {
    if has_prefix(label, "Split card"@) || has_prefix(label, "Split scrap"@) {
        "Undid: "@ + label + " (split-off card moved to trash)"@
    } else {
        "Undid: "@ + label
    }
}

/// The status line after a redo.
pub open spec fn redo_echo(label: Seq<char>) -> Seq<char> {
    "Redid: "@ + label
}

/// An undo (`kind == Undo`) or redo the user asked for. Nothing happens
/// while another vault undo/redo is in flight, or when the stack is empty.
/// Otherwise the top entry leaves its stack; a vault entry is stashed until
/// the vault answers, a session entry is handed to the app to apply.
pub open spec fn start_model<S>(
    m: HistoryModel<InverseAction<S>>,
    kind: UndoRedoKind,
) -> HistoryModel<InverseAction<S>> {
    let stack = if kind == UndoRedoKind::Undo { m.undo } else { m.redo };
    if m.pending is Some || stack.len() == 0 {
        m
    } else {
        let e = stack.last();
        let m1 = if kind == UndoRedoKind::Undo {
            HistoryModel { undo: m.undo.drop_last(), ..m }
        } else {
            HistoryModel { redo: m.redo.drop_last(), ..m }
        };
        if e.inverse is Vault {
            HistoryModel { pending: Some(kind), stash: Some(e), ..m1 }
        } else {
            m1
        }
    }
}

/// The vault reports that the in-flight undo/redo failed: the stashed entry
/// goes back to the stack it came from.
pub open spec fn fail_model<A>(m: HistoryModel<A>) -> HistoryModel<A> {
    match (m.pending, m.stash) {
        (Some(UndoRedoKind::Undo), Some(e)) => HistoryModel {
            undo: m.undo.push(e),
            redo: m.redo,
            pending: None,
            stash: None,
        },
        (Some(UndoRedoKind::Redo), Some(e)) => HistoryModel {
            undo: m.undo,
            redo: m.redo.push(e),
            pending: None,
            stash: None,
        },
        _ => HistoryModel { undo: m.undo, redo: m.redo, pending: None, stash: None },
    }
}

/// The vault finished the in-flight undo/redo and returned `fresh`, the
/// op that reverses it: the stashed entry, now reversed by `fresh`, goes to
/// the opposite stack. The in-flight bookkeeping is cleared either way.
pub open spec fn done_model<S>(
    m: HistoryModel<InverseAction<S>>,
    fresh: Option<VaultOp>,
) -> HistoryModel<InverseAction<S>> {
    match (m.pending, m.stash, fresh) {
        (Some(UndoRedoKind::Undo), Some(e), Some(f)) => HistoryModel {
            undo: m.undo,
            redo: m.redo.push(JournalEntry { inverse: InverseAction::Vault(f), ..e }),
            pending: None,
            stash: None,
        },
        (Some(UndoRedoKind::Redo), Some(e), Some(f)) => HistoryModel {
            undo: m.undo.push(JournalEntry { inverse: InverseAction::Vault(f), ..e }),
            redo: m.redo,
            pending: None,
            stash: None,
        },
        _ => HistoryModel { undo: m.undo, redo: m.redo, pending: None, stash: None },
    }
}

/// What the app must do for the undo or redo the user asked for.
#[derive(Debug)]
pub enum HistoryStep<S> {
    /// Nothing: a vault undo/redo is in flight, or the stack is empty.
    Idle,
    /// Show `echo` and send the vault op of the entry now stashed in
    /// `pending_undo_entry`; its answer comes back through `record_op_done`
    /// or `restore_failed_undo_redo`.
    SendVault { echo: String },
    /// Show `echo`, apply the entry's session op(s) in order and hand their
    /// inverses to `finish_session_step`.
    ApplySession { echo: String, entry: JournalEntry<InverseAction<S>> },
}

/// The status-line text for an undo or redo of `label`.
pub fn history_echo(kind: UndoRedoKind, label: &str) -> (e: String)
    ensures
        kind == UndoRedoKind::Undo ==> e@ == undo_echo(label@),
        kind == UndoRedoKind::Redo ==> e@ == redo_echo(label@),
{
    let mut out: Vec<char> = Vec::new();
    match kind {
        UndoRedoKind::Undo => {
            extend_str(&mut out, "Undid: ");
            extend_str(&mut out, label);
            if starts_with(label, "Split card") || starts_with(label, "Split scrap") {
                extend_str(&mut out, " (split-off card moved to trash)");
            }
        },
        UndoRedoKind::Redo => {
            extend_str(&mut out, "Redid: ");
            extend_str(&mut out, label);
        },
    }
    string_from_chars(&out)
}

/// Start the undo (`kind == Undo`, Ctrl+Z) or redo (Ctrl+Y) the user asked
/// for; see `start_model`.
pub fn start_history_step<S>(state: &mut UndoRedoState<InverseAction<S>>, kind: UndoRedoKind) -> (step:
    HistoryStep<S>)
    ensures
        final(state)@ == start_model(old(state)@, kind),
        ({
            let m = old(state)@;
            let stack = if kind == UndoRedoKind::Undo { m.undo } else { m.redo };
            &&& (m.pending is Some || stack.len() == 0) ==> step is Idle
            &&& (m.pending is None && stack.len() > 0 && stack.last().inverse is Vault) ==> (
            step matches HistoryStep::SendVault { echo } && (kind == UndoRedoKind::Undo ==> echo@
                == undo_echo(stack.last().label@)) && (kind == UndoRedoKind::Redo ==> echo@
                == redo_echo(stack.last().label@)))
            &&& (m.pending is None && stack.len() > 0 && !(stack.last().inverse is Vault)) ==> (
            step matches HistoryStep::ApplySession { echo, entry } && entry == stack.last() && (kind
                == UndoRedoKind::Undo ==> echo@ == undo_echo(stack.last().label@)) && (kind
                == UndoRedoKind::Redo ==> echo@ == redo_echo(stack.last().label@)))
        }),
{
    if state.pending_undo_redo.is_some() {
        return HistoryStep::Idle;
    }
    let popped = match kind {
        UndoRedoKind::Undo => state.journal.pop_undo(),
        UndoRedoKind::Redo => state.journal.pop_redo(),
    };
    let entry = match popped {
        Some(e) => e,
        None => {
            return HistoryStep::Idle;
        },
    };
    let echo = history_echo(kind, entry.label.as_str());
    if let InverseAction::Vault(_) = &entry.inverse {
        state.pending_undo_redo = Some(kind);
        state.pending_undo_entry = Some(entry);
        HistoryStep::SendVault { echo }
    } else {
        HistoryStep::ApplySession { echo, entry }
    }
}

/// `s` reversed.
pub fn reversed<T>(v: Vec<T>) -> (r: Vec<T>)
    ensures
        r@ == v@.reverse(),
{
    let mut rest = v;
    let mut out: Vec<T> = Vec::new();
    let ghost v0 = rest@;
    while rest.len() > 0
        invariant
            v0.reverse() == out@ + rest@.reverse(),
        decreases rest@.len(),
    {
        let ghost r0 = rest@;
        let x = rest.pop().unwrap();
        proof {
            assert(r0 =~= rest@.push(x));
            assert(r0.reverse() =~= seq![x] + rest@.reverse());
            assert(out@.push(x) + rest@.reverse() =~= out@ + r0.reverse());
        }
        out.push(x);
    }
    proof {
        assert(out@ + rest@.reverse() =~= out@);
    }
    out
}

/// A session undo/redo has been applied: `inverses` are the inverses of its
/// ops in the order they were applied (one when the entry held a single
/// `Session` op). The entry, now reversed by them in reverse order, goes to
/// the opposite stack: redo after an undo, undo (keeping redo) after a redo.
pub fn finish_session_step<S>(
    journal: &mut Journal<InverseAction<S>>,
    kind: UndoRedoKind,
    label: String,
    context: OpContext,
    inverses: Vec<S>,
    many: bool,
)
    requires
        !many ==> inverses@.len() == 1,
    ensures
        ({
            let top = if kind == UndoRedoKind::Undo {
                final(journal)@.redo.last()
            } else {
                final(journal)@.undo.last()
            };
            &&& kind == UndoRedoKind::Undo ==> final(journal)@.undo == old(journal)@.undo
                && final(journal)@.redo.len() == old(journal)@.redo.len() + 1
                && final(journal)@.redo.drop_last() == old(journal)@.redo
            &&& kind == UndoRedoKind::Redo ==> final(journal)@.redo == old(journal)@.redo
                && final(journal)@.undo.len() == old(journal)@.undo.len() + 1
                && final(journal)@.undo.drop_last() == old(journal)@.undo
            &&& top.label == label
            &&& top.context == context
            &&& many ==> (top.inverse matches InverseAction::Sessions(v) && v@ == inverses@.reverse())
            &&& !many ==> top.inverse == InverseAction::Session(inverses@[0])
        }),
{
    let mut inverses = inverses;
    let ghost inv0 = inverses@;
    let inverse = if many {
        InverseAction::Sessions(reversed(inverses))
    } else {
        InverseAction::Session(inverses.pop().unwrap())
    };
    let entry = JournalEntry { label, inverse, context };
    match kind {
        UndoRedoKind::Undo => journal.push_redo(entry),
        UndoRedoKind::Redo => journal.push_undo_from_redo(entry),
    }
    proof {
        assert(journal@.undo.drop_last() =~= old(journal)@.undo || kind == UndoRedoKind::Undo);
        assert(journal@.redo.drop_last() =~= old(journal)@.redo || kind == UndoRedoKind::Redo);
    }
}

/// The vault finished an op. A user op with an inverse becomes the next
/// undo (labelled by `pending_label` when one was set for it, else by the
/// vault's label; its context is the current desk and the op's first
/// subject). An undo/redo's answer moves its stashed entry to the opposite
/// stack (see `done_model`) and returns the context to travel to.
pub fn record_op_done<S>(
    state: &mut UndoRedoState<InverseAction<S>>,
    source: OpSource,
    label: String,
    inverse: Option<VaultOp>,
    pending_label: &mut Option<String>,
    current_desk: Option<DeskId>,
) -> (travel: Option<OpContext>)
    ensures
        source == OpSource::User && inverse is Some ==> ({
            let inv = inverse->0;
            let subjects = subject_ids(inv);
            &&& final(state)@.undo == old(state)@.undo.push(
                JournalEntry {
                    label: match *old(pending_label) {
                        Some(l) => l,
                        None => label,
                    },
                    inverse: InverseAction::Vault(inv),
                    context: OpContext {
                        desk: current_desk,
                        note: if subjects.len() > 0 { Some(subjects[0]) } else { None },
                    },
                },
            )
            &&& final(state)@.redo.len() == 0
            &&& final(state)@.pending == old(state)@.pending
            &&& final(state)@.stash == old(state)@.stash
            &&& *final(pending_label) is None
            &&& travel is None
        }),
        source == OpSource::User && inverse is None ==> final(state)@ == old(state)@
            && *final(pending_label) == *old(pending_label) && travel is None,
        source == OpSource::UndoRedo ==> final(state)@ == done_model(old(state)@, inverse)
            && *final(pending_label) == *old(pending_label) && (match (
            old(state)@.pending,
            old(state)@.stash,
            inverse,
        ) {
            (Some(_), Some(e), Some(_)) => travel == Some(e.context),
            _ => travel is None,
        }),
{
    match source {
        OpSource::User => {
            if let Some(inv) = inverse {
                let label = match pending_label.take() {
                    Some(l) => l,
                    None => label,
                };
                let mut subjects: Vec<NoteId> = Vec::new();
                op_subject_ids(&inv, &mut subjects);
                proof {
                    assert(subjects@ =~= subject_ids(inv));
                }
                let note = if subjects.len() > 0 {
                    Some(subjects[0])
                } else {
                    None
                };
                let context = OpContext { desk: current_desk, note };
                state.journal.push(JournalEntry { label, inverse: InverseAction::Vault(inv), context });
            }
            None
        },
        OpSource::UndoRedo => {
            let kind = state.pending_undo_redo.take();
            let stashed = state.pending_undo_entry.take();
            match (kind, stashed, inverse) {
                (Some(kind), Some(stashed), Some(fresh)) => {
                    let context = stashed.context;
                    let entry = JournalEntry {
                        label: stashed.label,
                        inverse: InverseAction::Vault(fresh),
                        context,
                    };
                    match kind {
                        UndoRedoKind::Undo => state.journal.push_redo(entry),
                        UndoRedoKind::Redo => state.journal.push_undo_from_redo(entry),
                    }
                    Some(context)
                },
                _ => None,
            }
        },
    }
}

/// While a vault undo/redo is in flight, asking for another undo or redo
/// changes nothing.
pub proof fn lemma_in_flight_blocks<S>(m: HistoryModel<InverseAction<S>>, kind: UndoRedoKind)
    requires
        m.pending is Some,
    ensures
        start_model(m, kind) == m,
{
}

/// A vault undo (or redo) that fails leaves the history exactly as it was
/// before it was asked for.
pub proof fn lemma_failed_step_restores<S>(m: HistoryModel<InverseAction<S>>, kind: UndoRedoKind)
    requires
        m.pending is None,
        m.stash is None,
        kind == UndoRedoKind::Undo ==> m.undo.len() > 0 && m.undo.last().inverse is Vault,
        kind == UndoRedoKind::Redo ==> m.redo.len() > 0 && m.redo.last().inverse is Vault,
    ensures
        fail_model(start_model(m, kind)) == m,
{
    assert(m.undo.drop_last().push(m.undo.last()) =~= m.undo || kind == UndoRedoKind::Redo);
    assert(m.redo.drop_last().push(m.redo.last()) =~= m.redo || kind == UndoRedoKind::Undo);
}

/// A vault undo that succeeds, followed by a redo of it that succeeds,
/// puts the entry back on top of the undo stack (reversed by the vault's
/// latest inverse) and leaves the redo stack as it was.
pub proof fn lemma_undo_redo_round_trip<S>(m: HistoryModel<InverseAction<S>>, f: VaultOp, g: VaultOp)
    requires
        m.pending is None,
        m.stash is None,
        m.undo.len() > 0,
        m.undo.last().inverse is Vault,
    ensures
        ({
            let after_undo = done_model(start_model(m, UndoRedoKind::Undo), Some(f));
            let after_redo = done_model(start_model(after_undo, UndoRedoKind::Redo), Some(g));
            &&& after_redo.undo == m.undo.drop_last().push(
                JournalEntry { inverse: InverseAction::Vault(g), ..m.undo.last() },
            )
            &&& after_redo.redo == m.redo
            &&& after_redo.pending is None
            &&& after_redo.stash is None
        }),
{
    let e = m.undo.last();
    let a = done_model(start_model(m, UndoRedoKind::Undo), Some(f));
    assert(a.redo == m.redo.push(JournalEntry { inverse: InverseAction::Vault(f), ..e }));
    assert(a.redo.drop_last() =~= m.redo);
}

/// Where an undone or redone entry takes the view.
#[derive(Debug, Clone, Copy, PartialEq, Eq, Structural)]
pub enum Travel {
    /// The entry names no desk, or its desk is gone: the view stays.
    Stay,
    /// Show `desk` (`switch`: it is not the current surface) and, when the
    /// entry's note is a card on it, reveal that card.
    Go { desk: DeskId, switch: bool, reveal: Option<NoteId> },
}

/// Travel for an entry with context `ctx`, given the existing `desks`, the
/// desk shown now (`None` on another surface) and the cards on the entry's
/// desk.
pub fn view_travel(ctx: OpContext, desks: &[DeskId], current_desk: Option<DeskId>, desk_cards: &[NoteId]) -> (t:
    Travel)
    ensures
        ctx.desk is None ==> t is Stay,
        (ctx.desk is Some && !desks@.contains(ctx.desk->0)) ==> t is Stay,
        (ctx.desk is Some && desks@.contains(ctx.desk->0)) ==> t == (Travel::Go {
            desk: ctx.desk->0,
            switch: current_desk != ctx.desk,
            reveal: if ctx.note is Some && desk_cards@.contains(ctx.note->0) {
                ctx.note
            } else {
                None
            },
        }),
{
    let desk = match ctx.desk {
        Some(d) => d,
        None => {
            return Travel::Stay;
        },
    };
    let mut i: usize = 0;
    let mut found = false;
    while i < desks.len()
        invariant
            i <= desks@.len(),
            found == desks@.take(i as int).contains(desk),
        decreases desks@.len() - i,
    {
        proof {
            assert(desks@.take(i + 1) =~= desks@.take(i as int).push(desks@[i as int]));
            if desks@.take(i as int).contains(desk) {
                let k = choose|k: int| 0 <= k < i && #[trigger] desks@.take(i as int)[k] == desk;
                assert(desks@.take(i + 1)[k] == desk);
            }
            if desks@.take(i + 1).contains(desk) && desks@[i as int] != desk {
                let k = choose|k: int| 0 <= k < i + 1 && #[trigger] desks@.take(i + 1)[k] == desk;
                assert(desks@.take(i as int)[k] == desk);
            }
            if desks@[i as int] == desk {
                assert(desks@.take(i + 1)[i as int] == desk);
            }
        }
        if desks[i].0 == desk.0 {
            found = true;
        }
        i = i + 1;
    }
    proof {
        assert(desks@.take(desks@.len() as int) =~= desks@);
    }
    if !found {
        return Travel::Stay;
    }
    let switch = match current_desk {
        Some(c) => c.0 != desk.0,
        None => true,
    };
    let reveal = match ctx.note {
        Some(n) => if contains_id(desk_cards, n) {
            Some(n)
        } else {
            None
        },
        None => None,
    };
    Travel::Go { desk, switch, reveal }
}

} // verus!
