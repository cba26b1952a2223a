//! What the app does with the vault's reports: scans, outside changes,
//! failed operations, errors and sync conflicts.
use crate::journal::{fail_model, restore_failed_undo_redo, UndoRedoState};
use crate::ids::{contains_id, push_unique};
use crate::note::{DeskId, NoteId};
use crate::session::{desks_model, DeskCards, DeskModel};
use crate::state::{key_set, BodyCache};
use crate::text::{extend_str, string_from_chars};
use vstd::prelude::*;

verus! {

/// A vault file the scan could not read, and why.
#[derive(Debug, Clone)]
pub struct QuarantinedFile {
    pub rel_path: String,
    pub error: String,
}

/// What the app keeps of the vault's reports.
pub struct VaultStatus {
    /// The first scan has finished.
    pub scan_done: bool,
    /// The files the latest scan could not read.
    pub quarantined: Vec<QuarantinedFile>,
    /// Notes with a sync conflict, each once, in arrival order.
    pub conflicts: Vec<NoteId>,
    /// The label the next user operation is journaled under, if one was set.
    pub pending_label: Option<String>,
    /// The last error to show.
    pub last_error: Option<String>,
}

/// A report from the vault worker.
#[derive(Debug)]
pub enum VaultEvent {
    /// A full scan finished; these files were quarantined.
    ScanComplete { quarantined: Vec<QuarantinedFile> },
    /// Files changed or were removed outside the app.
    External { changed: Vec<NoteId>, removed: Vec<NoteId> },
    /// An operation failed.
    OpFailed { label: String, message: String },
    /// Some other error.
    Error { context: String, message: String },
    /// A note has a sync-conflict copy.
    Conflict { id: NoteId },
}

/// `cards` without the cards of `ids`.
pub open spec fn without_all<P>(cards: Seq<(NoteId, P)>, ids: Seq<NoteId>) -> Seq<(NoteId, P)>
    decreases cards.len(),
{
    if cards.len() == 0 {
        cards
    } else {
        let w = without_all(cards.drop_last(), ids);
        if ids.contains(cards.last().0) {
            w
        } else {
            w.push(cards.last())
        }
    }
}

/// `cards` keeping only the cards of `ids`.
pub open spec fn only<P>(cards: Seq<(NoteId, P)>, ids: Seq<NoteId>) -> Seq<(NoteId, P)>
    decreases cards.len(),
{
    if cards.len() == 0 {
        cards
    } else {
        let w = only(cards.drop_last(), ids);
        if ids.contains(cards.last().0) {
            w.push(cards.last())
        } else {
            w
        }
    }
}

/// The desks with the cards of each desk replaced by `f` of them.
pub open spec fn map_cards<P>(
    d: Seq<DeskModel<P>>,
    f: spec_fn(Seq<(NoteId, P)>) -> Seq<(NoteId, P)>,
) -> Seq<DeskModel<P>> {
    Seq::new(
        d.len(),
        |i: int| DeskModel { id: d[i].id, name: d[i].name, center: d[i].center, cards: f(d[i].cards) },
    )
}

/// `cards` filtered: kept where their id is in `ids` exactly when `keep`.
fn filter_cards<P: Copy>(cards: &Vec<(NoteId, P)>, ids: &[NoteId], keep: bool) -> (r: Vec<(NoteId, P)>)
    ensures
        keep ==> r@ == only(cards@, ids@),
        !keep ==> r@ == without_all(cards@, ids@),
{
    let mut out: Vec<(NoteId, P)> = Vec::new();
    let mut i: usize = 0;
    while i < cards.len()
        invariant
            i <= cards@.len(),
            keep ==> out@ == only(cards@.take(i as int), ids@),
            !keep ==> out@ == without_all(cards@.take(i as int), ids@),
        decreases cards@.len() - i,
    {
        let c = cards[i];
        proof {
            assert(cards@.take(i + 1).drop_last() =~= cards@.take(i as int));
        }
        if contains_id(ids, c.0) == keep {
            out.push(c);
        }
        i = i + 1;
    }
    proof {
        assert(cards@.take(cards@.len() as int) =~= cards@);
    }
    out
}

/// Filters the cards of every desk (see `filter_cards`).
fn filter_desks<P: Copy>(desks: &mut Vec<DeskCards<P>>, ids: &[NoteId], keep: bool)
    ensures
        keep ==> desks_model(final(desks)@) == map_cards(
            desks_model(old(desks)@),
            |c: Seq<(NoteId, P)>| only(c, ids@),
        ),
        !keep ==> desks_model(final(desks)@) == map_cards(
            desks_model(old(desks)@),
            |c: Seq<(NoteId, P)>| without_all(c, ids@),
        ),
{
    let ghost d0 = desks@;
    let mut i: usize = 0;
    while i < desks.len()
        invariant
            i <= desks@.len(),
            desks@.len() == d0.len(),
            forall|j: int|
                0 <= j < i ==> (#[trigger] desks@[j]).model() == (DeskModel {
                    id: d0[j].id,
                    name: d0[j].name@,
                    center: d0[j].center,
                    cards: if keep {
                        only(d0[j].cards@, ids@)
                    } else {
                        without_all(d0[j].cards@, ids@)
                    },
                }),
            forall|j: int| i <= j < desks@.len() ==> #[trigger] desks@[j] == d0[j],
        decreases desks@.len() - i,
    {
        let mut dk = desks.remove(i);
        dk.cards = filter_cards(&dk.cards, ids, keep);
        desks.insert(i, dk);
        i = i + 1;
    }
    proof {
        if keep {
            assert(desks_model(desks@) =~= map_cards(desks_model(d0), |c: Seq<(NoteId, P)>| only(c, ids@)));
        } else {
            assert(desks_model(desks@) =~= map_cards(
                desks_model(d0),
                |c: Seq<(NoteId, P)>| without_all(c, ids@),
            ));
        }
    }
}

/// After an operation, takes off every desk the cards whose note the index
/// no longer holds (`indexed` are the notes it holds); returns whether any
/// card went.
pub fn drop_unindexed<P: Copy>(desks: &mut Vec<DeskCards<P>>, indexed: &[NoteId]) -> (any_removed: bool)
    ensures
        desks_model(final(desks)@) == map_cards(
            desks_model(old(desks)@),
            |c: Seq<(NoteId, P)>| only(c, indexed@),
        ),
        any_removed == (desks_model(final(desks)@) != desks_model(old(desks)@)),
{
    let ghost d0 = desks_model(desks@);
    let mut before: Vec<usize> = Vec::new();
    let mut i: usize = 0;
    while i < desks.len()
        invariant
            i <= desks@.len(),
            before@.len() == i,
            forall|j: int| 0 <= j < i ==> #[trigger] before@[j] == desks@[j].cards@.len(),
        decreases desks@.len() - i,
    {
        before.push(desks[i].cards.len());
        i = i + 1;
    }
    let ghost d_old = desks@;
    filter_desks(desks, indexed, true);
    let ghost d1 = desks_model(desks@);
    proof {
        assert(d1.len() == d0.len());
        assert(desks@.len() == d1.len());
        assert forall|j: int| 0 <= j < before@.len() implies #[trigger] before@[j] == d0[j].cards.len() by {
            assert(d0[j].cards == d_old[j].cards@);
        }
    }
    let mut any = false;
    let mut k: usize = 0;
    while k < desks.len()
        invariant
            k <= desks@.len(),
            desks@.len() == before@.len(),
            d0.len() == before@.len(),
            d1 == desks_model(desks@),
            d1 == map_cards(d0, |c: Seq<(NoteId, P)>| only(c, indexed@)),
            forall|j: int| 0 <= j < before@.len() ==> #[trigger] before@[j] == d0[j].cards.len(),
            any == exists|j: int| 0 <= j < k && #[trigger] d1[j].cards.len() != d0[j].cards.len(),
        decreases desks@.len() - k,
    {
        if desks[k].cards.len() != before[k] {
            any = true;
        }
        proof {
            assert(d1[k as int].cards.len() == desks@[k as int].cards@.len());
        }
        k = k + 1;
    }
    proof {
        assert forall|j: int| 0 <= j < d0.len() implies #[trigger] d1[j].cards.len() <= d0[j].cards.len()
            && (d1[j].cards.len() == d0[j].cards.len() ==> d1[j].cards == d0[j].cards) by {
            lemma_only_shrinks(d0[j].cards, indexed@);
        }
        if any {
            let j = choose|j: int| 0 <= j < k && #[trigger] d1[j].cards.len() != d0[j].cards.len();
            assert(d1[j] != d0[j]);
        } else {
            assert forall|j: int| 0 <= j < d0.len() implies #[trigger] d1[j] == d0[j] by {
                lemma_only_shrinks(d0[j].cards, indexed@);
                assert(d1[j].cards.len() == d0[j].cards.len());
            }
            assert(d1 =~= d0);
        }
    }
    any
}

/// Filtering never adds a card, and keeps every card exactly when it keeps
/// as many.
proof fn lemma_only_shrinks<P>(cards: Seq<(NoteId, P)>, ids: Seq<NoteId>)
    ensures
        only(cards, ids).len() <= cards.len(),
        only(cards, ids).len() == cards.len() ==> only(cards, ids) == cards,
    decreases cards.len(),
{
    if cards.len() > 0 {
        lemma_only_shrinks(cards.drop_last(), ids);
        if only(cards, ids).len() == cards.len() {
            assert(ids.contains(cards.last().0));
            assert(only(cards, ids) =~= cards);
        }
    }
}

/// `a: b` as an error line.
fn error_line(a: &String, b: &String) -> (s: String)
    ensures
        s@ == a@ + ": "@ + b@,
{
    let mut v: Vec<char> = Vec::new();
    extend_str(&mut v, a.as_str());
    extend_str(&mut v, ": ");
    extend_str(&mut v, b.as_str());
    string_from_chars(&v)
}

/// Handles one report from the vault worker.
/// - ScanComplete: the scan is done and its quarantine list replaces the
///   previous one; every cached body is dropped; when there are no desks
///   yet a first desk "Desk" (`new_id`, centred on `origin`) is created,
///   unjournaled, and returned to switch to.
/// - External: the bodies of changed and removed notes are dropped, and
///   removed notes leave every desk.
/// - OpFailed: the error is shown, the pending journal label is cleared and
///   a vault undo/redo in flight is put back (see `restore_failed_undo_redo`).
/// - Error: the error is shown.
/// - Conflict: the note is added to the conflicts unless already there.
/// Everything else stays as it was.
pub fn vault_event_step<P: Copy, A>(
    ev: VaultEvent,
    status: &mut VaultStatus,
    desks: &mut Vec<DeskCards<P>>,
    bodies: &mut BodyCache,
    history: &mut UndoRedoState<A>,
    new_id: DeskId,
    origin: P,
) -> (switch_to: Option<DeskId>)
    ensures
        ev is ScanComplete || ev is External ==> final(status).pending_label == old(status).pending_label
            && final(status).last_error == old(status).last_error,
        !(ev is ScanComplete) ==> final(status).scan_done == old(status).scan_done
            && final(status).quarantined@ == old(status).quarantined@,
        !(ev is Conflict) ==> final(status).conflicts@ == old(status).conflicts@,
        !(ev is OpFailed) ==> final(history)@ == old(history)@ && final(history).pending_undo_redo
            == old(history).pending_undo_redo && final(history).pending_undo_entry == old(
            history,
        ).pending_undo_entry,
        !(ev is ScanComplete) ==> switch_to is None,
        !(ev is ScanComplete || ev is External) ==> desks_model(final(desks)@) == desks_model(
            old(desks)@,
        ) && final(bodies)@ == old(bodies)@,
        ev matches VaultEvent::ScanComplete { quarantined } ==> {
            &&& final(status).scan_done
            &&& final(status).quarantined@ == quarantined@
            &&& final(bodies)@.bodies == Map::<u128, Seq<char>>::empty()
            &&& final(bodies)@.pending == Set::<u128>::empty()
            &&& old(desks)@.len() == 0 ==> desks_model(final(desks)@) == seq![
                DeskModel { id: new_id, name: "Desk"@, center: origin, cards: Seq::<(NoteId, P)>::empty() },
            ] && switch_to == Some(new_id)
            &&& old(desks)@.len() > 0 ==> desks_model(final(desks)@) == desks_model(old(desks)@)
                && switch_to is None
        },
        ev matches VaultEvent::External { changed, removed } ==> {
            &&& final(bodies)@.bodies == old(bodies)@.bodies.remove_keys(key_set(changed@)).remove_keys(
                key_set(removed@),
            )
            &&& final(bodies)@.pending == old(bodies)@.pending.difference(key_set(changed@)).difference(
                key_set(removed@),
            )
            &&& desks_model(final(desks)@) == map_cards(
                desks_model(old(desks)@),
                |c: Seq<(NoteId, P)>| without_all(c, removed@),
            )
        },
        ev matches VaultEvent::OpFailed { label, message } ==> {
            &&& final(status).last_error matches Some(e) && e@ == label@ + ": "@ + message@
            &&& final(status).pending_label is None
            &&& final(history)@ == fail_model(old(history)@)
            &&& final(history).pending_undo_redo is None
            &&& final(history).pending_undo_entry is None
        },
        ev matches VaultEvent::Error { context, message } ==> {
            &&& final(status).last_error matches Some(e) && e@ == context@ + ": "@ + message@
            &&& final(status).pending_label == old(status).pending_label
        },
        ev matches VaultEvent::Conflict { id } ==> {
            &&& old(status).conflicts@.contains(id) ==> final(status).conflicts@ == old(status).conflicts@
            &&& !old(status).conflicts@.contains(id) ==> final(status).conflicts@ == old(
                status,
            ).conflicts@.push(id)
            &&& final(status).pending_label == old(status).pending_label
            &&& final(status).last_error == old(status).last_error
        },
{
    match ev {
        VaultEvent::ScanComplete { quarantined } => {
            status.scan_done = true;
            status.quarantined = quarantined;
            bodies.invalidate_all();
            if desks.len() == 0 {
                let mut v: Vec<char> = Vec::new();
                extend_str(&mut v, "Desk");
                desks.push(DeskCards { id: new_id, name: string_from_chars(&v), center: origin, cards: Vec::new() });
                proof {
                    assert(desks_model(desks@) =~= seq![
                        DeskModel { id: new_id, name: "Desk"@, center: origin, cards: Seq::<(NoteId, P)>::empty() },
                    ]);
                }
                Some(new_id)
            } else {
                None
            }
        },
        VaultEvent::External { changed, removed } => {
            bodies.invalidate_many(changed.as_slice());
            bodies.invalidate_many(removed.as_slice());
            filter_desks(desks, removed.as_slice(), false);
            None
        },
        VaultEvent::OpFailed { label, message } => {
            status.last_error = Some(error_line(&label, &message));
            status.pending_label = None;
            restore_failed_undo_redo(history);
            None
        },
        VaultEvent::Error { context, message } => {
            status.last_error = Some(error_line(&context, &message));
            None
        },
        VaultEvent::Conflict { id } => {
            push_unique(&mut status.conflicts, id);
            None
        },
    }
}

} // verus!
