//! What holds of every recovery, from whatever state it starts.

use vstd::prelude::*;

use crate::git_swap::{
    actions_of, give_up_actions, install_steps, put_back_actions, rebuilt_is_lost, recovery_steps,
    steps_view, Disk, Found, JournalState, OnFailure, Severity, Step, SwapAction,
};

verus! {

/// Actions are carried out one after another.
proof fn lemma_then(d: Disk, actions: Seq<SwapAction>, last: SwapAction)
    ensures
        d.after_all(actions.push(last)) == d.after_all(actions).after(last),
{
    assert(actions.push(last).drop_last() == actions);
}

/// What recovery leaves of any state whatever. Without a journal, the state. Before the
/// swap was announced, the live repository and nothing else. After: the rebuilt repository
/// where it can be told to be one that is not yet installed, else the old one where only
/// that is left, else what is live; and nothing else, but that the scratch directory is not
/// looked at where the old repository is put back. In that one case the purge is reported
/// as lost.
pub proof fn law_recovery_from_any_state(d: Disk)
    ensures
        ({
            let left = d.after_all(d.recovery());
            let lost = d.journal == Some(JournalState::Swapping) && d.live is None && d.new is None
                && d.retired is Some;
            &&& rebuilt_is_lost(d.journal, d.found()) == lost
            &&& d.journal is None ==> left == d
            &&& d.journal is Some ==> left.journal is None && left.new is None
            &&& d.journal is Some ==> left.retired is None && left.scratch == (d.scratch && lost)
            &&& d.journal == Some(JournalState::Prepared) ==> left.live == d.live
            &&& d.journal == Some(JournalState::Swapping) ==> left.live == if d.live is None
                && d.new is None {
                d.retired
            } else if d.live is None || (d.new is Some && d.retired is None) {
                d.new
            } else {
                d.live
            }
        }),
{
    let none = Seq::<SwapAction>::empty();
    let scratch = SwapAction::RemoveScratch;
    let retired = SwapAction::RemoveRetired;
    let journal = SwapAction::RemoveJournal;
    let install = SwapAction::InstallNew;
    let retire = SwapAction::RetireLive;
    let restore = SwapAction::RestoreRetired;
    let actions = d.recovery();
    assert(d.after_all(none) == d);
    if d.journal is None {
        assert(actions =~= none);
    } else if d.journal == Some(JournalState::Prepared) {
        assert(actions =~= none.push(scratch).push(retired).push(journal));
        lemma_then(d, none, scratch);
        lemma_then(d, none.push(scratch), retired);
        lemma_then(d, none.push(scratch).push(retired), journal);
    } else if d.live is Some && d.new is Some && d.retired is None {
        let a = none.push(retire);
        let b = a.push(install);
        let c = b.push(retired);
        let e = c.push(scratch);
        assert(actions =~= e.push(journal));
        lemma_then(d, none, retire);
        lemma_then(d, a, install);
        lemma_then(d, b, retired);
        lemma_then(d, c, scratch);
        lemma_then(d, e, journal);
    } else if d.live is None && d.new is Some {
        let a = none.push(install);
        lemma_then(d, none, install);
        let b = if d.retired is Some {
            a.push(retired)
        } else {
            a
        };
        lemma_then(d, a, retired);
        let c = b.push(scratch);
        assert(actions =~= c.push(journal));
        lemma_then(d, b, scratch);
        lemma_then(d, c, journal);
    } else if d.live is None && d.retired is Some {
        assert(actions =~= none.push(restore).push(journal));
        lemma_then(d, none, restore);
        lemma_then(d, none.push(restore), journal);
    } else {
        let a = if d.retired is Some {
            none.push(retired)
        } else {
            none
        };
        lemma_then(d, none, retired);
        let b = a.push(scratch);
        assert(actions =~= b.push(journal));
        lemma_then(d, a, scratch);
        lemma_then(d, b, journal);
    }
}

/// What a failing step means. Clearing up the scratch directory may fail, and so may, where
/// nothing was swapped, removing what was moved aside; the journal of a swap is written or
/// the swap does not begin; where the rebuilt repository cannot be moved into place during a
/// swap, the old one is put back; and whatever else fails stops everything.
pub proof fn law_failures_are_not_passed_over(
    state: Option<JournalState>,
    found: Found,
    k: int,
)
    ensures
        0 <= k < install_steps().len() ==> {
            let s = install_steps()[k];
            &&& s.on_failure is Ignore <==> s.action == SwapAction::RemoveScratch
            &&& s.on_failure is Report <==> s.action is WriteJournal
            &&& s.on_failure is PutBack <==> s.action == SwapAction::InstallNew
        },
        0 <= k < recovery_steps(state, found).len() ==> {
            let s = recovery_steps(state, found)[k];
            &&& s.on_failure is Ignore <==> s.action == SwapAction::RemoveScratch || (state
                == Some(JournalState::Prepared) && s.action == SwapAction::RemoveRetired)
            &&& s.on_failure is Ignore || s.on_failure is Fail
        },
{
}

/// What a failing step says was being done.
pub proof fn law_failures_say_what_was_being_done(
    state: Option<JournalState>,
    found: Found,
    k: int,
)
    ensures
        0 <= k < install_steps().len() ==> {
            let s = install_steps()[k];
            &&& s.action == SwapAction::RetireLive ==> s.on_failure == Severity::Fail(
                "retiring old .git"@,
            )
            &&& s.action == SwapAction::InstallNew ==> s.on_failure == Severity::PutBack(
                "installing rebuilt .git"@,
            )
            &&& s.action == SwapAction::RemoveRetired ==> s.on_failure == Severity::Fail(
                "removing retired .git"@,
            )
            &&& s.action == SwapAction::RemoveJournal ==> s.on_failure == Severity::Fail(
                "removing purge journal"@,
            )
        },
        0 <= k < recovery_steps(state, found).len() ==> {
            let s = recovery_steps(state, found)[k];
            &&& s.action == SwapAction::RetireLive ==> s.on_failure == Severity::Fail(
                "retiring old .git during recovery"@,
            )
            &&& s.action == SwapAction::InstallNew ==> s.on_failure == Severity::Fail(
                "installing rebuilt .git during recovery"@,
            )
            &&& s.action == SwapAction::RestoreRetired ==> s.on_failure == Severity::Fail(
                "restoring old .git during recovery"@,
            )
            &&& s.action == SwapAction::RemoveRetired && state == Some(JournalState::Swapping)
                ==> s.on_failure == Severity::Fail("removing retired .git during recovery"@)
            &&& s.action == SwapAction::RemoveJournal ==> s.on_failure == Severity::Fail(
                "removing purge journal"@,
            )
        },
{
}

/// The journal comes first and goes last: a swap writes it, as prepared and then as
/// swapping, before it moves anything, and removes it as its last action; and a recovery,
/// where there is one, ends with its removal and never writes it.
pub proof fn law_the_journal_spans_the_swap(state: Option<JournalState>, found: Found)
    ensures
        ({
            let swap = actions_of(install_steps());
            let undo = actions_of(recovery_steps(state, found));
            &&& swap.len() == 7
            &&& swap[0] == SwapAction::WriteJournal(JournalState::Prepared)
            &&& swap[1] == SwapAction::WriteJournal(JournalState::Swapping)
            &&& forall|k: int|
                2 <= k < swap.len() ==> (#[trigger] swap[k] == SwapAction::RemoveJournal <==> k
                    == swap.len() - 1) && !(swap[k] is WriteJournal)
            &&& undo.len() == 0 <==> state is None
            &&& forall|k: int|
                0 <= k < undo.len() ==> (#[trigger] undo[k] == SwapAction::RemoveJournal <==> k
                    == undo.len() - 1) && !(undo[k] is WriteJournal)
        }),
{
}

/// What is done, action by action: to swap a verified replacement in, to put the old
/// repository back where that fails, to give an unverified one up, and to recover.
pub proof fn law_actions_in_their_order(state: Option<JournalState>, found: Found)
    ensures
        actions_of(install_steps()) == seq![
            SwapAction::WriteJournal(JournalState::Prepared),
            SwapAction::WriteJournal(JournalState::Swapping),
            SwapAction::RetireLive,
            SwapAction::InstallNew,
            SwapAction::RemoveRetired,
            SwapAction::RemoveScratch,
            SwapAction::RemoveJournal,
        ],
        put_back_actions() == seq![
            SwapAction::RestoreRetired,
            SwapAction::RemoveScratch,
            SwapAction::RemoveJournal,
        ],
        give_up_actions() == seq![SwapAction::RemoveScratch],
        actions_of(recovery_steps(state, found)) == if state is None {
            Seq::empty()
        } else if state == Some(JournalState::Prepared) {
            seq![SwapAction::RemoveScratch, SwapAction::RemoveRetired, SwapAction::RemoveJournal]
        } else if !found.live && !found.new && found.retired {
            seq![SwapAction::RestoreRetired, SwapAction::RemoveJournal]
        } else {
            (if found.live && found.new && !found.retired {
                seq![SwapAction::RetireLive, SwapAction::InstallNew, SwapAction::RemoveRetired]
            } else if !found.live && found.new && found.retired {
                seq![SwapAction::InstallNew, SwapAction::RemoveRetired]
            } else if !found.live && found.new {
                seq![SwapAction::InstallNew]
            } else if found.retired {
                seq![SwapAction::RemoveRetired]
            } else {
                Seq::empty()
            }) + seq![SwapAction::RemoveScratch, SwapAction::RemoveJournal]
        },
{
}

/// A step says what it holds.
pub proof fn law_a_step_says_what_it_holds(steps: Seq<Step>, k: int)
    requires
        0 <= k < steps.len(),
    ensures
        steps_view(steps).len() == steps.len(),
        steps_view(steps)[k].action == steps[k].action,
        steps[k].on_failure is Ignore ==> steps_view(steps)[k].on_failure is Ignore,
        steps[k].on_failure is Report ==> steps_view(steps)[k].on_failure is Report,
        steps[k].on_failure matches OnFailure::Fail(c) ==> steps_view(steps)[k].on_failure
            == Severity::Fail(c@),
        steps[k].on_failure matches OnFailure::PutBack(c) ==> steps_view(steps)[k].on_failure
            == Severity::PutBack(c@),
{
}

} // verus!
