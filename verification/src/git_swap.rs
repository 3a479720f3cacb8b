//! Swapping the rebuilt repository in, and finishing or undoing an interrupted swap.
//!
//! There is no portable atomic exchange of directories, so the swap is two renames.
//! A durable journal records the purge across them: its presence at startup always
//! means that a purge was interrupted. What to do is decided here as a list of
//! steps; the caller performs them one by one.

use vstd::prelude::*;

use crate::git_purge::{retired_name, scratch_name, scratch_prefix, WikiError};
use crate::text::joined;

verus! {

/// Durable record of a history purge under way.
#[derive(Debug, Clone, PartialEq, Eq)]
pub struct PurgeJournal {
    /// Unique id of this purge, and the suffix of its directories.
    pub purge_id: String,
    /// Repository-relative paths being removed from every commit.
    pub paths: Vec<String>,
    /// How far the swap got.
    pub state: JournalState,
}

/// How far a swap got.
#[derive(Debug, Clone, Copy, PartialEq, Eq, Structural)]
pub enum JournalState {
    /// The replacement repository is built and verified but not yet installed. The
    /// live repository is still the old one.
    Prepared,
    /// The old repository is being moved aside, and the replacement may or may not
    /// be installed yet. Recovery finishes the install.
    Swapping,
}

/// One change to the wiki's root directory.
#[derive(Debug, Clone, Copy, PartialEq, Eq, Structural)]
pub enum SwapAction {
    /// Write the journal, durably, with this state.
    WriteJournal(JournalState),
    /// Move the live repository aside.
    RetireLive,
    /// Move the rebuilt repository into place.
    InstallNew,
    /// Move the repository that was moved aside back into place.
    RestoreRetired,
    /// Remove the repository that was moved aside.
    RemoveRetired,
    /// Remove the directory that the replacement was built in.
    RemoveScratch,
    /// Remove the journal. One that is not there counts as removed.
    RemoveJournal,
}

/// What a failing step means.
#[derive(Debug, Clone, PartialEq, Eq)]
pub enum OnFailure {
    /// Nothing: go on.
    Ignore,
    /// Stop, with the error as it came.
    Report,
    /// Stop, and say in the error what was being done.
    Fail(String),
    /// Stop as in `Fail`, but first put the old repository back rather than leave
    /// the wiki without one.
    PutBack(String),
}

/// An action, and what its failure means.
#[derive(Debug, Clone, PartialEq, Eq)]
pub struct Step {
    pub action: SwapAction,
    pub on_failure: OnFailure,
}

/// What a failing step means, in the abstract.
pub enum Severity {
    Ignore,
    Report,
    Fail(Seq<char>),
    PutBack(Seq<char>),
}

/// What a step says.
pub struct StepView {
    pub action: SwapAction,
    pub on_failure: Severity,
}

impl View for OnFailure {
    type V = Severity;

    open spec fn view(&self) -> Severity {
        match self {
            OnFailure::Ignore => Severity::Ignore,
            OnFailure::Report => Severity::Report,
            OnFailure::Fail(c) => Severity::Fail(c@),
            OnFailure::PutBack(c) => Severity::PutBack(c@),
        }
    }
}

impl View for Step {
    type V = StepView;

    open spec fn view(&self) -> StepView {
        StepView { action: self.action, on_failure: self.on_failure@ }
    }
}

/// What a list of steps says.
pub open spec fn steps_view(steps: Seq<Step>) -> Seq<StepView> {
    steps.map_values(|s: Step| s@)
}

/// The actions of a list of steps.
pub open spec fn actions_of(steps: Seq<StepView>) -> Seq<SwapAction> {
    steps.map_values(|s: StepView| s.action)
}

/// What follows a failed step.
#[derive(Debug, Clone, PartialEq, Eq)]
pub enum AfterFailure {
    /// The next step.
    Continue,
    /// Nothing but these actions, whose own failures do not matter, and the error.
    Stop(Vec<SwapAction>, WikiError),
}

impl Step {
    /// What follows when this step failed for the reason `detail`.
    pub fn after_failure(&self, detail: &str) -> (r: AfterFailure)
        ensures
            match self.on_failure@ {
                Severity::Ignore => r is Continue,
                Severity::Report => r matches AfterFailure::Stop(cleanup, e) && cleanup@.len() == 0
                    && e.message@ == "git purge: "@ + detail@,
                Severity::Fail(context) => r matches AfterFailure::Stop(cleanup, e)
                    && cleanup@.len() == 0 && e.message@ == "git purge: "@ + context + ": "@
                    + detail@,
                Severity::PutBack(context) => r matches AfterFailure::Stop(cleanup, e)
                    && cleanup@ == put_back_actions() && e.message@ == "git purge: "@ + context
                    + ": "@ + detail@,
            },
    {
        match &self.on_failure {
            OnFailure::Ignore => AfterFailure::Continue,
            OnFailure::Report => AfterFailure::Stop(
                Vec::new(),
                WikiError { message: joined("git purge: ", detail) },
            ),
            OnFailure::Fail(context) => AfterFailure::Stop(
                Vec::new(),
                failure(context.as_str(), detail),
            ),
            OnFailure::PutBack(context) => {
                let cleanup = vec![
                    SwapAction::RestoreRetired,
                    SwapAction::RemoveScratch,
                    SwapAction::RemoveJournal,
                ];
                assert(cleanup@ == put_back_actions());
                AfterFailure::Stop(cleanup, failure(context.as_str(), detail))
            },
        }
    }
}

/// What puts the old repository back.
pub open spec fn put_back_actions() -> Seq<SwapAction> {
    seq![SwapAction::RestoreRetired, SwapAction::RemoveScratch, SwapAction::RemoveJournal]
}

/// The error of a failed action.
fn failure(context: &str, detail: &str) -> (e: WikiError)
    ensures
        e.message@ == "git purge: "@ + context@ + ": "@ + detail@,
{
    let message = joined("git purge: ", context);
    let message = joined(message.as_str(), ": ");
    WikiError { message: joined(message.as_str(), detail) }
}

/// An action whose failure is of no consequence.
pub open spec fn optional(action: SwapAction) -> StepView {
    StepView { action, on_failure: Severity::Ignore }
}

/// An action whose failure ends everything.
pub open spec fn required(action: SwapAction, context: Seq<char>) -> StepView {
    StepView { action, on_failure: Severity::Fail(context) }
}

/// The steps that install a verified replacement: ordered so that every
/// interruption is recoverable. The journal says so before the live repository
/// moves, and goes only once the old one is physically gone.
pub open spec fn install_steps() -> Seq<StepView> {
    seq![
        StepView {
            action: SwapAction::WriteJournal(JournalState::Prepared),
            on_failure: Severity::Report,
        },
        StepView {
            action: SwapAction::WriteJournal(JournalState::Swapping),
            on_failure: Severity::Report,
        },
        required(SwapAction::RetireLive, "retiring old .git"@),
        StepView {
            action: SwapAction::InstallNew,
            on_failure: Severity::PutBack("installing rebuilt .git"@),
        },
        required(SwapAction::RemoveRetired, "removing retired .git"@),
        optional(SwapAction::RemoveScratch),
        required(SwapAction::RemoveJournal, "removing purge journal"@),
    ]
}

fn optional_step(action: SwapAction) -> (s: Step)
    ensures
        s@ == optional(action),
{
    Step { action, on_failure: OnFailure::Ignore }
}

fn required_step(action: SwapAction, context: &str) -> (s: Step)
    ensures
        s@ == required(action, context@),
{
    Step { action, on_failure: OnFailure::Fail(context.to_owned()) }
}

/// The steps that move the rebuilt repository into place and destroy the old one.
pub fn install_replacement() -> (steps: Vec<Step>)
    ensures
        steps_view(steps@) == install_steps(),
{
    let steps = vec![
        Step {
            action: SwapAction::WriteJournal(JournalState::Prepared),
            on_failure: OnFailure::Report,
        },
        Step {
            action: SwapAction::WriteJournal(JournalState::Swapping),
            on_failure: OnFailure::Report,
        },
        required_step(SwapAction::RetireLive, "retiring old .git"),
        Step {
            action: SwapAction::InstallNew,
            on_failure: OnFailure::PutBack("installing rebuilt .git".to_owned()),
        },
        required_step(SwapAction::RemoveRetired, "removing retired .git"),
        optional_step(SwapAction::RemoveScratch),
        required_step(SwapAction::RemoveJournal, "removing purge journal"),
    ];
    assert(steps_view(steps@) == install_steps());
    steps
}

/// What follows once the replacement is built, or is not.
#[derive(Debug)]
pub enum AfterBuild {
    /// These steps.
    Install(Vec<Step>),
    /// Nothing but these actions, whose own failures do not matter, and the error.
    GiveUp(Vec<SwapAction>, WikiError),
}

/// What undoes an attempt that is given up before anything was swapped.
pub open spec fn give_up_actions() -> Seq<SwapAction> {
    seq![SwapAction::RemoveScratch]
}

/// Go on only with a replacement that was built and has passed verification: nothing
/// destructive happens before, so that a failure leaves the live repository as it was.
pub fn after_build(verified: Result<(), WikiError>) -> (r: AfterBuild)
    ensures
        match verified {
            Ok(_) => r matches AfterBuild::Install(steps) && steps_view(steps@)
                == install_steps(),
            Err(e) => r matches AfterBuild::GiveUp(cleanup, error) && cleanup@ == give_up_actions()
                && error == e,
        },
{
    match verified {
        Ok(_) => AfterBuild::Install(install_replacement()),
        Err(e) => {
            let cleanup = vec![SwapAction::RemoveScratch];
            assert(cleanup@ == give_up_actions());
            AfterBuild::GiveUp(cleanup, e)
        },
    }
}

/// What is found of the repositories at startup.
#[derive(Debug, Clone, Copy, PartialEq, Eq, Structural)]
pub struct Found {
    /// The live repository exists.
    pub live: bool,
    /// The rebuilt repository exists, not yet installed.
    pub new: bool,
    /// The repository that was moved aside exists.
    pub retired: bool,
}

/// How to resolve an interrupted purge.
#[derive(Debug)]
pub struct Recovery {
    /// What to do first. A failure that stops it is the result.
    pub steps: Vec<Step>,
    /// The result once the steps are done: whether a journal was found and resolved.
    pub outcome: Result<bool, WikiError>,
    /// The directory that the replacement was built in, where a journal was found.
    pub scratch: Option<String>,
    /// Where the old repository was moved aside to, where a journal was found.
    pub retired: Option<String>,
}

/// Removing the old repository, where it is there.
pub open spec fn remove_retired_if(retired: bool) -> Seq<StepView> {
    if retired {
        seq![
            required(SwapAction::RemoveRetired, "removing retired .git during recovery"@),
        ]
    } else {
        Seq::empty()
    }
}

/// The steps that end every recovery.
pub open spec fn closing_steps() -> Seq<StepView> {
    seq![
        optional(SwapAction::RemoveScratch),
        required(SwapAction::RemoveJournal, "removing purge journal"@),
    ]
}

/// The steps that resolve a purge interrupted in this state.
pub open spec fn recovery_steps(state: Option<JournalState>, found: Found) -> Seq<StepView> {
    match state {
        None => Seq::empty(),
        Some(JournalState::Prepared) => seq![
            optional(SwapAction::RemoveScratch),
            optional(SwapAction::RemoveRetired),
            required(SwapAction::RemoveJournal, "removing purge journal"@),
        ],
        Some(JournalState::Swapping) => if found.live && found.new && !found.retired {
            seq![
                required(SwapAction::RetireLive, "retiring old .git during recovery"@),
                required(SwapAction::InstallNew, "installing rebuilt .git during recovery"@),
            ] + remove_retired_if(true) + closing_steps()
        } else if !found.live && found.new {
            seq![
                required(SwapAction::InstallNew, "installing rebuilt .git during recovery"@),
            ] + remove_retired_if(found.retired) + closing_steps()
        } else if !found.live && found.retired {
            seq![
                required(SwapAction::RestoreRetired, "restoring old .git during recovery"@),
                required(SwapAction::RemoveJournal, "removing purge journal"@),
            ]
        } else {
            remove_retired_if(found.retired) + closing_steps()
        },
    }
}

/// The purge has to be run again: the rebuilt repository is lost, and the old one
/// is put back.
pub open spec fn rebuilt_is_lost(state: Option<JournalState>, found: Found) -> bool {
    state == Some(JournalState::Swapping) && !found.live && !found.new && found.retired
}

/// Finish or roll back a purge interrupted in the middle of its swap.
///
/// Where the journal says that nothing destructive had happened, the replacement is
/// discarded and the operator runs the purge again. Where the swap was announced, it
/// is finished, also if its first rename had not been made; if the rebuilt repository
/// is gone, the old one is put back and the purge reported as unfinished. Without a
/// journal there is nothing to do.
pub fn recover_interrupted_purge(journal: Option<&PurgeJournal>, found: Found) -> (r: Recovery)
    ensures
        ({
            let state = match journal {
                Some(j) => Some(j.state),
                None => None,
            };
            &&& steps_view(r.steps@) == recovery_steps(state, found)
            &&& rebuilt_is_lost(state, found) ==> (r.outcome matches Err(e) && e.message@
                == "git purge: interrupted before the rebuilt repository was installed; the purge must be re-run"@)
            &&& !rebuilt_is_lost(state, found) ==> (r.outcome matches Ok(b) && b == (state
                is Some))
        }),
        match journal {
            None => r.scratch is None && r.retired is None,
            Some(j) => (r.scratch matches Some(s) && s@ == scratch_prefix() + "new-"@
                + j.purge_id@) && (r.retired matches Some(s) && s@ == scratch_prefix() + "old-"@
                + j.purge_id@),
        },
{
    let Some(journal) = journal else {
        let steps: Vec<Step> = Vec::new();
        assert(steps_view(steps@) == Seq::<StepView>::empty());
        return Recovery { steps, outcome: Ok(false), scratch: None, retired: None };
    };
    let scratch = Some(scratch_name(journal.purge_id.as_str()));
    let retired = Some(retired_name(journal.purge_id.as_str()));
    let mut steps: Vec<Step> = Vec::new();
    let mut outcome: Result<bool, WikiError> = Ok(true);
    match journal.state {
        JournalState::Prepared => {
            steps.push(optional_step(SwapAction::RemoveScratch));
            steps.push(optional_step(SwapAction::RemoveRetired));
            steps.push(required_step(SwapAction::RemoveJournal, "removing purge journal"));
        },
        JournalState::Swapping => {
            if !found.live && !found.new && found.retired {
                steps.push(
                    required_step(
                        SwapAction::RestoreRetired,
                        "restoring old .git during recovery",
                    ),
                );
                steps.push(required_step(SwapAction::RemoveJournal, "removing purge journal"));
                outcome =
                Err(
                    WikiError {
                        message:
                            "git purge: interrupted before the rebuilt repository was installed; the purge must be re-run".to_owned(),
                    },
                );
            } else {
                // The swap had been announced, but its first rename not yet made.
                let untouched = found.live && found.new && !found.retired;
                if untouched {
                    steps.push(
                        required_step(
                            SwapAction::RetireLive,
                            "retiring old .git during recovery",
                        ),
                    );
                }
                if untouched || (!found.live && found.new) {
                    steps.push(
                        required_step(
                            SwapAction::InstallNew,
                            "installing rebuilt .git during recovery",
                        ),
                    );
                }
                if untouched || found.retired {
                    steps.push(
                        required_step(
                            SwapAction::RemoveRetired,
                            "removing retired .git during recovery",
                        ),
                    );
                }
                steps.push(optional_step(SwapAction::RemoveScratch));
                steps.push(required_step(SwapAction::RemoveJournal, "removing purge journal"));
            }
        },
    }
    assert(steps_view(steps@) == recovery_steps(Some(journal.state), found));
    Recovery { steps, outcome, scratch, retired }
}

/// Which history a repository holds.
pub enum History {
    /// The one with the purged content.
    Old,
    /// The one without it.
    Rebuilt,
}

/// The wiki's root directory, as far as a swap is concerned.
pub struct Disk {
    pub live: Option<History>,
    /// The directory that the replacement is built in exists.
    pub scratch: bool,
    /// The repository in it.
    pub new: Option<History>,
    pub retired: Option<History>,
    pub journal: Option<JournalState>,
}

impl Disk {
    /// After the replacement was built and verified, before anything is swapped.
    pub open spec fn built() -> Disk {
        Disk {
            live: Some(History::Old),
            scratch: true,
            new: Some(History::Rebuilt),
            retired: None,
            journal: None,
        }
    }

    /// Nothing but this repository: no trace of a purge.
    pub open spec fn clean(live: History) -> Disk {
        Disk { live: Some(live), scratch: false, new: None, retired: None, journal: None }
    }

    /// What a look at the repositories finds.
    pub open spec fn found(self) -> Found {
        Found { live: self.live is Some, new: self.new is Some, retired: self.retired is Some }
    }

    /// After `action` was carried out.
    pub open spec fn after(self, action: SwapAction) -> Disk {
        match action {
            SwapAction::WriteJournal(state) => Disk { journal: Some(state), ..self },
            SwapAction::RetireLive => Disk { live: None, retired: self.live, ..self },
            SwapAction::InstallNew => Disk { live: self.new, new: None, ..self },
            SwapAction::RestoreRetired => Disk { live: self.retired, retired: None, ..self },
            SwapAction::RemoveRetired => Disk { retired: None, ..self },
            SwapAction::RemoveScratch => Disk { scratch: false, new: None, ..self },
            SwapAction::RemoveJournal => Disk { journal: None, ..self },
        }
    }

    /// After `actions` were carried out, in order.
    pub open spec fn after_all(self, actions: Seq<SwapAction>) -> Disk
        decreases actions.len(),
    {
        if actions.len() == 0 {
            self
        } else {
            self.after_all(actions.drop_last()).after(actions.last())
        }
    }

    /// The actions that resolve what this root directory shows.
    pub open spec fn recovery(self) -> Seq<SwapAction> {
        actions_of(recovery_steps(self.journal, self.found()))
    }
}

/// One more action is carried out after those before it.
proof fn lemma_one_more(d: Disk, actions: Seq<SwapAction>, k: int)
    requires
        0 <= k < actions.len(),
    ensures
        d.after_all(actions.take(k + 1)) == d.after_all(actions.take(k)).after(actions[k]),
{
    assert(actions.take(k + 1).drop_last() == actions.take(k));
}

/// Every action carried out is all of them.
proof fn lemma_all_of(d: Disk, actions: Seq<SwapAction>)
    ensures
        d.after_all(actions.take(actions.len() as int)) == d.after_all(actions),
        d.after_all(actions.take(0)) == d,
{
    assert(actions.take(actions.len() as int) == actions);
    assert(actions.take(0) == Seq::<SwapAction>::empty());
}

/// The root directory after the first `k` steps of a swap.
pub open spec fn interrupted_at(k: int) -> Disk {
    Disk::built().after_all(actions_of(install_steps()).take(k))
}

/// What each number of steps leaves.
proof fn lemma_interrupted_at()
    ensures
        interrupted_at(0) == Disk::built(),
        interrupted_at(1) == (Disk { journal: Some(JournalState::Prepared), ..Disk::built() }),
        interrupted_at(2) == (Disk { journal: Some(JournalState::Swapping), ..Disk::built() }),
        interrupted_at(3) == (Disk {
            live: None,
            retired: Some(History::Old),
            ..interrupted_at(2)
        }),
        interrupted_at(4) == (Disk {
            live: Some(History::Rebuilt),
            new: None,
            ..interrupted_at(3)
        }),
        interrupted_at(5) == (Disk { retired: None, ..interrupted_at(4) }),
        interrupted_at(6) == (Disk { scratch: false, ..interrupted_at(5) }),
        interrupted_at(7) == Disk::clean(History::Rebuilt),
{
    let d = Disk::built();
    let actions = actions_of(install_steps());
    lemma_all_of(d, actions);
    lemma_one_more(d, actions, 0);
    lemma_one_more(d, actions, 1);
    lemma_one_more(d, actions, 2);
    lemma_one_more(d, actions, 3);
    lemma_one_more(d, actions, 4);
    lemma_one_more(d, actions, 5);
    lemma_one_more(d, actions, 6);
}

/// A swap that runs to its end leaves the rebuilt repository and nothing else: no
/// old repository, no transient directory, no journal.
pub proof fn law_swap_leaves_only_the_rebuilt_repository()
    ensures
        Disk::built().after_all(actions_of(install_steps())) == Disk::clean(History::Rebuilt),
{
    lemma_all_of(Disk::built(), actions_of(install_steps()));
    lemma_interrupted_at();
}

/// What the states of a swap and of its recovery have in common: a journal that is
/// there tells the truth, and the old history is not both moved aside and live.
pub open spec fn resolvable(d: Disk) -> bool {
    match d.journal {
        None => false,
        Some(JournalState::Prepared) => d.live == Some(History::Old),
        Some(JournalState::Swapping) => {
            ||| d.live == Some(History::Old) && d.retired is None && (d.new is None || d.new
                == Some(History::Rebuilt))
            ||| d.live is None && d.new == Some(History::Rebuilt) && d.retired == Some(
                History::Old,
            )
            ||| d.live == Some(History::Rebuilt) && d.new is None
        },
    }
}

/// The history that recovery leaves: the rebuilt one once the swap was announced,
/// unless the replacement was given up, and the old one otherwise.
pub open spec fn recovered_history(d: Disk) -> History {
    if d.live == Some(History::Old) && (d.journal == Some(JournalState::Prepared) || d.new
        is None) {
        History::Old
    } else {
        History::Rebuilt
    }
}

/// What the first `m` actions of a recovery leave: a state that the next recovery
/// resolves to the same end, or that end.
proof fn lemma_recovery_prefix(d: Disk, m: int)
    requires
        resolvable(d),
        0 <= m <= d.recovery().len(),
    ensures
        ({
            let left = d.after_all(d.recovery().take(m));
            if m == d.recovery().len() {
                left == Disk::clean(recovered_history(d))
            } else {
                resolvable(left) && recovered_history(left) == recovered_history(d)
            }
        }),
{
    let actions = d.recovery();
    lemma_all_of(d, actions);
    if d.journal == Some(JournalState::Prepared) {
        assert(actions.len() == 3);
    } else if d.live is Some && d.new is Some {
        assert(actions =~= seq![
            SwapAction::RetireLive,
            SwapAction::InstallNew,
            SwapAction::RemoveRetired,
            SwapAction::RemoveScratch,
            SwapAction::RemoveJournal,
        ]);
        lemma_one_more(d, actions, 3);
        lemma_one_more(d, actions, 4);
    } else if d.live is None {
        assert(actions =~= seq![
            SwapAction::InstallNew,
            SwapAction::RemoveRetired,
            SwapAction::RemoveScratch,
            SwapAction::RemoveJournal,
        ]);
        lemma_one_more(d, actions, 3);
    } else if d.retired is Some {
        assert(actions =~= seq![
            SwapAction::RemoveRetired,
            SwapAction::RemoveScratch,
            SwapAction::RemoveJournal,
        ]);
    } else {
        assert(actions =~= seq![SwapAction::RemoveScratch, SwapAction::RemoveJournal]);
    }
    lemma_one_more(d, actions, 0);
    lemma_one_more(d, actions, 1);
    if actions.len() > 2 {
        lemma_one_more(d, actions, 2);
    }
}

/// What recovery leaves of any state that it can meet.
proof fn lemma_recovery(d: Disk)
    requires
        resolvable(d),
    ensures
        d.after_all(d.recovery()) == Disk::clean(recovered_history(d)),
        !rebuilt_is_lost(d.journal, d.found()),
{
    lemma_recovery_prefix(d, d.recovery().len() as int);
    lemma_all_of(d, d.recovery());
}

/// Wherever a swap is interrupted once its journal is written, recovery resolves it
/// without an error and leaves no trace of the purge. It converges on the rebuilt
/// history from the moment the journal announces the swap, and on the old one,
/// untouched, before that. The wiki always has a repository again.
pub proof fn law_interrupted_swap_is_resolved(k: int)
    requires
        1 <= k <= 6,
    ensures
        ({
            let d = interrupted_at(k);
            &&& d.journal is Some
            &&& !rebuilt_is_lost(d.journal, d.found())
            &&& d.after_all(d.recovery()) == Disk::clean(
                if k >= 2 {
                    History::Rebuilt
                } else {
                    History::Old
                },
            )
        }),
{
    lemma_interrupted_at();
    lemma_recovery(interrupted_at(k));
}

/// Before the journal is written and after it is removed there is nothing to
/// resolve, and recovery changes nothing.
pub proof fn law_no_journal_no_recovery(d: Disk)
    requires
        d.journal is None,
    ensures
        d.after_all(d.recovery()) == d,
        interrupted_at(0).journal is None,
        interrupted_at(7).journal is None,
{
    assert(d.recovery() =~= Seq::<SwapAction>::empty());
    lemma_interrupted_at();
}

/// Recovery may itself be interrupted, after any number of its actions: whatever is
/// left is resolved by the next one, with the same result.
pub proof fn law_interrupted_recovery_is_resolved(d: Disk, m: int)
    requires
        resolvable(d),
        0 <= m <= d.recovery().len(),
    ensures
        ({
            let left = d.after_all(d.recovery().take(m));
            left.after_all(left.recovery()) == Disk::clean(recovered_history(d))
        }),
{
    let left = d.after_all(d.recovery().take(m));
    lemma_recovery_prefix(d, m);
    if m == d.recovery().len() {
        law_no_journal_no_recovery(left);
    } else {
        lemma_recovery(left);
    }
}

/// A replacement that could not be built or did not pass verification leaves no
/// trace, and the live repository as it was.
pub proof fn law_unverified_replacement_is_not_installed()
    ensures
        Disk::built().after_all(give_up_actions()) == Disk::clean(History::Old),
{
    lemma_all_of(Disk::built(), give_up_actions());
    lemma_one_more(Disk::built(), give_up_actions(), 0);
}

/// Where the rebuilt repository cannot be moved into place, the old one is put
/// back, and no trace of the purge is left.
pub proof fn law_failed_install_puts_the_old_repository_back()
    ensures
        actions_of(install_steps())[3] == SwapAction::InstallNew,
        install_steps()[3].on_failure is PutBack,
        interrupted_at(3).after_all(put_back_actions()) == Disk::clean(History::Old),
{
    let d = interrupted_at(3);
    let actions = put_back_actions();
    lemma_interrupted_at();
    lemma_all_of(d, actions);
    lemma_one_more(d, actions, 0);
    lemma_one_more(d, actions, 1);
    lemma_one_more(d, actions, 2);
}

} // verus!
