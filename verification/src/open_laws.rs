//! What holds of every open.

use crate::database;
use crate::error::ToolError;
use crate::files;
use crate::files::EntryKind;
use crate::open;
use crate::open::{EffectView, RequestView, StateView};
use crate::open_types::{OpenEffect, OpenEvent, OpenNext, OpenPhase, OpenQuery, OpenState, StepView};
use crate::output;
use crate::output::OutputFacts;
use vstd::prelude::*;

verus! {

/// An open that was cancelled fails, and with the reason for the cancellation.
pub proof fn a_cancelled_open_fails(s: StateView, event: OpenEvent<Seq<char>>)
    requires
        open::answers(s.phase, event),
        event is Cancelled,
    ensures
        open::step(s, event).1.next == OpenNext::<Seq<char>, Seq<Seq<char>>>::Failed(
            event->Cancelled_0,
        ),
{
}

/// While a database is open no other open starts: the request gets the open database, or a
/// refusal.
pub proof fn only_one_database_is_open_at_a_time(
    request: RequestView,
    cancelled: Option<ToolError<Seq<char>>>,
    current: Seq<char>,
    files: spec_fn(Seq<char>) -> EntryKind,
    facts: OutputFacts<Seq<char>>,
)
    ensures
        open::starting(request, cancelled, Some(current), files, facts) !is Started,
{
}

/// No database is opened without the lock.
pub proof fn databases_are_opened_under_the_lock(s: StateView, event: OpenEvent<Seq<char>>)
    requires
        open::open_inv(s),
        open::answers(s.phase, event),
        open::step(s, event).1.next matches OpenNext::Ask(query) && (query is OpenExisting
            || query is OpenRaw),
    ensures
        open::step(s, event).0.lock_held,
{
}

/// A database that is only looked at is not saved, and every other one is.
pub proof fn a_candidate_is_not_changed_by_looking_at_it(s: StateView, event: OpenEvent<Seq<char>>)
    requires
        open::open_inv(s),
        open::answers(s.phase, event),
    ensures
        open::step(s, event).1.next matches OpenNext::Ask(OpenQuery::OpenExisting { save, .. })
            ==> save == !open::judges_candidate(open::step(s, event).0.phase),
        open::step(s, event).1.next matches OpenNext::Ask(OpenQuery::OpenRaw(raw)) ==> raw.save,
{
}

/// An existing database takes the place of a raw input only where its recorded hash is the
/// hash of the input, and nobody asked to rebuild it.
pub proof fn only_the_hash_of_the_input_allows_reuse(s: StateView, event: OpenEvent<Seq<char>>)
    requires
        open::open_inv(s),
        open::answers(s.phase, event),
        !s.reused && open::step(s, event).0.reused,
    ensures
        !s.rebuild,
        match (s.phase, event) {
            (
                OpenPhase::HashingInput { recorded_hash, .. },
                OpenEvent::InputHashed(input_hash),
            ) => database::is_recorded(recorded_hash@) && recorded_hash@ == input_hash@,
            (OpenPhase::LocatingRecorded { recorded_hash, input_hash }, _) => database::is_recorded(
                recorded_hash@,
            ) && recorded_hash@ == input_hash@,
            _ => false,
        },
{
}

/// An existing database is overwritten only on request, and only where it stems from the
/// input: by its recorded hash, or by its recorded path.
pub proof fn only_provenance_allows_overwriting(s: StateView, event: OpenEvent<Seq<char>>)
    requires
        open::open_inv(s),
        open::answers(s.phase, event),
        s.candidate is Some,
        open::step(s, event).1.next matches OpenNext::Ask(query) && query is OpenRaw,
    ensures
        s.rebuild,
        match (s.phase, event) {
            (
                OpenPhase::HashingInput { recorded_hash, .. },
                OpenEvent::InputHashed(input_hash),
            ) => database::is_recorded(recorded_hash@) && recorded_hash@ == input_hash@,
            (
                OpenPhase::LocatingRecorded { recorded_hash, input_hash },
                OpenEvent::RecordedLocated { expanded, input_canonical, expanded_canonical },
            ) => {
                ||| database::is_recorded(recorded_hash@) && recorded_hash@ == input_hash@
                ||| files::same_file(s.style, s.path, expanded, input_canonical, expanded_canonical)
            },
            _ => false,
        },
{
}

/// What was asked for a raw input is set only in a database that the open makes.
pub proof fn existing_databases_keep_their_settings(s: StateView, event: OpenEvent<Seq<char>>)
    requires
        open::open_inv(s),
        open::answers(s.phase, event),
        open::step(s, event).1.next matches OpenNext::Ask(query) && (query is SetBitness
            || query is SetEntryPoint),
    ensures
        open::creates_database(s),
{
}

/// Files are removed only where the open made them: those of the output for a raw input, and
/// never those of an existing database that is kept. The lock is given back before.
pub proof fn only_files_of_a_made_database_are_removed(
    s: StateView,
    event: OpenEvent<Seq<char>>,
    at: int,
)
    requires
        open::open_inv(s),
        open::answers(s.phase, event),
        0 <= at < open::step(s, event).1.effects.len(),
        open::step(s, event).1.effects[at] is RemoveArtifacts,
    ensures
        !s.is_idb && !s.reused,
        open::step(s, event).1.effects[at] == (OpenEffect::RemoveArtifacts {
            paths: database::artifacts(s.style, s.lock_target),
        }),
        at == open::step(s, event).1.effects.len() - 1,
        at > 0 && open::step(s, event).1.effects[at - 1] == OpenEffect::<
            Seq<Seq<char>>,
        >::ReleaseLock,
        !open::step(s, event).0.lock_held && !open::step(s, event).0.database_open,
{
}

/// An open that fails holds nothing afterwards: what it held before is closed and given back.
pub proof fn a_failed_open_holds_nothing(s: StateView, event: OpenEvent<Seq<char>>)
    requires
        open::open_inv(s),
        open::answers(s.phase, event),
        open::step(s, event).1.next is Failed,
    ensures
        open::step(s, event).1.effects == open::cleanup(s),
        open::cleanup(s).contains(OpenEffect::ReleaseLock) == s.lock_held,
        open::cleanup(s).contains(OpenEffect::CloseDatabase) == s.database_open,
        open::cleanup(s).contains(OpenEffect::CloseCandidate) == s.candidate_open,
        ({
            let after = open::step(s, event).0;
            after.phase is Finished && !after.lock_held && !after.database_open
                && !after.candidate_open
        }),
{
    let fx = open::cleanup(s);
    assert(s.candidate_open ==> fx[0] == OpenEffect::<Seq<Seq<char>>>::CloseCandidate);
    assert(s.database_open ==> fx[0] == OpenEffect::<Seq<Seq<char>>>::CloseDatabase);
    assert(s.lock_held ==> fx[if s.candidate_open || s.database_open {
        1
    } else {
        0
    }] == OpenEffect::<Seq<Seq<char>>>::ReleaseLock);
}

/// The database that an open hands out is the one that its lock is for, packed or unpacked.
pub proof fn an_opened_database_is_locked(s: StateView, event: OpenEvent<Seq<char>>)
    requires
        open::open_inv(s),
        open::answers(s.phase, event),
        open::step(s, event).1.next is Done,
    ensures
        ({
            let path = open::step(s, event).1.next->Done_path;
            path == s.lock_target || database::unpacked_id0(s.style, s.lock_target) == Some(path)
        }),
{
}

/// Asking once more for what was opened finds it open: a database, and a raw input that was
/// opened into the packed database generated for it.
pub proof fn what_was_opened_is_found_open(s: StateView, event: OpenEvent<Seq<char>>)
    requires
        open::open_inv(s),
        open::answers(s.phase, event),
        open::step(s, event).1.next is Done,
        !s.is_idb ==> s.opened_path == database::generated_idb(s.path),
    ensures
        database::names_same_database(s.style, open::step(s, event).1.next->Done_path, s.path),
{
}

/// An open that succeeds keeps the database and the lock, and removes nothing.
pub proof fn a_successful_open_keeps_the_database(s: StateView, event: OpenEvent<Seq<char>>)
    requires
        open::open_inv(s),
        open::answers(s.phase, event),
        open::step(s, event).1.next is Done,
    ensures
        open::step(s, event).1.effects == seq![OpenEffect::<Seq<Seq<char>>>::KeepOpen],
        open::step(s, event).1.next == (OpenNext::<Seq<char>, Seq<Seq<char>>>::Done {
            path: s.opened_path,
            debug_info: s.debug_info,
        }),
        open::step(s, event).0.lock_held && open::step(s, event).0.database_open,
{
}

/// The state after `events`, and everything that was done on the way.
pub open spec fn run(s: StateView, events: Seq<OpenEvent<Seq<char>>>) -> (
    StateView,
    Seq<EffectView>,
)
    decreases events.len(),
{
    if events.len() == 0 {
        (s, Seq::empty())
    } else {
        let (before, done) = run(s, events.drop_last());
        let (after, step) = open::step(before, events.last());
        (after, done + step.effects)
    }
}

/// Whether each of `events` is an outcome of what was asked for before it.
pub open spec fn is_run(s: StateView, events: Seq<OpenEvent<Seq<char>>>) -> bool
    decreases events.len(),
{
    events.len() > 0 ==> {
        &&& is_run(s, events.drop_last())
        &&& open::answers(run(s, events.drop_last()).0.phase, events.last())
    }
}

/// How often `effect` occurs.
pub open spec fn times(effects: Seq<EffectView>, effect: EffectView) -> nat
    decreases effects.len(),
{
    if effects.len() == 0 {
        0
    } else {
        times(effects.drop_last(), effect) + if effects.last() == effect {
            1nat
        } else {
            0
        }
    }
}

/// How many of `events` say that the lock was acquired.
pub open spec fn locks_taken(events: Seq<OpenEvent<Seq<char>>>) -> nat
    decreases events.len(),
{
    if events.len() == 0 {
        0
    } else {
        locks_taken(events.drop_last()) + if events.last() is LockAcquired {
            1nat
        } else {
            0
        }
    }
}

/// How many of `events` say that a database was opened.
pub open spec fn databases_opened(events: Seq<OpenEvent<Seq<char>>>) -> nat
    decreases events.len(),
{
    if events.len() == 0 {
        0
    } else {
        databases_opened(events.drop_last()) + if events.last() is Opened {
            1nat
        } else {
            0
        }
    }
}

/// One where something is held, none where it is not.
pub open spec fn held(flag: bool) -> nat {
    if flag {
        1
    } else {
        0
    }
}

proof fn lemma_times_append(a: Seq<EffectView>, b: Seq<EffectView>, effect: EffectView)
    ensures
        times(a + b, effect) == times(a, effect) + times(b, effect),
    decreases b.len(),
{
    if b.len() == 0 {
        assert(a + b =~= a);
    } else {
        assert((a + b).drop_last() =~= a + b.drop_last());
        lemma_times_append(a, b.drop_last(), effect);
    }
}

proof fn lemma_times_push(effect: EffectView)
    ensures
        times(Seq::empty(), effect) == 0,
        forall|effects: Seq<EffectView>, last: EffectView|
            #![trigger times(effects.push(last), effect)]
            times(effects.push(last), effect) == times(effects, effect) + held(last == effect),
{
    assert forall|effects: Seq<EffectView>, last: EffectView|
        #![trigger times(effects.push(last), effect)]
        times(effects.push(last), effect) == times(effects, effect) + held(last == effect) by {
        assert(effects.push(last).drop_last() =~= effects);
    }
}

/// Whether a step gives back and takes as much as what is held changes by.
spec fn balances(s: StateView, locked: bool, opened: bool, next: (StateView, StepView)) -> bool {
    let (after, step) = next;
    &&& times(step.effects, OpenEffect::ReleaseLock) + held(after.lock_held) == held(s.lock_held)
        + held(locked)
    &&& times(step.effects, OpenEffect::CloseDatabase) + times(
        step.effects,
        OpenEffect::CloseCandidate,
    ) + held(after.database_open) + held(after.candidate_open) == held(s.database_open) + held(
        s.candidate_open,
    ) + held(opened)
}

proof fn lemma_counts()
    ensures
        times(Seq::empty(), OpenEffect::ReleaseLock) == 0,
        times(Seq::empty(), OpenEffect::CloseDatabase) == 0,
        times(Seq::empty(), OpenEffect::CloseCandidate) == 0,
        forall|effects: Seq<EffectView>, last: EffectView|
            #![trigger times(effects.push(last), OpenEffect::ReleaseLock)]
            times(effects.push(last), OpenEffect::ReleaseLock) == times(
                effects,
                OpenEffect::ReleaseLock,
            ) + held(last is ReleaseLock),
        forall|effects: Seq<EffectView>, last: EffectView|
            #![trigger times(effects.push(last), OpenEffect::CloseDatabase)]
            times(effects.push(last), OpenEffect::CloseDatabase) == times(
                effects,
                OpenEffect::CloseDatabase,
            ) + held(last is CloseDatabase),
        forall|effects: Seq<EffectView>, last: EffectView|
            #![trigger times(effects.push(last), OpenEffect::CloseCandidate)]
            times(effects.push(last), OpenEffect::CloseCandidate) == times(
                effects,
                OpenEffect::CloseCandidate,
            ) + held(last is CloseCandidate),
{
    lemma_times_push(OpenEffect::ReleaseLock);
    lemma_times_push(OpenEffect::CloseDatabase);
    lemma_times_push(OpenEffect::CloseCandidate);
}

proof fn lemma_asking_balances(s: StateView)
    ensures
        balances(s, false, false, open::opening(s)),
        balances(s, false, false, open::after_lock(s)),
        balances(s, false, false, open::after_open(s)),
        balances(s, false, false, open::after_bitness(s)),
        balances(s, false, false, open::after_entry_point(s)),
        balances(s, false, false, open::after_analysis(s)),
        balances(s, false, false, open::before_debug_info(s)),
        balances(s, false, false, open::ending(s)),
{
    lemma_counts();
}

proof fn lemma_judging_balances(
    s: StateView,
    recorded_hash: [u8; 32],
    input_hash: [u8; 32],
    path_matches: bool,
)
    ensures
        balances(
            s,
            false,
            false,
            open::judging(s, recorded_hash, input_hash, path_matches),
        ),
{
    lemma_asking_balances(s);
    lemma_asking_balances(OpenState { reused: true, ..s });
    lemma_counts();
}

proof fn lemma_judging_step_balances(s: StateView, event: OpenEvent<Seq<char>>)
    requires
        open::open_inv(s),
        open::answers(s.phase, event),
        s.phase is Locking || open::judges_candidate(s.phase),
    ensures
        balances(s, event is LockAcquired, event is Opened, open::judging_step(s, event)),
{
    lemma_counts();
    match s.phase {
        OpenPhase::Locking => {
            lemma_asking_balances(OpenState { lock_held: true, ..s });
        },
        OpenPhase::HashingInput { recorded_hash, .. } => {
            lemma_judging_balances(s, recorded_hash, event->InputHashed_0, false);
        },
        OpenPhase::LocatingRecorded { recorded_hash, input_hash } => {
            lemma_judging_balances(s, recorded_hash, input_hash, true);
            lemma_judging_balances(s, recorded_hash, input_hash, false);
        },
        _ => {},
    }
}

proof fn lemma_opening_step_balances(s: StateView, event: OpenEvent<Seq<char>>)
    requires
        open::open_inv(s),
        open::answers(s.phase, event),
        !(s.phase is Locking || open::judges_candidate(s.phase) || open::holds_database(s.phase)),
    ensures
        balances(s, event is LockAcquired, event is Opened, open::opening_step(s, event)),
{
    lemma_counts();
    match s.phase {
        OpenPhase::OpeningUnpacked => {
            lemma_asking_balances(
                OpenState {
                    database_open: true,
                    opened_path: database::unpacked_id0(s.style, s.opened_path)->0,
                    ..s
                },
            );
        },
        OpenPhase::OpeningExisting => {
            lemma_asking_balances(OpenState { database_open: true, ..s });
        },
        OpenPhase::OpeningRaw => {
            lemma_asking_balances(OpenState { database_open: true, ..s });
        },
        _ => {},
    }
}

proof fn lemma_raw_target_step_balances(s: StateView, event: OpenEvent<Seq<char>>)
    requires
        open::open_inv(s),
        open::answers(s.phase, event),
        open::holds_database(s.phase) && !open::is_set_up(s.phase),
    ensures
        balances(s, event is LockAcquired, event is Opened, open::raw_target_step(s, event)),
{
    lemma_counts();
    lemma_asking_balances(s);
}

proof fn lemma_debug_info_step_balances(s: StateView, event: OpenEvent<Seq<char>>)
    requires
        open::open_inv(s),
        open::answers(s.phase, event),
        open::is_set_up(s.phase),
    ensures
        balances(s, event is LockAcquired, event is Opened, open::debug_info_step(s, event)),
{
    lemma_counts();
    lemma_asking_balances(s);
}

/// One step gives back and takes as much as what is held changes by.
proof fn lemma_step_balances(s: StateView, event: OpenEvent<Seq<char>>)
    requires
        open::open_inv(s),
        open::answers(s.phase, event),
    ensures
        balances(s, event is LockAcquired, event is Opened, open::step(s, event)),
{
    if s.phase is Locking || open::judges_candidate(s.phase) {
        lemma_judging_step_balances(s, event);
    } else if open::is_set_up(s.phase) {
        lemma_debug_info_step_balances(s, event);
    } else if open::holds_database(s.phase) {
        lemma_raw_target_step_balances(s, event);
    } else {
        lemma_opening_step_balances(s, event);
    }
}

/// Along every open, the lock is given back as often as it is taken, but for a lock that is
/// still held; and every database that was opened is closed once, but for one that is still
/// open.
pub proof fn what_is_taken_is_given_back(
    request: RequestView,
    files: spec_fn(Seq<char>) -> EntryKind,
    facts: OutputFacts<Seq<char>>,
    events: Seq<OpenEvent<Seq<char>>>,
)
    requires
        open::open_refusal(request, files, facts) is None,
        is_run(open::initial(request, files), events),
    ensures
        ({
            let (s, done) = run(open::initial(request, files), events);
            &&& open::open_inv(s)
            &&& locks_taken(events) == times(done, OpenEffect::ReleaseLock) + held(s.lock_held)
            &&& databases_opened(events) == times(done, OpenEffect::CloseDatabase) + times(
                done,
                OpenEffect::CloseCandidate,
            ) + held(s.database_open) + held(s.candidate_open)
        }),
    decreases events.len(),
{
    let start = open::initial(request, files);
    if events.len() == 0 {
        open::every_open_starts_with_the_invariant(request, files, facts);
    } else {
        what_is_taken_is_given_back(request, files, facts, events.drop_last());
        let (before, done) = run(start, events.drop_last());
        let (after, step) = open::step(before, events.last());
        open::every_step_keeps_the_invariant(before, events.last());
        lemma_step_balances(before, events.last());
        lemma_times_append(done, step.effects, OpenEffect::ReleaseLock);
        lemma_times_append(done, step.effects, OpenEffect::CloseDatabase);
        lemma_times_append(done, step.effects, OpenEffect::CloseCandidate);
    }
}

/// What an open was asked for stays what it is.
pub open spec fn same_request(s: StateView, other: StateView) -> bool {
    &&& s.style == other.style
    &&& s.path == other.path
    &&& s.is_idb == other.is_idb
    &&& s.rebuild == other.rebuild
    &&& s.auto_analyse == other.auto_analyse
    &&& s.load_debug_info == other.load_debug_info
    &&& s.debug_info_path == other.debug_info_path
    &&& s.debug_info_verbose == other.debug_info_verbose
    &&& s.file_type == other.file_type
    &&& s.raw_target == other.raw_target
    &&& s.init_args == other.init_args
    &&& s.lock_target == other.lock_target
    &&& s.candidate == other.candidate
    &&& s.dsym == other.dsym
}

/// Whether a step stays with the request, and keeps the database exactly where it ends the
/// open with success.
spec fn hands_out(s: StateView, next: (StateView, StepView)) -> bool {
    let (after, step) = next;
    &&& same_request(s, after)
    &&& times(step.effects, OpenEffect::KeepOpen) == held(step.next is Done)
    &&& match step.next {
        OpenNext::Ask(_) => after.phase !is Finished,
        OpenNext::Done { path, .. } => after.phase is Finished && after.lock_held
            && after.database_open && path == after.opened_path && open::opens_what_is_locked(
            after,
        ),
        OpenNext::Failed(_) => after.phase is Finished && !after.lock_held
            && !after.database_open && !after.candidate_open,
    }
}

proof fn lemma_judging_step_hands_out(s: StateView, event: OpenEvent<Seq<char>>)
    requires
        open::open_inv(s),
        open::answers(s.phase, event),
        s.phase is Locking || open::judges_candidate(s.phase),
    ensures
        hands_out(s, open::judging_step(s, event)),
{
    lemma_times_push(OpenEffect::KeepOpen);
}

proof fn lemma_opening_step_hands_out(s: StateView, event: OpenEvent<Seq<char>>)
    requires
        open::open_inv(s),
        open::answers(s.phase, event),
        !(s.phase is Locking || open::judges_candidate(s.phase) || open::holds_database(s.phase)),
    ensures
        hands_out(s, open::opening_step(s, event)),
{
    lemma_times_push(OpenEffect::KeepOpen);
}

proof fn lemma_raw_target_step_hands_out(s: StateView, event: OpenEvent<Seq<char>>)
    requires
        open::open_inv(s),
        open::answers(s.phase, event),
        open::holds_database(s.phase) && !open::is_set_up(s.phase),
    ensures
        hands_out(s, open::raw_target_step(s, event)),
{
    lemma_times_push(OpenEffect::KeepOpen);
}

proof fn lemma_debug_info_step_hands_out(s: StateView, event: OpenEvent<Seq<char>>)
    requires
        open::open_inv(s),
        open::answers(s.phase, event),
        open::is_set_up(s.phase),
    ensures
        hands_out(s, open::debug_info_step(s, event)),
{
    lemma_times_push(OpenEffect::KeepOpen);
}

proof fn lemma_step_hands_out(s: StateView, event: OpenEvent<Seq<char>>)
    requires
        open::open_inv(s),
        open::answers(s.phase, event),
    ensures
        hands_out(s, open::step(s, event)),
{
    if s.phase is Locking || open::judges_candidate(s.phase) {
        lemma_judging_step_hands_out(s, event);
    } else if open::is_set_up(s.phase) {
        lemma_debug_info_step_hands_out(s, event);
    } else if open::holds_database(s.phase) {
        lemma_raw_target_step_hands_out(s, event);
    } else {
        lemma_opening_step_hands_out(s, event);
    }
}

/// How an open goes on after `events`: what its last step says.
pub open spec fn outcome(s: StateView, events: Seq<OpenEvent<Seq<char>>>) -> OpenNext<
    Seq<char>,
    Seq<Seq<char>>,
>
    recommends
        events.len() > 0,
{
    open::step(run(s, events.drop_last()).0, events.last()).1.next
}

/// Before its last outcome an open has kept nothing.
proof fn lemma_run_hands_out(
    request: RequestView,
    files: spec_fn(Seq<char>) -> EntryKind,
    facts: OutputFacts<Seq<char>>,
    events: Seq<OpenEvent<Seq<char>>>,
)
    requires
        open::open_refusal(request, files, facts) is None,
        is_run(open::initial(request, files), events),
    ensures
        ({
            let start = open::initial(request, files);
            let (s, done) = run(start, events);
            &&& same_request(start, s)
            &&& s.phase !is Finished ==> times(done, OpenEffect::KeepOpen) == 0
            &&& events.len() > 0 ==> times(done, OpenEffect::KeepOpen) == held(
                outcome(start, events) is Done,
            )
        }),
    decreases events.len(),
{
    let start = open::initial(request, files);
    if events.len() > 0 {
        lemma_run_hands_out(request, files, facts, events.drop_last());
        what_is_taken_is_given_back(request, files, facts, events.drop_last());
        let (before, done) = run(start, events.drop_last());
        let (after, step) = open::step(before, events.last());
        lemma_step_hands_out(before, events.last());
        lemma_times_append(done, step.effects, OpenEffect::KeepOpen);
    }
}

/// Along every open: what was asked for stays what it is. An open that succeeds hands out the
/// database that was locked, packed or unpacked, and keeps it and the lock once. One that fails
/// has kept nothing and holds nothing, and one that goes on has kept nothing yet.
pub proof fn every_open_hands_out_what_it_locked(
    request: RequestView,
    files: spec_fn(Seq<char>) -> EntryKind,
    facts: OutputFacts<Seq<char>>,
    events: Seq<OpenEvent<Seq<char>>>,
)
    requires
        open::open_refusal(request, files, facts) is None,
        is_run(open::initial(request, files), events),
        events.len() > 0,
    ensures
        ({
            let start = open::initial(request, files);
            let (s, done) = run(start, events);
            &&& same_request(start, s)
            &&& match outcome(start, events) {
                OpenNext::Ask(_) => times(done, OpenEffect::KeepOpen) == 0,
                OpenNext::Done { path, .. } => {
                    &&& path == start.lock_target || database::unpacked_id0(
                        request.style,
                        start.lock_target,
                    ) == Some(path)
                    &&& times(done, OpenEffect::KeepOpen) == 1
                    &&& s.lock_held && s.database_open
                },
                OpenNext::Failed(_) => {
                    &&& times(done, OpenEffect::KeepOpen) == 0
                    &&& !s.lock_held && !s.database_open && !s.candidate_open
                },
            }
        }),
{
    let start = open::initial(request, files);
    lemma_run_hands_out(request, files, facts, events);
    lemma_run_hands_out(request, files, facts, events.drop_last());
    what_is_taken_is_given_back(request, files, facts, events.drop_last());
    lemma_step_hands_out(run(start, events.drop_last()).0, events.last());
}

/// How many outcomes an open can still be told at most.
pub open spec fn steps_left(phase: OpenPhase<Seq<char>>) -> nat {
    match phase {
        OpenPhase::Locking => 19,
        OpenPhase::OpeningCandidate => 18,
        OpenPhase::OpeningUnpackedCandidate => 17,
        OpenPhase::ReadingProvenance => 16,
        OpenPhase::CancelAfterProvenance { .. } => 15,
        OpenPhase::HashingInput { .. } => 14,
        OpenPhase::LocatingRecorded { .. } => 13,
        OpenPhase::OpeningExisting => 12,
        OpenPhase::OpeningUnpacked => 11,
        OpenPhase::OpeningRaw => 11,
        OpenPhase::SettingBitness => 10,
        OpenPhase::ProbingEntryPoint => 9,
        OpenPhase::SettingEntryPoint => 8,
        OpenPhase::ConfirmingEntryPoint => 7,
        OpenPhase::WaitingForAnalysis => 6,
        OpenPhase::CancelAfterOpen => 5,
        OpenPhase::CancelBeforeDebugInfo => 4,
        OpenPhase::CancelBeforeDsym => 3,
        OpenPhase::ProbingDebugInfo { .. } => 3,
        OpenPhase::LoadingDebugInfo { .. } => 2,
        OpenPhase::LoadingDsym => 2,
        OpenPhase::DetectingLock { .. } => 2,
        OpenPhase::DetectingInputLock { .. } => 1,
        OpenPhase::CancelAtEnd => 1,
        OpenPhase::Finished => 0,
    }
}

/// Whether a step comes closer to the end, and ends the open where nothing is asked for.
spec fn comes_closer(s: StateView, next: (StateView, StepView)) -> bool {
    &&& steps_left(next.0.phase) < steps_left(s.phase)
    &&& next.0.phase is Finished <==> next.1.next !is Ask
}

proof fn lemma_judging_comes_closer(s: StateView, event: OpenEvent<Seq<char>>)
    requires
        open::answers(s.phase, event),
        s.phase is Locking || open::judges_candidate(s.phase),
    ensures
        comes_closer(s, open::judging_step(s, event)),
{
}

proof fn lemma_opening_comes_closer(s: StateView, event: OpenEvent<Seq<char>>)
    requires
        open::answers(s.phase, event),
        !(s.phase is Locking || open::judges_candidate(s.phase) || open::holds_database(s.phase)),
    ensures
        comes_closer(s, open::opening_step(s, event)),
{
}

proof fn lemma_raw_target_comes_closer(s: StateView, event: OpenEvent<Seq<char>>)
    requires
        open::answers(s.phase, event),
        open::holds_database(s.phase) && !open::is_set_up(s.phase),
    ensures
        comes_closer(s, open::raw_target_step(s, event)),
{
}

proof fn lemma_debug_info_comes_closer(s: StateView, event: OpenEvent<Seq<char>>)
    requires
        open::answers(s.phase, event),
        open::is_set_up(s.phase),
    ensures
        comes_closer(s, open::debug_info_step(s, event)),
{
}

/// Every step of an open comes closer to its end.
pub proof fn every_step_comes_closer_to_the_end(s: StateView, event: OpenEvent<Seq<char>>)
    requires
        open::answers(s.phase, event),
    ensures
        steps_left(open::step(s, event).0.phase) < steps_left(s.phase),
        open::step(s, event).0.phase is Finished <==> open::step(s, event).1.next !is Ask,
{
    if s.phase is Locking || open::judges_candidate(s.phase) {
        lemma_judging_comes_closer(s, event);
    } else if open::is_set_up(s.phase) {
        lemma_debug_info_comes_closer(s, event);
    } else if open::holds_database(s.phase) {
        lemma_raw_target_comes_closer(s, event);
    } else {
        lemma_opening_comes_closer(s, event);
    }
}

/// Every open ends: it takes in at most so many outcomes.
pub proof fn every_open_ends(
    request: RequestView,
    files: spec_fn(Seq<char>) -> EntryKind,
    events: Seq<OpenEvent<Seq<char>>>,
)
    requires
        is_run(open::initial(request, files), events),
    ensures
        events.len() + steps_left(run(open::initial(request, files), events).0.phase) <= 19,
    decreases events.len(),
{
    if events.len() > 0 {
        every_open_ends(request, files, events.drop_last());
        every_step_comes_closer_to_the_end(
            run(open::initial(request, files), events.drop_last()).0,
            events.last(),
        );
    }
}

proof fn lemma_first_present_agrees(
    paths: Seq<Seq<char>>,
    files: spec_fn(Seq<char>) -> EntryKind,
    others: spec_fn(Seq<char>) -> EntryKind,
)
    requires
        forall|i: int| 0 <= i < paths.len() ==> files(#[trigger] paths[i]) == others(paths[i]),
    ensures
        output::first_present(paths, files) == output::first_present(paths, others),
    decreases paths.len(),
{
    if paths.len() > 0 {
        assert forall|i: int| 0 <= i < paths.drop_first().len() implies files(
            #[trigger] paths.drop_first()[i],
        ) == others(paths.drop_first()[i]) by {
            assert(paths.drop_first()[i] == paths[i + 1]);
        }
        lemma_first_present_agrees(paths.drop_first(), files, others);
    }
}

/// How an open starts depends on the files at the inspected paths alone.
pub proof fn a_start_looks_at_the_inspected_paths_only(
    request: RequestView,
    cancelled: Option<ToolError<Seq<char>>>,
    open_path: Option<Seq<char>>,
    files: spec_fn(Seq<char>) -> EntryKind,
    others: spec_fn(Seq<char>) -> EntryKind,
    facts: OutputFacts<Seq<char>>,
)
    requires
        forall|path: Seq<char>|
            open::inspected(request).contains(path) ==> #[trigger] files(path) == others(path),
    ensures
        open::starting(request, cancelled, open_path, files, facts) == open::starting(
            request,
            cancelled,
            open_path,
            others,
            facts,
        ),
{
    let inspected = open::inspected(request);
    let out = database::raw_output(request.path, request.idb_out);
    let artifacts = database::artifacts(request.style, out);
    assert(inspected[0] == request.path);
    assert forall|i: int| 0 <= i < artifacts.len() implies files(#[trigger] artifacts[i])
        == others(artifacts[i]) by {
        assert(inspected[i + 1] == artifacts[i]);
    }
    assert(artifacts[0] == out);
    assert(database::unpacked_id0(request.style, out) matches Some(id0) ==> id0 == artifacts[1]);
    assert forall|i: int| 0 <= i < artifacts.skip(1).len() implies files(
        #[trigger] artifacts.skip(1)[i],
    ) == others(artifacts.skip(1)[i]) by {
        assert(artifacts.skip(1)[i] == artifacts[i + 1]);
    }
    lemma_first_present_agrees(artifacts.skip(1), files, others);
    if let Some(dsym) = database::dsym_expected(request.style, request.path) {
        assert(inspected.last() == dsym);
    }
}

/// A raw input without an output of its own and the database that is generated for it are
/// opened under the same lock.
pub proof fn a_raw_input_and_its_database_share_a_lock(
    raw: RequestView,
    database: RequestView,
    files: spec_fn(Seq<char>) -> EntryKind,
)
    requires
        !database::is_database(raw.style, raw.path),
        raw.idb_out is None,
        database.style == raw.style,
        database.path == database::generated_idb(raw.path),
        database::is_database(raw.style, database.path),
    ensures
        open::initial(raw, files).lock_target == open::initial(database, files).lock_target,
{
}

} // verus!
