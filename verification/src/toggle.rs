//! Enabling or disabling a display, as a state machine.
//!
//! Each step takes what the system answered to the last request and says
//! what to ask next, until the request finishes with `Ok` or an error
//! message. The caller performs the requests.

use vstd::prelude::*;
use crate::text::{push_signed_decimal, signed_decimal};

verus! {

/// The status code of a display configuration call that succeeded.
pub const CG_ERROR_SUCCESS: i32 = 0;

/// How far a request to enable or disable a display has come.
#[derive(Clone, Copy, Debug, PartialEq, Eq, Structural)]
pub enum TogglePhase {
    /// Waiting for the display id that the UUID names.
    Resolving,
    /// Waiting for the list of online displays.
    CheckingOnline { display_id: u32 },
    /// Waiting for whether the display is active or mirrored.
    CheckingState { display_id: u32 },
    /// Waiting for the status of beginning a configuration.
    Beginning { display_id: u32 },
    /// Waiting for the status of enabling or disabling the display.
    Configuring { display_id: u32 },
    /// Waiting for the status of completing the configuration.
    Completing,
    /// The request is over; it accepts no further answers.
    Finished,
}

/// An answer from the system to the last request.
pub enum ToggleEvent {
    /// The display id that the UUID names, if any.
    Resolved(Option<u32>),
    /// The ids of the online displays.
    Online(Vec<u32>),
    /// Whether the display is active, and whether it is in a mirror set.
    CurrentState { active: bool, mirrored: bool },
    /// The status code of a configuration call.
    Status(i32),
}

/// The mathematical value of a [`ToggleEvent`].
pub enum EventView {
    Resolved(Option<u32>),
    Online(Seq<u32>),
    CurrentState { active: bool, mirrored: bool },
    Status(i32),
}

impl View for ToggleEvent {
    type V = EventView;

    open spec fn view(&self) -> EventView {
        match self {
            ToggleEvent::Resolved(id) => EventView::Resolved(*id),
            ToggleEvent::Online(ids) => EventView::Online(ids@),
            ToggleEvent::CurrentState { active, mirrored } => EventView::CurrentState {
                active: *active,
                mirrored: *mirrored,
            },
            ToggleEvent::Status(code) => EventView::Status(*code),
        }
    }
}

/// What the caller is to do next.
pub enum ToggleAction {
    /// Look up the display id that the UUID names.
    ResolveUuid,
    /// Fetch the list of online displays.
    ListOnline,
    /// Ask whether the display is active and whether it is mirrored.
    QueryState(u32),
    /// Begin a display configuration.
    BeginConfiguration,
    /// Enable (`true`) or disable (`false`) the display in the configuration.
    ConfigureEnabled(u32, bool),
    /// Complete the configuration permanently.
    CompleteConfiguration,
    /// Stop: the request succeeded, or failed with this message.
    Finish(Result<(), String>),
}

/// The mathematical value of a [`ToggleAction`].
pub enum ActionView {
    ResolveUuid,
    ListOnline,
    QueryState(u32),
    BeginConfiguration,
    ConfigureEnabled(u32, bool),
    CompleteConfiguration,
    Finish(Result<(), Seq<char>>),
}

impl View for ToggleAction {
    type V = ActionView;

    open spec fn view(&self) -> ActionView {
        match self {
            ToggleAction::ResolveUuid => ActionView::ResolveUuid,
            ToggleAction::ListOnline => ActionView::ListOnline,
            ToggleAction::QueryState(id) => ActionView::QueryState(*id),
            ToggleAction::BeginConfiguration => ActionView::BeginConfiguration,
            ToggleAction::ConfigureEnabled(id, on) => ActionView::ConfigureEnabled(*id, *on),
            ToggleAction::CompleteConfiguration => ActionView::CompleteConfiguration,
            ToggleAction::Finish(Ok(())) => ActionView::Finish(Ok(())),
            ToggleAction::Finish(Err(msg)) => ActionView::Finish(Err(msg@)),
        }
    }
}

/// `true` or `false`, as `format!("{}", b)` writes it.
pub open spec fn bool_text(b: bool) -> Seq<char> {
    if b { "true"@ } else { "false"@ }
}

/// The message when the UUID names no display.
pub open spec fn not_found_message(uuid: Seq<char>) -> Seq<char> {
    "Invalid UUID or display not found: "@ + uuid
}

/// The message when the display is not online.
pub open spec fn not_online_message(uuid: Seq<char>) -> Seq<char> {
    "Display "@ + uuid + " is not online"@
}

/// The message when a configuration cannot begin.
pub open spec fn begin_failed_message(code: i32) -> Seq<char> {
    "Failed to begin display configuration (error: "@ + signed_decimal(code as int) + ")"@
}

/// The message when the display cannot be enabled or disabled.
pub open spec fn configure_failed_message(enabled: bool, code: i32) -> Seq<char> {
    "Failed to set display enabled="@ + bool_text(enabled) + " (error: "@ + signed_decimal(
        code as int,
    ) + ")"@
}

/// The message when a configuration cannot be completed.
pub open spec fn complete_failed_message(code: i32) -> Seq<char> {
    "Failed to complete display configuration (error: "@ + signed_decimal(code as int) + ")"@
}

/// Whether a display counts as enabled: it is active or in a mirror set.
pub open spec fn is_enabled(active: bool, mirrored: bool) -> bool {
    active || mirrored
}

/// Whether `event` reports a display that is enabled (`enabled`) or
/// disabled.
pub open spec fn reports_state(event: EventView, enabled: bool) -> bool {
    match event {
        EventView::CurrentState { active, mirrored } => is_enabled(active, mirrored) == enabled,
        _ => false,
    }
}

/// Whether `phase` is waiting for an answer of the kind of `event`.
pub open spec fn accepts(phase: TogglePhase, event: EventView) -> bool {
    match phase {
        TogglePhase::Resolving => event is Resolved,
        TogglePhase::CheckingOnline { .. } => event is Online,
        TogglePhase::CheckingState { .. } => event is CurrentState,
        TogglePhase::Beginning { .. } => event is Status,
        TogglePhase::Configuring { .. } => event is Status,
        TogglePhase::Completing => event is Status,
        TogglePhase::Finished => false,
    }
}

/// How many answers `phase` can still take at most.
pub open spec fn rank(phase: TogglePhase) -> nat {
    match phase {
        TogglePhase::Resolving => 6,
        TogglePhase::CheckingOnline { .. } => 5,
        TogglePhase::CheckingState { .. } => 4,
        TogglePhase::Beginning { .. } => 3,
        TogglePhase::Configuring { .. } => 2,
        TogglePhase::Completing => 1,
        TogglePhase::Finished => 0,
    }
}

/// The next phase and action of a request for the display named `uuid` to
/// become enabled (`enabled`) or disabled, after `event` in `phase`.
pub open spec fn next(phase: TogglePhase, uuid: Seq<char>, enabled: bool, event: EventView) -> (
    TogglePhase,
    ActionView,
) {
    match (phase, event) {
        (TogglePhase::Resolving, EventView::Resolved(found)) => match found {
            None => (TogglePhase::Finished, ActionView::Finish(Err(not_found_message(uuid)))),
            Some(id) => (TogglePhase::CheckingOnline { display_id: id }, ActionView::ListOnline),
        },
        (TogglePhase::CheckingOnline { display_id }, EventView::Online(ids)) => if ids.contains(
            display_id,
        ) {
            (TogglePhase::CheckingState { display_id }, ActionView::QueryState(display_id))
        } else {
            (TogglePhase::Finished, ActionView::Finish(Err(not_online_message(uuid))))
        },
        (TogglePhase::CheckingState { display_id }, EventView::CurrentState { active, mirrored }) => {
            if is_enabled(active, mirrored) == enabled {
                (TogglePhase::Finished, ActionView::Finish(Ok(())))
            } else {
                (TogglePhase::Beginning { display_id }, ActionView::BeginConfiguration)
            }
        },
        (TogglePhase::Beginning { display_id }, EventView::Status(code)) => if code
            == CG_ERROR_SUCCESS {
            (
                TogglePhase::Configuring { display_id },
                ActionView::ConfigureEnabled(display_id, enabled),
            )
        } else {
            (TogglePhase::Finished, ActionView::Finish(Err(begin_failed_message(code))))
        },
        (TogglePhase::Configuring { .. }, EventView::Status(code)) => if code == CG_ERROR_SUCCESS {
            (TogglePhase::Completing, ActionView::CompleteConfiguration)
        } else {
            (
                TogglePhase::Finished,
                ActionView::Finish(Err(configure_failed_message(enabled, code))),
            )
        },
        (TogglePhase::Completing, EventView::Status(code)) => if code == CG_ERROR_SUCCESS {
            (TogglePhase::Finished, ActionView::Finish(Ok(())))
        } else {
            (TogglePhase::Finished, ActionView::Finish(Err(complete_failed_message(code))))
        },
        _ => (phase, ActionView::Finish(Ok(()))),
    }
}


/// The phase reached, and the actions asked for (the first one included),
/// when a request takes the answers `events` in turn.
pub open spec fn run(uuid: Seq<char>, enabled: bool, events: Seq<EventView>) -> (
    TogglePhase,
    Seq<ActionView>,
)
    decreases events.len(),
{
    if events.len() == 0 {
        (TogglePhase::Resolving, seq![ActionView::ResolveUuid])
    } else {
        let prev = run(uuid, enabled, events.drop_last());
        let last = next(prev.0, uuid, enabled, events.last());
        (last.0, prev.1.push(last.1))
    }
}

/// Whether each of `events` answers the request that was pending.
pub open spec fn accepted_run(uuid: Seq<char>, enabled: bool, events: Seq<EventView>) -> bool
    decreases events.len(),
{
    events.len() == 0 || (accepted_run(uuid, enabled, events.drop_last()) && accepts(
        run(uuid, enabled, events.drop_last()).0,
        events.last(),
    ))
}

/// What an accepted run has established, by the phase it reached.
pub open spec fn run_shape(
    uuid: Seq<char>,
    enabled: bool,
    events: Seq<EventView>,
    phase: TogglePhase,
) -> bool {
    match phase {
        TogglePhase::Resolving => events.len() == 0,
        TogglePhase::CheckingOnline { display_id } => {
            &&& events.len() == 1
            &&& events[0] == EventView::Resolved(Some(display_id))
        },
        TogglePhase::CheckingState { display_id } => {
            &&& events.len() == 2
            &&& events[0] == EventView::Resolved(Some(display_id))
            &&& events[1] matches EventView::Online(ids) && ids.contains(display_id)
        },
        TogglePhase::Beginning { display_id } => {
            &&& events.len() == 3
            &&& events[0] == EventView::Resolved(Some(display_id))
            &&& events[1] matches EventView::Online(ids) && ids.contains(display_id)
            &&& events[2] matches EventView::CurrentState { active, mirrored } && is_enabled(
                active,
                mirrored,
            ) != enabled
        },
        TogglePhase::Configuring { display_id } => {
            &&& events.len() == 4
            &&& events[0] == EventView::Resolved(Some(display_id))
            &&& events[1] matches EventView::Online(ids) && ids.contains(display_id)
            &&& events[2] matches EventView::CurrentState { active, mirrored } && is_enabled(
                active,
                mirrored,
            ) != enabled
            &&& events[3] == EventView::Status(CG_ERROR_SUCCESS)
        },
        TogglePhase::Completing => {
            &&& events.len() == 5
            &&& events[0] is Resolved
            &&& events[3] == EventView::Status(CG_ERROR_SUCCESS)
            &&& events[4] == EventView::Status(CG_ERROR_SUCCESS)
        },
        TogglePhase::Finished => 1 <= events.len() <= 6,
    }
}

proof fn lemma_run_shape(uuid: Seq<char>, enabled: bool, events: Seq<EventView>)
    requires
        accepted_run(uuid, enabled, events),
    ensures
        run(uuid, enabled, events).1.len() == events.len() + 1,
        rank(run(uuid, enabled, events).0) + events.len() <= 6,
        run_shape(uuid, enabled, events, run(uuid, enabled, events).0),
    decreases events.len(),
{
    if events.len() > 0 {
        let prefix = events.drop_last();
        lemma_run_shape(uuid, enabled, prefix);
    }
}

proof fn lemma_run_prefix(uuid: Seq<char>, enabled: bool, events: Seq<EventView>, j: int)
    requires
        accepted_run(uuid, enabled, events),
        0 <= j <= events.len(),
    ensures
        accepted_run(uuid, enabled, events.take(j)),
        run(uuid, enabled, events.take(j)).1 == run(uuid, enabled, events).1.take(j + 1),
    decreases events.len(),
{
    lemma_run_shape(uuid, enabled, events);
    if j == events.len() {
        assert(events.take(j) =~= events);
        assert(run(uuid, enabled, events).1.take(j + 1) =~= run(uuid, enabled, events).1);
    } else {
        let prefix = events.drop_last();
        lemma_run_prefix(uuid, enabled, prefix, j);
        assert(prefix.take(j) =~= events.take(j));
        lemma_run_shape(uuid, enabled, prefix);
        assert(run(uuid, enabled, prefix).1.take(j + 1) =~= run(uuid, enabled, events).1.take(
            j + 1,
        ));
    }
}

proof fn lemma_take_last(uuid: Seq<char>, enabled: bool, events: Seq<EventView>, k: int)
    requires
        accepted_run(uuid, enabled, events),
        1 <= k <= events.len(),
    ensures
        accepted_run(uuid, enabled, events.take(k - 1)),
        accepts(run(uuid, enabled, events.take(k - 1)).0, events[k - 1]),
        run(uuid, enabled, events).1[k] == next(
            run(uuid, enabled, events.take(k - 1)).0,
            uuid,
            enabled,
            events[k - 1],
        ).1,
        run(uuid, enabled, events.take(k)).0 == next(
            run(uuid, enabled, events.take(k - 1)).0,
            uuid,
            enabled,
            events[k - 1],
        ).0,
{
    lemma_run_prefix(uuid, enabled, events, k);
    let t = events.take(k);
    assert(t.drop_last() =~= events.take(k - 1));
    assert(t.last() == events[k - 1]);
    lemma_run_shape(uuid, enabled, events);
    lemma_run_shape(uuid, enabled, events.take(k - 1));
    let prev = run(uuid, enabled, events.take(k - 1));
    let step = next(prev.0, uuid, enabled, events[k - 1]);
    assert(run(uuid, enabled, t) == (step.0, prev.1.push(step.1)));
    assert(run(uuid, enabled, t).1[k] == step.1);
    assert(run(uuid, enabled, events).1.take(k + 1)[k] == run(uuid, enabled, events).1[k]);
}

/// A request takes at most six answers: each answer moves it on, and once
/// it has finished it takes none.
pub proof fn law_toggle_finishes(uuid: Seq<char>, enabled: bool, events: Seq<EventView>)
    requires
        accepted_run(uuid, enabled, events),
    ensures
        events.len() <= 6,
        events.len() == 6 ==> run(uuid, enabled, events).0 == TogglePhase::Finished,
{
    lemma_run_shape(uuid, enabled, events);
}

/// A display is only ever enabled or disabled as asked, and only after its
/// UUID was found to name it, it was listed online, its current state was
/// found to differ from the one asked for, and a configuration began.
pub proof fn law_toggle_configures_only_checked_display(
    uuid: Seq<char>,
    enabled: bool,
    events: Seq<EventView>,
    k: int,
    display_id: u32,
    on: bool,
)
    requires
        accepted_run(uuid, enabled, events),
        0 <= k < run(uuid, enabled, events).1.len(),
        run(uuid, enabled, events).1[k] == ActionView::ConfigureEnabled(display_id, on),
    ensures
        on == enabled,
        k == 4,
        events[0] == EventView::Resolved(Some(display_id)),
        events[1] matches EventView::Online(ids) && ids.contains(display_id),
        events[2] matches EventView::CurrentState { active, mirrored } && is_enabled(
            active,
            mirrored,
        ) != enabled,
        events[3] == EventView::Status(CG_ERROR_SUCCESS),
{
    lemma_run_shape(uuid, enabled, events);
    if k == 0 {
        assert(run(uuid, enabled, events).1[0] == ActionView::ResolveUuid) by {
            assert(events.take(0) =~= Seq::<EventView>::empty());
            lemma_run_prefix(uuid, enabled, events, 0);
            assert(run(uuid, enabled, events.take(0)).1 == seq![ActionView::ResolveUuid]);
            assert(run(uuid, enabled, events).1.take(1)[0] == run(uuid, enabled, events).1[0]);
        }
    } else {
        lemma_take_last(uuid, enabled, events, k);
        let before = events.take(k - 1);
        lemma_run_shape(uuid, enabled, before);
        let phase = run(uuid, enabled, before).0;
        assert(phase is Beginning);
        assert(before[0] == events[0]);
        assert(before[1] == events[1]);
        assert(before[2] == events[2]);
    }
}

/// When the display is already in the state asked for, the request ends
/// there with `Ok`, and nothing is configured.
pub proof fn law_toggle_keeps_display_in_requested_state(
    uuid: Seq<char>,
    enabled: bool,
    events: Seq<EventView>,
)
    requires
        accepted_run(uuid, enabled, events),
        events.len() >= 3,
        events[2] matches EventView::CurrentState { active, mirrored } && is_enabled(
            active,
            mirrored,
        ) == enabled,
    ensures
        events.len() == 3,
        run(uuid, enabled, events).0 == TogglePhase::Finished,
        run(uuid, enabled, events).1.last() == ActionView::Finish(Ok(())),
        forall|k: int|
            0 <= k < run(uuid, enabled, events).1.len() ==> !(#[trigger] run(
                uuid,
                enabled,
                events,
            ).1[k] is ConfigureEnabled),
{
    lemma_take_last(uuid, enabled, events, 3);
    let two = events.take(2);
    lemma_run_shape(uuid, enabled, two);
    assert(run(uuid, enabled, two).0 is CheckingState);
    if events.len() >= 4 {
        lemma_take_last(uuid, enabled, events, 4);
        assert(events.take(3).len() == 3);
        assert(false);
    }
    assert(events.take(3) =~= events);
    lemma_run_shape(uuid, enabled, events);
    assert forall|k: int| 0 <= k < run(uuid, enabled, events).1.len() implies !(#[trigger] run(
        uuid,
        enabled,
        events,
    ).1[k] is ConfigureEnabled) by {
        if let ActionView::ConfigureEnabled(id, on) = run(uuid, enabled, events).1[k] {
            law_toggle_configures_only_checked_display(uuid, enabled, events, k, id, on);
        }
    }
}


/// A request succeeds only where the display was already in the state asked
/// for, or where beginning, changing and completing the configuration all
/// succeeded.
pub proof fn law_toggle_succeeds_only_when_done(
    uuid: Seq<char>,
    enabled: bool,
    events: Seq<EventView>,
    k: int,
)
    requires
        accepted_run(uuid, enabled, events),
        0 <= k < run(uuid, enabled, events).1.len(),
        run(uuid, enabled, events).1[k] == ActionView::Finish(Ok(())),
    ensures
        events[0] is Resolved,
        (k == 3 && reports_state(events[2], enabled)) || (k == 6 && reports_state(
            events[2],
            !enabled,
        ) && events[3] == EventView::Status(CG_ERROR_SUCCESS) && events[4] == EventView::Status(
            CG_ERROR_SUCCESS,
        ) && events[5] == EventView::Status(CG_ERROR_SUCCESS)),
{
    lemma_run_shape(uuid, enabled, events);
    if k == 0 {
        assert(events.take(0) =~= Seq::<EventView>::empty());
        lemma_run_prefix(uuid, enabled, events, 0);
        assert(run(uuid, enabled, events).1.take(1)[0] == run(uuid, enabled, events).1[0]);
    } else {
        lemma_take_last(uuid, enabled, events, k);
        let before = events.take(k - 1);
        lemma_run_shape(uuid, enabled, before);
        let phase = run(uuid, enabled, before).0;
        if phase is Completing {
            lemma_take_last(uuid, enabled, events, 4);
            lemma_run_shape(uuid, enabled, events.take(3));
            assert(events.take(3)[2] == events[2]);
        }
        assert(before.len() > 0 ==> before[0] == events[0]);
    }
}


/// A request whose display was in the other state, and whose beginning,
/// changing and completing of the configuration all succeeded, finishes with
/// `Ok` after the sixth answer, for enabling and for disabling alike.
pub proof fn law_toggle_succeeds_when_all_calls_succeed(
    uuid: Seq<char>,
    enabled: bool,
    events: Seq<EventView>,
)
    requires
        accepted_run(uuid, enabled, events),
        events.len() == 6,
        reports_state(events[2], !enabled),
        events[3] == EventView::Status(CG_ERROR_SUCCESS),
        events[4] == EventView::Status(CG_ERROR_SUCCESS),
        events[5] == EventView::Status(CG_ERROR_SUCCESS),
    ensures
        run(uuid, enabled, events).1[6] == ActionView::Finish(Ok(())),
        run(uuid, enabled, events).1.last() == ActionView::Finish(Ok(())),
        run(uuid, enabled, events).0 == TogglePhase::Finished,
{
    lemma_run_shape(uuid, enabled, events);
    lemma_take_last(uuid, enabled, events, 6);
    let five = events.take(5);
    lemma_run_shape(uuid, enabled, five);
    assert(events.take(6) =~= events);
}


/// Whether answer `k` of `events` reports a failure: an unknown UUID, a
/// display missing from the online list, or a configuration call that did
/// not succeed.
pub open spec fn answer_fails(events: Seq<EventView>, k: int) -> bool {
    match events[k] {
        EventView::Resolved(found) => found is None,
        EventView::Online(ids) => events[0] matches EventView::Resolved(Some(id)) && !ids.contains(
            id,
        ),
        EventView::Status(code) => code != CG_ERROR_SUCCESS,
        EventView::CurrentState { .. } => false,
    }
}

/// Whether `m` ends with `suffix`.
pub open spec fn ends_with(m: Seq<char>, suffix: Seq<char>) -> bool {
    suffix.len() <= m.len() && m.subrange(m.len() - suffix.len(), m.len() as int) == suffix
}

/// A failure ends the request at once with an error: an unknown or offline
/// display is named by its UUID in the message, and a failed configuration
/// call by its status code in parentheses.
pub proof fn law_toggle_reports_failures(
    uuid: Seq<char>,
    enabled: bool,
    events: Seq<EventView>,
    k: int,
)
    requires
        accepted_run(uuid, enabled, events),
        0 <= k < events.len(),
        answer_fails(events, k),
    ensures
        events.len() == k + 1,
        run(uuid, enabled, events).0 == TogglePhase::Finished,
        run(uuid, enabled, events).1[k + 1] matches ActionView::Finish(Err(m)) && {
            &&& events[k] is Resolved ==> ends_with(m, uuid)
            &&& events[k] is Online ==> m.subrange(8, 8 + uuid.len() as int) == uuid
            &&& events[k] matches EventView::Status(code) ==> ends_with(
                m,
                signed_decimal(code as int) + seq![')'],
            )
            &&& k == 4 && enabled ==> m.subrange(30, 34) == seq!['t', 'r', 'u', 'e']
            &&& k == 4 && !enabled ==> m.subrange(30, 35) == seq!['f', 'a', 'l', 's', 'e']
            &&& k == 3 ==> m.subrange(10, 15) == seq!['b', 'e', 'g', 'i', 'n']
            &&& k == 5 ==> m.subrange(10, 18) == seq!['c', 'o', 'm', 'p', 'l', 'e', 't', 'e']
        },
{
    lemma_run_shape(uuid, enabled, events);
    lemma_take_last(uuid, enabled, events, k + 1);
    let before = events.take(k);
    lemma_run_shape(uuid, enabled, before);
    if k >= 1 {
        assert(before[0] == events[0]);
    }
    let after = events.take(k + 1);
    lemma_run_prefix(uuid, enabled, events, k + 1);
    lemma_run_shape(uuid, enabled, after);
    if events.len() > k + 1 {
        lemma_take_last(uuid, enabled, events, k + 2);
    }
    assert(events.take(k + 1) =~= events);
    reveal_strlit("Invalid UUID or display not found: ");
    reveal_strlit("Display ");
    reveal_strlit(")");
    let m = run(uuid, enabled, events).1[k + 1];
    if let ActionView::Finish(Err(msg)) = m {
        if events[k] is Resolved {
            assert(msg.subrange(msg.len() - uuid.len(), msg.len() as int) =~= uuid);
        } else if events[k] is Online {
            assert(msg.subrange(8, 8 + uuid.len() as int) =~= uuid);
        } else if let EventView::Status(code) = events[k] {
            let suffix = signed_decimal(code as int) + seq![')'];
            assert(msg.subrange(msg.len() - suffix.len(), msg.len() as int) =~= suffix);
            if k == 3 {
                reveal_strlit("Failed to begin display configuration (error: ");
                assert(msg.subrange(10, 15) =~= seq!['b', 'e', 'g', 'i', 'n']);
            }
            if k == 5 {
                reveal_strlit("Failed to complete display configuration (error: ");
                assert(msg.subrange(10, 18) =~= seq!['c', 'o', 'm', 'p', 'l', 'e', 't', 'e']);
            }
            if k == 4 {
                reveal_strlit("Failed to set display enabled=");
                reveal_strlit("true");
                reveal_strlit("false");
                if enabled {
                    assert(msg.subrange(30, 34) =~= seq!['t', 'r', 'u', 'e']);
                } else {
                    assert(msg.subrange(30, 35) =~= seq!['f', 'a', 'l', 's', 'e']);
                }
            }
        }
    }
}

/// The display asked about and configured is always the one the UUID
/// resolved to.
pub proof fn law_toggle_acts_on_resolved_display(
    uuid: Seq<char>,
    enabled: bool,
    events: Seq<EventView>,
    k: int,
    display_id: u32,
)
    requires
        accepted_run(uuid, enabled, events),
        0 <= k < run(uuid, enabled, events).1.len(),
        run(uuid, enabled, events).1[k] == ActionView::QueryState(display_id),
    ensures
        k == 2,
        events[0] == EventView::Resolved(Some(display_id)),
        events[1] matches EventView::Online(ids) && ids.contains(display_id),
{
    lemma_run_shape(uuid, enabled, events);
    if k == 0 {
        assert(events.take(0) =~= Seq::<EventView>::empty());
        lemma_run_prefix(uuid, enabled, events, 0);
        assert(run(uuid, enabled, events).1.take(1)[0] == run(uuid, enabled, events).1[0]);
    } else {
        lemma_take_last(uuid, enabled, events, k);
        let before = events.take(k - 1);
        lemma_run_shape(uuid, enabled, before);
        assert(run(uuid, enabled, before).0 is CheckingOnline);
        assert(before[0] == events[0]);
    }
}


/// A display counts as enabled exactly when it is active or in a mirror
/// set.
pub proof fn law_enabled_means_active_or_mirrored(active: bool, mirrored: bool, enabled: bool)
    ensures
        reports_state(EventView::CurrentState { active, mirrored }, enabled) <==> ((active
            || mirrored) == enabled),
{
}

/// Whether `id` is one of `ids`.
pub fn lists_display(ids: &Vec<u32>, id: u32) -> (r: bool)
    ensures
        r == ids@.contains(id),
{
    let mut i: usize = 0;
    while i < ids.len()
        invariant
            i <= ids@.len(),
            forall|j: int| 0 <= j < i ==> ids@[j] != id,
        decreases ids@.len() - i,
    {
        if ids[i] == id {
            assert(ids@[i as int] == id);
            return true;
        }
        i = i + 1;
    }
    false
}

fn message_not_found(uuid: &String) -> (m: String)
    ensures
        m@ == not_found_message(uuid@),
{
    let mut m = String::from_str("Invalid UUID or display not found: ");
    m.append(uuid.as_str());
    m
}

fn message_not_online(uuid: &String) -> (m: String)
    ensures
        m@ == not_online_message(uuid@),
{
    let mut m = String::from_str("Display ");
    m.append(uuid.as_str());
    m.append(" is not online");
    m
}

fn message_begin_failed(code: i32) -> (m: String)
    ensures
        m@ == begin_failed_message(code),
{
    let mut m = String::from_str("Failed to begin display configuration (error: ");
    push_signed_decimal(&mut m, code);
    m.append(")");
    m
}

fn message_configure_failed(enabled: bool, code: i32) -> (m: String)
    ensures
        m@ == configure_failed_message(enabled, code),
{
    let mut m = String::from_str("Failed to set display enabled=");
    if enabled {
        m.append("true");
    } else {
        m.append("false");
    }
    m.append(" (error: ");
    push_signed_decimal(&mut m, code);
    m.append(")");
    m
}

fn message_complete_failed(code: i32) -> (m: String)
    ensures
        m@ == complete_failed_message(code),
{
    let mut m = String::from_str("Failed to complete display configuration (error: ");
    push_signed_decimal(&mut m, code);
    m.append(")");
    m
}

/// A request for the display named `uuid` to become enabled or disabled.
pub struct Toggle {
    pub uuid: String,
    pub enabled: bool,
    pub phase: TogglePhase,
}

impl Toggle {
    /// Starts a request; the first thing to do is to look up the UUID.
    pub fn start(uuid: String, enabled: bool) -> (r: (Toggle, ToggleAction))
        ensures
            r.0.uuid@ == uuid@,
            r.0.enabled == enabled,
            r.0.phase == TogglePhase::Resolving,
            r.1@ == ActionView::ResolveUuid,
    {
        (Toggle { uuid, enabled, phase: TogglePhase::Resolving }, ToggleAction::ResolveUuid)
    }

    /// Whether the request is waiting for an answer of the kind of `event`.
    pub fn accepts(&self, event: &ToggleEvent) -> (r: bool)
        ensures
            r == accepts(self.phase, event@),
    {
        match (self.phase, event) {
            (TogglePhase::Resolving, ToggleEvent::Resolved(_)) => true,
            (TogglePhase::CheckingOnline { .. }, ToggleEvent::Online(_)) => true,
            (TogglePhase::CheckingState { .. }, ToggleEvent::CurrentState { .. }) => true,
            (TogglePhase::Beginning { .. }, ToggleEvent::Status(_)) => true,
            (TogglePhase::Configuring { .. }, ToggleEvent::Status(_)) => true,
            (TogglePhase::Completing, ToggleEvent::Status(_)) => true,
            _ => false,
        }
    }

    /// Takes the answer to the last request and says what to do next.
    pub fn step(&mut self, event: ToggleEvent) -> (action: ToggleAction)
        requires
            accepts(old(self).phase, event@),
        ensures
            final(self).uuid@ == old(self).uuid@,
            final(self).enabled == old(self).enabled,
            (final(self).phase, action@) == next(
                old(self).phase,
                old(self).uuid@,
                old(self).enabled,
                event@,
            ),
            rank(final(self).phase) < rank(old(self).phase),
    {
        match event {
            ToggleEvent::Resolved(found) => match found {
                None => {
                    self.phase = TogglePhase::Finished;
                    ToggleAction::Finish(Err(message_not_found(&self.uuid)))
                },
                Some(id) => {
                    self.phase = TogglePhase::CheckingOnline { display_id: id };
                    ToggleAction::ListOnline
                },
            },
            ToggleEvent::Online(ids) => {
                let display_id = match self.phase {
                    TogglePhase::CheckingOnline { display_id } => display_id,
                    _ => 0,
                };
                if lists_display(&ids, display_id) {
                    self.phase = TogglePhase::CheckingState { display_id };
                    ToggleAction::QueryState(display_id)
                } else {
                    self.phase = TogglePhase::Finished;
                    ToggleAction::Finish(Err(message_not_online(&self.uuid)))
                }
            },
            ToggleEvent::CurrentState { active, mirrored } => {
                let display_id = match self.phase {
                    TogglePhase::CheckingState { display_id } => display_id,
                    _ => 0,
                };
                let currently_enabled = active || mirrored;
                if currently_enabled == self.enabled {
                    self.phase = TogglePhase::Finished;
                    ToggleAction::Finish(Ok(()))
                } else {
                    self.phase = TogglePhase::Beginning { display_id };
                    ToggleAction::BeginConfiguration
                }
            },
            ToggleEvent::Status(code) => match self.phase {
                TogglePhase::Beginning { display_id } => {
                    if code == CG_ERROR_SUCCESS {
                        self.phase = TogglePhase::Configuring { display_id };
                        ToggleAction::ConfigureEnabled(display_id, self.enabled)
                    } else {
                        self.phase = TogglePhase::Finished;
                        ToggleAction::Finish(Err(message_begin_failed(code)))
                    }
                },
                TogglePhase::Configuring { .. } => {
                    if code == CG_ERROR_SUCCESS {
                        self.phase = TogglePhase::Completing;
                        ToggleAction::CompleteConfiguration
                    } else {
                        self.phase = TogglePhase::Finished;
                        ToggleAction::Finish(Err(message_configure_failed(self.enabled, code)))
                    }
                },
                _ => {
                    if code == CG_ERROR_SUCCESS {
                        self.phase = TogglePhase::Finished;
                        ToggleAction::Finish(Ok(()))
                    } else {
                        self.phase = TogglePhase::Finished;
                        ToggleAction::Finish(Err(message_complete_failed(code)))
                    }
                },
            },
        }
    }
}

} // verus!
