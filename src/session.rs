//! The global-shortcut session: what the handler decides at each step of
//! its life with the desktop's shortcut service. The caller performs each
//! decided action (registering, listening, calling an action, closing) and
//! reports back what happened.

use crate::commands::ShortcutRequest;
use vstd::prelude::*;

verus! {

/// A shortcut as the service confirmed it: its id and a description of the
/// trigger that fires it.
pub struct RegisteredShortcut {
    pub id: String,
    pub activation: String,
}

impl RegisteredShortcut {
    /// The shortcut's id and trigger description.
    pub open spec fn fields(&self) -> (Seq<char>, Seq<char>) {
        (self.id@, self.activation@)
    }
}

/// The ids and trigger descriptions of `ts`, in order.
pub open spec fn trigger_fields(ts: Seq<RegisteredShortcut>) -> Seq<(Seq<char>, Seq<char>)> {
    ts.map_values(|t: RegisteredShortcut| t.fields())
}

/// Where the handler stands in the life of a session.
#[derive(Debug, Clone, Copy, PartialEq, Eq, Structural)]
pub enum SessionPhase {
    Idle,
    Registering,
    Active,
    Closing,
}

/// Why the service did not register the shortcuts.
#[derive(Debug, Clone, Copy, PartialEq, Eq, Structural)]
pub enum RegistrationFailure {
    /// The user or the service cancelled the request.
    Cancelled,
    /// The service answered the request with an error of its own.
    Other,
    /// The request could not be made or answered.
    Failed,
}

/// What the caller is to do next.
#[derive(Debug, Clone, Copy, PartialEq, Eq, Structural)]
pub enum SessionAction {
    /// Nothing.
    Nothing,
    /// Nothing: there is no shortcut to register.
    NothingToRegister,
    /// Register the application, open a session and bind the requested shortcuts.
    Register,
    /// Listen to the session's events.
    AwaitEvents,
    /// Call the action named by the shortcut that was activated.
    CallAction,
    /// Report that registration failed.
    ReportFailure(RegistrationFailure),
    /// Report a deactivation that no activation preceded.
    ReportAnomaly,
    /// Close the session.
    CloseSession,
}

/// An event of a live session, as the service delivers it.
pub enum ShortcutEvent {
    Activated(String),
    Deactivated(String),
    ShortcutsChanged(Vec<RegisteredShortcut>),
}

/// What happened, as the handler's rules see it.
pub enum SessionInput {
    /// A start was asked for; the flag says whether there are shortcuts to register.
    Start(bool),
    /// The service confirmed these shortcuts (id, trigger description).
    Confirmed(Seq<(Seq<char>, Seq<char>)>),
    /// The service did not register the shortcuts.
    Refused(RegistrationFailure),
    /// The shortcut with this id was pressed.
    Activated(Seq<char>),
    /// The shortcut with this id was released.
    Deactivated(Seq<char>),
    /// The service now reports these shortcuts.
    Changed(Seq<(Seq<char>, Seq<char>)>),
    /// The session's events came to an end.
    EventsEnded,
    /// A stop was asked for.
    Stop,
    /// The session was closed.
    Closed,
}

/// The handler's state: its phase, whether it was cancelled, the shortcuts
/// registered and the ids of those held down.
pub struct HandlerView {
    pub phase: SessionPhase,
    pub cancelled: bool,
    pub triggers: Seq<(Seq<char>, Seq<char>)>,
    pub active: Set<Seq<char>>,
}

/// `v` in phase `phase`.
pub open spec fn with_phase(v: HandlerView, phase: SessionPhase) -> HandlerView {
    HandlerView { phase, cancelled: v.cancelled, triggers: v.triggers, active: v.active }
}

/// `v` with these shortcuts registered.
pub open spec fn with_triggers(v: HandlerView, ts: Seq<(Seq<char>, Seq<char>)>) -> HandlerView {
    HandlerView { phase: v.phase, cancelled: v.cancelled, triggers: ts, active: v.active }
}

/// `v` with these ids held down.
pub open spec fn with_active(v: HandlerView, active: Set<Seq<char>>) -> HandlerView {
    HandlerView { phase: v.phase, cancelled: v.cancelled, triggers: v.triggers, active }
}

/// The handler's rules: the state after `input`, and what to do.
pub open spec fn step(v: HandlerView, input: SessionInput) -> (HandlerView, SessionAction) {
    match input {
        SessionInput::Start(any) => {
            if v.phase == SessionPhase::Idle && !v.cancelled {
                if any {
                    (with_phase(v, SessionPhase::Registering), SessionAction::Register)
                } else {
                    (v, SessionAction::NothingToRegister)
                }
            } else {
                (v, SessionAction::Nothing)
            }
        },
        SessionInput::Confirmed(ts) => {
            if v.phase == SessionPhase::Registering {
                (
                    with_triggers(with_phase(v, SessionPhase::Active), ts),
                    SessionAction::AwaitEvents,
                )
            } else if v.phase == SessionPhase::Idle {
                (v, SessionAction::CloseSession)
            } else {
                (v, SessionAction::Nothing)
            }
        },
        SessionInput::Refused(f) => {
            if v.phase == SessionPhase::Registering {
                (with_phase(v, SessionPhase::Idle), SessionAction::ReportFailure(f))
            } else {
                (v, SessionAction::Nothing)
            }
        },
        SessionInput::Activated(id) => {
            if v.phase == SessionPhase::Active {
                (with_active(v, v.active.insert(id)), SessionAction::CallAction)
            } else {
                (v, SessionAction::Nothing)
            }
        },
        SessionInput::Deactivated(id) => {
            if v.phase == SessionPhase::Active {
                if v.active.contains(id) {
                    (with_active(v, v.active.remove(id)), SessionAction::Nothing)
                } else {
                    (v, SessionAction::ReportAnomaly)
                }
            } else {
                (v, SessionAction::Nothing)
            }
        },
        SessionInput::Changed(ts) => {
            if v.phase == SessionPhase::Active {
                (with_triggers(v, ts), SessionAction::Nothing)
            } else {
                (v, SessionAction::Nothing)
            }
        },
        SessionInput::EventsEnded => {
            if v.phase == SessionPhase::Active {
                (with_phase(v, SessionPhase::Closing), SessionAction::CloseSession)
            } else {
                (v, SessionAction::Nothing)
            }
        },
        SessionInput::Stop => {
            if v.phase == SessionPhase::Active {
                (
                    HandlerView {
                        phase: SessionPhase::Closing,
                        cancelled: true,
                        triggers: v.triggers,
                        active: v.active,
                    },
                    SessionAction::CloseSession,
                )
            } else if v.phase == SessionPhase::Closing {
                (
                    HandlerView {
                        phase: SessionPhase::Closing,
                        cancelled: true,
                        triggers: v.triggers,
                        active: v.active,
                    },
                    SessionAction::Nothing,
                )
            } else {
                (
                    HandlerView {
                        phase: SessionPhase::Idle,
                        cancelled: true,
                        triggers: Seq::empty(),
                        active: Set::empty(),
                    },
                    SessionAction::Nothing,
                )
            }
        },
        SessionInput::Closed => {
            if v.phase == SessionPhase::Closing {
                (
                    HandlerView {
                        phase: SessionPhase::Idle,
                        cancelled: v.cancelled,
                        triggers: Seq::empty(),
                        active: Set::empty(),
                    },
                    SessionAction::Nothing,
                )
            } else {
                (v, SessionAction::Nothing)
            }
        },
    }
}

/// The line that shows one registered shortcut: `id: trigger`, in bold
/// while it is held down.
pub open spec fn display_line(t: (Seq<char>, Seq<char>), active: Set<Seq<char>>) -> Seq<char> {
    let body = t.0 + ": "@ + t.1;
    if active.contains(t.0) {
        "<b>"@ + body + "</b>"@
    } else {
        body
    }
}

/// The handler of one session with the shortcut service.
pub struct ShortcutHandler {
    phase: SessionPhase,
    cancelled: bool,
    triggers: Vec<RegisteredShortcut>,
    activations: Vec<String>,
}

impl View for ShortcutHandler {
    type V = HandlerView;

    closed spec fn view(&self) -> HandlerView {
        HandlerView {
            phase: self.phase,
            cancelled: self.cancelled,
            triggers: trigger_fields(self.triggers@),
            active: self.active_ids(),
        }
    }
}

impl ShortcutHandler {
    /// The ids held down.
    closed spec fn active_ids(&self) -> Set<Seq<char>> {
        Set::new(
            |x: Seq<char>|
                exists|k: int| 0 <= k < self.activations@.len() && #[trigger] self.activations@[k]@ == x,
        )
    }

    /// Each held id is kept once.
    pub closed spec fn wf(&self) -> bool {
        forall|i: int, j: int|
            0 <= i < j < self.activations@.len() ==> #[trigger] self.activations@[i]@
                != #[trigger] self.activations@[j]@
    }

    /// An idle handler, with nothing registered and nothing held.
    pub fn new() -> (r: ShortcutHandler)
        ensures
            r.wf(),
            r@ == (HandlerView {
                phase: SessionPhase::Idle,
                cancelled: false,
                triggers: Seq::empty(),
                active: Set::empty(),
            }),
    {
        let r = ShortcutHandler {
            phase: SessionPhase::Idle,
            cancelled: false,
            triggers: Vec::new(),
            activations: Vec::new(),
        };
        assert(r@.triggers =~= Seq::empty());
        assert(r@.active =~= Set::empty());
        r
    }

    /// The phase the handler is in.
    pub fn phase(&self) -> (r: SessionPhase)
        ensures
            r == self@.phase,
    {
        self.phase
    }

    /// Whether a stop was asked for.
    pub fn is_cancelled(&self) -> (r: bool)
        ensures
            r == self@.cancelled,
    {
        self.cancelled
    }

    /// The shortcuts registered, in the service's order.
    pub fn triggers(&self) -> (r: &Vec<RegisteredShortcut>)
        ensures
            trigger_fields(r@) == self@.triggers,
    {
        &self.triggers
    }

    fn position(&self, id: &String) -> (r: Option<usize>)
        ensures
            r is Some ==> r->Some_0 < self.activations@.len() && self.activations@[r->Some_0 as int]@
                == id@,
            r is None ==> !self@.active.contains(id@),
    {
        for k in 0..self.activations.len()
            invariant
                forall|j: int| 0 <= j < k ==> #[trigger] self.activations@[j]@ != id@,
        {
            if self.activations[k] == *id {
                return Some(k);
            }
        }
        None
    }

    /// Whether the shortcut `id` is held down.
    pub fn is_active(&self, id: &str) -> (r: bool)
        ensures
            r == self@.active.contains(id@),
    {
        let id = String::from_str(id);
        match self.position(&id) {
            Some(k) => {
                assert(self.activations@[k as int]@ == id@);
                true
            },
            None => false,
        }
    }

    /// Starts a session for `requests`: registration is asked for, unless
    /// there is nothing to register or the handler is not idle.
    pub fn start_session(&mut self, requests: &Vec<ShortcutRequest>) -> (r: SessionAction)
        requires
            old(self).wf(),
        ensures
            final(self).wf(),
            (final(self)@, r) == step(old(self)@, SessionInput::Start(requests@.len() > 0)),
    {
        if self.phase == SessionPhase::Idle && !self.cancelled {
            if requests.len() > 0 {
                self.phase = SessionPhase::Registering;
                SessionAction::Register
            } else {
                SessionAction::NothingToRegister
            }
        } else {
            SessionAction::Nothing
        }
    }

    /// Takes the service's answer to the registration.
    pub fn on_registered(&mut self, result: Result<Vec<RegisteredShortcut>, RegistrationFailure>) -> (r:
        SessionAction)
        requires
            old(self).wf(),
        ensures
            final(self).wf(),
            (final(self)@, r) == step(
                old(self)@,
                match result {
                    Ok(ts) => SessionInput::Confirmed(trigger_fields(ts@)),
                    Err(f) => SessionInput::Refused(f),
                },
            ),
    {
        match result {
            Ok(ts) => {
                if self.phase == SessionPhase::Registering {
                    self.phase = SessionPhase::Active;
                    self.triggers = ts;
                    SessionAction::AwaitEvents
                } else if self.phase == SessionPhase::Idle {
                    SessionAction::CloseSession
                } else {
                    SessionAction::Nothing
                }
            },
            Err(f) => {
                if self.phase == SessionPhase::Registering {
                    self.phase = SessionPhase::Idle;
                    SessionAction::ReportFailure(f)
                } else {
                    SessionAction::Nothing
                }
            },
        }
    }

    /// The shortcut `id` was pressed: it is held from now on, and its
    /// action is to be called.
    pub fn on_activated(&mut self, id: &str) -> (r: SessionAction)
        requires
            old(self).wf(),
        ensures
            final(self).wf(),
            (final(self)@, r) == step(old(self)@, SessionInput::Activated(id@)),
    {
        if self.phase != SessionPhase::Active {
            return SessionAction::Nothing;
        }
        let id = String::from_str(id);
        let ghost before = self.active_ids();
        match self.position(&id) {
            Some(k) => {
                assert(self.active_ids() =~= before.insert(id@));
            },
            None => {
                let ghost old_acts = self.activations@;
                self.activations.push(id);
                let ghost n = old_acts.len() as int;
                assert forall|x: Seq<char>| #[trigger]
                    self.active_ids().contains(x) == before.insert(id@).contains(x) by {
                    if before.contains(x) {
                        let k = choose|k: int| 0 <= k < old_acts.len() && #[trigger] old_acts[k]@ == x;
                        assert(self.activations@[k]@ == x);
                    }
                    if x == id@ {
                        assert(self.activations@[n]@ == x);
                    }
                    if self.active_ids().contains(x) {
                        let k = choose|k: int|
                            0 <= k < self.activations@.len() && #[trigger] self.activations@[k]@ == x;
                        if k < n {
                            assert(old_acts[k]@ == x);
                        }
                    }
                }
                assert(self.active_ids() =~= before.insert(id@));
            },
        }
        SessionAction::CallAction
    }

    /// The shortcut `id` was released: it is held no longer; a release of
    /// a shortcut that was not held is reported.
    pub fn on_deactivated(&mut self, id: &str) -> (r: SessionAction)
        requires
            old(self).wf(),
        ensures
            final(self).wf(),
            (final(self)@, r) == step(old(self)@, SessionInput::Deactivated(id@)),
    {
        if self.phase != SessionPhase::Active {
            return SessionAction::Nothing;
        }
        let id = String::from_str(id);
        let ghost before = self.active_ids();
        match self.position(&id) {
            Some(k) => {
                let ghost old_acts = self.activations@;
                assert(before.contains(id@));
                self.activations.remove(k);
                let ghost n = old_acts.len() as int;
                assert forall|x: Seq<char>| #[trigger]
                    self.active_ids().contains(x) == before.remove(id@).contains(x) by {
                    if before.contains(x) && x != id@ {
                        let j = choose|j: int| 0 <= j < old_acts.len() && #[trigger] old_acts[j]@ == x;
                        if j < k {
                            assert(self.activations@[j]@ == x);
                        } else {
                            assert(j != k);
                            assert(self.activations@[j - 1]@ == x);
                        }
                    }
                    if self.active_ids().contains(x) {
                        let j = choose|j: int|
                            0 <= j < self.activations@.len() && #[trigger] self.activations@[j]@ == x;
                        if j < k {
                            assert(old_acts[j]@ == x);
                            assert(x != id@);
                        } else {
                            assert(old_acts[j + 1]@ == x);
                            assert(x != id@);
                        }
                    }
                }
                assert(self.active_ids() =~= before.remove(id@));
                SessionAction::Nothing
            },
            None => SessionAction::ReportAnomaly,
        }
    }

    /// The service reports the registered shortcuts anew.
    pub fn on_changed(&mut self, shortcuts: Vec<RegisteredShortcut>) -> (r: SessionAction)
        requires
            old(self).wf(),
        ensures
            final(self).wf(),
            (final(self)@, r) == step(old(self)@, SessionInput::Changed(trigger_fields(shortcuts@))),
    {
        if self.phase == SessionPhase::Active {
            self.triggers = shortcuts;
        }
        SessionAction::Nothing
    }

    /// Takes one event of the session.
    pub fn handle_event(&mut self, event: ShortcutEvent) -> (r: SessionAction)
        requires
            old(self).wf(),
        ensures
            final(self).wf(),
            (final(self)@, r) == step(
                old(self)@,
                match event {
                    ShortcutEvent::Activated(id) => SessionInput::Activated(id@),
                    ShortcutEvent::Deactivated(id) => SessionInput::Deactivated(id@),
                    ShortcutEvent::ShortcutsChanged(ts) => SessionInput::Changed(
                        trigger_fields(ts@),
                    ),
                },
            ),
    {
        match event {
            ShortcutEvent::Activated(id) => self.on_activated(id.as_str()),
            ShortcutEvent::Deactivated(id) => self.on_deactivated(id.as_str()),
            ShortcutEvent::ShortcutsChanged(ts) => self.on_changed(ts),
        }
    }

    /// The session's events came to an end: the session is to be closed.
    pub fn events_ended(&mut self) -> (r: SessionAction)
        requires
            old(self).wf(),
        ensures
            final(self).wf(),
            (final(self)@, r) == step(old(self)@, SessionInput::EventsEnded),
    {
        if self.phase == SessionPhase::Active {
            self.phase = SessionPhase::Closing;
            SessionAction::CloseSession
        } else {
            SessionAction::Nothing
        }
    }

    /// A stop was asked for: the handler is cancelled for good; a live
    /// session is to be closed, and a handler that has none is idle at once.
    pub fn stop(&mut self) -> (r: SessionAction)
        requires
            old(self).wf(),
        ensures
            final(self).wf(),
            (final(self)@, r) == step(old(self)@, SessionInput::Stop),
    {
        self.cancelled = true;
        if self.phase == SessionPhase::Active {
            self.phase = SessionPhase::Closing;
            SessionAction::CloseSession
        } else if self.phase == SessionPhase::Closing {
            SessionAction::Nothing
        } else {
            self.phase = SessionPhase::Idle;
            self.clear_lists();
            SessionAction::Nothing
        }
    }

    /// The session was closed: nothing is registered or held any more.
    pub fn session_closed(&mut self) -> (r: SessionAction)
        requires
            old(self).wf(),
        ensures
            final(self).wf(),
            (final(self)@, r) == step(old(self)@, SessionInput::Closed),
    {
        if self.phase == SessionPhase::Closing {
            self.phase = SessionPhase::Idle;
            self.clear_lists();
        }
        SessionAction::Nothing
    }

    fn clear_lists(&mut self)
        ensures
            final(self).phase == old(self).phase,
            final(self).cancelled == old(self).cancelled,
            final(self).wf(),
            final(self)@.triggers == Seq::<(Seq<char>, Seq<char>)>::empty(),
            final(self)@.active == Set::<Seq<char>>::empty(),
    {
        self.triggers.clear();
        self.activations.clear();
        assert(self@.triggers =~= Seq::empty());
        assert(self@.active =~= Set::empty());
    }

    /// One line for each registered shortcut, in order: `id: trigger`, in
    /// bold (`<b>...</b>`) while it is held down.
    pub fn display_activations(&self) -> (r: Vec<String>)
        ensures
            r@.map_values(|s: String| s@) == self@.triggers.map_values(
                |t: (Seq<char>, Seq<char>)| display_line(t, self@.active),
            ),
    {
        let mut lines: Vec<String> = Vec::new();
        for i in 0..self.triggers.len()
            invariant
                lines@.map_values(|s: String| s@) == self@.triggers.take(i as int).map_values(
                    |t: (Seq<char>, Seq<char>)| display_line(t, self@.active),
                ),
        {
            let t = &self.triggers[i];
            let held = self.is_active(t.id.as_str());
            let mut line = String::new();
            if held {
                line.append("<b>");
            }
            line.append(t.id.as_str());
            line.append(": ");
            line.append(t.activation.as_str());
            if held {
                line.append("</b>");
            }
            proof {
                let body = t.id@ + ": "@ + t.activation@;
                if held {
                    assert(line@ =~= "<b>"@ + body + "</b>"@);
                } else {
                    assert(line@ =~= body);
                }
                assert(line@ == display_line(t.fields(), self@.active));
            }
            let ghost before = lines@;
            lines.push(line);
            proof {
                let f = |t: (Seq<char>, Seq<char>)| display_line(t, self@.active);
                assert(self@.triggers[i as int] == t.fields());
                assert(self@.triggers.take(i + 1) =~= self@.triggers.take(i as int).push(
                    self@.triggers[i as int],
                ));
                assert(lines@.map_values(|s: String| s@) =~= before.map_values(|s: String| s@).push(
                    lines@.last()@,
                ));
                assert(self@.triggers.take(i + 1).map_values(f) =~= self@.triggers.take(
                    i as int,
                ).map_values(f).push(f(self@.triggers[i as int])));
            }
        }
        assert(self@.triggers.take(self.triggers@.len() as int) =~= self@.triggers);
        lines
    }
}

/// The state after the inputs, one after the other.
pub open spec fn run(v: HandlerView, inputs: Seq<SessionInput>) -> HandlerView
    decreases inputs.len(),
{
    if inputs.len() == 0 {
        v
    } else {
        step(run(v, inputs.drop_last()), inputs.last()).0
    }
}

/// What the handler decides at each of the inputs, in order.
pub open spec fn decisions(v: HandlerView, inputs: Seq<SessionInput>) -> Seq<SessionAction>
    decreases inputs.len(),
{
    if inputs.len() == 0 {
        Seq::empty()
    } else {
        decisions(v, inputs.drop_last()).push(step(run(v, inputs.drop_last()), inputs.last()).1)
    }
}

/// A press or a release of a shortcut.
pub open spec fn is_key_event(input: SessionInput) -> bool {
    input is Activated || input is Deactivated
}

/// Whether the last press or release of `id` among the inputs was a press,
/// if there was any.
pub open spec fn last_event_for(inputs: Seq<SessionInput>, id: Seq<char>) -> Option<bool>
    decreases inputs.len(),
{
    if inputs.len() == 0 {
        None
    } else {
        match inputs.last() {
            SessionInput::Activated(x) => if x == id {
                Some(true)
            } else {
                last_event_for(inputs.drop_last(), id)
            },
            SessionInput::Deactivated(x) => if x == id {
                Some(false)
            } else {
                last_event_for(inputs.drop_last(), id)
            },
            _ => last_event_for(inputs.drop_last(), id),
        }
    }
}

/// In a live session, after any presses and releases, a shortcut is held
/// exactly when its last press or release was a press; one that none of
/// them touched is held as it was before.
pub proof fn lemma_active_set(v: HandlerView, inputs: Seq<SessionInput>, id: Seq<char>)
    requires
        v.phase == SessionPhase::Active,
        forall|i: int| 0 <= i < inputs.len() ==> is_key_event(#[trigger] inputs[i]),
    ensures
        run(v, inputs).phase == SessionPhase::Active,
        run(v, inputs).active.contains(id) <==> match last_event_for(inputs, id) {
            Some(pressed) => pressed,
            None => v.active.contains(id),
        },
    decreases inputs.len(),
{
    if inputs.len() > 0 {
        let prefix = inputs.drop_last();
        assert forall|i: int| 0 <= i < prefix.len() implies is_key_event(#[trigger] prefix[i]) by {
            assert(prefix[i] == inputs[i]);
        }
        lemma_active_set(v, prefix, id);
        assert(is_key_event(inputs[inputs.len() - 1]));
    }
}

/// A stop while registration is under way leaves the handler idle, with
/// nothing registered or held; whatever happens after that, it stays idle
/// and never has an action called.
pub proof fn lemma_stop_while_registering(v: HandlerView, inputs: Seq<SessionInput>)
    requires
        v.phase == SessionPhase::Registering,
    ensures
        step(v, SessionInput::Stop).0.phase == SessionPhase::Idle,
        step(v, SessionInput::Stop).0.triggers.len() == 0,
        step(v, SessionInput::Stop).0.active.is_empty(),
        step(v, SessionInput::Stop).1 != SessionAction::CallAction,
        run(step(v, SessionInput::Stop).0, inputs).phase == SessionPhase::Idle,
        !decisions(step(v, SessionInput::Stop).0, inputs).contains(SessionAction::CallAction),
{
    let w = step(v, SessionInput::Stop).0;
    assert(w.active =~= Set::<Seq<char>>::empty());
    lemma_cancelled_idle_stays(w, inputs);
}

/// A cancelled idle handler stays so, and never has an action called.
proof fn lemma_cancelled_idle_stays(w: HandlerView, inputs: Seq<SessionInput>)
    requires
        w.phase == SessionPhase::Idle,
        w.cancelled,
    ensures
        run(w, inputs).phase == SessionPhase::Idle,
        run(w, inputs).cancelled,
        !decisions(w, inputs).contains(SessionAction::CallAction),
    decreases inputs.len(),
{
    if inputs.len() > 0 {
        let prefix = inputs.drop_last();
        lemma_cancelled_idle_stays(w, prefix);
        let d = decisions(w, inputs);
        assert(d == decisions(w, prefix).push(step(run(w, prefix), inputs.last()).1));
        assert forall|k: int| 0 <= k < d.len() implies d[k] != SessionAction::CallAction by {
            if k < d.len() - 1 {
                assert(d[k] == decisions(w, prefix)[k]);
            }
        }
    }
}

} // verus!
