//! The life of one connection as a state machine: the caller performs each
//! action it is handed and reports back what came of it.
use vstd::prelude::*;
use vstd::string::*;
use crate::registry::{EndpointId, Registry, Delivery, sent, report_ids};

verus! {

/// Where a session stands. Each phase is entered together with the action
/// the caller performs in it.
#[derive(Clone, Copy, PartialEq, Eq, Structural, Debug)]
pub enum Phase {
    /// The welcome line is being sent.
    Greeting,
    /// The name prompt is being sent.
    Prompting,
    /// The client's name is awaited.
    AwaitingName,
    /// The usage hint is being sent.
    Hinting,
    /// The client is being registered and announced.
    Joining,
    /// A chat line is awaited.
    Chatting,
    /// A chat line is being relayed to the others.
    Relaying,
    /// The farewell is being sent.
    Farewell,
    /// The client is being removed and its departure announced.
    Leaving,
    /// Nothing is left to do.
    Terminated,
}

/// What came of the last action.
pub enum Event {
    /// A send, or a registry step, completed.
    Done,
    /// A line arrived, without its terminator.
    Line(String),
    /// The connection failed or reached its end.
    Failed,
}

/// What the caller is to do next.
pub enum Action {
    /// Write this line to the client.
    Send(String),
    /// Read one line from the client.
    Receive,
    /// Register the client under this name and announce it to the others.
    Join(String),
    /// Send this line to every other registered client.
    Broadcast(String),
    /// Remove the client and announce its departure.
    Leave,
    /// Release the connection.
    Close,
}

pub ghost enum EventView {
    Done,
    Line(Seq<char>),
    Failed,
}

pub ghost enum ActionView {
    Send(Seq<char>),
    Receive,
    Join(Seq<char>),
    Broadcast(Seq<char>),
    Leave,
    Close,
}

pub ghost struct SessionView {
    pub phase: Phase,
    pub name: Seq<char>,
}

impl View for Event {
    type V = EventView;

    open spec fn view(&self) -> EventView {
        match self {
            Event::Done => EventView::Done,
            Event::Line(l) => EventView::Line(l@),
            Event::Failed => EventView::Failed,
        }
    }
}

impl View for Action {
    type V = ActionView;

    open spec fn view(&self) -> ActionView {
        match self {
            Action::Send(l) => ActionView::Send(l@),
            Action::Receive => ActionView::Receive,
            Action::Join(n) => ActionView::Join(n@),
            Action::Broadcast(m) => ActionView::Broadcast(m@),
            Action::Leave => ActionView::Leave,
            Action::Close => ActionView::Close,
        }
    }
}

/// One client's session: its identity, phase and (once given) display name.
pub struct Session {
    id: EndpointId,
    phase: Phase,
    name: String,
}

impl View for Session {
    type V = SessionView;

    closed spec fn view(&self) -> SessionView {
        SessionView { phase: self.phase, name: self.name@ }
    }
}

pub open spec fn welcome_text() -> Seq<char> {
    "Welcome to RustChat!"@
}

pub open spec fn prompt_text() -> Seq<char> {
    "Please give your name:"@
}

pub open spec fn hint_text() -> Seq<char> {
    "You can now type messages. Leave this chat with 'exit' or 'quit'."@
}

pub open spec fn bye_text() -> Seq<char> {
    "Bye!"@
}

/// The announcement of a newcomer.
pub open spec fn joined_text(name: Seq<char>) -> Seq<char> {
    name + " joined."@
}

/// A chat line as the other clients see it.
pub open spec fn chat_text(name: Seq<char>, line: Seq<char>) -> Seq<char> {
    "<"@ + name + ">: "@ + line
}

/// The announcement of a departure.
pub open spec fn left_text(name: Seq<char>) -> Seq<char> {
    name + " left"@
}

/// A chat line that ends the session.
pub open spec fn is_quit(line: Seq<char>) -> bool {
    line == "exit"@ || line == "quit"@
}

/// The session of a connection just accepted.
pub open spec fn initial() -> SessionView {
    SessionView { phase: Phase::Greeting, name: Seq::empty() }
}

/// The first action of every session.
pub open spec fn first_action() -> ActionView {
    ActionView::Send(welcome_text())
}

/// The phases in which the client's entry is in the registry.
pub open spec fn holds_entry(p: Phase) -> bool {
    p == Phase::Joining || p == Phase::Chatting || p == Phase::Relaying || p == Phase::Farewell
}

/// The session after the last action came to `e`, with the next action.
/// A failure before the client is joined ends the session at once; one
/// after it leads to its removal.
pub open spec fn next(s: SessionView, e: EventView) -> (SessionView, ActionView) {
    let ended = (SessionView { phase: Phase::Terminated, ..s }, ActionView::Close);
    match s.phase {
        Phase::Greeting => if e is Done {
            (SessionView { phase: Phase::Prompting, ..s }, ActionView::Send(prompt_text()))
        } else {
            ended
        },
        Phase::Prompting => if e is Done {
            (SessionView { phase: Phase::AwaitingName, ..s }, ActionView::Receive)
        } else {
            ended
        },
        Phase::AwaitingName => match e {
            EventView::Line(n) => (SessionView { phase: Phase::Hinting, name: n }, ActionView::Send(hint_text())),
            _ => ended,
        },
        Phase::Hinting => if e is Done {
            (SessionView { phase: Phase::Joining, ..s }, ActionView::Join(s.name))
        } else {
            ended
        },
        Phase::Joining => (SessionView { phase: Phase::Chatting, ..s }, ActionView::Receive),
        Phase::Chatting => match e {
            EventView::Line(l) => if is_quit(l) {
                (SessionView { phase: Phase::Farewell, ..s }, ActionView::Send(bye_text()))
            } else {
                (SessionView { phase: Phase::Relaying, ..s }, ActionView::Broadcast(chat_text(s.name, l)))
            },
            _ => (SessionView { phase: Phase::Leaving, ..s }, ActionView::Leave),
        },
        Phase::Relaying => (SessionView { phase: Phase::Chatting, ..s }, ActionView::Receive),
        Phase::Farewell => (SessionView { phase: Phase::Leaving, ..s }, ActionView::Leave),
        Phase::Leaving => ended,
        Phase::Terminated => ended,
    }
}

impl Session {
    /// The identity of the connection this session serves.
    pub closed spec fn endpoint(&self) -> EndpointId {
        self.id
    }

    /// A session for the connection `id`, just accepted, with its first
    /// action: the welcome line.
    pub fn start(id: EndpointId) -> (r: (Session, Action))
        ensures
            r.0.endpoint() == id,
            r.0@ == initial(),
            r.1@ == first_action(),
    {
        let s = Session { id, phase: Phase::Greeting, name: String::new() };
        (s, Action::Send(String::from_str("Welcome to RustChat!")))
    }

    pub fn id(&self) -> (r: EndpointId)
        ensures
            r == self.endpoint(),
    {
        self.id
    }

    pub fn phase(&self) -> (r: Phase)
        ensures
            r == self@.phase,
    {
        self.phase
    }

    pub fn name(&self) -> (r: &str)
        ensures
            r@ == self@.name,
    {
        self.name.as_str()
    }

    /// Takes in what came of the last action and hands out the next one.
    pub fn step(&mut self, event: Event) -> (a: Action)
        ensures
            final(self).endpoint() == old(self).endpoint(),
            (final(self)@, a@) == next(old(self)@, event@),
    {
        let failed = matches!(event, Event::Failed);
        let done = matches!(event, Event::Done);
        match self.phase {
            Phase::Greeting => if done {
                self.phase = Phase::Prompting;
                Action::Send(String::from_str("Please give your name:"))
            } else {
                self.phase = Phase::Terminated;
                Action::Close
            },
            Phase::Prompting => if done {
                self.phase = Phase::AwaitingName;
                Action::Receive
            } else {
                self.phase = Phase::Terminated;
                Action::Close
            },
            Phase::AwaitingName => match event {
                Event::Line(n) => {
                    self.phase = Phase::Hinting;
                    self.name = n;
                    Action::Send(String::from_str("You can now type messages. Leave this chat with 'exit' or 'quit'."))
                },
                _ => {
                    self.phase = Phase::Terminated;
                    Action::Close
                },
            },
            Phase::Hinting => if done {
                self.phase = Phase::Joining;
                Action::Join(self.name.clone())
            } else {
                self.phase = Phase::Terminated;
                Action::Close
            },
            Phase::Joining => {
                self.phase = Phase::Chatting;
                Action::Receive
            },
            Phase::Chatting => match event {
                Event::Line(l) => if quit_requested(&l) {
                    self.phase = Phase::Farewell;
                    Action::Send(String::from_str("Bye!"))
                } else {
                    self.phase = Phase::Relaying;
                    Action::Broadcast(chat_line(self.name.as_str(), l.as_str()))
                },
                _ => {
                    self.phase = Phase::Leaving;
                    Action::Leave
                },
            },
            Phase::Relaying => {
                self.phase = Phase::Chatting;
                Action::Receive
            },
            Phase::Farewell => {
                self.phase = Phase::Leaving;
                Action::Leave
            },
            Phase::Leaving | Phase::Terminated => {
                self.phase = Phase::Terminated;
                Action::Close
            },
        }
    }
}

/// Whether the chat line asks to end the session: exactly `exit` or `quit`.
pub fn quit_requested(line: &String) -> (r: bool)
    ensures
        r == is_quit(line@),
{
    let exit = String::from_str("exit");
    let quit = String::from_str("quit");
    line.eq(&exit) || line.eq(&quit)
}

pub fn joined_line(name: &str) -> (r: String)
    ensures
        r@ == joined_text(name@),
{
    let mut r = String::from_str(name);
    r.append(" joined.");
    r
}

pub fn chat_line(name: &str, line: &str) -> (r: String)
    ensures
        r@ == chat_text(name@, line@),
{
    let mut r = String::from_str("<");
    r.append(name);
    r.append(">: ");
    r.append(line);
    r
}

pub fn left_line(name: &str) -> (r: String)
    ensures
        r@ == left_text(name@),
{
    let mut r = String::from_str(name);
    r.append(" left");
    r
}

/// The identities whose sessions hold a registry entry.
pub open spec fn active_ids(sessions: Map<EndpointId, SessionView>) -> Set<EndpointId> {
    sessions.dom().filter(|id: EndpointId| holds_entry(sessions[id].phase))
}

/// A registry's contents after the registry step that action `a` of the
/// session `id` asks for; `v` is what a join stores.
pub open spec fn after_action<V>(roster: Map<EndpointId, V>, id: EndpointId, a: ActionView, v: V) -> Map<EndpointId, V> {
    match a {
        ActionView::Join(_) => roster.insert(id, v),
        ActionView::Leave => roster.remove(id),
        _ => roster,
    }
}

/// Where the registry holds an entry for exactly the sessions that hold
/// one, its size is their number; a step of any one session, together with
/// the registry step its action asks for, keeps that so; and a join finds
/// its identity absent, a leave finds it present.
pub proof fn lemma_roster_follows_sessions<V>(
    roster: Map<EndpointId, V>,
    sessions: Map<EndpointId, SessionView>,
    id: EndpointId,
    e: EventView,
    v: V,
)
    requires
        roster.dom() == active_ids(sessions),
        sessions.contains_key(id),
    ensures
        roster.len() == active_ids(sessions).len(),
        next(sessions[id], e).1 is Join ==> !roster.contains_key(id),
        next(sessions[id], e).1 is Leave ==> roster.contains_key(id),
        after_action(roster, id, next(sessions[id], e).1, v).dom()
            == active_ids(sessions.insert(id, next(sessions[id], e).0)),
{
    let (s2, a) = next(sessions[id], e);
    assert(after_action(roster, id, a, v).dom() =~= active_ids(sessions.insert(id, s2)));
}

/// A session just accepted holds no entry, nor does one that has
/// terminated: adding the one or dropping the other leaves the registry
/// matching the sessions.
pub proof fn lemma_roster_accept_and_drop<V>(
    roster: Map<EndpointId, V>,
    sessions: Map<EndpointId, SessionView>,
    id: EndpointId,
)
    requires
        roster.dom() == active_ids(sessions),
    ensures
        !sessions.contains_key(id) ==> roster.dom() == active_ids(sessions.insert(id, initial())),
        sessions.contains_key(id) && sessions[id].phase == Phase::Terminated
            ==> roster.dom() == active_ids(sessions.remove(id)),
{
    if !sessions.contains_key(id) {
        assert(roster.dom() =~= active_ids(sessions.insert(id, initial())));
    }
    if sessions.contains_key(id) && sessions[id].phase == Phase::Terminated {
        assert(roster.dom() =~= active_ids(sessions.remove(id)));
    }
}

/// The actions a session hands out from `s` on the events `evs`, one per
/// event.
pub open spec fn run(s: SessionView, evs: Seq<EventView>) -> Seq<ActionView>
    decreases evs.len(),
{
    if evs.len() == 0 {
        Seq::empty()
    } else {
        seq![next(s, evs[0]).1] + run(next(s, evs[0]).0, evs.drop_first())
    }
}

/// Every announcement or relayed line in `acts` comes after a join.
pub open spec fn notices_follow_join(acts: Seq<ActionView>) -> bool {
    forall|k: int| 0 <= k < acts.len() && (acts[k] is Leave || acts[k] is Broadcast)
        ==> exists|j: int| 0 <= j < k && #[trigger] acts[j] is Join
}

/// The phases before a join, and the end.
pub open spec fn unjoined(p: Phase) -> bool {
    p == Phase::Greeting || p == Phase::Prompting || p == Phase::AwaitingName
        || p == Phase::Hinting || p == Phase::Terminated
}

proof fn lemma_unjoined_run(s: SessionView, evs: Seq<EventView>)
    requires
        unjoined(s.phase),
    ensures
        notices_follow_join(run(s, evs)),
    decreases evs.len(),
{
    if evs.len() > 0 {
        let (s2, a) = next(s, evs[0]);
        let acts = run(s, evs);
        let rest = run(s2, evs.drop_first());
        assert(acts == seq![a] + rest);
        if !(a is Join) {
            lemma_unjoined_run(s2, evs.drop_first());
            assert forall|k: int| 0 <= k < acts.len() && (acts[k] is Leave || acts[k] is Broadcast)
                implies exists|j: int| 0 <= j < k && #[trigger] acts[j] is Join by {
                assert(acts[k] == rest[k - 1]);
                let j = choose|j: int| 0 <= j < k - 1 && #[trigger] rest[j] is Join;
                assert(acts[j + 1] == rest[j]);
            }
        } else {
            assert forall|k: int| 0 <= k < acts.len() && (acts[k] is Leave || acts[k] is Broadcast)
                implies exists|j: int| 0 <= j < k && #[trigger] acts[j] is Join by {
                assert(acts[0] is Join);
            }
        }
    }
}

/// Whatever befalls a session, it announces a departure or relays a line
/// only after it has joined: a session that ends during name negotiation
/// triggers no announcement at all.
pub proof fn lemma_no_notice_without_join(evs: Seq<EventView>)
    ensures
        notices_follow_join(seq![first_action()] + run(initial(), evs)),
        (forall|k: int| 0 <= k < run(initial(), evs).len() ==> !(#[trigger] run(initial(), evs)[k] is Join))
            ==> (forall|k: int| 0 <= k < run(initial(), evs).len()
                ==> !(#[trigger] run(initial(), evs)[k] is Leave) && !(run(initial(), evs)[k] is Broadcast)),
{
    lemma_unjoined_run(initial(), evs);
    let rest = run(initial(), evs);
    let acts = seq![first_action()] + rest;
    assert forall|k: int| 0 <= k < acts.len() && (acts[k] is Leave || acts[k] is Broadcast)
        implies exists|j: int| 0 <= j < k && #[trigger] acts[j] is Join by {
        assert(acts[k] == rest[k - 1]);
        let j = choose|j: int| 0 <= j < k - 1 && #[trigger] rest[j] is Join;
        assert(acts[j + 1] == rest[j]);
    }
}

/// Registers the client `id` under `name` with its outbound `handle`, then
/// announces it to every other registered client.
pub fn join<H, F: Fn(&H, &str) -> bool>(reg: &mut Registry<H>, id: EndpointId, name: String, handle: H, send: F) -> (report: Vec<Delivery>)
    requires
        old(reg).wf(),
        !old(reg)@.contains_key(id),
        forall|h: &H, m: &str| send.requires((h, m)),
    ensures
        final(reg).wf(),
        final(reg)@ == old(reg)@.insert(id, (name@, handle)),
        report_ids(report@).no_duplicates(),
        report_ids(report@).to_set() == old(reg)@.dom(),
        forall|k: int| 0 <= k < report@.len()
            ==> sent(send, old(reg)@[#[trigger] report@[k].id].1, joined_text(name@), report@[k].delivered),
{
    let line = joined_line(name.as_str());
    reg.register(id, name, handle);
    let report = reg.broadcast(line.as_str(), id, send);
    assert(reg@.dom().remove(id) =~= old(reg)@.dom());
    assert forall|k: int| 0 <= k < report@.len()
        implies sent(send, old(reg)@[#[trigger] report@[k].id].1, joined_text(name@), report@[k].delivered) by {
        assert(report_ids(report@).to_set().contains(report_ids(report@)[k]));
    }
    report
}

/// Removes the client `id` and, if it was registered, announces its
/// departure to every other registered client. Gives the report of that
/// announcement, or `None` where `id` was not registered.
pub fn leave<H, F: Fn(&H, &str) -> bool>(reg: &mut Registry<H>, id: EndpointId, send: F) -> (r: Option<Vec<Delivery>>)
    requires
        old(reg).wf(),
        forall|h: &H, m: &str| send.requires((h, m)),
    ensures
        final(reg).wf(),
        final(reg)@ == old(reg)@.remove(id),
        r is None <==> !old(reg)@.contains_key(id),
        r matches Some(report) ==> {
            &&& report_ids(report@).no_duplicates()
            &&& report_ids(report@).to_set() == final(reg)@.dom()
            &&& forall|k: int| 0 <= k < report@.len()
                ==> sent(send, final(reg)@[#[trigger] report@[k].id].1, left_text(old(reg)@[id].0), report@[k].delivered)
        },
{
    match reg.unregister(id) {
        None => {
            assert(reg@ =~= old(reg)@.remove(id));
            None
        },
        Some(name) => {
            let line = left_line(name.as_str());
            let report = reg.broadcast(line.as_str(), id, send);
            assert(reg@.dom().remove(id) =~= reg@.dom());
            Some(report)
        },
    }
}

} // verus!
