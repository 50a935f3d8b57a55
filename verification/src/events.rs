//! The net controller's decisions: what each key press and each finished
//! callbook lookup does to the net, and what the event loop must do next.
use vstd::prelude::*;
use vstd::string::StringExecFns;

use crate::qrz::mock_data;
use crate::qrz::normalize_callsign;
use crate::qrz::opt_view;
use crate::qrz::QrzClient;
use crate::qrz::QrzData;
use crate::state::App;
use crate::state::InputMode;
use crate::state::Participant;
use crate::text::byte_len;
use crate::text::pop_char;
use crate::text::push_char;
use crate::text::str_byte_len;
use crate::text::trim;
use crate::text::upper_case;

verus! {

/// The keys the controller tells apart.
#[derive(Clone, Copy, Debug, PartialEq, Eq, Structural)]
pub enum KeyInput {
    Enter,
    Esc,
    Backspace,
    /// The down arrow: next turn, like `n`.
    Down,
    /// The up arrow: previous turn, like `p`.
    Up,
    Char(char),
    Other,
}

/// What the event loop receives.
#[derive(Debug)]
pub enum AppEvent {
    Key(KeyInput),
    Tick,
    QrzResult { id: usize, name: Option<String>, location: Option<String>, is_mock: bool },
}

/// What the event loop does after an event.
#[derive(Debug)]
pub enum EventOutcome {
    /// Keep going.
    Continue,
    /// Leave the loop.
    Quit,
    /// Keep going, and look up `callsign` for participant `id` in the
    /// background.
    Lookup { id: usize, callsign: String },
}

/// An outcome as a value.
pub enum OutcomeView {
    Continue,
    Quit,
    Lookup(usize, Seq<char>),
}

impl View for EventOutcome {
    type V = OutcomeView;

    open spec fn view(&self) -> OutcomeView {
        match self {
            EventOutcome::Continue => OutcomeView::Continue,
            EventOutcome::Quit => OutcomeView::Quit,
            EventOutcome::Lookup { id, callsign } => OutcomeView::Lookup(*id, callsign@),
        }
    }
}

/// The longest check-in entry that still takes characters, in bytes.
pub const CALLSIGN_INPUT_LIMIT: usize = 10;

impl App {
    /// Roster, queue, turn, round, messages and status agree.
    pub open spec fn same_net(&self, other: &App) -> bool {
        &&& self.participants == other.participants
        &&& self.queue == other.queue
        &&& self.current_queue_index == other.current_queue_index
        &&& self.round_number == other.round_number
        &&& self.error_message == other.error_message
        &&& self.api_status == other.api_status
    }

    /// `self` with the input mode and buffer of `other`.
    pub open spec fn with_input_of(&self, other: &App) -> App {
        App { input_mode: other.input_mode, input_buffer: other.input_buffer, ..*self }
    }

    /// Which events can be handled without an arithmetic overflow:
    /// advancing a turn or a round, and awarding points, need room to count.
    pub open spec fn event_allowed(&self, event: AppEvent) -> bool {
        match event {
            AppEvent::Key(k) => self.input_mode == InputMode::Normal ==> match k {
                KeyInput::Enter | KeyInput::Down => self.queue@.len() == 0
                    || self.current_queue_index < usize::MAX,
                KeyInput::Char(c) => if c == 'n' {
                    self.queue@.len() == 0 || self.current_queue_index < usize::MAX
                } else if c == 'r' {
                    self.queue@.len() == 0 || self.round_number < usize::MAX
                } else if c == 'y' {
                    self.active_slot() matches Some(i) ==> self.participants@[i].points_trivia
                        < u32::MAX
                } else if c == 'b' {
                    self.active_slot() matches Some(i) ==> self.participants@[i].points_bonus
                        < u32::MAX
                } else {
                    true
                },
                _ => true,
            },
            _ => true,
        }
    }

    /// What a key press does in check-in mode.
    pub open spec fn checkin_key_post(old: &App, key: KeyInput, out: OutcomeView, new: &App) -> bool {
        match key {
            KeyInput::Enter => {
                let t = upper_case(trim(old.input_buffer@));
                &&& new.input_mode == InputMode::Normal
                &&& new.input_buffer@ == Seq::<char>::empty()
                &&& if t.len() == 0 {
                    out == OutcomeView::Continue && new.same_net(old)
                } else {
                    out matches OutcomeView::Lookup(id, c) && c == t && App::add_participant_post(
                        old,
                        t,
                        id,
                        &new.with_input_of(old),
                    )
                }
            },
            KeyInput::Esc => {
                &&& out == OutcomeView::Continue
                &&& new.same_net(old)
                &&& new.input_mode == InputMode::Normal
                &&& new.input_buffer@ == Seq::<char>::empty()
            },
            KeyInput::Backspace => {
                &&& out == OutcomeView::Continue
                &&& new.same_net(old)
                &&& new.input_mode == old.input_mode
                &&& new.input_buffer@ == if old.input_buffer@.len() > 0 {
                    old.input_buffer@.drop_last()
                } else {
                    old.input_buffer@
                }
            },
            KeyInput::Char(c) => {
                &&& out == OutcomeView::Continue
                &&& new.same_net(old)
                &&& new.input_mode == old.input_mode
                &&& new.input_buffer@ == if byte_len(old.input_buffer@) < CALLSIGN_INPUT_LIMIT {
                    old.input_buffer@.push(c)
                } else {
                    old.input_buffer@
                }
            },
            KeyInput::Up | KeyInput::Down | KeyInput::Other => out == OutcomeView::Continue
                && *new == *old,
        }
    }

    /// What a key press does in normal mode.
    pub open spec fn normal_key_post(old: &App, key: KeyInput, out: OutcomeView, new: &App) -> bool {
        match key {
            KeyInput::Esc => out == OutcomeView::Quit && *new == *old,
            KeyInput::Enter | KeyInput::Down => out == OutcomeView::Continue
                && App::next_turn_post(old, new),
            KeyInput::Up => out == OutcomeView::Continue && App::prev_turn_post(old, new),
            KeyInput::Char(c) => if c == 'q' {
                out == OutcomeView::Quit && *new == *old
            } else {
                &&& out == OutcomeView::Continue
                &&& if c == 'c' {
                    &&& new.same_net(old)
                    &&& new.input_mode == InputMode::AddCheckin
                    &&& new.input_buffer@ == Seq::<char>::empty()
                } else if c == 'n' {
                    App::next_turn_post(old, new)
                } else if c == 'p' {
                    App::prev_turn_post(old, new)
                } else if c == 'y' {
                    App::points_post(old, true, 1, new)
                } else if c == 'x' {
                    App::points_post(old, true, -1, new)
                } else if c == 'b' {
                    App::points_post(old, false, 1, new)
                } else if c == 'v' {
                    App::points_post(old, false, -1, new)
                } else if c == 'r' {
                    App::next_round_post(old, new)
                } else {
                    *new == *old
                }
            },
            _ => out == OutcomeView::Continue && *new == *old,
        }
    }

    /// What a finished lookup does: participant `id`, if on the roster,
    /// takes the name and location, and is marked verified unless the
    /// details came from the offline profiles.
    pub open spec fn qrz_result_post(
        old: &App,
        id: usize,
        name: Option<String>,
        location: Option<String>,
        is_mock: bool,
        new: &App,
    ) -> bool {
        &&& new.same_but_participants(old)
        &&& new.participants@ == if id < old.participants@.len() {
            old.participants@.update(
                id as int,
                Participant { name, location, qrz_fetched: !is_mock, ..old.participants@[id as int] },
            )
        } else {
            old.participants@
        }
    }

    /// Whether the event can be handled (see `event_allowed`).
    pub fn can_handle(&self, event: &AppEvent) -> (b: bool)
        ensures
            b == self.event_allowed(*event),
    {
        match event {
            AppEvent::Key(k) => {
                if self.input_mode != InputMode::Normal {
                    return true;
                }
                let advance = self.queue.len() == 0 || self.current_queue_index < usize::MAX;
                match k {
                    KeyInput::Enter | KeyInput::Down => advance,
                    KeyInput::Char(c) => {
                        if *c == 'n' {
                            advance
                        } else if *c == 'r' {
                            self.queue.len() == 0 || self.round_number < usize::MAX
                        } else if *c == 'y' {
                            match self.active_participant() {
                                Some(p) => p.points_trivia < u32::MAX,
                                None => true,
                            }
                        } else if *c == 'b' {
                            match self.active_participant() {
                                Some(p) => p.points_bonus < u32::MAX,
                                None => true,
                            }
                        } else {
                            true
                        }
                    },
                    _ => true,
                }
            },
            _ => true,
        }
    }

    /// Handles one event of the main loop: keys by input mode (none acts
    /// while a clear is being confirmed), finished lookups, and ticks.
    pub fn handle_event(&mut self, event: AppEvent) -> (out: EventOutcome)
        requires
            old(self).event_allowed(event),
        ensures
            match event {
                AppEvent::Tick => out@ == OutcomeView::Continue && *final(self) == *old(self),
                AppEvent::QrzResult { id, name, location, is_mock } => out@ == OutcomeView::Continue
                    && App::qrz_result_post(old(self), id, name, location, is_mock, final(self)),
                AppEvent::Key(k) => match old(self).input_mode {
                    InputMode::AddCheckin => App::checkin_key_post(old(self), k, out@, final(self)),
                    InputMode::Normal => App::normal_key_post(old(self), k, out@, final(self)),
                    InputMode::ClearConfirm => out@ == OutcomeView::Continue && *final(self)
                        == *old(self),
                },
            },
            old(self).wf() ==> final(self).wf(),
    {
        match event {
            AppEvent::Tick => EventOutcome::Continue,
            AppEvent::QrzResult { id, name, location, is_mock } => {
                self.apply_qrz_result(id, name, location, is_mock);
                EventOutcome::Continue
            },
            AppEvent::Key(k) => match self.input_mode {
                InputMode::AddCheckin => self.checkin_key(k),
                InputMode::Normal => self.normal_key(k),
                InputMode::ClearConfirm => EventOutcome::Continue,
            },
        }
    }

    /// Stores the details a lookup found for participant `id`.
    pub fn apply_qrz_result(
        &mut self,
        id: usize,
        name: Option<String>,
        location: Option<String>,
        is_mock: bool,
    )
        ensures
            App::qrz_result_post(old(self), id, name, location, is_mock, final(self)),
            old(self).wf() ==> final(self).wf(),
    {
        if id < self.participants.len() {
            let mut p = self.participants.remove(id);
            p.name = name;
            p.location = location;
            p.qrz_fetched = !is_mock;
            self.participants.insert(id, p);
            assert(self.participants@ =~= old(self).participants@.update(
                id as int,
                Participant { name, location, qrz_fetched: !is_mock, ..old(self).participants@[id as int] },
            ));
        }
    }

    fn checkin_key(&mut self, key: KeyInput) -> (out: EventOutcome)
        requires
            old(self).input_mode == InputMode::AddCheckin,
        ensures
            App::checkin_key_post(old(self), key, out@, final(self)),
            old(self).wf() ==> final(self).wf(),
    {
        match key {
            KeyInput::Enter => {
                let trimmed = normalize_callsign(self.input_buffer.as_str());
                let out = if !trimmed.as_str().is_empty() {
                    let ghost before = *self;
                    let id = self.add_participant(trimmed.clone());
                    assert(self.with_input_of(&before) == *self);
                    EventOutcome::Lookup { id, callsign: trimmed }
                } else {
                    EventOutcome::Continue
                };
                self.input_buffer = String::new();
                self.input_mode = InputMode::Normal;
                out
            },
            KeyInput::Esc => {
                self.input_buffer = String::new();
                self.input_mode = InputMode::Normal;
                EventOutcome::Continue
            },
            KeyInput::Backspace => {
                pop_char(&mut self.input_buffer);
                EventOutcome::Continue
            },
            KeyInput::Char(c) => {
                if str_byte_len(self.input_buffer.as_str()) < CALLSIGN_INPUT_LIMIT {
                    push_char(&mut self.input_buffer, c);
                }
                EventOutcome::Continue
            },
            KeyInput::Up | KeyInput::Down | KeyInput::Other => EventOutcome::Continue,
        }
    }

    fn normal_key(&mut self, key: KeyInput) -> (out: EventOutcome)
        requires
            old(self).input_mode == InputMode::Normal,
            old(self).event_allowed(AppEvent::Key(key)),
        ensures
            App::normal_key_post(old(self), key, out@, final(self)),
            old(self).wf() ==> final(self).wf(),
    {
        match key {
            KeyInput::Esc => EventOutcome::Quit,
            KeyInput::Enter | KeyInput::Down => {
                self.next_turn();
                EventOutcome::Continue
            },
            KeyInput::Up => {
                self.prev_turn();
                EventOutcome::Continue
            },
            KeyInput::Char(c) => {
                if c == 'q' {
                    EventOutcome::Quit
                } else {
                    if c == 'c' {
                        self.input_mode = InputMode::AddCheckin;
                        self.input_buffer = String::new();
                    } else if c == 'n' {
                        self.next_turn();
                    } else if c == 'p' {
                        self.prev_turn();
                    } else if c == 'y' {
                        self.award_trivia_point();
                    } else if c == 'x' {
                        self.remove_trivia_point();
                    } else if c == 'b' {
                        self.award_bonus_point();
                    } else if c == 'v' {
                        self.remove_bonus_point();
                    } else if c == 'r' {
                        self.next_round();
                    }
                    EventOutcome::Continue
                }
            },
            _ => EventOutcome::Continue,
        }
    }

    /// The status line for a callbook client: offline without credentials.
    pub fn api_status_for(client: &QrzClient) -> (s: String)
        ensures
            s@ == if client@.username is None || client@.password is None {
                "Offline (Mock Mode)"@
            } else {
                "Online (QRZ Live)"@
            },
    {
        if client.is_mocked() {
            String::from_str("Offline (Mock Mode)")
        } else {
            String::from_str("Online (QRZ Live)")
        }
    }
}

/// The event a finished background lookup reports for participant `id`:
/// the details found, or the offline profile when the lookup failed.
pub fn lookup_event(id: usize, callsign: &str, result: Result<QrzData, String>) -> (e: AppEvent)
    ensures
        e matches AppEvent::QrzResult { id: eid, name, location, is_mock } && eid == id && match result {
            Ok(d) => name == d.name && location == d.location && is_mock == d.is_mock,
            Err(_) => opt_view(name) == mock_data(callsign@).name && opt_view(location) == mock_data(
                callsign@,
            ).location && is_mock,
        },
{
    match result {
        Ok(data) => AppEvent::QrzResult {
            id,
            name: data.name,
            location: data.location,
            is_mock: data.is_mock,
        },
        Err(_) => {
            let mock = QrzClient::get_mock_data(callsign);
            AppEvent::QrzResult { id, name: mock.name, location: mock.location, is_mock: true }
        },
    }
}

} // verus!
