//! The net's roster and round state: check-ins, the rotating answer queue,
//! the active turn and per-operator scores.
use vstd::prelude::*;

use crate::text::chars_of;
use crate::text::string_of;
use crate::text::to_uppercase;
use crate::text::trim;
use crate::text::trim_chars;
use crate::text::upper_case;
use crate::text::ascii_upper;
use crate::text::is_ascii_text;

verus! {

/// A checked-in operator and their scores.
#[derive(Debug, Default)]
pub struct Participant {
    pub id: usize,
    pub callsign: String,
    pub name: Option<String>,
    pub location: Option<String>,
    pub points_checkin: u32,
    pub points_trivia: u32,
    pub points_bonus: u32,
    pub qrz_fetched: bool,
    pub notes: String,
}

/// A copy of an optional string.
pub fn copy_opt_string(s: &Option<String>) -> (r: Option<String>)
    ensures
        r == *s,
{
    match s {
        Some(t) => Some(t.clone()),
        None => None,
    }
}

impl Clone for Participant {
    fn clone(&self) -> (r: Self)
        ensures
            r == *self,
    {
        Participant {
            id: self.id,
            callsign: self.callsign.clone(),
            name: copy_opt_string(&self.name),
            location: copy_opt_string(&self.location),
            points_checkin: self.points_checkin,
            points_trivia: self.points_trivia,
            points_bonus: self.points_bonus,
            qrz_fetched: self.qrz_fetched,
            notes: self.notes.clone(),
        }
    }
}

/// The sum of the three score categories.
pub open spec fn score_of(p: Participant) -> int {
    p.points_checkin + p.points_trivia + p.points_bonus
}

impl Participant {
    /// A fresh check-in: the callsign in uppercase, no callbook details,
    /// and the automatic check-in point.
    pub fn new(id: usize, callsign: String) -> (p: Self)
        ensures
            p.id == id,
            p.callsign@ == upper_case(callsign@),
            is_ascii_text(callsign@) ==> p.callsign@ == ascii_upper(callsign@),
            p.name is None,
            p.location is None,
            p.points_checkin == 1,
            p.points_trivia == 0,
            p.points_bonus == 0,
            !p.qrz_fetched,
            p.notes@ == Seq::<char>::empty(),
    {
        Self {
            id,
            callsign: to_uppercase(callsign.as_str()),
            name: None,
            location: None,
            points_checkin: 1,
            points_trivia: 0,
            points_bonus: 0,
            qrz_fetched: false,
            notes: String::new(),
        }
    }

    /// Check-in, trivia and bonus points together.
    pub fn total_score(&self) -> (s: u32)
        requires
            score_of(*self) <= u32::MAX,
        ensures
            s == score_of(*self),
    {
        self.points_checkin + self.points_trivia + self.points_bonus
    }
}

/// What the keyboard currently edits.
#[derive(Clone, Debug, PartialEq, Eq, Structural)]
pub enum InputMode {
    Normal,
    AddCheckin,
    ClearConfirm,
}

/// The whole state of a net.
#[derive(Clone, Debug)]
pub struct App {
    pub participants: Vec<Participant>,
    /// Queue of participant IDs for the current round
    pub queue: Vec<usize>,
    /// Index in `queue` of the active participant
    pub current_queue_index: usize,
    pub round_number: usize,
    pub input_mode: InputMode,
    pub input_buffer: String,
    pub error_message: Option<String>,
    pub api_status: String,
}

/// The persisted part of the state.
#[derive(Clone, Debug)]
pub struct AppStateDump {
    pub participants: Vec<Participant>,
    pub queue: Vec<usize>,
    pub current_queue_index: usize,
    pub round_number: usize,
}

/// The queue rotated left by one: the first entry moves to the end.
pub open spec fn rotate_left_one(q: Seq<usize>) -> Seq<usize> {
    if q.len() == 0 {
        q
    } else {
        q.subrange(1, q.len() as int).push(q[0])
    }
}

/// The active index after `next_turn` on a queue of length `len`: one
/// further, resting at `len` once the round is over.
pub open spec fn next_turn_index(idx: int, len: int) -> int {
    if len == 0 {
        idx
    } else if idx + 1 >= len {
        len
    } else {
        idx + 1
    }
}

/// The active index after `prev_turn`: one back, never below zero.
pub open spec fn prev_turn_index(idx: int) -> int {
    if idx > 0 {
        idx - 1
    } else {
        0
    }
}

/// The index of the first participant whose callsign is `key`.
pub open spec fn first_with_callsign(ps: Seq<Participant>, key: Seq<char>) -> Option<int>
    decreases ps.len(),
{
    if ps.len() == 0 {
        None
    } else if ps[0].callsign@ == key {
        Some(0)
    } else {
        match first_with_callsign(ps.drop_first(), key) {
            Some(i) => Some(i + 1),
            None => None,
        }
    }
}

/// `ps` with the participant at `slot` (if any) changed by one trivia or
/// bonus point: `delta` is +1 to award, -1 to take one back (never below
/// zero).
pub open spec fn adjust_points(ps: Seq<Participant>, slot: Option<int>, trivia: bool, delta: int) -> Seq<
    Participant,
> {
    match slot {
        None => ps,
        Some(i) => {
            let p = ps[i];
            if trivia {
                if p.points_trivia + delta < 0 {
                    ps
                } else {
                    ps.update(i, Participant { points_trivia: (p.points_trivia + delta) as u32, ..p })
                }
            } else {
                if p.points_bonus + delta < 0 {
                    ps
                } else {
                    ps.update(i, Participant { points_bonus: (p.points_bonus + delta) as u32, ..p })
                }
            }
        },
    }
}

impl App {
    /// The index into `participants` of the active participant: the queue
    /// entry at the active index (taken modulo the queue's length), when it
    /// names a participant.
    pub open spec fn active_slot(&self) -> Option<int> {
        if self.queue@.len() == 0 {
            None
        } else {
            let id = self.queue@[(self.current_queue_index as int) % (self.queue@.len() as int)];
            if id < self.participants@.len() {
                Some(id as int)
            } else {
                None
            }
        }
    }

    /// The roster's invariant: participant `i` has id `i`, the queue holds
    /// each participant at most once and only known ones, and the active
    /// index is at most the queue's length.
    pub open spec fn wf(&self) -> bool {
        &&& forall|i: int|
            0 <= i < self.participants@.len() ==> #[trigger] self.participants@[i].id == i
        &&& forall|k: int|
            0 <= k < self.queue@.len() ==> #[trigger] self.queue@[k] < self.participants@.len()
        &&& self.queue@.no_duplicates()
        &&& self.current_queue_index <= self.queue@.len()
    }

    /// Everything but the participants is unchanged.
    pub open spec fn same_but_participants(&self, other: &App) -> bool {
        &&& self.queue == other.queue
        &&& self.current_queue_index == other.current_queue_index
        &&& self.round_number == other.round_number
        &&& self.input_mode == other.input_mode
        &&& self.input_buffer == other.input_buffer
        &&& self.error_message == other.error_message
        &&& self.api_status == other.api_status
    }

    /// Everything but the queue and the active index is unchanged.
    pub open spec fn same_but_turns(&self, other: &App) -> bool {
        &&& self.participants == other.participants
        &&& self.input_mode == other.input_mode
        &&& self.input_buffer == other.input_buffer
        &&& self.error_message == other.error_message
        &&& self.api_status == other.api_status
    }

    /// What `next_turn` does.
    pub open spec fn next_turn_post(old: &App, new: &App) -> bool {
        &&& new.same_but_turns(old)
        &&& new.queue == old.queue
        &&& new.round_number == old.round_number
        &&& new.current_queue_index == next_turn_index(
            old.current_queue_index as int,
            old.queue@.len() as int,
        )
    }

    /// What `prev_turn` does.
    pub open spec fn prev_turn_post(old: &App, new: &App) -> bool {
        &&& new.same_but_turns(old)
        &&& new.queue == old.queue
        &&& new.round_number == old.round_number
        &&& new.current_queue_index == prev_turn_index(old.current_queue_index as int)
    }

    /// What `next_round` does: rotate the queue left by one, count the
    /// round and restart at the head; nothing on an empty queue.
    pub open spec fn next_round_post(old: &App, new: &App) -> bool {
        &&& new.same_but_turns(old)
        &&& old.queue@.len() == 0 ==> *new == *old
        &&& old.queue@.len() > 0 ==> {
            &&& new.queue@ == rotate_left_one(old.queue@)
            &&& new.round_number == old.round_number + 1
            &&& new.current_queue_index == 0
        }
    }

    /// What awarding (`delta` +1) or taking back (`delta` -1) a trivia or
    /// bonus point does.
    pub open spec fn points_post(old: &App, trivia: bool, delta: int, new: &App) -> bool {
        &&& new.participants@ == adjust_points(old.participants@, old.active_slot(), trivia, delta)
        &&& new.same_but_participants(old)
    }

    /// What `add_participant(callsign)` does, taking `old` to `new` and
    /// returning `id`.
    pub open spec fn add_participant_post(old: &App, callsign: Seq<char>, id: usize, new: &App) -> bool {
        let key = upper_case(trim(callsign));
        &&& new.current_queue_index == old.current_queue_index
        &&& new.round_number == old.round_number
        &&& new.input_mode == old.input_mode
        &&& new.input_buffer == old.input_buffer
        &&& new.error_message == old.error_message
        &&& new.api_status == old.api_status
        &&& match first_with_callsign(old.participants@, key) {
            Some(i) => {
                &&& id == old.participants@[i].id
                &&& new.participants@ == old.participants@
                &&& new.queue@ == if old.queue@.contains(id) {
                    old.queue@
                } else {
                    old.queue@.push(id)
                }
            },
            None => {
                let p = new.participants@.last();
                &&& id == old.participants@.len()
                &&& new.participants@.len() == old.participants@.len() + 1
                &&& new.participants@.drop_last() == old.participants@
                &&& p.id == id
                &&& p.callsign@ == upper_case(key)
                &&& p.name is None
                &&& p.location is None
                &&& p.points_checkin == 1
                &&& p.points_trivia == 0
                &&& p.points_bonus == 0
                &&& !p.qrz_fetched
                &&& p.notes@ == Seq::<char>::empty()
                &&& new.queue@ == old.queue@.push(id)
            },
        }
    }

    /// A net with no check-ins, in round 1, in offline mode.
    pub fn new() -> (app: Self)
        ensures
            app.participants@.len() == 0,
            app.queue@.len() == 0,
            app.current_queue_index == 0,
            app.round_number == 1,
            app.input_mode == InputMode::Normal,
            app.input_buffer@ == Seq::<char>::empty(),
            app.error_message is None,
            app.api_status@ == offline_status(),
            app.wf(),
    {
        let status = ['O', 'f', 'f', 'l', 'i', 'n', 'e', ' ', '(', 'M', 'o', 'c', 'k', ' ', 'M', 'o', 'd', 'e', ')'];
        let api_status = string_of(&status);
        assert(status@ == offline_status());
        Self {
            participants: Vec::new(),
            queue: Vec::new(),
            current_queue_index: 0,
            round_number: 1,
            input_mode: InputMode::Normal,
            input_buffer: String::new(),
            error_message: None,
            api_status,
        }
    }

    /// Checks in a callsign (trimmed, uppercased). A callsign already on
    /// the roster keeps its id and is queued again only if it left the
    /// queue; a new one gets the next id and joins the end of the queue.
    /// Returns the participant's id.
    pub fn add_participant(&mut self, callsign: String) -> (id: usize)
        ensures
            App::add_participant_post(old(self), callsign@, id, final(self)),
            old(self).wf() ==> final(self).wf(),
            is_ascii_text(callsign@) && old(self).wf() && callsigns_distinct(old(self).participants@)
                ==> {
                &&& callsigns_distinct(final(self).participants@)
                &&& final(self).queue@.contains(id)
                &&& id < final(self).participants@.len()
                &&& final(self).participants@[id as int].callsign@ == ascii_upper(trim(callsign@))
            },
    {
        let chars = chars_of(callsign.as_str());
        let trimmed = trim_chars(&chars);
        let trimmed_str = string_of(&trimmed);
        let call_upper = to_uppercase(trimmed_str.as_str());
        proof {
            crate::trivia::lemma_trim_keeps_ascii(callsign@);
            if is_ascii_text(callsign@) {
                crate::text::law_ascii_upper_settles(trim(callsign@));
            }
        }
        let ghost key = call_upper@;
        let n = self.participants.len();
        let mut i: usize = 0;
        assert(self.participants@.skip(0) == self.participants@);
        while i < n
            invariant
                i <= n == self.participants@.len(),
                *self == *old(self),
                key == upper_case(trim(callsign@)),
                call_upper@ == key,
                is_ascii_text(callsign@) ==> key == ascii_upper(trim(callsign@)),
                first_with_callsign(self.participants@, key) == (match first_with_callsign(
                    self.participants@.skip(i as int),
                    key,
                ) {
                    Some(j) => Some(j + i),
                    None => None,
                }),
            decreases n - i,
        {
            assert(self.participants@.skip(i as int)[0] == self.participants@[i as int]);
            let same = self.participants[i].callsign.eq(&call_upper);
            assert(same == (self.participants@[i as int].callsign@ == key));
            if same {
                let id = self.participants[i].id;
                if !contains_id(&self.queue, id) {
                    self.queue.push(id);
                }
                proof {
                    assert(first_with_callsign(self.participants@.skip(i as int), key) == Some(0int));
                    if is_ascii_text(callsign@) && old(self).wf() && callsigns_distinct(old(self).participants@) {
                        assert(App::add_participant_post(&*old(self), callsign@, id, &*self));
                        law_checkin_keeps_callsigns_distinct(*old(self), callsign@, id, *self);
                    }
                    if old(self).wf() && !old(self).queue@.contains(id) {
                        lemma_push_no_duplicates(old(self).queue@, id);
                        assert forall|k: int| 0 <= k < self.queue@.len() implies #[trigger] self.queue@[k]
                            < self.participants@.len() by {
                            if k < old(self).queue@.len() {
                                assert(self.queue@[k] == old(self).queue@[k]);
                            }
                        }
                    }
                }
                return id;
            }
            assert(self.participants@.skip(i as int).drop_first() == self.participants@.skip(i + 1));
            i += 1;
        }
        assert(self.participants@.skip(n as int).len() == 0);
        assert(first_with_callsign(self.participants@.skip(n as int), key) is None);
        assert(first_with_callsign(old(self).participants@, key) is None);
        let id = self.participants.len();
        let participant = Participant::new(id, call_upper);
        self.participants.push(participant);
        self.queue.push(id);
        assert(self.participants@.drop_last() == old(self).participants@);
        assert(self.participants@.last() == participant);
        proof {
            if is_ascii_text(callsign@) && old(self).wf() && callsigns_distinct(old(self).participants@) {
                law_checkin_keeps_callsigns_distinct(*old(self), callsign@, id, *self);
            }
            if old(self).wf() {
                assert(self.participants@.drop_last() == old(self).participants@);
                assert forall|k: int| 0 <= k < self.queue@.len() implies #[trigger] self.queue@[k]
                    < self.participants@.len() by {
                    if k < old(self).queue@.len() {
                        assert(self.queue@[k] == old(self).queue@[k]);
                    }
                }
                assert(!old(self).queue@.contains(id));
                lemma_push_no_duplicates(old(self).queue@, id);
            }
        }
        id
    }

    /// Returns the currently active participant, if any
    pub fn active_participant(&self) -> (r: Option<&Participant>)
        ensures
            match self.active_slot() {
                Some(i) => r == Some(&self.participants@[i]),
                None => r is None,
            },
    {
        if self.queue.len() == 0 {
            None
        } else {
            let active_id = self.queue[self.current_queue_index % self.queue.len()];
            if active_id < self.participants.len() {
                Some(&self.participants[active_id])
            } else {
                None
            }
        }
    }

    /// Returns a mutable reference to the active participant, if any
    pub fn active_participant_mut(&mut self) -> (r: Option<&mut Participant>)
        ensures
            match old(self).active_slot() {
                Some(i) => r matches Some(p) && *p == old(self).participants@[i]
                    && final(self).participants@ == old(self).participants@.update(i, *final(p))
                    && final(self).same_but_participants(old(self)),
                None => r is None && *final(self) == *old(self),
            },
    {
        if self.queue.len() == 0 {
            None
        } else {
            let active_id = self.queue[self.current_queue_index % self.queue.len()];
            if active_id < self.participants.len() {
                Some(&mut self.participants[active_id])
            } else {
                None
            }
        }
    }

    /// Advances turn to the next participant in the current round; past
    /// the last one the index rests at the queue's length (round over).
    pub fn next_turn(&mut self)
        requires
            old(self).queue@.len() == 0 || old(self).current_queue_index < usize::MAX,
        ensures
            App::next_turn_post(old(self), final(self)),
            old(self).wf() ==> final(self).wf(),
    {
        if self.queue.len() == 0 {
            return ;
        }
        self.current_queue_index += 1;
        if self.current_queue_index >= self.queue.len() {
            self.current_queue_index = self.queue.len();
        }
    }

    /// Moves turn to the previous participant in the current round
    pub fn prev_turn(&mut self)
        ensures
            App::prev_turn_post(old(self), final(self)),
            old(self).wf() ==> final(self).wf(),
    {
        if self.current_queue_index > 0 {
            self.current_queue_index -= 1;
        }
    }

    /// Advances the round, rotating the queue left by 1.
    pub fn next_round(&mut self)
        requires
            old(self).queue@.len() == 0 || old(self).round_number < usize::MAX,
        ensures
            App::next_round_post(old(self), final(self)),
            old(self).wf() ==> final(self).wf(),
    {
        if self.queue.len() == 0 {
            return ;
        }
        let first = self.queue.remove(0);
        self.queue.push(first);
        self.round_number += 1;
        self.current_queue_index = 0;
        proof {
            let q = old(self).queue@;
            assert(self.queue@ == rotate_left_one(q));
            if old(self).wf() {
                assert forall|k: int| 0 <= k < self.queue@.len() implies #[trigger] self.queue@[k]
                    < self.participants@.len() by {
                    if k < q.len() - 1 {
                        assert(self.queue@[k] == q[k + 1]);
                    }
                }
                assert forall|a: int, b: int|
                    0 <= a < self.queue@.len() && 0 <= b < self.queue@.len() && a != b implies self.queue@[a]
                    != self.queue@[b] by {
                    let ia = if a < q.len() - 1 { a + 1 } else { 0 };
                    let ib = if b < q.len() - 1 { b + 1 } else { 0 };
                    assert(self.queue@[a] == q[ia]);
                    assert(self.queue@[b] == q[ib]);
                }
            }
        }
    }

    /// Awards a trivia point to the active participant
    pub fn award_trivia_point(&mut self)
        requires
            old(self).active_slot() matches Some(i) ==> old(self).participants@[i].points_trivia
                < u32::MAX,
        ensures
            App::points_post(old(self), true, 1, final(self)),
            old(self).wf() ==> final(self).wf(),
    {
        if let Some(p) = self.active_participant_mut() {
            p.points_trivia += 1;
        }
    }

    /// Awards a bonus/best answer point to the active participant
    pub fn award_bonus_point(&mut self)
        requires
            old(self).active_slot() matches Some(i) ==> old(self).participants@[i].points_bonus
                < u32::MAX,
        ensures
            App::points_post(old(self), false, 1, final(self)),
            old(self).wf() ==> final(self).wf(),
    {
        if let Some(p) = self.active_participant_mut() {
            p.points_bonus += 1;
        }
    }

    /// Decrements trivia point from active participant (useful for correction)
    pub fn remove_trivia_point(&mut self)
        ensures
            App::points_post(old(self), true, -1, final(self)),
            old(self).wf() ==> final(self).wf(),
    {
        if let Some(p) = self.active_participant_mut() {
            if p.points_trivia > 0 {
                p.points_trivia -= 1;
            }
        }
        assert(self.participants@ =~= adjust_points(
            old(self).participants@,
            old(self).active_slot(),
            true,
            -1,
        ));
    }

    /// Decrements bonus point from active participant (useful for correction)
    pub fn remove_bonus_point(&mut self)
        ensures
            App::points_post(old(self), false, -1, final(self)),
            old(self).wf() ==> final(self).wf(),
    {
        if let Some(p) = self.active_participant_mut() {
            if p.points_bonus > 0 {
                p.points_bonus -= 1;
            }
        }
        assert(self.participants@ =~= adjust_points(
            old(self).participants@,
            old(self).active_slot(),
            false,
            -1,
        ));
    }
}

impl App {
    /// The persisted part of the state: roster, queue, active index and
    /// round.
    pub fn dump_state(&self) -> (d: AppStateDump)
        ensures
            d.participants@ == self.participants@,
            d.queue@ == self.queue@,
            d.current_queue_index == self.current_queue_index,
            d.round_number == self.round_number,
    {
        AppStateDump {
            participants: copy_participants(&self.participants),
            queue: copy_ids(&self.queue),
            current_queue_index: self.current_queue_index,
            round_number: self.round_number,
        }
    }

    /// Restores roster, queue, active index and round from a dump; the
    /// input mode, buffer, messages and status stay.
    pub fn restore_state(&mut self, dump: AppStateDump)
        ensures
            final(self).participants == dump.participants,
            final(self).queue == dump.queue,
            final(self).current_queue_index == dump.current_queue_index,
            final(self).round_number == dump.round_number,
            final(self).input_mode == old(self).input_mode,
            final(self).input_buffer == old(self).input_buffer,
            final(self).error_message == old(self).error_message,
            final(self).api_status == old(self).api_status,
    {
        self.participants = dump.participants;
        self.queue = dump.queue;
        self.current_queue_index = dump.current_queue_index;
        self.round_number = dump.round_number;
    }

    /// Resets the net to a clean slate: no check-ins, empty queue, round 1,
    /// no error message.
    pub fn reset_session(&mut self)
        ensures
            final(self).participants@.len() == 0,
            final(self).queue@.len() == 0,
            final(self).current_queue_index == 0,
            final(self).round_number == 1,
            final(self).error_message is None,
            final(self).input_mode == old(self).input_mode,
            final(self).input_buffer == old(self).input_buffer,
            final(self).api_status == old(self).api_status,
            final(self).wf(),
    {
        self.participants.clear();
        self.queue.clear();
        self.current_queue_index = 0;
        self.round_number = 1;
        self.error_message = None;
    }
}

/// A copy of a roster.
pub fn copy_participants(v: &Vec<Participant>) -> (r: Vec<Participant>)
    ensures
        r@ == v@,
{
    let n = v.len();
    let mut r: Vec<Participant> = Vec::new();
    let mut i: usize = 0;
    while i < n
        invariant
            i <= n == v@.len(),
            r@ == v@.take(i as int),
        decreases n - i,
    {
        r.push(v[i].clone());
        assert(v@.take(i + 1) == v@.take(i as int).push(v@[i as int]));
        i += 1;
    }
    assert(v@.take(n as int) == v@);
    r
}

/// A copy of a queue.
pub fn copy_ids(v: &Vec<usize>) -> (r: Vec<usize>)
    ensures
        r@ == v@,
{
    let n = v.len();
    let mut r: Vec<usize> = Vec::new();
    let mut i: usize = 0;
    while i < n
        invariant
            i <= n == v@.len(),
            r@ == v@.take(i as int),
        decreases n - i,
    {
        r.push(v[i]);
        assert(v@.take(i + 1) == v@.take(i as int).push(v@[i as int]));
        i += 1;
    }
    assert(v@.take(n as int) == v@);
    r
}

// ---------------------------------------------------------------------------
// Laws
// ---------------------------------------------------------------------------

/// The queue after `k` rounds.
pub open spec fn rotated(q: Seq<usize>, k: nat) -> Seq<usize>
    decreases k,
{
    if k == 0 {
        q
    } else {
        rotate_left_one(rotated(q, (k - 1) as nat))
    }
}

/// After `k` rounds (at most one per participant) the queue starts with
/// the operator who was `k`-th and wraps around: `q[k..] ++ q[..k]`.
pub proof fn law_rounds_rotate(q: Seq<usize>, k: nat)
    requires
        k <= q.len(),
    ensures
        rotated(q, k) == q.skip(k as int) + q.take(k as int),
    decreases k,
{
    if k == 0 {
        assert(q.skip(0) + q.take(0) == q);
    } else {
        law_rounds_rotate(q, (k - 1) as nat);
        let prev = q.skip(k - 1) + q.take(k - 1);
        assert(rotate_left_one(prev) == q.skip(k as int) + q.take(k as int));
    }
}

/// A new round keeps exactly the same operators in the queue.
pub proof fn law_round_keeps_queue_members(q: Seq<usize>, x: usize)
    ensures
        rotate_left_one(q).contains(x) <==> q.contains(x),
        rotate_left_one(q).len() == q.len(),
{
    if q.len() > 0 {
        let r = rotate_left_one(q);
        if q.contains(x) {
            let k = choose|k: int| 0 <= k < q.len() && q[k] == x;
            if k == 0 {
                assert(r[q.len() - 1] == x);
            } else {
                assert(r[k - 1] == x);
            }
        }
        if r.contains(x) {
            let k = choose|k: int| 0 <= k < r.len() && r[k] == x;
            if k == q.len() - 1 {
                assert(q[0] == x);
            } else {
                assert(q[k + 1] == x);
            }
        }
    }
}

/// A full cycle of rounds, one per queued operator, restores the starting
/// order.
pub proof fn law_full_cycle_restores_order(q: Seq<usize>)
    ensures
        rotated(q, q.len()) == q,
{
    law_rounds_rotate(q, q.len());
    assert(q.skip(q.len() as int) + q.take(q.len() as int) == q);
}

/// Fair rotation: over the first `q.len()` rounds, round `k` is led by the
/// operator who was `k`-th, so each queued operator answers first exactly
/// once per cycle.
pub proof fn law_each_operator_leads_once(q: Seq<usize>, k: nat)
    requires
        k < q.len(),
    ensures
        rotated(q, k)[0] == q[k as int],
        forall|j: nat| j < q.len() && j != k && q.no_duplicates() ==> rotated(q, j)[0] != q[k as int],
{
    law_rounds_rotate(q, k);
    assert forall|j: nat| j < q.len() && j != k && q.no_duplicates() implies rotated(q, j)[0]
        != q[k as int] by {
        law_rounds_rotate(q, j);
        assert(rotated(q, j)[0] == q[j as int]);
    }
}

/// A found callsign stays the first match when a participant is appended.
proof fn lemma_first_with_callsign_push(ps: Seq<Participant>, p: Participant, key: Seq<char>)
    ensures
        first_with_callsign(ps.push(p), key) == (match first_with_callsign(ps, key) {
            Some(i) => Some(i),
            None => if p.callsign@ == key {
                Some(ps.len() as int)
            } else {
                None
            },
        }),
    decreases ps.len(),
{
    if ps.len() == 0 {
        assert(ps.push(p)[0] == p);
        assert(ps.push(p).drop_first().len() == 0);
        assert(first_with_callsign(ps.push(p).drop_first(), key) is None);
        assert(first_with_callsign(ps, key) is None);
    } else {
        assert(ps.push(p)[0] == ps[0]);
        assert(ps.push(p).drop_first() == ps.drop_first().push(p));
        lemma_first_with_callsign_push(ps.drop_first(), p, key);
    }
}

/// Checking in the same callsign twice gives the same id and changes
/// neither the roster nor the queue the second time (for callsigns whose
/// uppercase form is already uppercase, as for every ASCII callsign).
pub proof fn law_repeat_checkin_is_idempotent(
    s0: App,
    callsign: Seq<char>,
    id1: usize,
    s1: App,
    id2: usize,
    s2: App,
)
    requires
        App::add_participant_post(&s0, callsign, id1, &s1),
        App::add_participant_post(&s1, callsign, id2, &s2),
        upper_case(upper_case(trim(callsign))) == upper_case(trim(callsign)),
    ensures
        id2 == id1,
        s2.participants@ == s1.participants@,
        s2.queue@ == s1.queue@,
{
    let key = upper_case(trim(callsign));
    match first_with_callsign(s0.participants@, key) {
        Some(i) => {
            if !s0.queue@.contains(id1) {
                assert(s1.queue@[s1.queue@.len() - 1] == id1);
            }
            assert(s1.queue@.contains(id1));
        },
        None => {
            let p = s1.participants@.last();
            assert(s1.participants@ == s0.participants@.push(p));
            lemma_first_with_callsign_push(s0.participants@, p, key);
            assert(s1.queue@[s1.queue@.len() - 1] == id1);
            assert(s1.queue@.contains(id1));
        },
    }
}

/// Rounds compose: `j` more rounds after `i` rounds are `i + j` rounds.
proof fn lemma_rotated_add(q: Seq<usize>, i: nat, j: nat)
    ensures
        rotated(rotated(q, i), j) == rotated(q, i + j),
    decreases j,
{
    if j > 0 {
        lemma_rotated_add(q, i, (j - 1) as nat);
        assert(rotated(q, i + j) == rotate_left_one(rotated(q, (i + j - 1) as nat)));
    }
}

/// Rotation keeps the queue's length.
proof fn lemma_rotated_len(q: Seq<usize>, k: nat)
    ensures
        rotated(q, k).len() == q.len(),
    decreases k,
{
    if k > 0 {
        lemma_rotated_len(q, (k - 1) as nat);
    }
}

/// After `j` rounds the queue is the starting queue rotated `j % n` times.
proof fn lemma_rotated_mod(q: Seq<usize>, j: nat)
    requires
        q.len() > 0,
    ensures
        rotated(q, j) == rotated(q, j % q.len()),
    decreases j,
{
    if j >= q.len() {
        let n = q.len();
        lemma_rotated_mod(q, (j - n) as nat);
        lemma_rotated_add(q, n, (j - n) as nat);
        law_full_cycle_restores_order(q);
        assert((j - n) as nat % n == j % n) by (nonlinear_arith)
            requires
                j >= n,
                n > 0,
        ;
    } else {
        assert(j % q.len() == j) by (nonlinear_arith)
            requires
                j < q.len(),
        ;
    }
}

/// Successive calls of `next_round` on a non-empty queue: after the `j`-th
/// call the queue is the starting one rotated `j` times, so it is led by
/// the operator at position `j % n` of the starting queue; the round
/// counter has grown by `j`, the turn is back at the head, and the roster
/// is untouched. After `n` calls the order is restored.
pub proof fn law_successive_rounds(states: Seq<App>, j: int)
    requires
        states.len() > 0,
        states[0].queue@.len() > 0,
        forall|k: int| 0 <= k < states.len() - 1 ==> App::next_round_post(#[trigger] &states[k], &states[k + 1]),
        0 <= j < states.len(),
    ensures
        states[j].queue@ == rotated(states[0].queue@, j as nat),
        states[j].queue@[0] == states[0].queue@[j % (states[0].queue@.len() as int)],
        states[j].round_number == states[0].round_number + j,
        states[j].participants == states[0].participants,
        j > 0 ==> states[j].current_queue_index == 0,
        j == states[0].queue@.len() ==> states[j].queue@ == states[0].queue@,
    decreases j,
{
    let q = states[0].queue@;
    if j > 0 {
        law_successive_rounds(states, j - 1);
        lemma_rotated_len(q, (j - 1) as nat);
        assert(App::next_round_post(&states[j - 1], &states[j]));
    }
    lemma_rotated_mod(q, j as nat);
    let m = (j as nat) % q.len();
    law_rounds_rotate(q, m);
    law_full_cycle_restores_order(q);
}

/// The callsigns of a roster are pairwise distinct.
pub open spec fn callsigns_distinct(ps: Seq<Participant>) -> bool {
    forall|i: int, k: int|
        0 <= i < ps.len() && 0 <= k < ps.len() && i != k ==> #[trigger] ps[i].callsign@
            != #[trigger] ps[k].callsign@
}

proof fn lemma_first_with_callsign(ps: Seq<Participant>, key: Seq<char>)
    ensures
        match first_with_callsign(ps, key) {
            Some(i) => 0 <= i < ps.len() && ps[i].callsign@ == key,
            None => forall|i: int| 0 <= i < ps.len() ==> #[trigger] ps[i].callsign@ != key,
        },
    decreases ps.len(),
{
    if ps.len() > 0 {
        lemma_first_with_callsign(ps.drop_first(), key);
        if first_with_callsign(ps, key) is None {
            assert forall|i: int| 0 <= i < ps.len() implies #[trigger] ps[i].callsign@ != key by {
                if i > 0 {
                    assert(ps[i] == ps.drop_first()[i - 1]);
                }
            }
        }
    }
}

/// On a well-formed roster with distinct callsigns, a check-in keeps the
/// callsigns distinct and leaves the returned participant queued under the
/// normalized callsign, where a new callsign's normalized form stays the
/// same when upper-cased again (as every ASCII callsign's does; see
/// `add_participant`).
pub proof fn law_checkin_keeps_callsigns_distinct(s0: App, callsign: Seq<char>, id: usize, s1: App)
    requires
        App::add_participant_post(&s0, callsign, id, &s1),
        s0.wf(),
        callsigns_distinct(s0.participants@),
        first_with_callsign(s0.participants@, upper_case(trim(callsign))) is None ==> upper_case(
            upper_case(trim(callsign)),
        ) == upper_case(trim(callsign)),
    ensures
        callsigns_distinct(s1.participants@),
        s1.queue@.contains(id),
        id < s1.participants@.len(),
        s1.participants@[id as int].callsign@ == upper_case(trim(callsign)),
{
    let key = upper_case(trim(callsign));
    lemma_first_with_callsign(s0.participants@, key);
    match first_with_callsign(s0.participants@, key) {
        Some(i) => {
            if !s0.queue@.contains(id) {
                assert(s1.queue@[s1.queue@.len() - 1] == id);
            }
        },
        None => {
            let p = s1.participants@.last();
            assert(s1.participants@ == s0.participants@.push(p));
            assert(s1.queue@[s1.queue@.len() - 1] == id);
            assert forall|i: int, k: int|
                0 <= i < s1.participants@.len() && 0 <= k < s1.participants@.len() && i != k implies #[trigger] s1.participants@[i].callsign@
                != #[trigger] s1.participants@[k].callsign@ by {
                if i < s0.participants@.len() && k < s0.participants@.len() {
                    assert(s1.participants@[i] == s0.participants@[i]);
                    assert(s1.participants@[k] == s0.participants@[k]);
                } else if i < s0.participants@.len() {
                    assert(s1.participants@[i] == s0.participants@[i]);
                } else {
                    assert(s1.participants@[k] == s0.participants@[k]);
                }
            }
        },
    }
}

/// Taking back a point right after awarding it restores every score.
pub proof fn law_remove_undoes_award(ps: Seq<Participant>, slot: Option<int>, trivia: bool)
    requires
        slot matches Some(i) ==> 0 <= i < ps.len() && (if trivia {
            ps[i].points_trivia < u32::MAX
        } else {
            ps[i].points_bonus < u32::MAX
        }),
    ensures
        adjust_points(adjust_points(ps, slot, trivia, 1), slot, trivia, -1) == ps,
{
    match slot {
        Some(i) => {
            let p = ps[i];
            let a = adjust_points(ps, slot, trivia, 1);
            assert(a[i].points_checkin == p.points_checkin);
            if trivia {
                assert(adjust_points(a, slot, trivia, -1) == a.update(i, p));
            } else {
                assert(adjust_points(a, slot, trivia, -1) == a.update(i, p));
            }
            assert(a.update(i, p) == ps);
        },
        None => {},
    }
}

/// Awarding or taking back a point changes one counter of one operator:
/// a trivia adjustment leaves every bonus count alone and a bonus
/// adjustment every trivia count; operators other than the active one are
/// untouched, and the active one's counter moves by the step unless that
/// would take it below zero, in which case nothing changes.
pub proof fn law_point_adjustment_touches_one_counter(
    ps: Seq<Participant>,
    slot: Option<int>,
    trivia: bool,
    delta: int,
)
    requires
        slot matches Some(i) ==> 0 <= i < ps.len(),
        delta == 1 || delta == -1,
        slot matches Some(i) ==> (if trivia {
            ps[i].points_trivia + delta <= u32::MAX
        } else {
            ps[i].points_bonus + delta <= u32::MAX
        }),
    ensures
        ({
            let r = adjust_points(ps, slot, trivia, delta);
            &&& r.len() == ps.len()
            &&& forall|k: int|
                0 <= k < ps.len() ==> {
                    &&& (#[trigger] r[k]).id == ps[k].id
                    &&& r[k].callsign == ps[k].callsign
                    &&& r[k].name == ps[k].name
                    &&& r[k].location == ps[k].location
                    &&& r[k].points_checkin == ps[k].points_checkin
                    &&& r[k].qrz_fetched == ps[k].qrz_fetched
                    &&& r[k].notes == ps[k].notes
                    &&& trivia ==> r[k].points_bonus == ps[k].points_bonus
                    &&& !trivia ==> r[k].points_trivia == ps[k].points_trivia
                    &&& slot != Some(k) ==> r[k] == ps[k]
                }
            &&& slot matches Some(i) ==> if trivia {
                r[i].points_trivia == if ps[i].points_trivia + delta >= 0 {
                    ps[i].points_trivia + delta
                } else {
                    ps[i].points_trivia as int
                }
            } else {
                r[i].points_bonus == if ps[i].points_bonus + delta >= 0 {
                    ps[i].points_bonus + delta
                } else {
                    ps[i].points_bonus as int
                }
            }
        }),
{
}

/// An award raises exactly the active operator's total score, by one.
pub proof fn law_award_raises_total_by_one(ps: Seq<Participant>, i: int, trivia: bool, j: int)
    requires
        0 <= i < ps.len(),
        0 <= j < ps.len(),
        if trivia {
            ps[i].points_trivia < u32::MAX
        } else {
            ps[i].points_bonus < u32::MAX
        },
    ensures
        adjust_points(ps, Some(i), trivia, 1).len() == ps.len(),
        score_of(adjust_points(ps, Some(i), trivia, 1)[j]) == score_of(ps[j]) + if j == i {
            1int
        } else {
            0int
        },
{
}

/// Going back a turn after advancing returns to the same operator while
/// the round is not over.
pub proof fn law_prev_undoes_next(idx: int, len: int)
    requires
        0 <= idx < len,
    ensures
        prev_turn_index(next_turn_index(idx, len)) == idx,
{
}

/// The status text of a net without callbook credentials.
pub open spec fn offline_status() -> Seq<char> {
    seq!['O', 'f', 'f', 'l', 'i', 'n', 'e', ' ', '(', 'M', 'o', 'c', 'k', ' ', 'M', 'o', 'd', 'e', ')']
}

/// Appending an absent element keeps a sequence free of duplicates.
proof fn lemma_push_no_duplicates(q: Seq<usize>, x: usize)
    requires
        q.no_duplicates(),
        !q.contains(x),
    ensures
        q.push(x).no_duplicates(),
{
    let r = q.push(x);
    assert forall|a: int, b: int| 0 <= a < r.len() && 0 <= b < r.len() && a != b implies r[a]
        != r[b] by {
        if a < q.len() && b < q.len() {
            assert(r[a] == q[a] && r[b] == q[b]);
        } else if a < q.len() {
            assert(r[a] == q[a]);
        } else if b < q.len() {
            assert(r[b] == q[b]);
        }
    }
}

/// Whether `id` is in the queue.
fn contains_id(q: &Vec<usize>, id: usize) -> (b: bool)
    ensures
        b == q@.contains(id),
{
    let n = q.len();
    let mut i: usize = 0;
    while i < n
        invariant
            i <= n == q@.len(),
            forall|k: int| 0 <= k < i ==> q@[k] != id,
        decreases n - i,
    {
        if q[i] == id {
            return true;
        }
        i += 1;
    }
    false
}

impl Default for App {
    fn default() -> (app: Self)
        ensures
            app.participants@.len() == 0,
            app.queue@.len() == 0,
            app.current_queue_index == 0,
            app.round_number == 1,
            app.input_mode == InputMode::Normal,
            app.input_buffer@ == Seq::<char>::empty(),
            app.error_message is None,
            app.api_status@ == offline_status(),
    {
        Self::new()
    }
}

} // verus!
