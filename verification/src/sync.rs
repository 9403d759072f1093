//! The sync loop: asking the homeserver again and again for what is new.

use crate::adapter::{AdapterView, MatrixAdapter};
use crate::incoming::{incoming, PendingMessage, PendingView};
use crate::json::{Json, JsonView};
use crate::requests::next_batch_in;
use crate::text::texts;
use vstd::arithmetic::power2::pow2;
use vstd::prelude::*;

verus! {

/// The messages that the events of `room` bring, in order.
pub open spec fn event_messages(
    adapter: AdapterView,
    room: Seq<char>,
    events: Seq<JsonView>,
) -> Seq<PendingView>
    decreases events.len(),
{
    if events.len() == 0 {
        seq![]
    } else {
        let before = event_messages(adapter, room, events.drop_last());
        match incoming(adapter, room, events.last()) {
            Some(message) => before.push(message),
            None => before,
        }
    }
}

/// The messages of the room `entry`, if the adapter takes part in it.
pub open spec fn room_messages(
    adapter: AdapterView,
    entry: (Seq<char>, JsonView),
) -> Seq<PendingView> {
    if adapter.allows(entry.0) {
        match entry.1.field("timeline"@).field("events"@).items() {
            Some(events) => event_messages(adapter, entry.0, events),
            None => seq![],
        }
    } else {
        seq![]
    }
}

/// The messages of all the `rooms`, one room after the other.
pub open spec fn rooms_messages(
    adapter: AdapterView,
    rooms: Seq<(Seq<char>, JsonView)>,
) -> Seq<PendingView>
    decreases rooms.len(),
{
    if rooms.len() == 0 {
        seq![]
    } else {
        rooms_messages(adapter, rooms.drop_last()) + room_messages(adapter, rooms.last())
    }
}

/// The messages that a sync brings from the joined rooms.
pub open spec fn sync_messages(adapter: AdapterView, body: JsonView) -> Seq<PendingView> {
    match body.field("rooms"@).field("join"@).members() {
        Some(rooms) => rooms_messages(adapter, rooms),
        None => seq![],
    }
}

/// The rooms of `invites` in which the adapter may take part.
pub open spec fn allowed_invites(
    adapter: AdapterView,
    invites: Seq<(Seq<char>, JsonView)>,
) -> Seq<Seq<char>>
    decreases invites.len(),
{
    if invites.len() == 0 {
        seq![]
    } else {
        let before = allowed_invites(adapter, invites.drop_last());
        if adapter.allows(invites.last().0) {
            before.push(invites.last().0)
        } else {
            before
        }
    }
}

/// The rooms whose invites are to be accepted after a sync.
pub open spec fn sync_invites(adapter: AdapterView, body: JsonView) -> Seq<Seq<char>> {
    if adapter.auto_accept_invites {
        match body.field("rooms"@).field("invite"@).members() {
            Some(invites) => allowed_invites(adapter, invites),
            None => seq![],
        }
    } else {
        seq![]
    }
}

/// The adapter after a sync that ended at the point that `body` names; where
/// it names none, the next sync starts where this one did.
pub open spec fn synced(adapter: AdapterView, body: JsonView) -> AdapterView {
    match next_batch_in(body) {
        Some(token) => AdapterView { since_token: Some(token), ..adapter },
        None => adapter,
    }
}

/// What a sync asks for: invites to accept, and then messages to hand on.
#[derive(Debug, PartialEq, Eq)]
pub struct SyncBatch {
    pub invites: Vec<String>,
    pub messages: Vec<PendingMessage>,
}

/// A list of pending messages, as the specifications see it.
pub open spec fn pendings(list: Seq<PendingMessage>) -> Seq<PendingView> {
    list.map_values(|m: PendingMessage| m@)
}

/// What stands under `inner` in what stands under `outer`.
fn get_in<'a>(body: &'a Json, outer: &str, inner: &str) -> (r: Option<&'a Json>)
    ensures
        r matches Some(j) ==> j@ == body@.field(outer@).field(inner@),
        r is None ==> body@.field(outer@).field(inner@) == JsonView::Null,
{
    match body.get(outer) {
        Some(j) => j.get(inner),
        None => None,
    }
}

impl MatrixAdapter {
    fn read_events(
        &self,
        room_id: &str,
        events: &Vec<Json>,
        out: &mut Vec<PendingMessage>,
    )
        ensures
            pendings(final(out)@) == pendings(old(out)@) + event_messages(
                self@,
                room_id@,
                events@.map_values(|j: Json| j@),
            ),
    {
        let ghost start = pendings(out@);
        let ghost list = events@.map_values(|j: Json| j@);
        assert(start + event_messages(self@, room_id@, list.take(0)) =~= start);
        for i in 0..events.len()
            invariant
                list == events@.map_values(|j: Json| j@),
                pendings(out@) == start + event_messages(self@, room_id@, list.take(i as int)),
        {
            proof {
                assert(list.take(i as int + 1).drop_last() =~= list.take(i as int));
                assert(list.take(i as int + 1).last() == events@[i as int]@);
            }
            if let Some(message) = self.read_event(room_id, &events[i]) {
                proof {
                    assert(pendings(out@.push(message)) =~= pendings(out@).push(message@));
                    assert(start + event_messages(self@, room_id@, list.take(i as int)).push(
                        message@,
                    ) =~= pendings(out@).push(message@));
                }
                out.push(message);
            }
        }
        assert(list.take(events@.len() as int) =~= list);
    }

    /// The messages that a sync brings from the joined rooms.
    pub fn read_messages(&self, body: &Json) -> (r: Vec<PendingMessage>)
        ensures
            pendings(r@) == sync_messages(self@, body@),
    {
        let mut out: Vec<PendingMessage> = Vec::new();
        assert(pendings(out@) =~= seq![]);
        if let Some(joined) = get_in(body, "rooms", "join") {
            if let Json::Object(rooms) = joined {
                let ghost list = joined@->Object_0;
                assert(list.take(0) =~= Seq::<(Seq<char>, JsonView)>::empty());
                for i in 0..rooms.len()
                    invariant
                        *joined == Json::Object(*rooms),
                        list == joined@->Object_0,
                        list.len() == rooms@.len(),
                        pendings(out@) == rooms_messages(self@, list.take(i as int)),
                {
                    let entry = &rooms[i];
                    proof {
                        assert(list[i as int] == (entry.0@, entry.1@));
                        assert(list.take(i as int + 1).drop_last() =~= list.take(i as int));
                        assert(list.take(i as int + 1).last() == list[i as int]);
                    }
                    let ghost before = pendings(out@);
                    if self.is_allowed_room(entry.0.as_str()) {
                        if let Some(found) = get_in(&entry.1, "timeline", "events") {
                            if let Json::Array(events) = found {
                                self.read_events(entry.0.as_str(), events, &mut out);
                                assert(events@.map_values(|j: Json| j@) =~= found@->Array_0);
                            }
                        }
                    }
                    assert(pendings(out@) =~= before + room_messages(self@, list[i as int]));
                }
                assert(list.take(rooms@.len() as int) =~= list);
            }
        }
        out
    }

    /// The rooms whose invites are to be accepted after a sync.
    pub fn read_invites(&self, body: &Json) -> (r: Vec<String>)
        ensures
            texts(r@) == sync_invites(self@, body@),
    {
        let mut out: Vec<String> = Vec::new();
        assert(texts(out@) =~= seq![]);
        if !self.auto_accept_invites() {
            return out;
        }
        if let Some(found) = get_in(body, "rooms", "invite") {
            if let Json::Object(invites) = found {
                let ghost list = found@->Object_0;
                assert(list.take(0) =~= Seq::<(Seq<char>, JsonView)>::empty());
                for i in 0..invites.len()
                    invariant
                        *found == Json::Object(*invites),
                        list == found@->Object_0,
                        list.len() == invites@.len(),
                        texts(out@) == allowed_invites(self@, list.take(i as int)),
                {
                    let entry = &invites[i];
                    proof {
                        assert(list[i as int] == (entry.0@, entry.1@));
                        assert(list.take(i as int + 1).drop_last() =~= list.take(i as int));
                        assert(list.take(i as int + 1).last() == list[i as int]);
                    }
                    if self.is_allowed_room(entry.0.as_str()) {
                        let room = entry.0.clone();
                        assert(texts(out@.push(room)) =~= texts(out@).push(entry.0@));
                        out.push(room);
                    }
                }
                assert(list.take(invites@.len() as int) =~= list);
            }
        }
        out
    }

    /// Takes in what a sync brought.
    pub fn handle_sync(&mut self, body: &Json) -> (r: SyncBatch)
        ensures
            final(self)@ == synced(old(self)@, body@),
            texts(r.invites@) == sync_invites(old(self)@, body@),
            pendings(r.messages@) == sync_messages(old(self)@, body@),
    {
        let invites = self.read_invites(body);
        let messages = self.read_messages(body);
        let token = match body.text_at("next_batch") {
            Some(token) => Some(token.to_string()),
            None => None,
        };
        self.resume_from(token);
        SyncBatch { invites, messages }
    }
}

/// How long to wait after a failed sync, in seconds.
#[derive(Debug, Clone, Copy, PartialEq, Eq, Structural)]
pub struct Backoff {
    pub secs: u64,
}

/// The shortest wait after a failed sync, in seconds.
pub const MIN_BACKOFF_SECS: u64 = 1;

/// The longest wait after a failed sync, in seconds.
pub const MAX_BACKOFF_SECS: u64 = 60;

/// The wait that follows a wait of `secs`: twice as long, up to the longest.
pub open spec fn doubled(secs: u64) -> u64 {
    if secs * 2 <= MAX_BACKOFF_SECS {
        (secs * 2) as u64
    } else {
        MAX_BACKOFF_SECS
    }
}

impl Backoff {
    /// The wait after the first failure.
    pub fn new() -> (r: Self)
        ensures
            r.secs == MIN_BACKOFF_SECS,
    {
        Backoff { secs: MIN_BACKOFF_SECS }
    }
}

/// How a sync ended.
#[derive(Debug, PartialEq, Eq)]
pub enum SyncOutcome {
    /// The adapter is to stop.
    Shutdown,
    /// The homeserver could not be reached.
    Unreachable,
    /// The homeserver answered with a status other than success.
    Refused,
    /// The answer was no JSON.
    Unreadable,
    /// The answer.
    Answer(Json),
}

/// What comes after a sync.
#[derive(Debug, PartialEq, Eq)]
pub enum SyncStep {
    /// Nothing more.
    Stop,
    /// A pause of so many seconds, then the next sync.
    Wait(u64),
    /// The next sync.
    Again,
    /// Accepting the invites and handing on the messages, then the next sync.
    Handle(SyncBatch),
}

/// How a sync ended, as the specifications see it.
pub enum OutcomeView {
    Shutdown,
    Unreachable,
    Refused,
    Unreadable,
    Answer(JsonView),
}

impl View for SyncOutcome {
    type V = OutcomeView;

    open spec fn view(&self) -> OutcomeView {
        match self {
            SyncOutcome::Shutdown => OutcomeView::Shutdown,
            SyncOutcome::Unreachable => OutcomeView::Unreachable,
            SyncOutcome::Refused => OutcomeView::Refused,
            SyncOutcome::Unreadable => OutcomeView::Unreadable,
            SyncOutcome::Answer(body) => OutcomeView::Answer(body@),
        }
    }
}

/// What comes after a sync, as the specifications see it.
pub enum StepView {
    Stop,
    Wait(u64),
    Again,
    Handle { invites: Seq<Seq<char>>, messages: Seq<PendingView> },
}

impl View for SyncStep {
    type V = StepView;

    open spec fn view(&self) -> StepView {
        match self {
            SyncStep::Stop => StepView::Stop,
            SyncStep::Wait(secs) => StepView::Wait(*secs),
            SyncStep::Again => StepView::Again,
            SyncStep::Handle(batch) => StepView::Handle {
                invites: texts(batch.invites@),
                messages: pendings(batch.messages@),
            },
        }
    }
}

/// The adapter after a sync, the next wait, and what comes next.
pub open spec fn after_sync(
    adapter: AdapterView,
    secs: u64,
    outcome: OutcomeView,
) -> (AdapterView, u64, StepView) {
    match outcome {
        OutcomeView::Shutdown => (adapter, secs, StepView::Stop),
        OutcomeView::Unreachable | OutcomeView::Refused => (
            adapter,
            doubled(secs),
            StepView::Wait(secs),
        ),
        OutcomeView::Unreadable => (adapter, MIN_BACKOFF_SECS, StepView::Again),
        OutcomeView::Answer(body) => (
            synced(adapter, body),
            MIN_BACKOFF_SECS,
            StepView::Handle {
                invites: sync_invites(adapter, body),
                messages: sync_messages(adapter, body),
            },
        ),
    }
}

impl MatrixAdapter {
    /// What comes after a sync that ended as `outcome` says.
    pub fn sync_step(&mut self, backoff: &mut Backoff, outcome: &SyncOutcome) -> (r: SyncStep)
        ensures
            match outcome {
                SyncOutcome::Shutdown => {
                    &&& r is Stop
                    &&& *final(backoff) == *old(backoff)
                    &&& final(self)@ == old(self)@
                },
                SyncOutcome::Unreachable | SyncOutcome::Refused => {
                    &&& r == SyncStep::Wait(old(backoff).secs)
                    &&& final(backoff).secs == doubled(old(backoff).secs)
                    &&& final(self)@ == old(self)@
                },
                SyncOutcome::Unreadable => {
                    &&& r is Again
                    &&& final(backoff).secs == MIN_BACKOFF_SECS
                    &&& final(self)@ == old(self)@
                },
                SyncOutcome::Answer(body) => {
                    &&& r matches SyncStep::Handle(batch)
                    &&& texts(batch.invites@) == sync_invites(old(self)@, body@)
                    &&& pendings(batch.messages@) == sync_messages(old(self)@, body@)
                    &&& final(backoff).secs == MIN_BACKOFF_SECS
                    &&& final(self)@ == synced(old(self)@, body@)
                },
            },
            (final(self)@, final(backoff).secs, r@) == after_sync(
                old(self)@,
                old(backoff).secs,
                outcome@,
            ),
    {
        match outcome {
            SyncOutcome::Shutdown => SyncStep::Stop,
            SyncOutcome::Unreachable | SyncOutcome::Refused => {
                let wait: u64 = backoff.secs;
                backoff.secs = if wait <= MAX_BACKOFF_SECS / 2 {
                    wait * 2
                } else {
                    MAX_BACKOFF_SECS
                };
                SyncStep::Wait(wait)
            },
            SyncOutcome::Unreadable => {
                backoff.secs = MIN_BACKOFF_SECS;
                SyncStep::Again
            },
            SyncOutcome::Answer(body) => {
                backoff.secs = MIN_BACKOFF_SECS;
                SyncStep::Handle(self.handle_sync(body))
            },
        }
    }
}

/// The adapter takes part in the room of `m`, and `m` is not from itself.
pub open spec fn proper(adapter: AdapterView, m: PendingView) -> bool {
    adapter.allows(m.room_id) && m.sender != adapter.user_id
}

proof fn lemma_event_messages_proper(
    adapter: AdapterView,
    room: Seq<char>,
    events: Seq<JsonView>,
    i: int,
)
    requires
        adapter.allows(room),
        0 <= i < event_messages(adapter, room, events).len(),
    ensures
        proper(adapter, event_messages(adapter, room, events)[i]),
    decreases events.len(),
{
    if events.len() > 0 && i < event_messages(adapter, room, events.drop_last()).len() {
        lemma_event_messages_proper(adapter, room, events.drop_last(), i);
    }
}

proof fn lemma_rooms_messages_proper(
    adapter: AdapterView,
    rooms: Seq<(Seq<char>, JsonView)>,
    i: int,
)
    requires
        0 <= i < rooms_messages(adapter, rooms).len(),
    ensures
        proper(adapter, rooms_messages(adapter, rooms)[i]),
    decreases rooms.len(),
{
    if rooms.len() > 0 {
        let before = rooms_messages(adapter, rooms.drop_last());
        if i < before.len() {
            lemma_rooms_messages_proper(adapter, rooms.drop_last(), i);
        } else if let Some(events) = rooms.last().1.field("timeline"@).field("events"@).items() {
            lemma_event_messages_proper(adapter, rooms.last().0, events, i - before.len());
        }
    }
}

proof fn lemma_event_is_kept(
    adapter: AdapterView,
    room: Seq<char>,
    events: Seq<JsonView>,
    i: int,
)
    requires
        0 <= i < events.len(),
        incoming(adapter, room, events[i]) is Some,
    ensures
        event_messages(adapter, room, events).contains(incoming(adapter, room, events[i])->0),
    decreases events.len(),
{
    let before = event_messages(adapter, room, events.drop_last());
    let all = event_messages(adapter, room, events);
    let m = incoming(adapter, room, events[i])->0;
    if i == events.len() - 1 {
        assert(all[all.len() - 1] == m);
    } else {
        lemma_event_is_kept(adapter, room, events.drop_last(), i);
        let k = choose|k: int| 0 <= k < before.len() && before[k] == m;
        assert(all[k] == m);
    }
}

proof fn lemma_room_is_kept(
    adapter: AdapterView,
    rooms: Seq<(Seq<char>, JsonView)>,
    i: int,
    m: PendingView,
)
    requires
        0 <= i < rooms.len(),
        room_messages(adapter, rooms[i]).contains(m),
    ensures
        rooms_messages(adapter, rooms).contains(m),
    decreases rooms.len(),
{
    let before = rooms_messages(adapter, rooms.drop_last());
    let last = room_messages(adapter, rooms.last());
    let all = rooms_messages(adapter, rooms);
    if i == rooms.len() - 1 {
        let k = choose|k: int| 0 <= k < last.len() && last[k] == m;
        assert(all[before.len() + k] == m);
    } else {
        lemma_room_is_kept(adapter, rooms.drop_last(), i, m);
        let k = choose|k: int| 0 <= k < before.len() && before[k] == m;
        assert(all[k] == m);
    }
}

/// No message is lost: whatever event of an allowed room brings a message, the
/// sync hands it on.
pub proof fn law_no_message_is_lost(
    adapter: AdapterView,
    body: JsonView,
    rooms: Seq<(Seq<char>, JsonView)>,
    events: Seq<JsonView>,
    room: int,
    event: int,
)
    requires
        body.field("rooms"@).field("join"@) == JsonView::Object(rooms),
        0 <= room < rooms.len(),
        adapter.allows(rooms[room].0),
        rooms[room].1.field("timeline"@).field("events"@) == JsonView::Array(events),
        0 <= event < events.len(),
        incoming(adapter, rooms[room].0, events[event]) is Some,
    ensures
        sync_messages(adapter, body).contains(
            incoming(adapter, rooms[room].0, events[event])->0,
        ),
{
    lemma_event_is_kept(adapter, rooms[room].0, events, event);
    lemma_room_is_kept(
        adapter,
        rooms,
        room,
        incoming(adapter, rooms[room].0, events[event])->0,
    );
}

/// Whatever a sync brings, every message that is handed on comes from a room
/// in which the adapter takes part, and from someone else.
pub proof fn law_messages_come_from_allowed_rooms(adapter: AdapterView, body: JsonView)
    ensures
        forall|i: int|
            0 <= i < sync_messages(adapter, body).len() ==> proper(
                adapter,
                #[trigger] sync_messages(adapter, body)[i],
            ),
{
    if let Some(rooms) = body.field("rooms"@).field("join"@).members() {
        assert forall|i: int| 0 <= i < sync_messages(adapter, body).len() implies proper(
            adapter,
            #[trigger] sync_messages(adapter, body)[i],
        ) by {
            lemma_rooms_messages_proper(adapter, rooms, i);
        }
    }
}

proof fn lemma_allowed_invites(
    adapter: AdapterView,
    invites: Seq<(Seq<char>, JsonView)>,
    i: int,
)
    requires
        0 <= i < allowed_invites(adapter, invites).len(),
    ensures
        adapter.allows(allowed_invites(adapter, invites)[i]),
    decreases invites.len(),
{
    if invites.len() > 0 && i < allowed_invites(adapter, invites.drop_last()).len() {
        lemma_allowed_invites(adapter, invites.drop_last(), i);
    }
}

/// No invite is accepted to a room in which the adapter does not take part,
/// and none at all where they are not to be accepted unasked.
pub proof fn law_accepted_invites_are_allowed(adapter: AdapterView, body: JsonView)
    ensures
        forall|i: int|
            0 <= i < sync_invites(adapter, body).len() ==> adapter.allows(
                #[trigger] sync_invites(adapter, body)[i],
            ),
        !adapter.auto_accept_invites ==> sync_invites(adapter, body).len() == 0,
{
    if let Some(invites) = body.field("rooms"@).field("invite"@).members() {
        assert forall|i: int| 0 <= i < sync_invites(adapter, body).len() implies adapter.allows(
            #[trigger] sync_invites(adapter, body)[i],
        ) by {
            lemma_allowed_invites(adapter, invites, i);
        }
    }
}

/// Without a list of rooms, every invite is accepted.
pub proof fn law_without_a_list_all_invites_are_accepted(
    adapter: AdapterView,
    invites: Seq<(Seq<char>, JsonView)>,
)
    requires
        adapter.allowed_rooms.len() == 0,
    ensures
        allowed_invites(adapter, invites) == invites.map_values(
            |e: (Seq<char>, JsonView)| e.0,
        ),
    decreases invites.len(),
{
    let keys = invites.map_values(|e: (Seq<char>, JsonView)| e.0);
    if invites.len() > 0 {
        law_without_a_list_all_invites_are_accepted(adapter, invites.drop_last());
        assert(keys =~= invites.drop_last().map_values(|e: (Seq<char>, JsonView)| e.0).push(
            invites.last().0,
        ));
    } else {
        assert(keys =~= seq![]);
    }
}

/// The next sync goes on where an answered one ended, and a sync that ended
/// nowhere is repeated.
pub proof fn law_sync_goes_on_where_it_ended(adapter: AdapterView, body: JsonView)
    ensures
        next_batch_in(body) matches Some(token) ==> synced(adapter, body).sync_url()
            == (AdapterView { since_token: None, ..adapter }).sync_url() + "&since="@ + token,
        next_batch_in(body) is None ==> synced(adapter, body).sync_url() == adapter.sync_url(),
{
}

/// The wait after `n` failures in a row that follow a wait of `first`.
pub open spec fn wait_after(first: u64, n: nat) -> u64
    decreases n,
{
    if n == 0 {
        first
    } else {
        doubled(wait_after(first, (n - 1) as nat))
    }
}

/// The waits grow from one second by doubling, and stay at a minute.
pub proof fn law_waits_double_up_to_a_minute(n: nat)
    ensures
        wait_after(MIN_BACKOFF_SECS, n) == if pow2(n) <= MAX_BACKOFF_SECS {
            pow2(n)
        } else {
            MAX_BACKOFF_SECS as nat
        },
        MIN_BACKOFF_SECS <= wait_after(MIN_BACKOFF_SECS, n) <= MAX_BACKOFF_SECS,
    decreases n,
{
    vstd::arithmetic::power2::lemma_pow2_pos(n);
    if n == 0 {
        vstd::arithmetic::power2::lemma2_to64();
    } else {
        law_waits_double_up_to_a_minute((n - 1) as nat);
        vstd::arithmetic::power2::lemma_pow2_unfold(n);
    }
}

proof fn lemma_allowed_invites_add(
    adapter: AdapterView,
    a: Seq<(Seq<char>, JsonView)>,
    b: Seq<(Seq<char>, JsonView)>,
)
    ensures
        allowed_invites(adapter, a + b) == allowed_invites(adapter, a) + allowed_invites(
            adapter,
            b,
        ),
    decreases b.len(),
{
    if b.len() == 0 {
        assert(a + b =~= a);
    } else {
        assert((a + b).drop_last() =~= a + b.drop_last());
        assert((a + b).last() == b.last());
        lemma_allowed_invites_add(adapter, a, b.drop_last());
        assert(allowed_invites(adapter, a + b) =~= allowed_invites(adapter, a) + allowed_invites(
            adapter,
            b,
        ));
    }
}

/// No invite is lost: where invites are to be accepted, every invite to a room
/// in which the adapter takes part is accepted, at the first sync as at any
/// later one.
pub proof fn law_no_invite_is_lost(
    adapter: AdapterView,
    body: JsonView,
    invites: Seq<(Seq<char>, JsonView)>,
    i: int,
)
    requires
        adapter.auto_accept_invites,
        body.field("rooms"@).field("invite"@) == JsonView::Object(invites),
        0 <= i < invites.len(),
        adapter.allowed_rooms.len() == 0 || adapter.allowed_rooms.contains(invites[i].0),
    ensures
        sync_invites(adapter, body).contains(invites[i].0),
{
    let before = invites.take(i);
    let after = invites.skip(i + 1);
    let one = seq![invites[i]];
    assert(invites =~= before + one + after);
    lemma_allowed_invites_add(adapter, before + one, after);
    lemma_allowed_invites_add(adapter, before, one);
    lemma_one_invite(adapter, invites[i]);
    assert(allowed_invites(adapter, one)[0] == invites[i].0);
    assert(sync_invites(adapter, body)[allowed_invites(adapter, before).len() as int]
        == invites[i].0);
}

proof fn lemma_one_invite(adapter: AdapterView, invite: (Seq<char>, JsonView))
    ensures
        allowed_invites(adapter, seq![invite]) == if adapter.allows(invite.0) {
            seq![invite.0]
        } else {
            seq![]
        },
{
    assert(seq![invite].drop_last().len() == 0);
    assert(allowed_invites(adapter, seq![invite].drop_last()) =~= seq![]);
    assert(allowed_invites(adapter, seq![invite]) =~= if adapter.allows(invite.0) {
        seq![invite.0]
    } else {
        seq![]
    });
}

/// Without a list of rooms, a sync accepts all the invites that it brings, in
/// their order.
pub proof fn law_sync_accepts_all_invites_without_a_list(
    adapter: AdapterView,
    body: JsonView,
    invites: Seq<(Seq<char>, JsonView)>,
)
    requires
        adapter.auto_accept_invites,
        adapter.allowed_rooms.len() == 0,
        body.field("rooms"@).field("invite"@) == JsonView::Object(invites),
    ensures
        sync_invites(adapter, body).len() == invites.len(),
        forall|i: int|
            0 <= i < invites.len() ==> #[trigger] sync_invites(adapter, body)[i] == invites[i].0,
{
    law_without_a_list_all_invites_are_accepted(adapter, invites);
}

/// Invites are taken one by one, in order: those of two syncs that come in one
/// are accepted one after the other, and a single one is accepted exactly if
/// the adapter takes part in its room. A sync that lists no invites brings
/// none.
pub proof fn law_invites_are_taken_one_by_one(
    adapter: AdapterView,
    first: JsonView,
    second: JsonView,
    both: JsonView,
    a: Seq<(Seq<char>, JsonView)>,
    b: Seq<(Seq<char>, JsonView)>,
)
    requires
        first.field("rooms"@).field("invite"@) == JsonView::Object(a),
        second.field("rooms"@).field("invite"@) == JsonView::Object(b),
        both.field("rooms"@).field("invite"@) == JsonView::Object(a + b),
    ensures
        sync_invites(adapter, both) == sync_invites(adapter, first) + sync_invites(
            adapter,
            second,
        ),
        a.len() == 1 && adapter.auto_accept_invites && adapter.allows(a[0].0) ==> sync_invites(
            adapter,
            first,
        ) == seq![a[0].0],
        a.len() == 1 && !(adapter.auto_accept_invites && adapter.allows(a[0].0))
            ==> sync_invites(adapter, first).len() == 0,
        a.len() == 0 ==> sync_invites(adapter, first).len() == 0,
{
    lemma_allowed_invites_add(adapter, a, b);
    if !adapter.auto_accept_invites {
        assert(sync_invites(adapter, first) + sync_invites(adapter, second) =~= seq![]);
    }
    if a.len() == 1 {
        assert(a =~= seq![a[0]]);
        lemma_one_invite(adapter, a[0]);
    }
}

/// A sync without a list of invites brings none, and one without a list of
/// joined rooms brings no messages.
pub proof fn law_what_is_not_listed_is_not_brought(adapter: AdapterView, body: JsonView)
    ensures
        body.field("rooms"@).field("invite"@) !is Object ==> sync_invites(adapter, body).len()
            == 0,
        body.field("rooms"@).field("join"@) !is Object ==> sync_messages(adapter, body).len()
            == 0,
{
}

proof fn lemma_event_messages_add(
    adapter: AdapterView,
    room: Seq<char>,
    a: Seq<JsonView>,
    b: Seq<JsonView>,
)
    ensures
        event_messages(adapter, room, a + b) == event_messages(adapter, room, a)
            + event_messages(adapter, room, b),
    decreases b.len(),
{
    let whole = event_messages(adapter, room, a) + event_messages(adapter, room, b);
    if b.len() == 0 {
        assert(a + b =~= a);
        assert(whole =~= event_messages(adapter, room, a));
    } else {
        assert((a + b).drop_last() =~= a + b.drop_last());
        assert((a + b).last() == b.last());
        lemma_event_messages_add(adapter, room, a, b.drop_last());
        assert(event_messages(adapter, room, a + b) =~= whole);
    }
}

proof fn lemma_rooms_messages_add(
    adapter: AdapterView,
    a: Seq<(Seq<char>, JsonView)>,
    b: Seq<(Seq<char>, JsonView)>,
)
    ensures
        rooms_messages(adapter, a + b) == rooms_messages(adapter, a) + rooms_messages(adapter, b),
    decreases b.len(),
{
    let whole = rooms_messages(adapter, a) + rooms_messages(adapter, b);
    if b.len() == 0 {
        assert(a + b =~= a);
        assert(whole =~= rooms_messages(adapter, a));
    } else {
        assert((a + b).drop_last() =~= a + b.drop_last());
        assert((a + b).last() == b.last());
        lemma_rooms_messages_add(adapter, a, b.drop_last());
        assert(rooms_messages(adapter, a + b) =~= whole);
    }
}

/// Messages are handed on room by room: the messages of two syncs whose rooms
/// come in one are handed on one after the other.
pub proof fn law_messages_are_read_room_by_room(
    adapter: AdapterView,
    first: JsonView,
    second: JsonView,
    both: JsonView,
    a: Seq<(Seq<char>, JsonView)>,
    b: Seq<(Seq<char>, JsonView)>,
)
    requires
        first.field("rooms"@).field("join"@) == JsonView::Object(a),
        second.field("rooms"@).field("join"@) == JsonView::Object(b),
        both.field("rooms"@).field("join"@) == JsonView::Object(a + b),
    ensures
        sync_messages(adapter, both) == sync_messages(adapter, first) + sync_messages(
            adapter,
            second,
        ),
        a.len() == 0 ==> sync_messages(adapter, first).len() == 0,
{
    lemma_rooms_messages_add(adapter, a, b);
}

proof fn lemma_one_room(adapter: AdapterView, entry: (Seq<char>, JsonView))
    ensures
        rooms_messages(adapter, seq![entry]) == room_messages(adapter, entry),
{
    assert(seq![entry].drop_last().len() == 0);
    assert(rooms_messages(adapter, seq![entry].drop_last()).len() == 0);
    assert(rooms_messages(adapter, seq![entry]) =~= room_messages(adapter, entry));
}

/// Messages of a room are handed on event by event: those of two timelines
/// that come in one are handed on one after the other, and a single event
/// brings its message exactly if the adapter takes part in the room.
pub proof fn law_messages_are_read_event_by_event(
    adapter: AdapterView,
    room: Seq<char>,
    first: (JsonView, JsonView),
    second: (JsonView, JsonView),
    both: (JsonView, JsonView),
    a: Seq<JsonView>,
    b: Seq<JsonView>,
)
    requires
        first.0.field("rooms"@).field("join"@) == JsonView::Object(seq![(room, first.1)]),
        second.0.field("rooms"@).field("join"@) == JsonView::Object(seq![(room, second.1)]),
        both.0.field("rooms"@).field("join"@) == JsonView::Object(seq![(room, both.1)]),
        first.1.field("timeline"@).field("events"@) == JsonView::Array(a),
        second.1.field("timeline"@).field("events"@) == JsonView::Array(b),
        both.1.field("timeline"@).field("events"@) == JsonView::Array(a + b),
    ensures
        sync_messages(adapter, both.0) == sync_messages(adapter, first.0) + sync_messages(
            adapter,
            second.0,
        ),
        a.len() == 0 ==> sync_messages(adapter, first.0).len() == 0,
        a.len() == 1 && adapter.allows(room) && incoming(adapter, room, a[0]) is Some
            ==> sync_messages(adapter, first.0) == seq![incoming(adapter, room, a[0])->0],
        a.len() == 1 && !(adapter.allows(room) && incoming(adapter, room, a[0]) is Some)
            ==> sync_messages(adapter, first.0).len() == 0,
{
    lemma_one_room(adapter, (room, first.1));
    lemma_one_room(adapter, (room, second.1));
    lemma_one_room(adapter, (room, both.1));
    lemma_event_messages_add(adapter, room, a, b);
    if !adapter.allows(room) {
        assert(sync_messages(adapter, first.0) + sync_messages(adapter, second.0) =~= seq![]);
    }
    if a.len() == 1 {
        assert(a.drop_last().len() == 0);
        assert(event_messages(adapter, room, a.drop_last()).len() == 0);
        assert(adapter.allows(room) && incoming(adapter, room, a[0]) is Some ==> event_messages(
            adapter,
            room,
            a,
        ) =~= seq![incoming(adapter, room, a[0])->0]);
    }
}

/// A room without a list of events brings no messages.
pub proof fn law_room_without_events_brings_nothing(
    adapter: AdapterView,
    room: Seq<char>,
    details: JsonView,
    body: JsonView,
)
    requires
        body.field("rooms"@).field("join"@) == JsonView::Object(seq![(room, details)]),
        details.field("timeline"@).field("events"@) !is Array,
    ensures
        sync_messages(adapter, body).len() == 0,
{
    lemma_one_room(adapter, (room, details));
}

/// An answered sync moves the adapter to the point that the answer names, and
/// changes nothing else; where it names none, nothing changes.
pub proof fn law_sync_moves_only_the_point(adapter: AdapterView, body: JsonView)
    ensures
        body.field("next_batch"@) matches JsonView::Text(token) ==> synced(adapter, body) == (
        AdapterView { since_token: Some(token), ..adapter }),
        body.field("next_batch"@) !is Text ==> synced(adapter, body) == adapter,
{
}

/// A wait of up to half a minute is followed by one of twice its length, and
/// any longer one by a minute.
pub proof fn law_next_wait_is_twice_as_long(secs: u64)
    ensures
        secs <= 30 ==> doubled(secs) == 2 * secs,
        secs > 30 ==> doubled(secs) == 60,
{
}

/// What follows a sync: a stop ends the loop and changes nothing. A failure
/// waits as long as it was due and doubles the next wait. An answer, readable
/// or not, makes the next wait one second again, and only a readable one is
/// handled: all its invites and messages are, and the adapter moves on.
pub proof fn law_what_follows_a_sync(adapter: AdapterView, secs: u64, body: JsonView)
    ensures
        after_sync(adapter, secs, OutcomeView::Shutdown) == (adapter, secs, StepView::Stop),
        after_sync(adapter, secs, OutcomeView::Unreachable) == after_sync(
            adapter,
            secs,
            OutcomeView::Refused,
        ),
        after_sync(adapter, secs, OutcomeView::Refused) == (
            adapter,
            if secs <= 30 {
                (2 * secs) as u64
            } else {
                60
            },
            StepView::Wait(secs),
        ),
        after_sync(adapter, secs, OutcomeView::Unreadable) == (adapter, 1u64, StepView::Again),
        after_sync(adapter, secs, OutcomeView::Answer(body)) == (
            synced(adapter, body),
            1u64,
            StepView::Handle {
                invites: sync_invites(adapter, body),
                messages: sync_messages(adapter, body),
            },
        ),
{
}

/// Lists of pending messages are seen one by one.
pub proof fn law_pending_messages_are_seen_one_by_one(list: Seq<PendingMessage>)
    ensures
        pendings(list).len() == list.len(),
        forall|i: int| 0 <= i < list.len() ==> #[trigger] pendings(list)[i] == list[i]@,
{
}

} // verus!
