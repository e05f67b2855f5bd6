//! Network session bookkeeping: identifiers, the stream registry, send
//! outcomes, and the initial-sync barriers on both ends of a connection.
use std::collections::HashMap;
use vstd::prelude::*;

verus! {

broadcast use vstd::std_specs::hash::group_hash_axioms;

/// Unique identifier for a client in the network.
#[derive(Debug, Clone, Copy, PartialEq, Eq, Hash, Structural)]
pub struct ClientId(pub u64);

/// Unique identifier for a replicated entity, server-assigned.
#[derive(Debug, Clone, Copy, PartialEq, Eq, Hash, Structural)]
pub struct NetId(pub u64);

/// Server session state: hands out replicated-entity ids.
#[derive(Debug, Clone, Copy, PartialEq, Eq, Structural)]
pub struct Server {
    next_net_id: u64,
}

impl Server {
    /// The id the next call of [`Server::next_net_id`] hands out.
    pub closed spec fn upcoming(self) -> u64 {
        self.next_net_id
    }

    /// A fresh session; ids start at 1.
    pub fn new() -> (r: Server)
        ensures
            r.upcoming() == 1,
    {
        Server { next_net_id: 1 }
    }

    /// Hands out the next id; ids are handed out in increasing order.
    pub fn next_net_id(&mut self) -> (r: NetId)
        requires
            old(self).upcoming() < u64::MAX,
        ensures
            r.0 == old(self).upcoming(),
            final(self).upcoming() == old(self).upcoming() + 1,
    {
        let id = self.next_net_id;
        self.next_net_id = self.next_net_id + 1;
        NetId(id)
    }
}

impl Default for Server {
    fn default() -> (r: Server)
        ensures
            r.upcoming() == 1,
    {
        Server::new()
    }
}

/// The ids a hosting server gives the clients that connect, one after
/// another from 1.
pub struct ClientIds {
    next: u64,
}

impl ClientIds {
    /// The id the next connecting client gets.
    pub closed spec fn upcoming(self) -> u64 {
        self.next
    }

    /// No client has connected yet: the first gets id 1.
    pub fn new() -> (r: ClientIds)
        ensures
            r.upcoming() == 1,
    {
        ClientIds { next: 1 }
    }

    /// Whether every id has been handed out.
    pub fn exhausted(&self) -> (r: bool)
        ensures
            r == (self.upcoming() == u64::MAX),
    {
        self.next == u64::MAX
    }

    /// The id of a client that just connected; the next one gets the id
    /// after it.
    pub fn next_client_id(&mut self) -> (r: ClientId)
        requires
            old(self).upcoming() < u64::MAX,
        ensures
            r.0 == old(self).upcoming(),
            final(self).upcoming() == old(self).upcoming() + 1,
    {
        let id = self.next;
        self.next = self.next + 1;
        ClientId(id)
    }
}

/// The session counter after `k` hand-outs is `k` past where it started.
proof fn lemma_counter_after(states: Seq<Server>, k: int)
    requires
        0 <= k < states.len(),
        forall|i: int|
            0 <= i < states.len() - 1 ==> #[trigger] states[i + 1].upcoming() == states[i].upcoming() + 1,
    ensures
        states[k].upcoming() == states[0].upcoming() + k,
    decreases k,
{
    if k > 0 {
        lemma_counter_after(states, k - 1);
        assert(states[(k - 1) + 1].upcoming() == states[k - 1].upcoming() + 1);
    }
}

/// Ids handed out one after another by a session never repeat: each is
/// one past the one before, and all stay below the session's counter.  The
/// `i`-th id (counting from 0) is the counter at the start plus `i`, so a
/// new session, whose counter is 1, hands out `k` as its `k`-th id.
pub proof fn lemma_net_ids_fresh(states: Seq<Server>, ids: Seq<NetId>)
    requires
        states.len() == ids.len() + 1,
        forall|i: int| 0 <= i < ids.len() ==> (#[trigger] ids[i]).0 == states[i].upcoming(),
        forall|i: int|
            0 <= i < ids.len() ==> #[trigger] states[i + 1].upcoming() == states[i].upcoming() + 1,
    ensures
        forall|i: int, j: int| 0 <= i < j < ids.len() ==> (#[trigger] ids[i]).0 < (#[trigger] ids[j]).0,
        forall|i: int| 0 <= i < ids.len() ==> (#[trigger] ids[i]).0 < states[ids.len() as int].upcoming(),
        forall|i: int| 0 <= i < ids.len() ==> (#[trigger] ids[i]).0 == states[0].upcoming() + i,
        states[0].upcoming() == 1 ==> forall|i: int| 0 <= i < ids.len() ==> (#[trigger] ids[i]).0
            == i + 1,
{
    assert forall|i: int| 0 <= i < ids.len() implies (#[trigger] ids[i]).0 == states[0].upcoming() + i by {
        lemma_counter_after(states, i);
    }
    lemma_counter_after(states, ids.len() as int);
}

/// A new session hands out `k` as its `k`-th id, for every `k`: ids come
/// out as 1, 2, 3, ..., so no two calls on one session give the same id.
/// `states` are the session before each call and after the last, `ids` what
/// the calls returned.
pub proof fn lemma_kth_net_id(states: Seq<Server>, ids: Seq<NetId>, k: int)
    requires
        states.len() == ids.len() + 1,
        states[0].upcoming() == 1,
        forall|i: int| 0 <= i < ids.len() ==> (#[trigger] ids[i]).0 == states[i].upcoming(),
        forall|i: int|
            0 <= i < ids.len() ==> #[trigger] states[i + 1].upcoming() == states[i].upcoming() + 1,
        1 <= k <= ids.len(),
    ensures
        ids[k - 1].0 == k,
        forall|j: int| 0 <= j < ids.len() && j != k - 1 ==> (#[trigger] ids[j]).0 != ids[k - 1].0,
{
    lemma_net_ids_fresh(states, ids);
    assert(ids[k - 1].0 == k);
}

/// Client session state.
#[derive(Debug, Clone, Copy, Default, PartialEq, Eq, Structural)]
pub struct Client {
    pub local_id: Option<ClientId>,
}

/// Direction of a registered stream.
#[derive(Debug, Clone, Copy, PartialEq, Eq, Structural)]
pub enum StreamDirection {
    /// The server opens a unidirectional stream that the client accepts.
    ServerToClient,
    /// The client opens a stream that the server accepts.
    ClientToServer,
}

/// Declaration of a module stream.
#[derive(Debug, Clone, Copy)]
pub struct StreamDef {
    /// Routing tag byte written as the first byte on every new stream.
    pub tag: u8,
    /// Human-readable name.
    pub name: &'static str,
    /// Which end initiates the stream.
    pub direction: StreamDirection,
}

/// Error of a stream send.
#[derive(Debug, Clone, Copy, PartialEq, Eq, Structural)]
pub enum StreamSendError {
    /// Serialisation of the message failed.
    Encode,
    /// The session is not running, the channel is closed, or the stream
    /// goes the other way.
    Closed,
    /// The command buffer is full; the message was dropped.
    BufferFull,
}

/// Error of a control-stream send from the client.
#[derive(Debug, Clone, Copy, PartialEq, Eq, Structural)]
pub enum SendError {
    /// The send buffer is full; the message was dropped.
    BufferFull,
    /// The channel is closed (client disconnected); the message was dropped.
    Closed,
}

/// What handing a frame to a bounded channel did.
#[derive(Debug, Clone, Copy, PartialEq, Eq, Structural)]
pub enum ChannelOutcome {
    /// The frame was queued.
    Sent,
    /// The channel's buffer was full.
    Full,
    /// The receiving end is gone.
    Closed,
    /// No session is running, so there is no channel at all.
    NoSession,
}

/// A stream send is accepted only on a stream of the required direction.
pub fn direction_guard(stream: StreamDirection, required: StreamDirection) -> (r: Result<
    (),
    StreamSendError,
>)
    ensures
        r is Ok <==> stream == required,
        r is Err ==> r == Err::<(), StreamSendError>(StreamSendError::Closed),
{
    if stream == required {
        Ok(())
    } else {
        Err(StreamSendError::Closed)
    }
}

/// What a stream send reports when the channel did `outcome` with the frame.
pub open spec fn send_result_of(outcome: ChannelOutcome) -> Result<(), StreamSendError> {
    match outcome {
        ChannelOutcome::Sent => Ok(()),
        ChannelOutcome::Full => Err(StreamSendError::BufferFull),
        ChannelOutcome::Closed => Err(StreamSendError::Closed),
        ChannelOutcome::NoSession => Err(StreamSendError::Closed),
    }
}

/// The channel that stream senders share with the running session: there
/// is none before the server starts, the session's from each start on, and
/// none again once it stops.  Every sender made from the registry goes
/// through it, so a sender made before a start reaches the session started
/// later.
pub struct SenderLink {
    live: bool,
}

impl SenderLink {
    /// Whether a session's channel is installed.
    pub closed spec fn is_live(self) -> bool {
        self.live
    }

    /// Before the server first starts: no channel.
    pub fn new() -> (r: SenderLink)
        ensures
            !r.is_live(),
    {
        SenderLink { live: false }
    }

    /// The server started: its channel is installed.
    pub fn start(&mut self)
        ensures
            final(self).is_live(),
    {
        self.live = true;
    }

    /// The server stopped: the channel is gone.
    pub fn stop(&mut self)
        ensures
            !final(self).is_live(),
    {
        self.live = false;
    }

    /// Whether a session's channel is installed.
    pub fn live(&self) -> (r: bool)
        ensures
            r == self.is_live(),
    {
        self.live
    }

    /// What a stream send reports: while a session runs, what its channel
    /// did with the frame (`queued`); otherwise `Closed`, whatever `queued`
    /// says.
    pub fn send_result(&self, queued: ChannelOutcome) -> (r: Result<(), StreamSendError>)
        ensures
            r == send_result_of(
                if self.is_live() {
                    queued
                } else {
                    ChannelOutcome::NoSession
                },
            ),
    {
        if self.live {
            stream_send_result(queued)
        } else {
            stream_send_result(ChannelOutcome::NoSession)
        }
    }

    /// What a send on a stream of direction `stream` reports when the
    /// method needs direction `required`: `Closed` on a stream of the other
    /// direction, before anything reaches the channel; otherwise what
    /// `send_result` reports.
    pub fn guarded_send_result(
        &self,
        stream: StreamDirection,
        required: StreamDirection,
        queued: ChannelOutcome,
    ) -> (r: Result<(), StreamSendError>)
        ensures
            stream != required ==> r == Err::<(), StreamSendError>(StreamSendError::Closed),
            stream == required ==> r == send_result_of(
                if self.is_live() {
                    queued
                } else {
                    ChannelOutcome::NoSession
                },
            ),
    {
        match direction_guard(stream, required) {
            Err(e) => Err(e),
            Ok(()) => self.send_result(queued),
        }
    }
}

/// The result of a stream send, from what the channel did with the frame.
pub fn stream_send_result(outcome: ChannelOutcome) -> (r: Result<(), StreamSendError>)
    ensures
        r == send_result_of(outcome),
        outcome == ChannelOutcome::Sent ==> r is Ok,
        outcome == ChannelOutcome::Full ==> r == Err::<(), StreamSendError>(
            StreamSendError::BufferFull,
        ),
        outcome == ChannelOutcome::Closed || outcome == ChannelOutcome::NoSession ==> r == Err::<
            (),
            StreamSendError,
        >(StreamSendError::Closed),
{
    match outcome {
        ChannelOutcome::Sent => Ok(()),
        ChannelOutcome::Full => Err(StreamSendError::BufferFull),
        ChannelOutcome::Closed => Err(StreamSendError::Closed),
        ChannelOutcome::NoSession => Err(StreamSendError::Closed),
    }
}

/// The result of a client control-stream send, from what the channel did.
pub fn client_send_result(outcome: ChannelOutcome) -> (r: Result<(), SendError>)
    ensures
        outcome == ChannelOutcome::Sent ==> r is Ok,
        outcome == ChannelOutcome::Full ==> r == Err::<(), SendError>(SendError::BufferFull),
        outcome == ChannelOutcome::Closed || outcome == ChannelOutcome::NoSession ==> r == Err::<
            (),
            SendError,
        >(SendError::Closed),
{
    match outcome {
        ChannelOutcome::Sent => Ok(()),
        ChannelOutcome::Full => Err(SendError::BufferFull),
        ChannelOutcome::Closed => Err(SendError::Closed),
        ChannelOutcome::NoSession => Err(SendError::Closed),
    }
}

/// Number of streams in `defs` that go in direction `d`.
pub open spec fn count_direction(defs: Seq<StreamDef>, d: StreamDirection) -> nat
    decreases defs.len(),
{
    if defs.len() == 0 {
        0
    } else {
        count_direction(defs.drop_last(), d) + if defs.last().direction == d {
            1nat
        } else {
            0nat
        }
    }
}

/// The tags, in registration order, of the streams in `defs` that go in
/// direction `d`.
pub open spec fn tags_in_direction(defs: Seq<StreamDef>, d: StreamDirection) -> Seq<u8>
    decreases defs.len(),
{
    if defs.len() == 0 {
        Seq::empty()
    } else {
        let rest = tags_in_direction(defs.drop_last(), d);
        if defs.last().direction == d {
            rest.push(defs.last().tag)
        } else {
            rest
        }
    }
}

/// Number of streams of `defs` going in direction `d`, failing when it does
/// not fit a `u8`.
pub fn count_streams(defs: &Vec<StreamDef>, d: StreamDirection) -> (r: Option<u8>)
    ensures
        count_direction(defs@, d) <= 255 ==> r == Some(count_direction(defs@, d) as u8),
        count_direction(defs@, d) > 255 ==> r is None,
{
    let mut count: usize = 0;
    let mut i: usize = 0;
    while i < defs.len()
        invariant
            i <= defs.len(),
            count == count_direction(defs@.take(i as int), d),
            count <= i,
        decreases defs.len() - i,
    {
        assert(defs@.take(i + 1).drop_last() =~= defs@.take(i as int));
        if defs[i].direction == d {
            count = count + 1;
        }
        i = i + 1;
    }
    assert(defs@.take(defs.len() as int) =~= defs@);
    if count > 255 {
        None
    } else {
        Some(count as u8)
    }
}

/// Tags of the streams of `defs` going in direction `d`, in registration
/// order.
pub fn stream_tags(defs: &Vec<StreamDef>, d: StreamDirection) -> (r: Vec<u8>)
    ensures
        r@ == tags_in_direction(defs@, d),
{
    let mut out: Vec<u8> = Vec::new();
    let mut i: usize = 0;
    while i < defs.len()
        invariant
            i <= defs.len(),
            out@ == tags_in_direction(defs@.take(i as int), d),
        decreases defs.len() - i,
    {
        assert(defs@.take(i + 1).drop_last() =~= defs@.take(i as int));
        if defs[i].direction == d {
            out.push(defs[i].tag);
        }
        i = i + 1;
    }
    assert(defs@.take(defs.len() as int) =~= defs@);
    out
}

/// Registry of module streams, and the stream-ready sentinels that the
/// client defers to the next frame.
pub struct StreamRegistry {
    entries: StreamList,
    deferred_ready: Vec<u8>,
}

/// The registered streams in registration order: no tag is 0 and no tag
/// occurs twice.
struct StreamList {
    defs: Vec<StreamDef>,
}

/// No tag of `defs` is 0, and no two share a tag.
pub open spec fn tags_unique(defs: Seq<StreamDef>) -> bool {
    &&& forall|i: int| 0 <= i < defs.len() ==> #[trigger] defs[i].tag != 0
    &&& forall|i: int, j: int|
        0 <= i < j < defs.len() ==> #[trigger] defs[i].tag != #[trigger] defs[j].tag
}

impl StreamList {
    #[verifier::type_invariant]
    spec fn tags_ok(self) -> bool {
        tags_unique(self.defs@)
    }
}

impl StreamRegistry {
    /// The registered streams, in registration order.
    pub closed spec fn defs(self) -> Seq<StreamDef> {
        self.entries.defs@
    }

    /// The deferred stream-ready tags, in arrival order.
    pub closed spec fn deferred(self) -> Seq<u8> {
        self.deferred_ready@
    }

    /// No two registered streams share a tag, and tag 0 is never registered;
    /// every registry keeps this.
    pub open spec fn wf(self) -> bool {
        tags_unique(self.defs())
    }

    pub open spec fn has_tag(self, tag: u8) -> bool {
        exists|i: int| 0 <= i < self.defs().len() && #[trigger] self.defs()[i].tag == tag
    }

    /// An empty registry.
    pub fn new() -> (r: StreamRegistry)
        ensures
            r.defs() == Seq::<StreamDef>::empty(),
            r.deferred() == Seq::<u8>::empty(),
            r.wf(),
    {
        StreamRegistry { entries: StreamList { defs: Vec::new() }, deferred_ready: Vec::new() }
    }

    /// Whether a stream with this tag is registered.
    pub fn is_registered(&self, tag: u8) -> (r: bool)
        ensures
            r == self.has_tag(tag),
    {
        let mut i: usize = 0;
        while i < self.entries.defs.len()
            invariant
                i <= self.entries.defs.len(),
                forall|j: int| 0 <= j < i ==> (#[trigger] self.entries.defs@[j]).tag != tag,
            decreases self.entries.defs.len() - i,
        {
            if self.entries.defs[i].tag == tag {
                return true;
            }
            i = i + 1;
        }
        false
    }

    /// Registers a stream.  Tag 0 is reserved for the control stream and a
    /// tag can be registered once.
    pub fn register(&mut self, def: StreamDef)
        requires
            def.tag != 0,
            !old(self).has_tag(def.tag),
        ensures
            final(self).defs() == old(self).defs().push(def),
            final(self).deferred() == old(self).deferred(),
            final(self).wf(),
    {
        proof {
            use_type_invariant(&self.entries);
        }
        let mut list = StreamList { defs: Vec::new() };
        std::mem::swap(&mut list, &mut self.entries);
        let StreamList { defs } = list;
        let mut defs = defs;
        let ghost before = defs@;
        defs.push(def);
        proof {
            assert forall|i: int| 0 <= i < before.len() implies before[i].tag != def.tag by {
                if before[i].tag == def.tag {
                    assert(old(self).defs()[i].tag == def.tag);
                }
            }
            assert forall|i: int, j: int| 0 <= i < j < defs@.len() implies #[trigger] defs@[i].tag
                != #[trigger] defs@[j].tag by {
                if j < before.len() {
                    assert(defs@[i] == before[i] && defs@[j] == before[j]);
                } else {
                    assert(defs@[i] == before[i]);
                }
            }
        }
        self.entries = StreamList { defs };
        proof {
            use_type_invariant(&self.entries);
        }
    }

    /// Number of registered server-to-client streams; sent as the number of
    /// streams to expect in the welcome.
    pub fn server_to_client_count(&self) -> (r: u8)
        requires
            count_direction(self.defs(), StreamDirection::ServerToClient) <= 255,
        ensures
            r == count_direction(self.defs(), StreamDirection::ServerToClient),
    {
        match count_streams(&self.entries.defs, StreamDirection::ServerToClient) {
            Some(c) => c,
            None => 0,
        }
    }

    /// The registered stream definitions, for the server task.
    pub fn stream_defs(&self) -> (r: Vec<StreamDef>)
        ensures
            r@ == self.defs(),
    {
        let mut out: Vec<StreamDef> = Vec::new();
        let mut i: usize = 0;
        while i < self.entries.defs.len()
            invariant
                i <= self.entries.defs.len(),
                out@ == self.entries.defs@.take(i as int),
            decreases self.entries.defs.len() - i,
        {
            out.push(self.entries.defs[i]);
            i = i + 1;
            assert(out@ =~= self.entries.defs@.take(i as int));
        }
        assert(self.entries.defs@.take(self.entries.defs.len() as int) =~= self.entries.defs@);
        out
    }

    /// Tags of the client-to-server streams, in registration order; the
    /// client opens one stream for each when it connects.
    pub fn client_to_server_tags(&self) -> (r: Vec<u8>)
        ensures
            r@ == tags_in_direction(self.defs(), StreamDirection::ClientToServer),
    {
        let mut out: Vec<u8> = Vec::new();
        let mut i: usize = 0;
        while i < self.entries.defs.len()
            invariant
                i <= self.entries.defs.len(),
                out@ == tags_in_direction(self.entries.defs@.take(i as int), StreamDirection::ClientToServer),
            decreases self.entries.defs.len() - i,
        {
            assert(self.entries.defs@.take(i + 1).drop_last() =~= self.entries.defs@.take(i as int));
            if self.entries.defs[i].direction == StreamDirection::ClientToServer {
                out.push(self.entries.defs[i].tag);
            }
            i = i + 1;
        }
        assert(self.entries.defs@.take(self.entries.defs.len() as int) =~= self.entries.defs@);
        out
    }

    /// Buffers a stream-ready tag to be emitted next frame.
    pub fn defer_stream_ready(&mut self, tag: u8)
        ensures
            final(self).deferred() == old(self).deferred().push(tag),
            final(self).defs() == old(self).defs(),
    {
        self.deferred_ready.push(tag);
    }

    /// Takes all deferred stream-ready tags, leaving none behind.
    pub fn take_deferred_ready(&mut self) -> (r: Vec<u8>)
        ensures
            r@ == old(self).deferred(),
            final(self).deferred() == Seq::<u8>::empty(),
            final(self).defs() == old(self).defs(),
    {
        let mut taken: Vec<u8> = Vec::new();
        std::mem::swap(&mut taken, &mut self.deferred_ready);
        taken
    }
}

impl Default for StreamRegistry {
    fn default() -> (r: StreamRegistry)
        ensures
            r.defs() == Seq::<StreamDef>::empty(),
            r.deferred() == Seq::<u8>::empty(),
    {
        StreamRegistry::new()
    }
}


/// The client's initial-sync barrier: the server's welcome says how many
/// module streams to expect; sync is complete once the server said its
/// initial state is done and the number of ready sentinels received equals
/// the number of streams expected.
#[derive(Debug, Clone, Copy, Default, PartialEq, Eq, Structural)]
pub struct PendingSync {
    pub expected_streams: u8,
    pub streams_ready: u8,
    pub initial_state_done: bool,
}

impl PendingSync {
    pub open spec fn complete(self) -> bool {
        self.initial_state_done && self.streams_ready == self.expected_streams
    }

    /// Whether all stream sentinels and the initial-state message arrived.
    pub fn is_complete(&self) -> (r: bool)
        ensures
            r == self.complete(),
    {
        self.initial_state_done && self.streams_ready == self.expected_streams
    }

    /// Back to the state of a fresh connection.
    pub fn reset(&mut self)
        ensures
            final(self).expected_streams == 0,
            final(self).streams_ready == 0,
            !final(self).initial_state_done,
    {
        *self = PendingSync { expected_streams: 0, streams_ready: 0, initial_state_done: false };
    }
}

/// Where the application state machine stands, as far as orchestration
/// cares.
#[derive(Debug, Clone, Copy, PartialEq, Eq, Structural)]
pub enum StatePhase {
    Loading,
    InGame,
    Disconnected,
    /// Any other state (menus, editor).
    Other,
}

/// A state change that orchestration asks for.
#[derive(Debug, Clone, Copy, PartialEq, Eq, Structural)]
pub enum StateTarget {
    Loading,
    InGame,
    Disconnected,
}

/// The client-side events that orchestration reacts to.
#[derive(Debug, Clone, PartialEq, Eq)]
pub enum SyncEvent {
    Connected,
    Disconnected,
    Error,
    StreamFrame { tag: u8 },
    StreamReady { tag: u8 },
    Welcome { client_id: ClientId, expected_streams: u8 },
    InitialStateDone,
    Shutdown,
}

/// What orchestration does about one client event.
#[derive(Debug, Clone, Copy, PartialEq, Eq, Structural)]
pub struct SyncReaction {
    /// The state to switch to, if any.
    pub next_state: Option<StateTarget>,
    /// Whether to ask the network layer to disconnect.
    pub disconnect: bool,
}

/// Enter the game from `Loading` once the barrier is complete.
pub open spec fn enter_if_ready(sync: PendingSync, phase: StatePhase) -> Option<StateTarget> {
    if sync.complete() && phase == StatePhase::Loading {
        Some(StateTarget::InGame)
    } else {
        None
    }
}

/// Whether initial sync is complete while loading: then the game is entered.
pub fn try_enter_in_game(sync: &PendingSync, phase: StatePhase) -> (r: Option<StateTarget>)
    ensures
        r == enter_if_ready(*sync, phase),
{
    if sync.is_complete() && phase == StatePhase::Loading {
        Some(StateTarget::InGame)
    } else {
        None
    }
}

/// Reacts to one client event: updates the barrier and the local client id
/// and says which state to enter.  Connecting resets the barrier;
/// disconnects, errors and a server shutdown lead to `Disconnected` (a
/// shutdown also asks to disconnect); the welcome, each stream sentinel and
/// the initial-state message update the barrier and enter the game once it
/// is complete while loading.
pub fn handle_client_event(
    sync: &mut PendingSync,
    client: &mut Client,
    phase: StatePhase,
    event: &SyncEvent,
) -> (r: SyncReaction)
    requires
        event matches SyncEvent::StreamReady { .. } ==> old(sync).streams_ready < 255,
    ensures
        match *event {
            SyncEvent::Connected => {
                &&& *final(sync) == PendingSync { expected_streams: 0, streams_ready: 0, initial_state_done: false }
                &&& *final(client) == *old(client)
                &&& r == SyncReaction { next_state: None, disconnect: false }
            },
            SyncEvent::Disconnected | SyncEvent::Error => {
                &&& *final(sync) == *old(sync)
                &&& *final(client) == *old(client)
                &&& r == SyncReaction { next_state: Some(StateTarget::Disconnected), disconnect: false }
            },
            SyncEvent::StreamFrame { .. } => {
                &&& *final(sync) == *old(sync)
                &&& *final(client) == *old(client)
                &&& r == SyncReaction { next_state: None, disconnect: false }
            },
            SyncEvent::StreamReady { .. } => {
                &&& *final(sync) == PendingSync { streams_ready: (old(sync).streams_ready + 1) as u8, ..*old(sync) }
                &&& *final(client) == *old(client)
                &&& r == SyncReaction { next_state: enter_if_ready(*final(sync), phase), disconnect: false }
            },
            SyncEvent::Welcome { client_id, expected_streams } => {
                &&& *final(sync) == PendingSync { expected_streams, ..*old(sync) }
                &&& final(client).local_id == Some(client_id)
                &&& r == SyncReaction { next_state: enter_if_ready(*final(sync), phase), disconnect: false }
            },
            SyncEvent::InitialStateDone => {
                &&& *final(sync) == PendingSync { initial_state_done: true, ..*old(sync) }
                &&& *final(client) == *old(client)
                &&& r == SyncReaction { next_state: enter_if_ready(*final(sync), phase), disconnect: false }
            },
            SyncEvent::Shutdown => {
                &&& *final(sync) == *old(sync)
                &&& *final(client) == *old(client)
                &&& r == SyncReaction { next_state: Some(StateTarget::Disconnected), disconnect: true }
            },
        },
{
    match event {
        SyncEvent::Connected => {
            sync.reset();
            SyncReaction { next_state: None, disconnect: false }
        },
        SyncEvent::Disconnected | SyncEvent::Error => {
            SyncReaction { next_state: Some(StateTarget::Disconnected), disconnect: false }
        },
        SyncEvent::StreamFrame { .. } => SyncReaction { next_state: None, disconnect: false },
        SyncEvent::StreamReady { .. } => {
            sync.streams_ready = sync.streams_ready + 1;
            SyncReaction { next_state: try_enter_in_game(sync, phase), disconnect: false }
        },
        SyncEvent::Welcome { client_id, expected_streams } => {
            client.local_id = Some(*client_id);
            sync.expected_streams = *expected_streams;
            SyncReaction { next_state: try_enter_in_game(sync, phase), disconnect: false }
        },
        SyncEvent::InitialStateDone => {
            sync.initial_state_done = true;
            SyncReaction { next_state: try_enter_in_game(sync, phase), disconnect: false }
        },
        SyncEvent::Shutdown => SyncReaction {
            next_state: Some(StateTarget::Disconnected),
            disconnect: true,
        },
    }
}

/// Where hosting or connecting leads: a dedicated (headless) server goes
/// straight into the game; otherwise the client waits in `Loading` unless it
/// is already loading or in the game.
pub fn transition_to_loading(phase: StatePhase, headless: bool) -> (r: Option<StateTarget>)
    ensures
        headless ==> r == if phase != StatePhase::InGame {
            Some(StateTarget::InGame)
        } else {
            None::<StateTarget>
        },
        !headless ==> r == if phase != StatePhase::Loading && phase != StatePhase::InGame {
            Some(StateTarget::Loading)
        } else {
            None::<StateTarget>
        },
{
    if headless {
        if phase != StatePhase::InGame {
            Some(StateTarget::InGame)
        } else {
            None
        }
    } else if phase != StatePhase::Loading && phase != StatePhase::InGame {
        Some(StateTarget::Loading)
    } else {
        None
    }
}

/// Server-side initial-sync progress: per client, how many module streams
/// reported their initial burst complete.
pub struct ClientInitSyncState {
    ready_counts: HashMap<u64, u8>,
}

impl ClientInitSyncState {
    /// Ready counts by client id.
    pub closed spec fn counts(self) -> Map<u64, u8> {
        self.ready_counts@
    }

    /// Stored counts stay below the `u8` limit.
    pub open spec fn wf(self) -> bool {
        forall|c: u64| #[trigger] self.counts().contains_key(c) ==> self.counts()[c] < 255
    }

    pub fn new() -> (r: ClientInitSyncState)
        ensures
            r.counts() == Map::<u64, u8>::empty(),
            r.wf(),
    {
        ClientInitSyncState { ready_counts: HashMap::new() }
    }

    /// A client said hello: its count starts at zero.
    pub fn on_hello(&mut self, client: ClientId)
        requires
            old(self).wf(),
        ensures
            final(self).counts() == old(self).counts().insert(client.0, 0),
            final(self).wf(),
    {
        self.ready_counts.insert(client.0, 0);
        proof {
            assert forall|c: u64| #[trigger] self.counts().contains_key(c) implies self.counts()[c]
                < 255 by {
                if c != client.0 {
                    assert(old(self).counts().contains_key(c));
                }
            }
        }
    }

    /// A client left: its progress is forgotten.
    pub fn on_disconnect(&mut self, client: ClientId)
        requires
            old(self).wf(),
        ensures
            final(self).counts() == old(self).counts().remove(client.0),
            final(self).wf(),
    {
        self.ready_counts.remove(&client.0);
        proof {
            assert forall|c: u64| #[trigger] self.counts().contains_key(c) implies self.counts()[c]
                < 255 by {
                assert(old(self).counts().contains_key(c));
            }
        }
    }

    /// One module stream reported ready for `client`.  Returns whether the
    /// initial-state-done message is now owed to the client: that is when its
    /// count reaches `expected`, and then its entry is removed.
    pub fn on_module_ready(&mut self, client: ClientId, expected: u8) -> (send_done: bool)
        requires
            old(self).wf(),
        ensures
            ({
                let before = if old(self).counts().contains_key(client.0) {
                    old(self).counts()[client.0] as int
                } else {
                    0
                };
                &&& send_done == (before + 1 >= expected)
                &&& send_done ==> final(self).counts() == old(self).counts().remove(client.0)
                &&& !send_done ==> final(self).counts() == old(self).counts().insert(
                    client.0,
                    (before + 1) as u8,
                )
            }),
            final(self).wf(),
    {
        let before: u8 = match self.ready_counts.get(&client.0) {
            Some(c) => *c,
            None => 0,
        };
        proof {
            if self.counts().contains_key(client.0) {
                assert(self.counts()[client.0] < 255);
            }
        }
        let count = before + 1;
        if count >= expected {
            self.ready_counts.remove(&client.0);
            proof {
                assert forall|c: u64| #[trigger] self.counts().contains_key(c) implies self.counts()[c]
                    < 255 by {
                    assert(old(self).counts().contains_key(c));
                }
            }
            true
        } else {
            self.ready_counts.insert(client.0, count);
            proof {
                assert forall|c: u64| #[trigger] self.counts().contains_key(c) implies self.counts()[c]
                    < 255 by {
                    if c != client.0 {
                        assert(old(self).counts().contains_key(c));
                    }
                }
            }
            false
        }
    }
}

/// Most network events turned into game messages in one frame; the rest
/// wait for the next frame.
pub const MAX_NET_EVENTS_PER_FRAME: usize = 100;

/// The kind of an event from the client task.
#[derive(Debug, Clone, Copy, PartialEq, Eq, Structural)]
pub enum ClientEventKind {
    Connected,
    Disconnected,
    ServerMessage,
    StreamFrame { tag: u8 },
    StreamReady { tag: u8 },
    Error,
}

/// What the client side does with one event from its task.
#[derive(Debug, Clone, Copy, PartialEq, Eq, Structural)]
pub struct ClientEventRoute {
    /// Emit it as a game message this frame.
    pub emit: bool,
    /// Hand its data to the reader of this module stream.
    pub route_frame: Option<u8>,
    /// Drop the client session and its sender, and close the client-side
    /// stream channels.
    pub end_session: bool,
}

/// The route of one client event: a stream frame goes to its module's
/// reader and is emitted too; a ready sentinel is held back to the next
/// frame; a disconnection ends the session and is emitted.
pub open spec fn client_route(k: ClientEventKind) -> ClientEventRoute {
    match k {
        ClientEventKind::StreamFrame { tag } => ClientEventRoute {
            emit: true,
            route_frame: Some(tag),
            end_session: false,
        },
        ClientEventKind::StreamReady { .. } => ClientEventRoute {
            emit: false,
            route_frame: None,
            end_session: false,
        },
        ClientEventKind::Disconnected => ClientEventRoute {
            emit: true,
            route_frame: None,
            end_session: true,
        },
        _ => ClientEventRoute { emit: true, route_frame: None, end_session: false },
    }
}

/// The tags of the ready sentinels among `ks`, in order.
pub open spec fn ready_tags(ks: Seq<ClientEventKind>) -> Seq<u8>
    decreases ks.len(),
{
    if ks.len() == 0 {
        Seq::empty()
    } else {
        let rest = ready_tags(ks.drop_last());
        match ks.last() {
            ClientEventKind::StreamReady { tag } => rest.push(tag),
            _ => rest,
        }
    }
}

/// The number of events handled in a frame when `available` are waiting.
pub open spec fn frame_quota(available: nat) -> nat {
    if available < MAX_NET_EVENTS_PER_FRAME {
        available
    } else {
        MAX_NET_EVENTS_PER_FRAME as nat
    }
}

/// One frame's worth of client events.
pub struct ClientDrain {
    /// Ready sentinels held back last frame, to emit first.
    pub ready_now: Vec<u8>,
    /// The route of each event handled this frame, in order; the rest stay
    /// queued.
    pub routes: Vec<ClientEventRoute>,
}

impl StreamRegistry {
    /// Drains one frame of client events: first the ready sentinels held
    /// back last frame, then up to the per-frame cap of queued events, whose
    /// ready sentinels are held back in turn.
    pub fn drain_client_events(&mut self, queued: &Vec<ClientEventKind>) -> (r: ClientDrain)
        ensures
            r.ready_now@ == old(self).deferred(),
            r.routes@.len() == frame_quota(queued@.len()),
            forall|i: int|
                0 <= i < r.routes@.len() ==> #[trigger] r.routes@[i] == client_route(queued@[i]),
            final(self).deferred() == ready_tags(queued@.take(r.routes@.len() as int)),
            final(self).defs() == old(self).defs(),
    {
        let ready_now = self.take_deferred_ready();
        let n: usize = if queued.len() < MAX_NET_EVENTS_PER_FRAME {
            queued.len()
        } else {
            MAX_NET_EVENTS_PER_FRAME
        };
        let mut routes: Vec<ClientEventRoute> = Vec::new();
        let mut i: usize = 0;
        while i < n
            invariant
                n <= queued.len(),
                i <= n,
                routes@.len() == i,
                forall|j: int| 0 <= j < i ==> #[trigger] routes@[j] == client_route(queued@[j]),
                self.deferred() == ready_tags(queued@.take(i as int)),
                self.defs() == old(self).defs(),
            decreases n - i,
        {
            let k = queued[i];
            let route = match k {
                ClientEventKind::StreamFrame { tag } => ClientEventRoute {
                    emit: true,
                    route_frame: Some(tag),
                    end_session: false,
                },
                ClientEventKind::StreamReady { tag } => {
                    self.defer_stream_ready(tag);
                    ClientEventRoute { emit: false, route_frame: None, end_session: false }
                },
                ClientEventKind::Disconnected => ClientEventRoute {
                    emit: true,
                    route_frame: None,
                    end_session: true,
                },
                _ => ClientEventRoute { emit: true, route_frame: None, end_session: false },
            };
            routes.push(route);
            proof {
                let t = queued@.take(i as int + 1);
                assert(t.drop_last() =~= queued@.take(i as int));
                assert(t.last() == queued@[i as int]);
            }
            i = i + 1;
        }
        ClientDrain { ready_now, routes }
    }
}

/// The tag of every ready sentinel among `ks` is among `ready_tags(ks)`.
proof fn lemma_ready_tags_hold(ks: Seq<ClientEventKind>, i: int)
    requires
        0 <= i < ks.len(),
        ks[i] is StreamReady,
    ensures
        ready_tags(ks).contains(ks[i]->StreamReady_tag),
    decreases ks.len(),
{
    let rest = ready_tags(ks.drop_last());
    if i == ks.len() - 1 {
        assert(rest.push(ks[i]->StreamReady_tag).last() == ks[i]->StreamReady_tag);
    } else {
        assert(ks.drop_last()[i] == ks[i]);
        lemma_ready_tags_hold(ks.drop_last(), i);
        let j = choose|j: int| 0 <= j < rest.len() && rest[j] == ks[i]->StreamReady_tag;
        match ks.last() {
            ClientEventKind::StreamReady { tag } => {
                assert(rest.push(tag)[j] == rest[j]);
            },
            _ => {},
        }
    }
}

/// Within a frame, data frames go out at once and ready sentinels are held
/// back: every module-stream frame handled is emitted and routed to its
/// stream's reader in that frame, while every ready sentinel handled is not
/// emitted and is among the tags handed out at the start of the next frame;
/// so a stream's data always reaches the game before its ready sentinel.
pub proof fn lemma_ready_held_until_next_frame(
    queued: Seq<ClientEventKind>,
    routes: Seq<ClientEventRoute>,
    held: Seq<u8>,
)
    requires
        routes.len() <= queued.len(),
        forall|i: int| 0 <= i < routes.len() ==> #[trigger] routes[i] == client_route(queued[i]),
        held == ready_tags(queued.take(routes.len() as int)),
    ensures
        forall|i: int|
            0 <= i < routes.len() ==> match #[trigger] queued[i] {
                ClientEventKind::StreamFrame { tag } => routes[i].emit && routes[i].route_frame == Some(
                    tag,
                ),
                ClientEventKind::StreamReady { tag } => !routes[i].emit && held.contains(tag),
                _ => true,
            },
{
    let n = routes.len() as int;
    assert forall|i: int| 0 <= i < n implies match #[trigger] queued[i] {
        ClientEventKind::StreamFrame { tag } => routes[i].emit && routes[i].route_frame == Some(tag),
        ClientEventKind::StreamReady { tag } => !routes[i].emit && held.contains(tag),
        _ => true,
    } by {
        assert(routes[i] == client_route(queued[i]));
        if queued[i] is StreamReady {
            assert(queued.take(n)[i] == queued[i]);
            lemma_ready_tags_hold(queued.take(n), i);
        }
    }
}

/// The kind of an event from the server task.
#[derive(Debug, Clone, Copy, PartialEq, Eq, Structural)]
pub enum ServerEventKind {
    HostingStarted,
    HostingStopped,
    ClientConnected,
    ClientMessageReceived,
    ClientDisconnected,
    ClientStreamFrame { from: ClientId, tag: u8 },
    Error,
}

/// The client and the stream a frame came from.
#[derive(Debug, Clone, Copy, PartialEq, Eq, Structural)]
pub struct FrameOrigin {
    pub from: ClientId,
    pub tag: u8,
}

/// What the server side does with one event from its task.
#[derive(Debug, Clone, Copy, PartialEq, Eq, Structural)]
pub struct ServerEventRoute {
    /// Emit it as a game message this frame.
    pub emit: bool,
    /// Hand its data to the reader of this client-to-server stream.
    pub route_frame: Option<FrameOrigin>,
    /// Drop the server session and its sender, and close the server-side
    /// stream channels.
    pub end_session: bool,
}

/// The route of one server event: a client stream frame goes to its
/// module's reader only; hosting stopping ends the session and is emitted.
pub open spec fn server_route(k: ServerEventKind) -> ServerEventRoute {
    match k {
        ServerEventKind::ClientStreamFrame { from, tag } => ServerEventRoute {
            emit: false,
            route_frame: Some(FrameOrigin { from, tag }),
            end_session: false,
        },
        ServerEventKind::HostingStopped => ServerEventRoute {
            emit: true,
            route_frame: None,
            end_session: true,
        },
        _ => ServerEventRoute { emit: true, route_frame: None, end_session: false },
    }
}

/// Drains one frame of server events: up to the per-frame cap, each with
/// its route; the rest stay queued.
pub fn drain_server_events(queued: &Vec<ServerEventKind>) -> (r: Vec<ServerEventRoute>)
    ensures
        r@.len() == frame_quota(queued@.len()),
        forall|i: int| 0 <= i < r@.len() ==> #[trigger] r@[i] == server_route(queued@[i]),
{
    let n: usize = if queued.len() < MAX_NET_EVENTS_PER_FRAME {
        queued.len()
    } else {
        MAX_NET_EVENTS_PER_FRAME
    };
    let mut routes: Vec<ServerEventRoute> = Vec::new();
    let mut i: usize = 0;
    while i < n
        invariant
            n <= queued.len(),
            i <= n,
            routes@.len() == i,
            forall|j: int| 0 <= j < i ==> #[trigger] routes@[j] == server_route(queued@[j]),
        decreases n - i,
    {
        let route = match queued[i] {
            ServerEventKind::ClientStreamFrame { from, tag } => ServerEventRoute {
                emit: false,
                route_frame: Some(FrameOrigin { from, tag }),
                end_session: false,
            },
            ServerEventKind::HostingStopped => ServerEventRoute {
                emit: true,
                route_frame: None,
                end_session: true,
            },
            _ => ServerEventRoute { emit: true, route_frame: None, end_session: false },
        };
        routes.push(route);
        i = i + 1;
    }
    routes
}

/// Clients that joined and still wait for a module's initial snapshot,
/// because the stream sender or the data to send did not exist yet.
pub struct PendingSyncs {
    waiting: Vec<ClientId>,
}

impl PendingSyncs {
    /// The waiting clients, in join order.
    pub closed spec fn clients(&self) -> Seq<ClientId> {
        self.waiting@
    }

    pub fn new() -> (r: PendingSyncs)
        ensures
            r.clients() == Seq::<ClientId>::empty(),
    {
        PendingSyncs { waiting: Vec::new() }
    }

    /// Queues the clients that joined this frame, then hands out every
    /// waiting client, in join order, when both the stream sender and the
    /// data exist; otherwise keeps them all waiting for a later frame.
    pub fn take_ready(&mut self, joined: &Vec<ClientId>, sender_ready: bool, data_ready: bool) -> (r: Vec<
        ClientId,
    >)
        ensures
            sender_ready && data_ready ==> r@ == old(self).clients() + joined@ && final(self).clients()
                == Seq::<ClientId>::empty(),
            !(sender_ready && data_ready) ==> r@ == Seq::<ClientId>::empty() && final(self).clients()
                == old(self).clients() + joined@,
    {
        let ghost before = self.waiting@;
        let mut i: usize = 0;
        while i < joined.len()
            invariant
                i <= joined@.len(),
                self.waiting@ == before + joined@.take(i as int),
            decreases joined@.len() - i,
        {
            self.waiting.push(joined[i]);
            assert(before + joined@.take(i as int + 1) =~= (before + joined@.take(i as int)).push(
                joined@[i as int],
            ));
            i = i + 1;
        }
        assert(joined@.take(i as int) =~= joined@);
        if sender_ready && data_ready {
            let mut taken: Vec<ClientId> = Vec::new();
            std::mem::swap(&mut taken, &mut self.waiting);
            taken
        } else {
            Vec::new()
        }
    }
}

/// A joining client counts as served by a module once both its snapshot
/// and the ready sentinel went out.
pub fn module_ready_after(snapshot_sent: bool, ready_sent: bool) -> (r: bool)
    ensures
        r == (snapshot_sent && ready_sent),
{
    snapshot_sent && ready_sent
}

} // verus!
