use geostationary::network::{
    client_send_result, direction_guard, drain_server_events, handle_client_event,
    module_ready_after, stream_send_result, transition_to_loading, try_enter_in_game,
    ChannelOutcome, Client, ClientEventKind, ClientEventRoute, ClientId, ClientInitSyncState,
    FrameOrigin, NetId, PendingSync, PendingSyncs, SendError, SenderLink, Server, ServerEventKind,
    ServerEventRoute, StatePhase, StateTarget, StreamDef, StreamDirection, StreamRegistry,
    StreamSendError, SyncEvent, MAX_NET_EVENTS_PER_FRAME,
};
use geostationary::session::ServerCommand;
use geostationary::session::{
    accept_stream_tag, classify_stream_frame, client_failure_reason, conn_advance,
    conn_start_step, keep_task, plan_net_command, server_failure_message, session_advance,
    CloseReason, ConnAction, ConnEvent, ConnPhase, ControlFrame, NetCommandKind,
    NetCommandPlan, ServerMessage, SessionAction, SessionEvent, SessionPhase, StreamFrameKind,
};

fn def(tag: u8, name: &'static str, direction: StreamDirection) -> StreamDef {
    StreamDef {
        tag,
        name,
        direction,
    }
}

// ── stream registry ────────────────────────────────────────────────────

#[test]
fn test_stream_registry_register_and_count() {
    let mut registry = StreamRegistry::default();
    assert_eq!(registry.server_to_client_count(), 0);

    registry.register(def(1, "tiles", StreamDirection::ServerToClient));
    assert_eq!(registry.server_to_client_count(), 1);

    registry.register(def(2, "atmos", StreamDirection::ServerToClient));
    assert_eq!(registry.server_to_client_count(), 2);
}

#[test]
fn test_stream_registry_client_to_server_register_and_count() {
    let mut registry = StreamRegistry::default();
    assert_eq!(registry.server_to_client_count(), 0);

    registry.register(def(4, "tile-input", StreamDirection::ClientToServer));
    // Client-to-server streams do not count toward the welcome's number.
    assert_eq!(registry.server_to_client_count(), 0);

    registry.register(def(1, "tiles", StreamDirection::ServerToClient));
    assert_eq!(registry.server_to_client_count(), 1);
}

#[test]
fn test_stream_registry_prepare_and_stop() {
    let mut registry = StreamRegistry::default();
    registry.register(def(3, "things", StreamDirection::ServerToClient));

    // The server task gets every registered definition.
    let defs = registry.stream_defs();
    assert_eq!(defs.len(), 1);
    assert_eq!(defs[0].tag, 3);

    // While the session runs a ready sentinel is sent; once it stops the
    // channel is gone and the send reports Closed.
    assert_eq!(stream_send_result(ChannelOutcome::Sent), Ok(()));
    assert_eq!(
        stream_send_result(ChannelOutcome::NoSession),
        Err(StreamSendError::Closed)
    );
}

#[test]
fn test_prepare_client_connect_only_client_to_server() {
    let mut registry = StreamRegistry::default();
    registry.register(def(1, "tiles", StreamDirection::ServerToClient));
    registry.register(def(4, "tile-input", StreamDirection::ClientToServer));

    let tags = registry.client_to_server_tags();
    assert_eq!(tags.len(), 1);
    assert_eq!(tags[0], 4);
}

#[test]
fn test_stream_sender_client_send_and_disconnect() {
    let mut registry = StreamRegistry::default();
    registry.register(def(4, "tile-input", StreamDirection::ClientToServer));

    let tags = registry.client_to_server_tags();
    assert_eq!(tags.len(), 1);
    assert_eq!(tags[0], 4);

    assert_eq!(
        direction_guard(StreamDirection::ClientToServer, StreamDirection::ClientToServer),
        Ok(())
    );
    assert_eq!(stream_send_result(ChannelOutcome::Sent), Ok(()));
    assert_eq!(
        stream_send_result(ChannelOutcome::Closed),
        Err(StreamSendError::Closed)
    );
}

#[test]
fn test_stream_sender_closed_when_no_server() {
    assert_eq!(
        stream_send_result(ChannelOutcome::NoSession),
        Err(StreamSendError::Closed)
    );
}

#[test]
fn test_stream_sender_client_closed_when_not_connected() {
    assert_eq!(
        direction_guard(StreamDirection::ClientToServer, StreamDirection::ClientToServer),
        Ok(())
    );
    assert_eq!(
        stream_send_result(ChannelOutcome::NoSession),
        Err(StreamSendError::Closed)
    );
}

#[test]
fn test_stream_sender_direction_guard_server_methods_on_client_to_server() {
    // Server-only sends on a client-to-server stream, with a running
    // session whose channel would take each frame.
    let mut link = SenderLink::new();
    link.start();
    let stream = StreamDirection::ClientToServer;
    let server_only = StreamDirection::ServerToClient;
    // The ready sentinel for one client.
    assert_eq!(
        link.guarded_send_result(stream, server_only, ChannelOutcome::Sent),
        Err(StreamSendError::Closed),
        "send_stream_ready_to on ClientToServer should return Closed"
    );
    // A message for one client.
    assert_eq!(
        link.guarded_send_result(stream, server_only, ChannelOutcome::Sent),
        Err(StreamSendError::Closed),
        "send_to on ClientToServer should return Closed"
    );
    // A message for every client.
    assert_eq!(
        link.guarded_send_result(stream, server_only, ChannelOutcome::Sent),
        Err(StreamSendError::Closed),
        "broadcast on ClientToServer should return Closed"
    );
}

#[test]
fn test_stream_sender_direction_guard_send_on_server_to_client() {
    assert_eq!(
        direction_guard(StreamDirection::ServerToClient, StreamDirection::ClientToServer),
        Err(StreamSendError::Closed),
        "send on ServerToClient should return Closed"
    );
}

#[test]
fn send_outcomes_map_to_errors() {
    assert_eq!(
        stream_send_result(ChannelOutcome::Full),
        Err(StreamSendError::BufferFull)
    );
    assert_eq!(client_send_result(ChannelOutcome::Sent), Ok(()));
    assert_eq!(
        client_send_result(ChannelOutcome::Full),
        Err(SendError::BufferFull)
    );
    assert_eq!(
        client_send_result(ChannelOutcome::Closed),
        Err(SendError::Closed)
    );
    assert_eq!(
        client_send_result(ChannelOutcome::NoSession),
        Err(SendError::Closed)
    );
}

#[test]
fn registry_lookup_by_tag() {
    let mut registry = StreamRegistry::new();
    registry.register(def(1, "tiles", StreamDirection::ServerToClient));
    assert!(registry.is_registered(1));
    assert!(!registry.is_registered(2));
}

// ── per-frame draining ─────────────────────────────────────────────────

#[test]
fn test_max_events_per_frame_cap() {
    let mut registry = StreamRegistry::default();
    let mut queue: Vec<ClientEventKind> =
        vec![ClientEventKind::Error; MAX_NET_EVENTS_PER_FRAME + 50];

    let first = registry.drain_client_events(&queue);
    let emitted = first.routes.iter().filter(|r| r.emit).count();
    assert_eq!(
        emitted, MAX_NET_EVENTS_PER_FRAME,
        "Should process exactly MAX_NET_EVENTS_PER_FRAME events per frame"
    );
    queue.drain(..first.routes.len());

    let second = registry.drain_client_events(&queue);
    let emitted2 = second.routes.iter().filter(|r| r.emit).count();
    assert_eq!(emitted2, 50, "Should process remaining events in next frame");
}

#[test]
fn ready_sentinels_are_held_back_one_frame() {
    let mut registry = StreamRegistry::new();
    let queue = vec![
        ClientEventKind::StreamReady { tag: 1 },
        ClientEventKind::StreamFrame { tag: 2 },
        ClientEventKind::StreamReady { tag: 2 },
        ClientEventKind::Disconnected,
    ];
    let first = registry.drain_client_events(&queue);
    assert!(first.ready_now.is_empty());
    assert_eq!(
        first.routes,
        vec![
            ClientEventRoute {
                emit: false,
                route_frame: None,
                end_session: false
            },
            ClientEventRoute {
                emit: true,
                route_frame: Some(2),
                end_session: false
            },
            ClientEventRoute {
                emit: false,
                route_frame: None,
                end_session: false
            },
            ClientEventRoute {
                emit: true,
                route_frame: None,
                end_session: true
            },
        ]
    );
    let second = registry.drain_client_events(&vec![]);
    assert_eq!(second.ready_now, vec![1, 2]);
    assert!(second.routes.is_empty());
    let third = registry.drain_client_events(&vec![]);
    assert!(third.ready_now.is_empty());
}

#[test]
fn deferred_ready_comes_out_in_order_once() {
    let mut registry = StreamRegistry::new();
    registry.defer_stream_ready(3);
    registry.defer_stream_ready(1);
    assert_eq!(registry.take_deferred_ready(), vec![3, 1]);
    assert!(registry.take_deferred_ready().is_empty());
}

#[test]
fn server_events_route_frames_and_end_on_stop() {
    let from = ClientId(7);
    let mut queue = vec![
        ServerEventKind::ClientStreamFrame { from, tag: 4 },
        ServerEventKind::HostingStopped,
        ServerEventKind::ClientConnected,
    ];
    let routes = drain_server_events(&queue);
    assert_eq!(
        routes,
        vec![
            ServerEventRoute {
                emit: false,
                route_frame: Some(FrameOrigin { from, tag: 4 }),
                end_session: false
            },
            ServerEventRoute {
                emit: true,
                route_frame: None,
                end_session: true
            },
            ServerEventRoute {
                emit: true,
                route_frame: None,
                end_session: false
            },
        ]
    );
    queue = vec![ServerEventKind::Error; 230];
    assert_eq!(drain_server_events(&queue).len(), MAX_NET_EVENTS_PER_FRAME);
}

// ── ids and the client's sync barrier ──────────────────────────────────

#[test]
fn net_ids_start_at_one_and_increase() {
    let mut server = Server::new();
    assert_eq!(server.next_net_id(), NetId(1));
    assert_eq!(server.next_net_id(), NetId(2));
    let mut other = Server::default();
    assert_eq!(other.next_net_id(), NetId(1));
}

#[test]
fn sync_barrier_enters_game_when_complete() {
    let mut sync = PendingSync::default();
    let mut client = Client::default();
    let phase = StatePhase::Loading;

    let r = handle_client_event(&mut sync, &mut client, phase, &SyncEvent::Connected);
    assert_eq!(r.next_state, None);
    let r = handle_client_event(
        &mut sync,
        &mut client,
        phase,
        &SyncEvent::Welcome {
            client_id: ClientId(5),
            expected_streams: 2,
        },
    );
    assert_eq!(r.next_state, None);
    assert_eq!(client.local_id, Some(ClientId(5)));
    let r = handle_client_event(&mut sync, &mut client, phase, &SyncEvent::StreamReady { tag: 1 });
    assert_eq!(r.next_state, None);
    let r = handle_client_event(&mut sync, &mut client, phase, &SyncEvent::InitialStateDone);
    assert_eq!(r.next_state, None);
    let r = handle_client_event(&mut sync, &mut client, phase, &SyncEvent::StreamReady { tag: 2 });
    assert_eq!(r.next_state, Some(StateTarget::InGame));
    assert!(!r.disconnect);
    assert!(sync.is_complete());
}

#[test]
fn sync_barrier_shutdown_and_errors_disconnect() {
    let mut sync = PendingSync::default();
    let mut client = Client::default();
    let r = handle_client_event(&mut sync, &mut client, StatePhase::InGame, &SyncEvent::Shutdown);
    assert_eq!(r.next_state, Some(StateTarget::Disconnected));
    assert!(r.disconnect);
    let r = handle_client_event(&mut sync, &mut client, StatePhase::InGame, &SyncEvent::Error);
    assert_eq!(r.next_state, Some(StateTarget::Disconnected));
    assert!(!r.disconnect);
}

#[test]
fn sync_barrier_not_entered_outside_loading() {
    let sync = PendingSync {
        expected_streams: 0,
        streams_ready: 0,
        initial_state_done: true,
    };
    assert_eq!(
        try_enter_in_game(&sync, StatePhase::Loading),
        Some(StateTarget::InGame)
    );
    assert_eq!(try_enter_in_game(&sync, StatePhase::Other), None);
    let mut s = sync;
    s.reset();
    assert!(!s.is_complete());
}

#[test]
fn hosting_and_connecting_lead_to_loading() {
    assert_eq!(
        transition_to_loading(StatePhase::Other, false),
        Some(StateTarget::Loading)
    );
    assert_eq!(transition_to_loading(StatePhase::Loading, false), None);
    assert_eq!(
        transition_to_loading(StatePhase::Loading, true),
        Some(StateTarget::InGame)
    );
    assert_eq!(transition_to_loading(StatePhase::InGame, true), None);
}

#[test]
fn server_init_sync_sends_done_after_expected_modules() {
    let mut s = ClientInitSyncState::new();
    let c = ClientId(3);
    s.on_hello(c);
    assert!(!s.on_module_ready(c, 2));
    assert!(s.on_module_ready(c, 2));
    // The entry is gone: counting restarts.
    assert!(!s.on_module_ready(c, 2));
    s.on_disconnect(c);
    assert!(s.on_module_ready(c, 1));
}

#[test]
fn pending_syncs_wait_until_sender_and_data_exist() {
    let mut p = PendingSyncs::new();
    let a = ClientId(1);
    let b = ClientId(2);
    assert!(p.take_ready(&vec![a], false, true).is_empty());
    assert!(p.take_ready(&vec![b], true, false).is_empty());
    assert_eq!(p.take_ready(&vec![], true, true), vec![a, b]);
    assert!(p.take_ready(&vec![], true, true).is_empty());
    assert!(module_ready_after(true, true));
    assert!(!module_ready_after(true, false));
}

// ── the server's handshake ─────────────────────────────────────────────

#[test]
fn handshake_opens_streams_then_greets() {
    let tags = vec![1u8, 2];
    let id = ClientId(9);
    let s = conn_start_step(&tags);
    assert_eq!(s.next, ConnPhase::OpeningStreams { opened: 0 });
    assert_eq!(s.actions, vec![ConnAction::OpenStream { tag: 1 }]);
    let s = conn_advance(&s.next, ConnEvent::StreamOpened, &tags, id, 2);
    assert_eq!(s.actions, vec![ConnAction::OpenStream { tag: 2 }]);
    let s = conn_advance(&s.next, ConnEvent::StreamOpened, &tags, id, 2);
    assert_eq!(s.next, ConnPhase::AwaitingControl);
    assert_eq!(s.actions, vec![ConnAction::AcceptControl]);
    let s = conn_advance(&s.next, ConnEvent::ControlAccepted, &tags, id, 2);
    assert_eq!(s.actions, vec![ConnAction::ReadHello]);
    let s = conn_advance(
        &s.next,
        ConnEvent::Frame(ControlFrame::Hello {
            name: "ann".to_string(),
        }),
        &tags,
        id,
        2,
    );
    assert_eq!(
        s.actions,
        vec![ConnAction::Send(ServerMessage::Welcome {
            client_id: id,
            expected_streams: 2
        })]
    );
    let s = conn_advance(&s.next, ConnEvent::Sent, &tags, id, 2);
    assert_eq!(
        s.actions,
        vec![ConnAction::Send(ServerMessage::InitialStateDone)]
    );
    let s = conn_advance(&s.next, ConnEvent::Sent, &tags, id, 2);
    assert_eq!(s.next, ConnPhase::Live);
    assert_eq!(
        s.actions,
        vec![ConnAction::GoLive {
            name: "ann".to_string()
        }]
    );
    let s = conn_advance(&s.next, ConnEvent::TaskEnded, &tags, id, 2);
    assert_eq!(s.next, ConnPhase::Finished);
    assert_eq!(s.actions, vec![ConnAction::Disconnected]);
}

#[test]
fn handshake_rejects_message_other_than_hello() {
    let tags: Vec<u8> = vec![];
    let s = conn_start_step(&tags);
    assert_eq!(s.next, ConnPhase::AwaitingControl);
    let s = conn_advance(&ConnPhase::AwaitingHello, ConnEvent::Frame(ControlFrame::Other), &tags, ClientId(1), 0);
    assert_eq!(s.next, ConnPhase::Finished);
    assert_eq!(
        s.actions,
        vec![
            ConnAction::Close(CloseReason::ExpectedHello),
            ConnAction::CleanupWriters
        ]
    );
    let s = conn_advance(&ConnPhase::AwaitingControl, ConnEvent::Shutdown, &tags, ClientId(1), 0);
    assert_eq!(
        s.actions,
        vec![
            ConnAction::Close(CloseReason::ServerShutdown),
            ConnAction::CleanupWriters
        ]
    );
}

// ── the client's session ───────────────────────────────────────────────

#[test]
fn session_sends_hello_then_goes_live() {
    let s = session_advance(SessionPhase::OpeningControl, SessionEvent::ControlOpened, "bob");
    assert_eq!(s.next, SessionPhase::SendingHello);
    assert_eq!(
        s.actions,
        vec![SessionAction::SendHello {
            name: "bob".to_string()
        }]
    );
    let s = session_advance(s.next, SessionEvent::HelloSent, "bob");
    assert_eq!(s.next, SessionPhase::Live);
    assert_eq!(s.actions, vec![SessionAction::StartLoops]);
    let s = session_advance(s.next, SessionEvent::ReadEnded, "bob");
    assert_eq!(s.next, SessionPhase::Finished);
    assert_eq!(
        s.actions,
        vec![
            SessionAction::StopTasks,
            SessionAction::Disconnected {
                reason: "Read stream closed".to_string()
            }
        ]
    );
    let s = session_advance(s.next, SessionEvent::ConnectionClosed, "bob");
    assert!(s.actions.is_empty());
}

#[test]
fn session_reports_open_failure_with_error() {
    let s = session_advance(
        SessionPhase::OpeningControl,
        SessionEvent::ControlOpenFailed {
            error: "boom".to_string(),
        },
        "bob",
    );
    assert_eq!(s.next, SessionPhase::Finished);
    assert_eq!(
        s.actions,
        vec![SessionAction::Disconnected {
            reason: "Failed to open stream: boom".to_string()
        }]
    );
    let s = session_advance(SessionPhase::Live, SessionEvent::Cancelled, "bob");
    assert_eq!(
        s.actions,
        vec![
            SessionAction::CloseConnection,
            SessionAction::StopTasks,
            SessionAction::Disconnected {
                reason: "Disconnect requested".to_string()
            }
        ]
    );
}

#[test]
fn stream_frames_are_told_apart() {
    assert_eq!(accept_stream_tag(0), None);
    assert_eq!(accept_stream_tag(3), Some(3));
    let ready = [1u8, 2, 3];
    assert_eq!(
        classify_stream_frame(2, &[1, 2, 3], &ready),
        StreamFrameKind::Ready { tag: 2 }
    );
    assert_eq!(
        classify_stream_frame(2, &[1, 2], &ready),
        StreamFrameKind::Data { tag: 2 }
    );
    assert_eq!(
        classify_stream_frame(2, &[1, 2, 4], &ready),
        StreamFrameKind::Data { tag: 2 }
    );
}

#[test]
fn failure_messages_carry_the_error() {
    assert_eq!(client_failure_reason("x"), "Client error: x");
    assert_eq!(server_failure_message("y"), "Server error: y");
}

// ── network commands and tracked tasks ─────────────────────────────────
// A tracked task is `Some(finished)`; no task is `None`.

#[test]
fn test_is_hosting() {
    assert!(!keep_task(None));
    assert!(keep_task(Some(false)));
}

#[test]
fn test_is_connected() {
    assert_eq!(
        plan_net_command(NetCommandKind::Connect, None, None),
        NetCommandPlan::StartClient
    );
    assert_eq!(
        plan_net_command(NetCommandKind::Connect, None, Some(false)),
        NetCommandPlan::AlreadyConnected
    );
}

#[test]
fn test_stop_hosting() {
    // Stopping cancels the task; it is still tracked until it ends.
    assert_eq!(
        plan_net_command(NetCommandKind::StopHosting, Some(false), None),
        NetCommandPlan::CancelServer
    );
    assert!(keep_task(Some(false)));
    assert!(!keep_task(Some(true)));
}

#[test]
fn test_disconnect() {
    assert_eq!(
        plan_net_command(NetCommandKind::Disconnect, None, Some(false)),
        NetCommandPlan::CancelClient
    );
    assert!(keep_task(Some(false)));
    assert!(!keep_task(Some(true)));
}

#[test]
fn test_stop_hosting_when_not_hosting() {
    assert_eq!(
        plan_net_command(NetCommandKind::StopHosting, None, None),
        NetCommandPlan::CancelServer
    );
    assert!(!keep_task(None));
}

#[test]
fn test_disconnect_when_not_connected() {
    assert_eq!(
        plan_net_command(NetCommandKind::Disconnect, None, None),
        NetCommandPlan::CancelClient
    );
    assert!(!keep_task(None));
}

#[test]
fn test_cleanup_finished() {
    assert!(!keep_task(Some(true)));
}

#[test]
fn test_is_hosting_detects_finished_task() {
    assert_eq!(
        plan_net_command(NetCommandKind::Host, Some(true), None),
        NetCommandPlan::StartServer
    );
    assert_eq!(
        plan_net_command(NetCommandKind::Host, Some(false), None),
        NetCommandPlan::AlreadyHosting
    );
}

#[test]
fn test_is_connected_detects_finished_task() {
    assert_eq!(
        plan_net_command(NetCommandKind::Connect, None, Some(true)),
        NetCommandPlan::StartClient
    );
}

#[test]
fn server_certificate_is_generated() {
    let (cert, _key) = geostationary::cert::generate_self_signed_cert().expect("certificate");
    assert!(!cert.is_empty());
}

#[test]
fn certificate_generation_failure_is_reported() {
    let r = geostationary::cert::cert_from_generated(Err(rcgen::Error::CouldNotParseKeyPair));
    assert!(matches!(r, Err(geostationary::cert::CertError::Generation)));
}

#[test]
fn unrecognised_key_der_is_reported() {
    let cert = rustls::pki_types::CertificateDer::from(vec![1u8, 2, 3]);
    let r = geostationary::cert::cert_from_generated(Ok((cert, vec![0u8, 1, 2])));
    assert!(matches!(r, Err(geostationary::cert::CertError::KeyFormat)));
}

#[test]
fn generated_certificate_is_passed_on() {
    let generated = rcgen::generate_simple_self_signed(vec!["localhost".to_string()]).expect("generated");
    let der = generated.cert.der().clone();
    let key = generated.signing_key.serialize_der();
    let (cert, k) = geostationary::cert::cert_from_generated(Ok((der.clone(), key.clone()))).expect("certificate");
    assert_eq!(cert, der);
    assert_eq!(k.secret_der(), key.as_slice());
}

/// The barrier completes when the ready count equals the expected count:
/// a surplus sentinel does not enter the game.
#[test]
fn sync_barrier_needs_exact_ready_count() {
    let mut sync = PendingSync::default();
    let mut client = Client::default();
    let phase = StatePhase::Loading;
    handle_client_event(
        &mut sync,
        &mut client,
        phase,
        &SyncEvent::Welcome {
            client_id: ClientId(1),
            expected_streams: 1,
        },
    );
    let r = handle_client_event(&mut sync, &mut client, phase, &SyncEvent::StreamReady { tag: 1 });
    assert_eq!(r.next_state, None);
    let r = handle_client_event(&mut sync, &mut client, phase, &SyncEvent::StreamReady { tag: 2 });
    assert_eq!(r.next_state, None);
    let r = handle_client_event(&mut sync, &mut client, phase, &SyncEvent::InitialStateDone);
    assert_eq!(r.next_state, None);
    assert!(!sync.is_complete());
    let exact = PendingSync {
        expected_streams: 2,
        streams_ready: 2,
        initial_state_done: true,
    };
    assert!(exact.is_complete());
}

#[test]
fn certificate_is_issued_for_localhost() {
    assert_eq!(geostationary::cert::localhost_names(), vec!["localhost".to_string()]);
}

/// A key whose DER starts as a PKCS#1 key does is recognised, and the
/// certificate is passed on with it.
#[test]
fn pkcs1_shaped_key_der_is_recognised() {
    let cert = rustls::pki_types::CertificateDer::from(vec![9u8, 9]);
    let key = vec![0x30u8, 0x05, 0x02, 0x01, 0x00, 0x02, 0x00];
    let (c, k) = geostationary::cert::cert_from_generated(Ok((cert.clone(), key.clone()))).expect("key");
    assert_eq!(c, cert);
    assert_eq!(k.secret_der(), key.as_slice());
}

/// Stream sends report `Closed` before the server starts and after it
/// stops; while it runs they report what its channel did.
#[test]
fn stream_sends_follow_the_session() {
    let mut link = geostationary::network::SenderLink::new();
    assert!(!link.live());
    assert_eq!(link.send_result(ChannelOutcome::Sent), Err(StreamSendError::Closed));
    link.start();
    assert_eq!(link.send_result(ChannelOutcome::Sent), Ok(()));
    assert_eq!(
        link.send_result(ChannelOutcome::Full),
        Err(StreamSendError::BufferFull)
    );
    link.stop();
    assert_eq!(link.send_result(ChannelOutcome::Sent), Err(StreamSendError::Closed));
}

/// Connecting clients get ids 1, 2, 3, ... in order.
#[test]
fn client_ids_count_up_from_one() {
    let mut ids = geostationary::network::ClientIds::new();
    assert!(!ids.exhausted());
    assert_eq!(ids.next_client_id(), ClientId(1));
    assert_eq!(ids.next_client_id(), ClientId(2));
    assert_eq!(ids.next_client_id(), ClientId(3));
}

/// A new session hands out 1, 2, 3 as its first, second and third ids.
#[test]
fn kth_net_id_of_a_new_session_is_k() {
    let mut server = Server::new();
    for k in 1..=3u64 {
        assert_eq!(server.next_net_id(), NetId(k));
    }
}

#[test]
fn test_net_server_sender_send_to() {
    let (tx, mut rx) = tokio::sync::mpsc::unbounded_channel();
    let client = ClientId(42);
    let message = ServerMessage::Welcome {
        client_id: client,
        expected_streams: 0,
    };
    let _ = tx.send(ServerCommand::SendTo {
        client,
        message: message.clone(),
    });
    let received = rx.try_recv().expect("Should receive command");
    match received {
        ServerCommand::SendTo {
            client: recv_client,
            message: recv_msg,
        } => {
            assert_eq!(recv_client, client);
            match recv_msg {
                ServerMessage::Welcome {
                    client_id,
                    expected_streams,
                } => {
                    assert_eq!(client_id, client);
                    assert_eq!(expected_streams, 0);
                }
                _ => panic!("Expected Welcome message"),
            }
        }
        _ => panic!("Expected SendTo command"),
    }
}

#[test]
fn test_net_server_sender_broadcast() {
    let (tx, mut rx) = tokio::sync::mpsc::unbounded_channel();
    let _ = tx.send(ServerCommand::Broadcast {
        message: ServerMessage::InitialStateDone,
    });
    let received = rx.try_recv().expect("Should receive command");
    match received {
        ServerCommand::Broadcast { message: recv_msg } => match recv_msg {
            ServerMessage::InitialStateDone => {}
            _ => panic!("Expected InitialStateDone message"),
        },
        _ => panic!("Expected Broadcast command"),
    }
}

/// A client control send: the frame goes to the bounded channel, and the
/// send reports what the channel did.
fn client_send(tx: &tokio::sync::mpsc::Sender<[f32; 3]>, direction: [f32; 3]) -> Result<(), SendError> {
    let outcome = match tx.try_send(direction) {
        Ok(()) => ChannelOutcome::Sent,
        Err(tokio::sync::mpsc::error::TrySendError::Full(_)) => ChannelOutcome::Full,
        Err(tokio::sync::mpsc::error::TrySendError::Closed(_)) => ChannelOutcome::Closed,
    };
    client_send_result(outcome)
}

#[test]
fn test_net_client_sender_send() {
    let (tx, mut rx) = tokio::sync::mpsc::channel(10);
    let result = client_send(&tx, [1.0, 0.0, -1.0]);
    assert!(result.is_ok(), "Message should be sent successfully");
    let received = rx.try_recv().expect("Should receive message");
    assert_eq!(received, [1.0, 0.0, -1.0], "Expected Input message");
}

#[test]
fn test_net_client_sender_buffer_full() {
    let (tx, _rx) = tokio::sync::mpsc::channel(1);
    assert!(client_send(&tx, [1.0, 0.0, -1.0]).is_ok(), "First send should succeed");
    assert_eq!(
        client_send(&tx, [1.0, 0.0, -1.0]),
        Err(SendError::BufferFull),
        "Second send should fail when buffer full"
    );
}

#[test]
fn test_route_client_stream_frame_and_drain() {
    let mut registry = StreamRegistry::default();
    registry.register(StreamDef {
        tag: 4,
        name: "tile-input",
        direction: StreamDirection::ClientToServer,
    });
    assert_eq!(registry.client_to_server_tags(), vec![4]);
    // A frame from client 7 on stream 4 goes to that stream's reader,
    // tagged with the client, and is not emitted as a game message.
    let client = ClientId(7);
    let routes = drain_server_events(&vec![ServerEventKind::ClientStreamFrame { from: client, tag: 4 }]);
    assert_eq!(routes.len(), 1);
    assert_eq!(routes[0].route_frame, Some(FrameOrigin { from: client, tag: 4 }));
    assert!(!routes[0].emit);
}

/// On a stream of the required direction the send reports what the
/// session's channel did, or `Closed` when no session runs.
#[test]
fn guarded_send_on_matching_stream_reports_the_channel() {
    let mut link = SenderLink::new();
    let d = StreamDirection::ServerToClient;
    assert_eq!(link.guarded_send_result(d, d, ChannelOutcome::Sent), Err(StreamSendError::Closed));
    link.start();
    assert_eq!(link.guarded_send_result(d, d, ChannelOutcome::Sent), Ok(()));
    assert_eq!(
        link.guarded_send_result(d, d, ChannelOutcome::Full),
        Err(StreamSendError::BufferFull)
    );
}
