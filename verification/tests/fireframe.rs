use refracted::cnc::fireframe::{
    notification_envelope, pushes_after_join_game, pushes_after_join_game_lobby, pushes_client_join_after_reset,
    GameManagerPush, OutgoingPush, PendingPushes, GSTA_INITIALIZING, GSTA_PRE_GAME,
};

fn push(cmd: u16, label: &'static str) -> OutgoingPush {
    OutgoingPush {
        wire: notification_envelope(4, cmd, &[cmd as u8]),
        component: 4,
        command: cmd,
        tdf_body: vec![cmd as u8],
        blaze_send_label: label,
        info_log_line: format!("cmd {cmd}"),
    }
}

#[test]
fn notification_envelope_header() {
    let out = notification_envelope(0x0004, 0x0014, &[1, 2, 3]);
    assert_eq!(out, vec![0, 3, 0, 4, 0, 0x14, 0, 0, 0x20, 0, 0, 0, 1, 2, 3]);
    let empty = notification_envelope(0x7802, 1, &[]);
    assert_eq!(empty, vec![0, 0, 0x78, 0x02, 0, 1, 0, 0, 0x20, 0, 0, 0]);
}

#[test]
fn pushes_come_out_in_queue_order_per_session() {
    let mut q = PendingPushes::new();
    q.enqueue_pending_pushes(7, vec![push(1, "a"), push(2, "b")]);
    q.enqueue_pending_pushes(8, vec![push(9, "z")]);
    q.enqueue_pending_pushes(7, vec![push(3, "c")]);
    let out = q.take_pending_pushes(7);
    let cmds: Vec<u16> = out.iter().map(|p| p.command).collect();
    assert_eq!(cmds, vec![1, 2, 3]);
    assert!(q.take_pending_pushes(7).is_empty());
    let other = q.take_pending_pushes(8);
    assert_eq!(other.len(), 1);
    assert_eq!(other[0].blaze_send_label, "z");
}

#[test]
fn clear_drops_one_session_only() {
    let mut q = PendingPushes::new();
    q.enqueue_pending_pushes(1, vec![push(1, "a")]);
    q.enqueue_pending_pushes(2, vec![push(2, "b")]);
    q.clear_pending_pushes(1);
    assert!(q.take_pending_pushes(1).is_empty());
    assert_eq!(q.take_pending_pushes(2).len(), 1);
}

#[test]
fn pushes_after_a_reset_depend_on_setup_and_mesh() {
    let mut reg = refracted::cnc::game_state::GameRegistry::new();
    // No game, no flags: setup then initiate connections.
    let steps = pushes_client_join_after_reset(&mut reg, 9);
    assert_eq!(
        steps,
        vec![
            GameManagerPush::GameSetup,
            GameManagerPush::GameStateChange { gsta: GSTA_INITIALIZING },
            GameManagerPush::PlatformHostInitialized,
            GameManagerPush::JoiningPlayerInitiateConnections,
        ]
    );
    // Join setup pushed and mesh live: reset, join completed; the flag is cleared.
    reg.try_mark_blaze_join_setup_pushed(9);
    reg.note_client_mesh_connected(9);
    let steps = pushes_client_join_after_reset(&mut reg, 9);
    assert_eq!(steps[0], GameManagerPush::GameReset);
    assert_eq!(steps[3], GameManagerPush::PlayerJoinCompleted);
    assert_eq!(steps[3].command(), 0x1e);
    assert!(!reg.blaze_join_setup_already_pushed(9));
}

#[test]
fn pushes_after_a_join() {
    let mut reg = refracted::cnc::game_state::GameRegistry::new();
    let steps = pushes_after_join_game_lobby(&mut reg, 3, true);
    assert_eq!(steps, vec![GameManagerPush::GameSetup, GameManagerPush::GameStateChange { gsta: GSTA_PRE_GAME }]);
    assert!(reg.blaze_join_setup_already_pushed(3));
    let steps = pushes_after_join_game(&mut reg, 4);
    assert_eq!(steps.len(), 4);
    assert_eq!(steps[3].command(), 0x16);
}
