use trivianetdmr::state::App;
use trivianetdmr::state::AppStateDump;
use trivianetdmr::state::InputMode;
use trivianetdmr::state::Participant;

#[test]
fn test_app_initialization() {
    let app = App::new();
    assert_eq!(app.round_number, 1);
    assert_eq!(app.participants.len(), 0);
    assert_eq!(app.queue.len(), 0);
}

#[test]
fn test_add_participant() {
    let mut app = App::new();
    let id_a = app.add_participant("W1AW".to_string());
    let id_b = app.add_participant("K1ABC".to_string());

    assert_eq!(app.participants.len(), 2);
    assert_eq!(app.queue, vec![id_a, id_b]);
    assert_eq!(app.participants[id_a].callsign, "W1AW");
    assert_eq!(app.participants[id_a].points_checkin, 1);
}

#[test]
fn test_scoring() {
    let mut app = App::new();
    app.add_participant("W1AW".to_string());

    assert_eq!(app.active_participant().unwrap().total_score(), 1);

    app.award_trivia_point();
    assert_eq!(app.active_participant().unwrap().total_score(), 2);
    assert_eq!(app.active_participant().unwrap().points_trivia, 1);

    app.award_bonus_point();
    assert_eq!(app.active_participant().unwrap().total_score(), 3);
    assert_eq!(app.active_participant().unwrap().points_bonus, 1);
}

#[test]
fn test_queue_rotation_and_rounds() {
    let mut app = App::new();
    let id_a = app.add_participant("W1AW".to_string()); // 0
    let id_b = app.add_participant("K1ABC".to_string()); // 1
    let id_c = app.add_participant("N1AAA".to_string()); // 2

    // Round 1 order: W1AW, K1ABC, N1AAA
    assert_eq!(app.current_queue_index, 0);
    assert_eq!(app.active_participant().unwrap().id, id_a);

    app.next_turn();
    assert_eq!(app.current_queue_index, 1);
    assert_eq!(app.active_participant().unwrap().id, id_b);

    app.next_turn();
    assert_eq!(app.current_queue_index, 2);
    assert_eq!(app.active_participant().unwrap().id, id_c);

    // Advance to next round: should rotate left by 1
    app.next_round();
    assert_eq!(app.round_number, 2);
    assert_eq!(app.current_queue_index, 0);
    assert_eq!(app.queue, vec![id_b, id_c, id_a]); // [1, 2, 0]
    assert_eq!(app.active_participant().unwrap().id, id_b);
}

#[test]
fn test_late_checkins() {
    let mut app = App::new();
    let id_a = app.add_participant("W1AW".to_string());
    let id_b = app.add_participant("K1ABC".to_string());

    // Round 1 start
    assert_eq!(app.queue, vec![id_a, id_b]);

    // Late check-in
    let id_c = app.add_participant("N1AAA".to_string());
    assert_eq!(app.queue, vec![id_a, id_b, id_c]);
}

#[test]
fn new_participant_is_uppercased_with_checkin_point() {
    let p = Participant::new(7, "w1aw".to_string());
    assert_eq!(p.id, 7);
    assert_eq!(p.callsign, "W1AW");
    assert_eq!(p.points_checkin, 1);
    assert_eq!(p.points_trivia, 0);
    assert_eq!(p.points_bonus, 0);
    assert!(p.name.is_none());
    assert!(p.location.is_none());
    assert!(!p.qrz_fetched);
    assert_eq!(p.notes, "");
    assert_eq!(p.total_score(), 1);
}

#[test]
fn new_app_defaults() {
    let app = App::new();
    assert_eq!(app.current_queue_index, 0);
    assert_eq!(app.input_mode, InputMode::Normal);
    assert_eq!(app.input_buffer, "");
    assert!(app.error_message.is_none());
    assert_eq!(app.api_status, "Offline (Mock Mode)");
    let d = App::default();
    assert_eq!(d.api_status, "Offline (Mock Mode)");
    assert_eq!(d.round_number, 1);
}

#[test]
fn repeat_checkin_keeps_id_and_queue() {
    let mut app = App::new();
    let a = app.add_participant("  w1aw ".to_string());
    assert_eq!(app.participants[a].callsign, "W1AW");
    let again = app.add_participant("W1AW".to_string());
    assert_eq!(again, a);
    assert_eq!(app.participants.len(), 1);
    assert_eq!(app.queue, vec![a]);
}

#[test]
fn checkin_requeues_participant_missing_from_queue() {
    let mut app = App::new();
    let a = app.add_participant("W1AW".to_string());
    let b = app.add_participant("K1ABC".to_string());
    app.queue.retain(|&x| x != a);
    assert_eq!(app.queue, vec![b]);
    let again = app.add_participant("w1aw".to_string());
    assert_eq!(again, a);
    assert_eq!(app.queue, vec![b, a]);
    assert_eq!(app.participants.len(), 2);
}

#[test]
fn active_participant_wraps_and_misses() {
    let mut app = App::new();
    assert!(app.active_participant().is_none());
    let a = app.add_participant("W1AW".to_string());
    let b = app.add_participant("K1ABC".to_string());
    app.current_queue_index = 3;
    // 3 % 2 == 1
    assert_eq!(app.active_participant().unwrap().id, b);
    app.current_queue_index = 2;
    assert_eq!(app.active_participant().unwrap().id, a);
    app.queue = vec![9];
    assert!(app.active_participant().is_none());
}

#[test]
fn active_participant_mut_edits_the_active_one() {
    let mut app = App::new();
    app.add_participant("W1AW".to_string());
    let b = app.add_participant("K1ABC".to_string());
    app.next_turn();
    app.active_participant_mut().unwrap().notes = "good copy".to_string();
    assert_eq!(app.participants[b].notes, "good copy");
    assert_eq!(app.participants[0].notes, "");
}

#[test]
fn next_turn_caps_at_queue_length_and_prev_turn_returns() {
    let mut app = App::new();
    app.next_turn();
    assert_eq!(app.current_queue_index, 0);
    app.add_participant("W1AW".to_string());
    app.add_participant("K1ABC".to_string());
    app.next_turn();
    app.next_turn();
    app.next_turn();
    assert_eq!(app.current_queue_index, 2);
    app.prev_turn();
    assert_eq!(app.current_queue_index, 1);
    app.prev_turn();
    app.prev_turn();
    assert_eq!(app.current_queue_index, 0);
}

#[test]
fn next_round_on_empty_queue_changes_nothing() {
    let mut app = App::new();
    app.next_round();
    assert_eq!(app.round_number, 1);
    assert_eq!(app.current_queue_index, 0);
}

#[test]
fn full_cycle_of_rounds_restores_order() {
    let mut app = App::new();
    let ids: Vec<usize> = ["W1AW", "K1ABC", "N1AAA", "VE3AAA"]
        .iter()
        .map(|c| app.add_participant(c.to_string()))
        .collect();
    let mut leaders = Vec::new();
    for _ in 0..ids.len() {
        leaders.push(app.active_participant().unwrap().id);
        app.next_round();
    }
    assert_eq!(leaders, ids);
    assert_eq!(app.queue, ids);
    assert_eq!(app.round_number, 5);
}

#[test]
fn remove_points_undo_awards_and_stop_at_zero() {
    let mut app = App::new();
    app.add_participant("W1AW".to_string());
    app.award_trivia_point();
    app.award_bonus_point();
    app.remove_trivia_point();
    app.remove_bonus_point();
    let p = app.active_participant().unwrap();
    assert_eq!(p.points_trivia, 0);
    assert_eq!(p.points_bonus, 0);
    app.remove_trivia_point();
    app.remove_bonus_point();
    let p = app.active_participant().unwrap();
    assert_eq!(p.points_trivia, 0);
    assert_eq!(p.points_bonus, 0);
    assert_eq!(p.total_score(), 1);
}

#[test]
fn awards_only_touch_active_participant() {
    let mut app = App::new();
    let a = app.add_participant("W1AW".to_string());
    let b = app.add_participant("K1ABC".to_string());
    app.next_turn();
    app.award_trivia_point();
    assert_eq!(app.participants[b].points_trivia, 1);
    assert_eq!(app.participants[a].points_trivia, 0);
    app.next_turn();
    // round over: index rests at 2, which wraps to participant a
    app.award_bonus_point();
    assert_eq!(app.participants[a].points_bonus, 1);
}

#[test]
fn dump_and_restore_round_trip() {
    let mut app = App::new();
    let a = app.add_participant("W1AW".to_string());
    let b = app.add_participant("K1ABC".to_string());
    app.award_trivia_point();
    app.award_bonus_point();
    app.next_turn();
    app.next_round();
    let dump: AppStateDump = app.dump_state();
    let mut loaded = App::new();
    loaded.restore_state(dump);
    assert_eq!(loaded.round_number, app.round_number);
    assert_eq!(loaded.current_queue_index, app.current_queue_index);
    assert_eq!(loaded.queue, app.queue);
    assert_eq!(loaded.participants.len(), app.participants.len());
    assert_eq!(loaded.participants[a].callsign, "W1AW");
    assert_eq!(loaded.participants[a].points_trivia, 1);
    assert_eq!(loaded.participants[a].points_bonus, 1);
    assert_eq!(loaded.participants[b].callsign, "K1ABC");
    assert_eq!(loaded.participants[b].points_trivia, 0);
}

#[test]
fn reset_session_clears_the_net() {
    let mut app = App::new();
    app.add_participant("W1AW".to_string());
    app.next_round();
    app.error_message = Some("oops".to_string());
    app.reset_session();
    assert_eq!(app.participants.len(), 0);
    assert_eq!(app.queue.len(), 0);
    assert_eq!(app.round_number, 1);
    assert_eq!(app.current_queue_index, 0);
    assert!(app.error_message.is_none());
}

fn roster_is_well_formed(app: &App) -> bool {
    let ids_match = app.participants.iter().enumerate().all(|(i, p)| p.id == i);
    let known = app.queue.iter().all(|&id| id < app.participants.len());
    let mut seen = app.queue.clone();
    seen.sort();
    seen.dedup();
    ids_match && known && seen.len() == app.queue.len() && app.current_queue_index <= app.queue.len()
}

#[test]
fn operations_keep_the_roster_well_formed() {
    let mut app = App::new();
    for call in ["W1AW", "k1abc", " W1AW ", "N1AAA", "n1aaa", "VE3AAA"] {
        app.add_participant(call.to_string());
        assert!(roster_is_well_formed(&app));
    }
    assert_eq!(app.participants.len(), 4);
    for _ in 0..5 {
        app.next_turn();
        app.award_trivia_point();
        assert!(roster_is_well_formed(&app));
    }
    app.prev_turn();
    app.next_round();
    app.remove_bonus_point();
    assert!(roster_is_well_formed(&app));
}

#[test]
fn successive_rounds_rotate_the_leader() {
    let mut app = App::new();
    for call in ["W1AW", "K1ABC", "N1AAA"] {
        app.add_participant(call.to_string());
    }
    let start = app.queue.clone();
    for j in 1..=7 {
        app.next_round();
        assert_eq!(app.queue[0], start[j % 3]);
        assert_eq!(app.round_number, 1 + j);
        assert_eq!(app.current_queue_index, 0);
    }
}

#[test]
fn checkins_keep_callsigns_distinct() {
    let mut app = App::new();
    for call in ["w1aw", "W1AW ", "k1abc", " K1ABC", "n1aaa"] {
        let id = app.add_participant(call.to_string());
        assert!(app.queue.contains(&id));
        assert_eq!(app.participants[id].callsign, call.trim().to_uppercase());
    }
    let mut calls: Vec<&str> = app.participants.iter().map(|p| p.callsign.as_str()).collect();
    calls.sort();
    calls.dedup();
    assert_eq!(calls.len(), app.participants.len());
}

#[test]
fn ascii_checkins_keep_callsigns_distinct() {
    let mut app = App::new();
    let a = app.add_participant(" w1aw ".to_string());
    let b = app.add_participant("W1AW".to_string());
    let c = app.add_participant("k1abc".to_string());
    assert_eq!(a, b);
    assert_ne!(a, c);
    assert_eq!(app.participants.len(), 2);
    assert_eq!(app.participants[a].callsign, "W1AW");
    assert_eq!(app.participants[c].callsign, "K1ABC");
    assert!(app.queue.contains(&a) && app.queue.contains(&c));
}
