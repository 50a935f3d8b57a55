use trivianetdmr::events::lookup_event;
use trivianetdmr::events::AppEvent;
use trivianetdmr::events::EventOutcome;
use trivianetdmr::events::KeyInput;
use trivianetdmr::qrz::QrzClient;
use trivianetdmr::state::App;
use trivianetdmr::state::InputMode;

fn press(app: &mut App, key: KeyInput) -> EventOutcome {
    let ev = AppEvent::Key(key);
    assert!(app.can_handle(&ev));
    app.handle_event(ev)
}

#[test]
fn checkin_flow_adds_and_requests_lookup() {
    let mut app = App::new();
    assert!(matches!(press(&mut app, KeyInput::Char('c')), EventOutcome::Continue));
    assert_eq!(app.input_mode, InputMode::AddCheckin);
    for c in " w1aw".chars() {
        press(&mut app, KeyInput::Char(c));
    }
    assert_eq!(app.input_buffer, " w1aw");
    match press(&mut app, KeyInput::Enter) {
        EventOutcome::Lookup { id, callsign } => {
            assert_eq!(id, 0);
            assert_eq!(callsign, "W1AW");
        }
        _ => panic!("expected a lookup"),
    }
    assert_eq!(app.input_mode, InputMode::Normal);
    assert_eq!(app.input_buffer, "");
    assert_eq!(app.participants[0].callsign, "W1AW");
    assert_eq!(app.queue, vec![0]);
}

#[test]
fn checkin_input_editing() {
    let mut app = App::new();
    press(&mut app, KeyInput::Char('c'));
    for c in "K1ABCDEFGHIJK".chars() {
        press(&mut app, KeyInput::Char(c));
    }
    assert_eq!(app.input_buffer, "K1ABCDEFGH");
    press(&mut app, KeyInput::Backspace);
    assert_eq!(app.input_buffer, "K1ABCDEFG");
    press(&mut app, KeyInput::Other);
    assert_eq!(app.input_buffer, "K1ABCDEFG");
    press(&mut app, KeyInput::Esc);
    assert_eq!(app.input_mode, InputMode::Normal);
    assert_eq!(app.input_buffer, "");
    assert!(app.participants.is_empty());
}

#[test]
fn checkin_limit_counts_bytes() {
    let mut app = App::new();
    press(&mut app, KeyInput::Char('c'));
    for _ in 0..6 {
        press(&mut app, KeyInput::Char('\u{e9}'));
    }
    // five two-byte characters reach the ten-byte limit
    assert_eq!(app.input_buffer.chars().count(), 5);
}

#[test]
fn blank_checkin_is_ignored() {
    let mut app = App::new();
    press(&mut app, KeyInput::Char('c'));
    press(&mut app, KeyInput::Char(' '));
    assert!(matches!(press(&mut app, KeyInput::Enter), EventOutcome::Continue));
    assert_eq!(app.input_mode, InputMode::Normal);
    assert!(app.participants.is_empty());
    assert!(app.queue.is_empty());
}

#[test]
fn normal_mode_keys() {
    let mut app = App::new();
    app.add_participant("W1AW".to_string());
    app.add_participant("K1ABC".to_string());
    press(&mut app, KeyInput::Char('y'));
    press(&mut app, KeyInput::Char('b'));
    assert_eq!(app.participants[0].points_trivia, 1);
    assert_eq!(app.participants[0].points_bonus, 1);
    press(&mut app, KeyInput::Char('x'));
    press(&mut app, KeyInput::Char('v'));
    assert_eq!(app.participants[0].points_trivia, 0);
    assert_eq!(app.participants[0].points_bonus, 0);
    press(&mut app, KeyInput::Char('n'));
    assert_eq!(app.current_queue_index, 1);
    press(&mut app, KeyInput::Enter);
    assert_eq!(app.current_queue_index, 2);
    press(&mut app, KeyInput::Char('p'));
    assert_eq!(app.current_queue_index, 1);
    press(&mut app, KeyInput::Char('r'));
    assert_eq!(app.round_number, 2);
    assert_eq!(app.queue, vec![1, 0]);
    press(&mut app, KeyInput::Char('z'));
    assert_eq!(app.round_number, 2);
    assert!(matches!(press(&mut app, KeyInput::Char('q')), EventOutcome::Quit));
    assert!(matches!(press(&mut app, KeyInput::Esc), EventOutcome::Quit));
}

#[test]
fn overflowing_events_are_refused() {
    let mut app = App::new();
    app.add_participant("W1AW".to_string());
    app.participants[0].points_trivia = u32::MAX;
    assert!(!app.can_handle(&AppEvent::Key(KeyInput::Char('y'))));
    assert!(app.can_handle(&AppEvent::Key(KeyInput::Char('b'))));
    app.round_number = usize::MAX;
    assert!(!app.can_handle(&AppEvent::Key(KeyInput::Char('r'))));
    app.current_queue_index = usize::MAX;
    assert!(!app.can_handle(&AppEvent::Key(KeyInput::Enter)));
    assert!(app.can_handle(&AppEvent::Tick));
}

#[test]
fn qrz_results_fill_in_details() {
    let mut app = App::new();
    app.add_participant("W1AW".to_string());
    let ev = lookup_event(0, "W1AW", QrzClient::parse_qrz_xml(
        "W1AW",
        "<QRZDatabase><Callsign><fname>Hiram</fname><name>Maxim</name></Callsign></QRZDatabase>",
    ));
    app.handle_event(ev);
    assert_eq!(app.participants[0].name.as_deref(), Some("Hiram Maxim"));
    assert!(app.participants[0].qrz_fetched);

    let ev = lookup_event(0, "W1AW", Err("Request failed: timeout".to_string()));
    app.handle_event(ev);
    assert_eq!(app.participants[0].name.as_deref(), Some("Alice Newhaven"));
    assert_eq!(app.participants[0].location.as_deref(), Some("Boston, MA, USA"));
    assert!(!app.participants[0].qrz_fetched);

    // an unknown id changes nothing
    let before = app.participants[0].name.clone();
    app.handle_event(AppEvent::QrzResult { id: 5, name: None, location: None, is_mock: false });
    assert_eq!(app.participants[0].name, before);
    assert!(matches!(app.handle_event(AppEvent::Tick), EventOutcome::Continue));
}

#[test]
fn status_line_follows_credentials() {
    assert_eq!(App::api_status_for(&QrzClient::new(None, None)), "Offline (Mock Mode)");
    assert_eq!(
        App::api_status_for(&QrzClient::new(Some("a".to_string()), Some("b".to_string()))),
        "Online (QRZ Live)"
    );
}

#[test]
fn arrow_keys_move_the_turn() {
    let mut app = App::new();
    app.add_participant("W1AW".to_string());
    app.add_participant("K1ABC".to_string());
    press(&mut app, KeyInput::Down);
    assert_eq!(app.current_queue_index, 1);
    press(&mut app, KeyInput::Down);
    assert_eq!(app.current_queue_index, 2);
    press(&mut app, KeyInput::Up);
    assert_eq!(app.current_queue_index, 1);
    // while checking in, arrows do nothing
    press(&mut app, KeyInput::Char('c'));
    press(&mut app, KeyInput::Down);
    press(&mut app, KeyInput::Up);
    assert_eq!(app.current_queue_index, 1);
    assert_eq!(app.input_buffer, "");
    assert_eq!(app.input_mode, InputMode::AddCheckin);
    app.current_queue_index = usize::MAX;
    app.input_mode = InputMode::Normal;
    assert!(!app.can_handle(&AppEvent::Key(KeyInput::Down)));
    assert!(app.can_handle(&AppEvent::Key(KeyInput::Up)));
}
