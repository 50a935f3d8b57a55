use trivianetdmr::state::App;
use trivianetdmr::ui::centered_rect;
use trivianetdmr::ui::Area;
use trivianetdmr::ui::QueueRow;
use trivianetdmr::ui::RowStatus;

#[test]
fn queue_rows_mark_turns() {
    let mut app = App::new();
    app.add_participant("W1AW".to_string());
    app.add_participant("K1ABC".to_string());
    app.add_participant("N1AAA".to_string());
    app.next_turn();
    app.queue.push(42);
    let rows = app.queue_rows();
    assert_eq!(
        rows,
        vec![
            QueueRow { position: 0, participant: 0, status: RowStatus::Done },
            QueueRow { position: 1, participant: 1, status: RowStatus::Active },
            QueueRow { position: 2, participant: 2, status: RowStatus::Pending },
        ]
    );
}

#[test]
fn turn_progress_and_round_completion() {
    let mut app = App::new();
    assert_eq!(app.turn_progress(), (0, 0));
    assert!(!app.round_completed());
    app.add_participant("W1AW".to_string());
    app.add_participant("K1ABC".to_string());
    assert_eq!(app.turn_progress(), (1, 2));
    app.next_turn();
    assert_eq!(app.turn_progress(), (2, 2));
    assert!(!app.round_completed());
    app.next_turn();
    assert_eq!(app.turn_progress(), (2, 2));
    assert!(app.round_completed());
}

#[test]
fn centered_popup_area() {
    let r = Area { x: 0, y: 0, width: 100, height: 50 };
    let c = centered_rect(50, 20, r);
    assert_eq!(c, Area { x: 25, y: 20, width: 50, height: 10 });
}
