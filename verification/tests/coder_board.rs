use agent_platform_desktop::coder::{Pending, State, Status, Turn};
use agent_platform_desktop::coder_board::{Board, BoardMessage};
use agent_platform_desktop::coder_turn::{Effect, Message};

fn board_on(root: &str) -> Board {
    let mut state = State::with_root(root, false, false);
    state.thread_id = Some(1);
    Board::new(state)
}

fn send(board: &mut Board, id: u64, prompt: &str) -> Vec<(u64, Effect)> {
    let _ = board.update(BoardMessage::For(id, Message::DraftChanged(prompt.into())));
    board.update(BoardMessage::For(id, Message::Send(prompt.into())))
}

fn is_user(t: &Turn, text: &str) -> bool {
    matches!(t, Turn::User(x) if x == text)
}

#[test]
fn two_sessions_on_two_folders_each_run_their_own_turn() {
    let mut board = board_on("D:/work/one");
    let _ = board.update(BoardMessage::New);
    let second = board.rows[1].id;
    let _ = board.update(BoardMessage::For(
        second,
        Message::RootPicked { path: "D:/work/two".into(), agents_md: false, git_repo: false },
    ));

    let fx1 = send(&mut board, 1, "first");
    let fx2 = send(&mut board, second, "second");

    assert_eq!(board.rows.len(), 2);
    assert!(board.get(1).unwrap().sending);
    assert!(board.get(second).unwrap().sending);
    assert_eq!(board.get(1).unwrap().turns.len(), 1, "one turn each, not two in one");
    assert!(is_user(&board.get(1).unwrap().turns[0], "first"));
    assert!(is_user(&board.get(second).unwrap().turns[0], "second"));
    assert!(board.get(1).unwrap().error.is_none());
    assert!(board.get(second).unwrap().error.is_none());
    assert!(fx1.iter().all(|(id, _)| *id == 1), "each effect is tagged with its session");
    assert!(fx2.iter().all(|(id, _)| *id == second));
    assert!(fx1.iter().any(|(_, e)| matches!(e, Effect::Stream(q) if q.message == "first")));
    assert!(
        fx2.iter().any(|(_, e)| matches!(e, Effect::CreateThread(r) if r == "D:/work/two")),
        "a new folder opens a thread of its own first"
    );
}

#[test]
fn a_second_session_will_not_run_a_turn_in_a_folder_already_working() {
    let mut board = board_on("D:/work/one");
    let _ = board.update(BoardMessage::New);
    let second = board.rows[1].id;

    let _ = send(&mut board, 1, "first");
    let fx = send(&mut board, second, "second");

    assert!(board.get(1).unwrap().sending);
    assert!(!board.get(second).unwrap().sending, "same checkout, so it does not start");
    assert!(board.get(second).unwrap().turns.is_empty(), "and no row for a turn that never ran");
    let refusal = board.get(second).unwrap().error.clone().unwrap_or_default();
    assert!(refusal.contains("Isolate"), "the refusal names the way out: {refusal}");
    assert!(board.get(1).unwrap().error.is_none());
    assert!(fx.is_empty());
}

#[test]
fn a_session_waiting_on_an_approval_still_holds_its_checkout() {
    let mut board = board_on("D:/work/one");
    let _ = board.update(BoardMessage::New);
    let second = board.rows[1].id;

    board.sessions[0].state.pending =
        Some(Pending { call_id: "c1".into(), command: "cargo test".into() });
    assert!(!board.sessions[0].state.sending, "parked, not streaming");

    let _ = send(&mut board, second, "meanwhile");
    assert_eq!(board.rows[0].status, Status::Awaiting, "and the board says so");
    assert!(!board.get(second).unwrap().sending, "the folder is still spoken for");
    assert!(board.get(second).unwrap().error.is_some());
}

#[test]
fn a_frame_for_a_closed_session_lands_nowhere() {
    let mut board = board_on("D:/work/one");
    let _ = board.update(BoardMessage::New);
    let second = board.rows[1].id;
    let _ = send(&mut board, second, "second");

    let fx = board.update(BoardMessage::Close(second));
    assert_eq!(board.rows.len(), 1);
    assert_eq!(board.rows[0].id, 1);
    assert!(fx.iter().all(|(id, _)| *id == second), "the stop goes to the closed session");

    let fx = board.update(BoardMessage::For(second, Message::DraftChanged("late".into())));
    assert!(fx.is_empty());
    assert!(board.get(1).unwrap().draft.is_empty(), "the survivor is untouched");
}

#[test]
fn closing_the_last_session_starts_a_fresh_one_instead() {
    let mut board = board_on("D:/work/one");
    let _ = send(&mut board, 1, "hello");
    assert_eq!(board.active().turns.len(), 1);

    let _ = board.update(BoardMessage::Close(1));
    assert_eq!(board.rows.len(), 1);
    assert!(board.active().turns.is_empty(), "the conversation went");
    assert_eq!(board.active().root_label(), "D:/work/one", "the folder stayed");
    assert_eq!(board.rows[0].id, 1, "the slot is started over, not replaced");
}

#[test]
fn an_always_allow_rule_reaches_every_session() {
    let mut board = board_on("D:/work/one");
    let _ = board.update(BoardMessage::New);
    let second = board.rows[1].id;

    board.sessions[1].state.pending =
        Some(Pending { call_id: "c1".into(), command: "cargo test --lib".into() });
    let _ = board.update(BoardMessage::For(second, Message::AlwaysAllow));

    let rules = board.get(1).unwrap().rules().to_vec();
    assert_eq!(rules, vec!["cargo test".to_string()], "the other tab has it too");
}

#[test]
fn selecting_a_session_puts_it_on_screen() {
    let mut board = board_on("D:/work/one");
    let _ = send(&mut board, 1, "first");
    let _ = board.update(BoardMessage::New);

    assert!(board.active().turns.is_empty(), "the new one is on screen and it is empty");
    assert!(board.rows[1].active);

    let _ = board.update(BoardMessage::Select(1));
    assert_eq!(board.active().turns.len(), 1);
    assert!(board.rows[0].active);
    assert_eq!(board.rows[0].title, "first", "a session is named by what it was asked");
    assert_eq!(board.rows[1].title, "New session");
    assert_eq!(board.rows[0].status, Status::Running);
    assert_eq!(board.rows[1].status, Status::Idle);
}

#[test]
fn ids_are_never_reused() {
    let mut board = board_on("D:/work/one");
    let _ = board.update(BoardMessage::New);
    let second = board.rows[1].id;
    let _ = board.update(BoardMessage::Close(second));
    let _ = board.update(BoardMessage::New);
    let third = board.rows[1].id;
    assert_ne!(third, second);
    assert_ne!(third, 1);
}
