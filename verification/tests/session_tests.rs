use std::collections::VecDeque;
use undo_history::{
    Action, EntryId, History, HistoryItem, PerformAction, Redo, Session, Undo,
};

#[derive(Clone, Copy, PartialEq, Eq, Debug)]
struct GameStore {
    counter: u32,
    pos: (i64, i64, i64),
}

fn start() -> GameStore {
    GameStore { counter: 0, pos: (0, 0, 0) }
}

#[derive(Clone, Copy, PartialEq, Eq, Debug)]
enum GameAction {
    /// Swaps its payload with the store's counter, so it always holds what
    /// the counter held before its most recent apply or undo.
    SetCounter(u32),
    /// Moves the position by a delta; undo subtracts it again.
    MoveBy(i64, i64, i64),
}

impl Action for GameAction {
    type Store = GameStore;

    fn applied(store: GameStore, action: GameAction) -> (GameStore, GameAction) {
        let mut store = store;
        let mut action = action;
        action.apply(&mut store);
        (store, action)
    }

    fn undone(store: GameStore, action: GameAction) -> (GameStore, GameAction) {
        let mut store = store;
        let mut action = action;
        action.undo(&mut store);
        (store, action)
    }

    fn apply(&mut self, store: &mut GameStore) {
        match self {
            GameAction::SetCounter(v) => std::mem::swap(v, &mut store.counter),
            GameAction::MoveBy(dx, dy, dz) => {
                store.pos.0 += *dx;
                store.pos.1 += *dy;
                store.pos.2 += *dz;
            }
        }
    }

    fn undo(&mut self, store: &mut GameStore) {
        match self {
            GameAction::SetCounter(v) => std::mem::swap(v, &mut store.counter),
            GameAction::MoveBy(dx, dy, dz) => {
                store.pos.0 -= *dx;
                store.pos.1 -= *dy;
                store.pos.2 -= *dz;
            }
        }
    }
}

fn perform(session: &mut Session<GameAction>, store: &mut GameStore, action: GameAction) {
    PerformAction { action }.apply(session, store);
}

#[test]
fn perform_applies_and_records() {
    let mut store = start();
    let mut session: Session<GameAction> = Session::new();
    perform(&mut session, &mut store, GameAction::SetCounter(3));
    assert_eq!(store.counter, 3);
    assert_eq!(session.history().items, VecDeque::from(vec![EntryId(0)]));
    assert_eq!(session.history().index, 1);
    assert_eq!(session.resolve(EntryId(0)), Some(&GameAction::SetCounter(0)));
}

#[test]
fn undo_at_start_reports_end_of_history() {
    let mut store = start();
    let mut session: Session<GameAction> = Session::new();
    assert!(!Undo.apply(&mut session, &mut store));
    assert_eq!(store, start());
    assert_eq!(session.history().index, 0);
}

#[test]
fn redo_at_end_reports_end_of_history() {
    let mut store = start();
    let mut session: Session<GameAction> = Session::new();
    perform(&mut session, &mut store, GameAction::SetCounter(3));
    assert!(!Redo.apply(&mut session, &mut store));
    assert_eq!(store.counter, 3);
}

#[test]
fn counter_and_move_scenario() {
    let mut store = start();
    let mut session: Session<GameAction> = Session::new();
    perform(&mut session, &mut store, GameAction::SetCounter(3));
    assert_eq!(store.counter, 3);
    perform(&mut session, &mut store, GameAction::MoveBy(100, 0, 0));
    assert_eq!(store.pos, (100, 0, 0));

    assert!(Undo.apply(&mut session, &mut store));
    assert!(Undo.apply(&mut session, &mut store));
    assert!(Redo.apply(&mut session, &mut store));
    assert!(Undo.apply(&mut session, &mut store));

    assert_eq!(session.history().index, 0);
    assert_eq!(store.counter, 0);
    assert_eq!(store.pos, (0, 0, 0));
}

#[test]
fn perform_destroys_discarded_future_entries() {
    let mut store = start();
    let mut session: Session<GameAction> = Session::new();
    perform(&mut session, &mut store, GameAction::SetCounter(3));
    perform(&mut session, &mut store, GameAction::MoveBy(1, 0, 0));
    let id_a = session.history().items[0];
    let id_b = session.history().items[1];
    assert_eq!(session.history().index, 2);

    assert!(Undo.apply(&mut session, &mut store));
    assert_eq!(session.history().index, 1);

    perform(&mut session, &mut store, GameAction::SetCounter(7));
    let id_c = session.history().items[1];
    assert_eq!(
        session.history().items,
        VecDeque::from(vec![id_a, id_c])
    );
    assert_ne!(id_b, id_c);
    assert_eq!(session.history().index, 2);
    assert!(session.resolve(id_b).is_none());
    assert!(session.resolve(id_a).is_some());
    assert_eq!(store.counter, 7);
}

#[test]
fn round_trip_restores_store() {
    let mut store = start();
    let mut session: Session<GameAction> = Session::new();
    perform(&mut session, &mut store, GameAction::SetCounter(3));
    perform(&mut session, &mut store, GameAction::MoveBy(100, 0, 0));
    perform(&mut session, &mut store, GameAction::SetCounter(11));
    assert_ne!(store, start());
    assert!(Undo.apply(&mut session, &mut store));
    assert!(Undo.apply(&mut session, &mut store));
    assert!(Undo.apply(&mut session, &mut store));
    assert_eq!(store, start());
}

#[test]
fn undo_redo_undo_oscillation() {
    let mut store = start();
    let mut session: Session<GameAction> = Session::new();
    perform(&mut session, &mut store, GameAction::SetCounter(5));

    assert!(Undo.apply(&mut session, &mut store));
    let after_first_undo = store;

    assert!(Redo.apply(&mut session, &mut store));
    assert_eq!(store.counter, 5);
    assert!(Undo.apply(&mut session, &mut store));
    assert_eq!(store, after_first_undo);
}

#[test]
fn restore_resumes_with_saved_cursor() {
    let actions = vec![
        Some(GameAction::SetCounter(0)),
        Some(GameAction::MoveBy(1, 2, 3)),
        Some(GameAction::SetCounter(9)),
    ];
    let history = History {
        items: VecDeque::from(vec![EntryId(0), EntryId(1), EntryId(2)]),
        index: 2,
    };
    let mut session = Session::restore(actions, history).unwrap();
    assert_eq!(session.history().index, 2);

    let mut store = GameStore { counter: 3, pos: (1, 2, 3) };
    assert!(Redo.apply(&mut session, &mut store));
    assert_eq!(store.counter, 9);
    assert_eq!(session.history().index, 3);
    assert!(!Redo.apply(&mut session, &mut store));
}

#[test]
fn restore_rejects_out_of_range_handle() {
    let actions = vec![Some(GameAction::SetCounter(1))];
    let history = History { items: VecDeque::from(vec![EntryId(5)]), index: 1 };
    assert!(Session::restore(actions, history).is_none());
}

#[test]
fn restore_rejects_vacant_slot() {
    let actions: Vec<Option<GameAction>> = vec![None];
    let history = History { items: VecDeque::from(vec![EntryId(0)]), index: 1 };
    assert!(Session::restore(actions, history).is_none());
}

#[test]
fn restore_rejects_duplicate_handles() {
    let actions = vec![Some(GameAction::SetCounter(1)), Some(GameAction::SetCounter(2))];
    let history = History {
        items: VecDeque::from(vec![EntryId(0), EntryId(0)]),
        index: 2,
    };
    assert!(Session::restore(actions, history).is_none());
}

#[test]
fn restore_accepts_vacant_slot_no_handle_names() {
    let actions = vec![Some(GameAction::SetCounter(1)), None];
    let history = History { items: VecDeque::from(vec![EntryId(0)]), index: 1 };
    let session = Session::restore(actions, history).unwrap();
    assert!(session.resolve(EntryId(1)).is_none());
    assert_eq!(session.resolve(EntryId(0)), Some(&GameAction::SetCounter(1)));
}

#[test]
fn resolve_unknown_handle_is_none() {
    let session: Session<GameAction> = Session::new();
    assert!(session.resolve(EntryId(0)).is_none());
}

#[test]
fn compact_remap_restore_then_round_trip() {
    let mut store = start();
    let mut session: Session<GameAction> = Session::new();
    perform(&mut session, &mut store, GameAction::SetCounter(3));
    perform(&mut session, &mut store, GameAction::MoveBy(1, 0, 0));
    assert!(Undo.apply(&mut session, &mut store));
    perform(&mut session, &mut store, GameAction::SetCounter(7));
    assert_eq!(
        session.history().items,
        VecDeque::from(vec![EntryId(0), EntryId(2)])
    );

    // Persist only the live entries, densely, and remap the history onto
    // the new slot numbers.
    let mut actions: Vec<Option<GameAction>> = Vec::new();
    let mut mapping: Vec<(usize, usize)> = Vec::new();
    for handle in session.history().items.iter() {
        let action = *session.resolve(*handle).unwrap();
        mapping.push((handle.0, actions.len()));
        actions.push(Some(action));
    }
    let mut history = session.history().clone();
    history.remap(&|e: EntryId| {
        for (from, to) in mapping.iter() {
            if *from == e.0 {
                return EntryId(*to);
            }
        }
        e
    });
    assert_eq!(history.items, VecDeque::from(vec![EntryId(0), EntryId(1)]));

    let mut reloaded = Session::restore(actions, history).unwrap();
    assert_eq!(reloaded.history().index, 2);
    assert!(Undo.apply(&mut reloaded, &mut store));
    assert!(Undo.apply(&mut reloaded, &mut store));
    assert_eq!(store, start());
}

#[test]
fn history_item_dispatches_undo_and_redo() {
    let mut store = start();
    let mut action = GameAction::SetCounter(3);
    action.apply(&mut store);
    assert_eq!(store.counter, 3);

    let mut item = HistoryItem::new(action);
    item.undo(&mut store);
    assert_eq!(store.counter, 0);
    item.redo(&mut store);
    assert_eq!(store.counter, 3);
    assert_eq!(item.action(), &GameAction::SetCounter(0));
    assert_eq!(item.into_action(), GameAction::SetCounter(0));
}
