use archflow_logic::command::{AnyCommand, CommandHistory, StoreWrite, DEFAULT_MAX_HISTORY};

#[derive(Clone, Copy, Debug, PartialEq)]
struct Vec2 {
    x: f32,
    y: f32,
}

impl Vec2 {
    fn new(x: f32, y: f32) -> Self {
        Vec2 { x, y }
    }
}

/// A small entity store holding the fields that commands write.
struct EntityStore {
    pos: Vec<Vec2>,
    size: Vec<Vec2>,
    color: Vec<u32>,
    visible: Vec<bool>,
    selected: Vec<bool>,
    layer: Vec<u8>,
}

impl EntityStore {
    fn new() -> Self {
        EntityStore {
            pos: Vec::new(),
            size: Vec::new(),
            color: Vec::new(),
            visible: Vec::new(),
            selected: Vec::new(),
            layer: Vec::new(),
        }
    }

    fn spawn(&mut self, pos: Vec2, size: Vec2) {
        self.pos.push(pos);
        self.size.push(size);
        self.color.push(0);
        self.visible.push(true);
        self.selected.push(false);
        self.layer.push(0);
    }

    fn pos(&self, idx: usize) -> Vec2 {
        self.pos[idx]
    }

    fn apply(&mut self, w: StoreWrite<Vec2>) {
        match w {
            StoreWrite::Position { entity_idx, value } => self.pos[entity_idx] = value,
            StoreWrite::Size { entity_idx, value } => self.size[entity_idx] = value,
            StoreWrite::Color { entity_idx, value } => self.color[entity_idx] = value,
            StoreWrite::Visible { entity_idx, value } => self.visible[entity_idx] = value,
            StoreWrite::Selected { entity_idx, value } => self.selected[entity_idx] = value,
            StoreWrite::Layer { entity_idx, value } => self.layer[entity_idx] = value,
        }
    }
}

fn create_test_store() -> EntityStore {
    EntityStore::new()
}

fn execute(history: &mut CommandHistory<Vec2>, cmd: AnyCommand<Vec2>, store: &mut EntityStore) {
    let w = history.execute(cmd);
    store.apply(w);
}

fn undo(history: &mut CommandHistory<Vec2>, store: &mut EntityStore) -> bool {
    match history.undo() {
        Some(w) => {
            store.apply(w);
            true
        }
        None => false,
    }
}

fn redo(history: &mut CommandHistory<Vec2>, store: &mut EntityStore) -> bool {
    match history.redo() {
        Some(w) => {
            store.apply(w);
            true
        }
        None => false,
    }
}

#[test]
fn test_move_command() {
    let mut store = create_test_store();
    store.spawn(Vec2::new(0.0, 0.0), Vec2::new(50.0, 50.0)); // Entity at index 0

    let cmd = AnyCommand::move_entity(0, Vec2::new(0.0, 0.0), Vec2::new(100.0, 100.0));
    assert_eq!(store.pos(0), Vec2::new(0.0, 0.0));

    store.apply(cmd.execute());
    assert_eq!(store.pos(0), Vec2::new(100.0, 100.0));

    store.apply(cmd.rollback());
    assert_eq!(store.pos(0), Vec2::new(0.0, 0.0));
}

#[test]
fn test_command_history_undo_redo() {
    let mut store = create_test_store();
    store.spawn(Vec2::new(0.0, 0.0), Vec2::new(50.0, 50.0)); // Entity at index 0

    let mut history = CommandHistory::new();

    // Initially nothing to undo/redo
    assert!(!history.can_undo());
    assert!(!history.can_redo());

    // Execute a move command
    let cmd = AnyCommand::move_entity(0, Vec2::new(0.0, 0.0), Vec2::new(100.0, 100.0));
    execute(&mut history, cmd, &mut store);

    assert!(history.can_undo());
    assert!(!history.can_redo());
    assert_eq!(store.pos(0), Vec2::new(100.0, 100.0));

    // Undo
    assert!(undo(&mut history, &mut store));
    assert_eq!(store.pos(0), Vec2::new(0.0, 0.0));
    assert!(history.can_redo());

    // Redo
    assert!(redo(&mut history, &mut store));
    assert_eq!(store.pos(0), Vec2::new(100.0, 100.0));
    assert!(!history.can_redo());
}

#[test]
fn test_command_history_clear() {
    let mut store = create_test_store();
    store.spawn(Vec2::new(0.0, 0.0), Vec2::new(50.0, 50.0));

    let mut history = CommandHistory::new();
    let cmd = AnyCommand::move_entity(0, Vec2::new(0.0, 0.0), Vec2::new(100.0, 100.0));
    execute(&mut history, cmd, &mut store);

    assert!(history.can_undo());

    history.clear();

    assert!(!history.can_undo());
    assert!(!history.can_redo());
}

#[test]
fn test_command_description() {
    let move_cmd = AnyCommand::move_entity(0, Vec2::new(0.0, 0.0), Vec2::new(100.0, 100.0));
    assert_eq!(move_cmd.description(), "Move");

    let resize_cmd = AnyCommand::resize_entity(0, Vec2::new(50.0, 50.0), Vec2::new(100.0, 100.0));
    assert_eq!(resize_cmd.description(), "Resize");
}

#[test]
fn test_batch_commands() {
    let mut store = create_test_store();
    store.spawn(Vec2::new(0.0, 0.0), Vec2::new(50.0, 50.0));

    let mut history = CommandHistory::new();

    // Start batch - commands executed in batch are grouped together
    history.begin_batch();

    // Execute multiple moves
    let cmd1 = AnyCommand::move_entity(0, Vec2::new(0.0, 0.0), Vec2::new(10.0, 10.0));
    execute(&mut history, cmd1, &mut store);

    let cmd2 = AnyCommand::move_entity(0, Vec2::new(10.0, 10.0), Vec2::new(20.0, 20.0));
    execute(&mut history, cmd2, &mut store);

    history.end_batch();

    assert_eq!(store.pos(0), Vec2::new(20.0, 20.0));

    // Undo goes back one command at a time
    assert!(undo(&mut history, &mut store));
    assert_eq!(store.pos(0), Vec2::new(10.0, 10.0));
}

#[test]
fn test_new_command_clears_redo() {
    let mut store = create_test_store();
    store.spawn(Vec2::new(0.0, 0.0), Vec2::new(50.0, 50.0));

    let mut history = CommandHistory::new();

    // Execute and undo
    let cmd1 = AnyCommand::move_entity(0, Vec2::new(0.0, 0.0), Vec2::new(100.0, 100.0));
    execute(&mut history, cmd1, &mut store);
    undo(&mut history, &mut store);

    assert!(history.can_redo());

    // Execute new command
    let cmd2 = AnyCommand::move_entity(0, Vec2::new(0.0, 0.0), Vec2::new(50.0, 50.0));
    execute(&mut history, cmd2, &mut store);

    // Redo stack should be cleared
    assert!(!history.can_redo());
}

#[test]
fn test_undo_n_and_redo_n() {
    let mut store = create_test_store();
    store.spawn(Vec2::new(0.0, 0.0), Vec2::new(50.0, 50.0));

    let mut history = CommandHistory::new();

    // Execute multiple commands
    execute(
        &mut history,
        AnyCommand::move_entity(0, Vec2::new(0.0, 0.0), Vec2::new(10.0, 10.0)),
        &mut store,
    );
    execute(
        &mut history,
        AnyCommand::move_entity(0, Vec2::new(10.0, 10.0), Vec2::new(20.0, 20.0)),
        &mut store,
    );
    execute(
        &mut history,
        AnyCommand::move_entity(0, Vec2::new(20.0, 20.0), Vec2::new(30.0, 30.0)),
        &mut store,
    );

    assert_eq!(store.pos(0), Vec2::new(30.0, 30.0));
    assert_eq!(history.undo_count(), 3);

    // Undo 2
    for w in history.undo_n(2) {
        store.apply(w);
    }
    assert_eq!(store.pos(0), Vec2::new(10.0, 10.0));
    assert_eq!(history.redo_count(), 2);

    // Redo 1
    for w in history.redo_n(1) {
        store.apply(w);
    }
    assert_eq!(store.pos(0), Vec2::new(20.0, 20.0));
}

#[test]
fn command_history_drops_oldest_beyond_bound() {
    let mut history: CommandHistory<i32> = CommandHistory::with_max_history(2);
    history.execute(AnyCommand::SetColor { entity_idx: 0, old_color: 0, new_color: 1 });
    history.execute(AnyCommand::SetColor { entity_idx: 0, old_color: 1, new_color: 2 });
    history.execute(AnyCommand::SetColor { entity_idx: 0, old_color: 2, new_color: 3 });
    assert_eq!(history.undo_count(), 2);
    let writes = history.undo_n(5);
    assert_eq!(writes.len(), 2);
    assert!(matches!(writes[0], StoreWrite::Color { entity_idx: 0, value: 2 }));
    assert!(matches!(writes[1], StoreWrite::Color { entity_idx: 0, value: 1 }));
    assert!(history.undo().is_none());
}

#[test]
fn command_history_batch_stays_bounded() {
    let mut history: CommandHistory<i32> = CommandHistory::with_max_history(1);
    history.begin_batch();
    history.execute(AnyCommand::move_entity(0, 0, 1));
    history.execute(AnyCommand::move_entity(0, 1, 2));
    assert_eq!(history.undo_count(), 1);
    history.execute(AnyCommand::SetLayer { entity_idx: 0, old_layer: 0, new_layer: 1 });
    assert_eq!(history.undo_count(), 1);
    history.end_batch();
    history.execute(AnyCommand::move_entity(0, 2, 3));
    assert_eq!(history.undo_count(), 1);
    assert_eq!(history.undo_description(), "Move");
}

#[test]
fn command_descriptions_and_undo_labels() {
    let select: AnyCommand<i32> = AnyCommand::Select { entity_idx: 1, was_selected: false, now_selected: true };
    let deselect: AnyCommand<i32> = AnyCommand::Select { entity_idx: 1, was_selected: true, now_selected: false };
    assert_eq!(select.description(), "Select");
    assert_eq!(deselect.description(), "Deselect");
    let mut history: CommandHistory<i32> = CommandHistory::default();
    assert_eq!(history.undo_description(), "");
    assert_eq!(DEFAULT_MAX_HISTORY, 100);
    history.execute(AnyCommand::SetVisibility { entity_idx: 3, was_visible: true, now_visible: false });
    assert_eq!(history.undo_description(), "Set Visibility");
    assert!(matches!(history.undo(), Some(StoreWrite::Visible { entity_idx: 3, value: true })));
    assert_eq!(history.redo_description(), "Set Visibility");
    assert!(matches!(history.redo(), Some(StoreWrite::Visible { entity_idx: 3, value: false })));
}

#[test]
fn command_rollback_restores_every_field() {
    let mut store = create_test_store();
    store.spawn(Vec2::new(1.0, 2.0), Vec2::new(3.0, 4.0));
    let cmds = [
        AnyCommand::SetSize { entity_idx: 0, old_size: Vec2::new(3.0, 4.0), new_size: Vec2::new(5.0, 6.0) },
        AnyCommand::SetColor { entity_idx: 0, old_color: 0, new_color: 7 },
        AnyCommand::SetLayer { entity_idx: 0, old_layer: 0, new_layer: 9 },
        AnyCommand::SetVisibility { entity_idx: 0, was_visible: true, now_visible: false },
    ];
    for cmd in cmds.iter() {
        store.apply(cmd.execute());
        store.apply(cmd.rollback());
    }
    assert_eq!(store.size[0], Vec2::new(3.0, 4.0));
    assert_eq!(store.color[0], 0);
    assert_eq!(store.layer[0], 0);
    assert!(store.visible[0]);
    assert!(!store.selected[0]);
}
