//! Reversible editor commands and the undo/redo history.
//!
//! A command knows the field it changes, its value before and its value
//! after. Executing a command and rolling it back are each one write to the
//! entity store; the history decides which write is due and the caller
//! performs it on its store.

use vstd::prelude::*;

verus! {

/// Maximum command history size (prevent memory bloat)
pub const DEFAULT_MAX_HISTORY: usize = 100;

/// All possible commands in the system, over the store's vector type `V`
/// (a position or a size).
#[derive(Clone, Copy, Debug)]
pub enum AnyCommand<V> {
    /// Move an entity to a new position (by index)
    Move {
        /// Entity index in store
        entity_idx: usize,
        /// Previous position
        from: V,
        /// New position
        to: V,
    },
    /// Resize an entity
    Resize {
        /// Entity index
        entity_idx: usize,
        /// Previous size
        from: V,
        /// New size
        to: V,
    },
    /// Set entity position (absolute)
    SetPosition {
        /// Entity index
        entity_idx: usize,
        /// Previous position
        old_pos: V,
        /// New position
        new_pos: V,
    },
    /// Set entity size (absolute)
    SetSize {
        /// Entity index
        entity_idx: usize,
        /// Previous size
        old_size: V,
        /// New size
        new_size: V,
    },
    /// Set entity color (RGBA packed)
    SetColor {
        /// Entity index
        entity_idx: usize,
        /// Previous color
        old_color: u32,
        /// New color
        new_color: u32,
    },
    /// Set entity visibility
    SetVisibility {
        /// Entity index
        entity_idx: usize,
        /// Previous visibility state
        was_visible: bool,
        /// New visibility state
        now_visible: bool,
    },
    /// Set entity selection state
    Select {
        /// Entity index
        entity_idx: usize,
        /// Previous selection state
        was_selected: bool,
        /// New selection state
        now_selected: bool,
    },
    /// Set entity layer
    SetLayer {
        /// Entity index
        entity_idx: usize,
        /// Previous layer
        old_layer: u8,
        /// New layer
        new_layer: u8,
    },
}

/// One write to one field of one entity in the entity store.
#[derive(Clone, Copy, Debug)]
pub enum StoreWrite<V> {
    /// Set the entity's position
    Position { entity_idx: usize, value: V },
    /// Set the entity's size
    Size { entity_idx: usize, value: V },
    /// Set the entity's packed color
    Color { entity_idx: usize, value: u32 },
    /// Set whether the entity is visible
    Visible { entity_idx: usize, value: bool },
    /// Set whether the entity is selected
    Selected { entity_idx: usize, value: bool },
    /// Set the entity's layer
    Layer { entity_idx: usize, value: u8 },
}

/// The write that executing `c` performs: its new value into its field.
pub open spec fn execute_write<V>(c: AnyCommand<V>) -> StoreWrite<V> {
    match c {
        AnyCommand::Move { entity_idx, to, .. } => StoreWrite::Position { entity_idx, value: to },
        AnyCommand::Resize { entity_idx, to, .. } => StoreWrite::Size { entity_idx, value: to },
        AnyCommand::SetPosition { entity_idx, new_pos, .. } => StoreWrite::Position { entity_idx, value: new_pos },
        AnyCommand::SetSize { entity_idx, new_size, .. } => StoreWrite::Size { entity_idx, value: new_size },
        AnyCommand::SetColor { entity_idx, new_color, .. } => StoreWrite::Color { entity_idx, value: new_color },
        AnyCommand::SetVisibility { entity_idx, now_visible, .. } => StoreWrite::Visible {
            entity_idx,
            value: now_visible,
        },
        AnyCommand::Select { entity_idx, now_selected, .. } => StoreWrite::Selected {
            entity_idx,
            value: now_selected,
        },
        AnyCommand::SetLayer { entity_idx, new_layer, .. } => StoreWrite::Layer { entity_idx, value: new_layer },
    }
}

/// The write that rolling back `c` performs: its old value into its field.
pub open spec fn rollback_write<V>(c: AnyCommand<V>) -> StoreWrite<V> {
    match c {
        AnyCommand::Move { entity_idx, from, .. } => StoreWrite::Position { entity_idx, value: from },
        AnyCommand::Resize { entity_idx, from, .. } => StoreWrite::Size { entity_idx, value: from },
        AnyCommand::SetPosition { entity_idx, old_pos, .. } => StoreWrite::Position { entity_idx, value: old_pos },
        AnyCommand::SetSize { entity_idx, old_size, .. } => StoreWrite::Size { entity_idx, value: old_size },
        AnyCommand::SetColor { entity_idx, old_color, .. } => StoreWrite::Color { entity_idx, value: old_color },
        AnyCommand::SetVisibility { entity_idx, was_visible, .. } => StoreWrite::Visible {
            entity_idx,
            value: was_visible,
        },
        AnyCommand::Select { entity_idx, was_selected, .. } => StoreWrite::Selected {
            entity_idx,
            value: was_selected,
        },
        AnyCommand::SetLayer { entity_idx, old_layer, .. } => StoreWrite::Layer { entity_idx, value: old_layer },
    }
}

/// The label of a command for the undo menu.
pub open spec fn description_of<V>(c: AnyCommand<V>) -> Seq<char> {
    match c {
        AnyCommand::Move { .. } => "Move"@,
        AnyCommand::Resize { .. } => "Resize"@,
        AnyCommand::SetPosition { .. } => "Set Position"@,
        AnyCommand::SetSize { .. } => "Set Size"@,
        AnyCommand::SetColor { .. } => "Set Color"@,
        AnyCommand::SetVisibility { .. } => "Set Visibility"@,
        AnyCommand::Select { now_selected, .. } => if now_selected {
            "Select"@
        } else {
            "Deselect"@
        },
        AnyCommand::SetLayer { .. } => "Set Layer"@,
    }
}

impl<V: Copy> AnyCommand<V> {
    /// Create a move command
    pub fn move_entity(entity_idx: usize, from: V, to: V) -> (r: Self)
        ensures
            r == (AnyCommand::Move { entity_idx, from, to }),
    {
        AnyCommand::Move { entity_idx, from, to }
    }

    /// Create a resize command
    pub fn resize_entity(entity_idx: usize, from: V, to: V) -> (r: Self)
        ensures
            r == (AnyCommand::Resize { entity_idx, from, to }),
    {
        AnyCommand::Resize { entity_idx, from, to }
    }

    /// Get command description
    pub fn description(&self) -> (r: &'static str)
        ensures
            r@ == description_of(*self),
    {
        match self {
            AnyCommand::Move { .. } => "Move",
            AnyCommand::Resize { .. } => "Resize",
            AnyCommand::SetPosition { .. } => "Set Position",
            AnyCommand::SetSize { .. } => "Set Size",
            AnyCommand::SetColor { .. } => "Set Color",
            AnyCommand::SetVisibility { .. } => "Set Visibility",
            AnyCommand::Select { now_selected, .. } => if *now_selected {
                "Select"
            } else {
                "Deselect"
            },
            AnyCommand::SetLayer { .. } => "Set Layer",
        }
    }

    /// The store write that executes the command: its new value into its field
    pub fn execute(&self) -> (r: StoreWrite<V>)
        ensures
            r == execute_write(*self),
    {
        match self {
            AnyCommand::Move { entity_idx, to, .. } => StoreWrite::Position { entity_idx: *entity_idx, value: *to },
            AnyCommand::Resize { entity_idx, to, .. } => StoreWrite::Size { entity_idx: *entity_idx, value: *to },
            AnyCommand::SetPosition { entity_idx, new_pos, .. } => StoreWrite::Position {
                entity_idx: *entity_idx,
                value: *new_pos,
            },
            AnyCommand::SetSize { entity_idx, new_size, .. } => StoreWrite::Size {
                entity_idx: *entity_idx,
                value: *new_size,
            },
            AnyCommand::SetColor { entity_idx, new_color, .. } => StoreWrite::Color {
                entity_idx: *entity_idx,
                value: *new_color,
            },
            AnyCommand::SetVisibility { entity_idx, now_visible, .. } => StoreWrite::Visible {
                entity_idx: *entity_idx,
                value: *now_visible,
            },
            AnyCommand::Select { entity_idx, now_selected, .. } => StoreWrite::Selected {
                entity_idx: *entity_idx,
                value: *now_selected,
            },
            AnyCommand::SetLayer { entity_idx, new_layer, .. } => StoreWrite::Layer {
                entity_idx: *entity_idx,
                value: *new_layer,
            },
        }
    }

    /// The store write that rolls the command back: its old value into its field
    pub fn rollback(&self) -> (r: StoreWrite<V>)
        ensures
            r == rollback_write(*self),
    {
        match self {
            AnyCommand::Move { entity_idx, from, .. } => StoreWrite::Position { entity_idx: *entity_idx, value: *from },
            AnyCommand::Resize { entity_idx, from, .. } => StoreWrite::Size { entity_idx: *entity_idx, value: *from },
            AnyCommand::SetPosition { entity_idx, old_pos, .. } => StoreWrite::Position {
                entity_idx: *entity_idx,
                value: *old_pos,
            },
            AnyCommand::SetSize { entity_idx, old_size, .. } => StoreWrite::Size {
                entity_idx: *entity_idx,
                value: *old_size,
            },
            AnyCommand::SetColor { entity_idx, old_color, .. } => StoreWrite::Color {
                entity_idx: *entity_idx,
                value: *old_color,
            },
            AnyCommand::SetVisibility { entity_idx, was_visible, .. } => StoreWrite::Visible {
                entity_idx: *entity_idx,
                value: *was_visible,
            },
            AnyCommand::Select { entity_idx, was_selected, .. } => StoreWrite::Selected {
                entity_idx: *entity_idx,
                value: *was_selected,
            },
            AnyCommand::SetLayer { entity_idx, old_layer, .. } => StoreWrite::Layer {
                entity_idx: *entity_idx,
                value: *old_layer,
            },
        }
    }
}

/// The fields of the entity store that commands write, by entity index.
pub struct StoreModel<V> {
    pub pos: Map<usize, V>,
    pub size: Map<usize, V>,
    pub color: Map<usize, u32>,
    pub visible: Map<usize, bool>,
    pub selected: Map<usize, bool>,
    pub layer: Map<usize, u8>,
}

/// The store after one write.
pub open spec fn apply_write<V>(s: StoreModel<V>, w: StoreWrite<V>) -> StoreModel<V> {
    match w {
        StoreWrite::Position { entity_idx, value } => StoreModel { pos: s.pos.insert(entity_idx, value), ..s },
        StoreWrite::Size { entity_idx, value } => StoreModel { size: s.size.insert(entity_idx, value), ..s },
        StoreWrite::Color { entity_idx, value } => StoreModel { color: s.color.insert(entity_idx, value), ..s },
        StoreWrite::Visible { entity_idx, value } => StoreModel { visible: s.visible.insert(entity_idx, value), ..s },
        StoreWrite::Selected { entity_idx, value } => StoreModel {
            selected: s.selected.insert(entity_idx, value),
            ..s
        },
        StoreWrite::Layer { entity_idx, value } => StoreModel { layer: s.layer.insert(entity_idx, value), ..s },
    }
}

/// Executing a command sets its entity's field to the command's new value,
/// and rolling it back sets that field to the command's old value: a move
/// or a position set changes the position, a resize or a size set the size,
/// and so on for color, visibility, selection and layer.
pub proof fn lemma_execute_sets_new_value<V>(s: StoreModel<V>, c: AnyCommand<V>)
    ensures
        ({
            let done = apply_write(s, execute_write(c));
            let undone = apply_write(s, rollback_write(c));
            match c {
                AnyCommand::Move { entity_idx, from, to } => done.pos.contains_key(entity_idx) && done.pos[entity_idx]
                    == to && undone.pos[entity_idx] == from && done.size == s.size,
                AnyCommand::Resize { entity_idx, from, to } => done.size.contains_key(entity_idx)
                    && done.size[entity_idx] == to && undone.size[entity_idx] == from && done.pos == s.pos,
                AnyCommand::SetPosition { entity_idx, old_pos, new_pos } => done.pos[entity_idx] == new_pos
                    && undone.pos[entity_idx] == old_pos && done.size == s.size,
                AnyCommand::SetSize { entity_idx, old_size, new_size } => done.size[entity_idx] == new_size
                    && undone.size[entity_idx] == old_size && done.pos == s.pos,
                AnyCommand::SetColor { entity_idx, old_color, new_color } => done.color[entity_idx] == new_color
                    && undone.color[entity_idx] == old_color,
                AnyCommand::SetVisibility { entity_idx, was_visible, now_visible } => done.visible[entity_idx]
                    == now_visible && undone.visible[entity_idx] == was_visible,
                AnyCommand::Select { entity_idx, was_selected, now_selected } => done.selected[entity_idx]
                    == now_selected && undone.selected[entity_idx] == was_selected,
                AnyCommand::SetLayer { entity_idx, old_layer, new_layer } => done.layer[entity_idx] == new_layer
                    && undone.layer[entity_idx] == old_layer,
            }
        }),
{
}

/// The store holds the value that `c` replaces, in the field it writes.
pub open spec fn holds_old_value<V>(s: StoreModel<V>, c: AnyCommand<V>) -> bool {
    match c {
        AnyCommand::Move { entity_idx, from, .. } => s.pos.contains_key(entity_idx) && s.pos[entity_idx] == from,
        AnyCommand::Resize { entity_idx, from, .. } => s.size.contains_key(entity_idx) && s.size[entity_idx] == from,
        AnyCommand::SetPosition { entity_idx, old_pos, .. } => s.pos.contains_key(entity_idx) && s.pos[entity_idx]
            == old_pos,
        AnyCommand::SetSize { entity_idx, old_size, .. } => s.size.contains_key(entity_idx) && s.size[entity_idx]
            == old_size,
        AnyCommand::SetColor { entity_idx, old_color, .. } => s.color.contains_key(entity_idx)
            && s.color[entity_idx] == old_color,
        AnyCommand::SetVisibility { entity_idx, was_visible, .. } => s.visible.contains_key(entity_idx)
            && s.visible[entity_idx] == was_visible,
        AnyCommand::Select { entity_idx, was_selected, .. } => s.selected.contains_key(entity_idx)
            && s.selected[entity_idx] == was_selected,
        AnyCommand::SetLayer { entity_idx, old_layer, .. } => s.layer.contains_key(entity_idx)
            && s.layer[entity_idx] == old_layer,
    }
}

/// Rolling a command back undoes executing it: on a store that holds the
/// value the command replaces, executing and then rolling back gives the
/// store back, and executing again after that gives the executed store.
pub proof fn lemma_rollback_undoes_execute<V>(s: StoreModel<V>, c: AnyCommand<V>)
    requires
        holds_old_value(s, c),
    ensures
        apply_write(apply_write(s, execute_write(c)), rollback_write(c)) == s,
        apply_write(apply_write(apply_write(s, execute_write(c)), rollback_write(c)), execute_write(c))
            == apply_write(s, execute_write(c)),
{
    let s1 = apply_write(s, execute_write(c));
    let s2 = apply_write(s1, rollback_write(c));
    let s3 = apply_write(s2, execute_write(c));
    assert(s2.pos =~= s.pos);
    assert(s2.size =~= s.size);
    assert(s2.color =~= s.color);
    assert(s2.visible =~= s.visible);
    assert(s2.selected =~= s.selected);
    assert(s2.layer =~= s.layer);
    assert(s3.pos =~= s1.pos);
    assert(s3.size =~= s1.size);
    assert(s3.color =~= s1.color);
    assert(s3.visible =~= s1.visible);
    assert(s3.selected =~= s1.selected);
    assert(s3.layer =~= s1.layer);
}

/// Command history manager for undo/redo
///
/// Maintains two stacks:
/// - `undo_stack`: Commands that can be undone
/// - `redo_stack`: Commands that can be redone after undo
///
/// Each operation returns the store write that the caller performs.
pub struct CommandHistory<V> {
    /// Stack of executed commands (for undo)
    undo_stack: Vec<AnyCommand<V>>,
    /// Stack of undone commands (for redo)
    redo_stack: Vec<AnyCommand<V>>,
    /// Maximum commands to keep in history
    max_history: usize,
    /// Current batch group (for grouping commands)
    batch_group: Option<u32>,
    /// Next batch ID
    next_batch_id: u32,
}

/// The undo stack after recording `cmd`: pushed on top, the oldest command
/// dropped when the stack outgrows `max`, in a batch or not.
pub open spec fn undo_after_record<V>(undo: Seq<AnyCommand<V>>, cmd: AnyCommand<V>, max: usize) -> Seq<AnyCommand<V>> {
    if undo.len() + 1 > max {
        undo.push(cmd).drop_first()
    } else {
        undo.push(cmd)
    }
}

/// `after` is `before` with its last executed command undone: moved from
/// the top of the undo stack to the top of the redo stack.
pub open spec fn undone<V: Copy>(before: CommandHistory<V>, after: CommandHistory<V>) -> bool {
    &&& before.undo_commands().len() > 0
    &&& after.undo_commands() == before.undo_commands().drop_last()
    &&& after.redo_commands() == before.redo_commands().push(before.undo_commands().last())
}

/// `after` is `before` with its last undone command redone: moved from the
/// top of the redo stack to the top of the undo stack.
pub open spec fn redone<V: Copy>(before: CommandHistory<V>, after: CommandHistory<V>) -> bool {
    &&& before.redo_commands().len() > 0
    &&& after.redo_commands() == before.redo_commands().drop_last()
    &&& after.undo_commands() == before.undo_commands().push(before.redo_commands().last())
}

/// `after` is `before` with `cmd` executed: recorded on the undo stack, and
/// the redo stack emptied.
pub open spec fn recorded<V: Copy>(before: CommandHistory<V>, after: CommandHistory<V>, cmd: AnyCommand<V>) -> bool {
    &&& after.undo_commands() == undo_after_record(before.undo_commands(), cmd, before.max())
    &&& after.redo_commands() == Seq::<AnyCommand<V>>::empty()
}

/// Redoing what was just undone gives back both stacks.
pub proof fn lemma_undo_then_redo<V: Copy>(h0: CommandHistory<V>, h1: CommandHistory<V>, h2: CommandHistory<V>)
    requires
        undone(h0, h1),
        redone(h1, h2),
    ensures
        h2.undo_commands() == h0.undo_commands(),
        h2.redo_commands() == h0.redo_commands(),
{
    assert(h2.undo_commands() =~= h0.undo_commands());
    assert(h2.redo_commands() =~= h0.redo_commands());
}

/// Undoing what was just redone gives back both stacks.
pub proof fn lemma_redo_then_undo<V: Copy>(h0: CommandHistory<V>, h1: CommandHistory<V>, h2: CommandHistory<V>)
    requires
        redone(h0, h1),
        undone(h1, h2),
    ensures
        h2.undo_commands() == h0.undo_commands(),
        h2.redo_commands() == h0.redo_commands(),
{
    assert(h2.undo_commands() =~= h0.undo_commands());
    assert(h2.redo_commands() =~= h0.redo_commands());
}

/// Undoing a command right after executing it rolls back that command, and,
/// when no old command was dropped to make room, gives back the undo stack
/// as it was and leaves only that command to redo.
pub proof fn lemma_execute_then_undo<V: Copy>(
    h0: CommandHistory<V>,
    h1: CommandHistory<V>,
    h2: CommandHistory<V>,
    cmd: AnyCommand<V>,
)
    requires
        recorded(h0, h1, cmd),
        undone(h1, h2),
    ensures
        h1.undo_commands().last() == cmd,
        h2.redo_commands() == seq![cmd],
        h0.undo_commands().len() < h0.max() ==> h2.undo_commands() == h0.undo_commands(),
{
    let u = h0.undo_commands();
    if u.len() + 1 > h0.max() {
        assert(u.push(cmd).drop_first().last() == cmd);
    }
    assert(h2.redo_commands() =~= seq![cmd]);
    if u.len() < h0.max() {
        assert(h2.undo_commands() =~= u);
    }
}

/// The undo history never outgrows its bound, in a batch or not:
/// recording a command on a history within the bound keeps it within the
/// bound.
pub proof fn lemma_history_bounded<V: Copy>(undo: Seq<AnyCommand<V>>, cmd: AnyCommand<V>, max: usize)
    requires
        undo.len() <= max,
    ensures
        undo_after_record(undo, cmd, max).len() <= max,
{
}

impl<V: Copy> CommandHistory<V> {
    /// Commands that can be undone, oldest first.
    pub closed spec fn undo_commands(&self) -> Seq<AnyCommand<V>> {
        self.undo_stack@
    }

    /// Commands that can be redone, the next to redo last.
    pub closed spec fn redo_commands(&self) -> Seq<AnyCommand<V>> {
        self.redo_stack@
    }

    /// The bound on the undo history.
    pub closed spec fn max(&self) -> usize {
        self.max_history
    }

    /// The open batch, if any.
    pub closed spec fn batch(&self) -> Option<u32> {
        self.batch_group
    }

    /// The identifier the next batch gets.
    pub closed spec fn next_batch(&self) -> u32 {
        self.next_batch_id
    }

    /// The undo and redo stacks together hold at most the bound on the
    /// history: every history is created so, and every operation keeps it so.
    pub open spec fn within_bound(&self) -> bool {
        self.undo_commands().len() + self.redo_commands().len() <= self.max()
    }

    /// Create a new command history with default settings
    pub fn new() -> (r: Self)
        ensures
            r.within_bound(),
            r.undo_commands() == Seq::<AnyCommand<V>>::empty(),
            r.redo_commands() == Seq::<AnyCommand<V>>::empty(),
            r.max() == DEFAULT_MAX_HISTORY,
            r.batch() == None::<u32>,
            r.next_batch() == 1,
    {
        Self::with_max_history(DEFAULT_MAX_HISTORY)
    }

    /// Create a new command history with custom max size
    pub fn with_max_history(max_history: usize) -> (r: Self)
        ensures
            r.within_bound(),
            r.undo_commands() == Seq::<AnyCommand<V>>::empty(),
            r.redo_commands() == Seq::<AnyCommand<V>>::empty(),
            r.max() == max_history,
            r.batch() == None::<u32>,
            r.next_batch() == 1,
    {
        Self {
            undo_stack: Vec::with_capacity(max_history),
            redo_stack: Vec::with_capacity(max_history),
            max_history,
            batch_group: None,
            next_batch_id: 1,
        }
    }

    /// Execute a command
    ///
    /// Returns the write that executes it. The command is pushed to the
    /// undo stack and the redo stack is cleared (new branch taken). In a
    /// batch or not, the oldest command is dropped once the history outgrows
    /// its bound.
    pub fn execute(&mut self, cmd: AnyCommand<V>) -> (r: StoreWrite<V>)
        ensures
            old(self).within_bound() ==> final(self).within_bound(),
            r == execute_write(cmd),
            recorded(*old(self), *final(self), cmd),
            final(self).max() == old(self).max(),
            final(self).batch() == old(self).batch(),
            final(self).next_batch() == old(self).next_batch(),
    {
        let write = cmd.execute();
        self.undo_stack.push(cmd);
        self.redo_stack.clear();
        if self.undo_stack.len() > self.max_history {
            self.undo_stack.remove(0);
        }
        write
    }

    /// Undo the last command
    ///
    /// Returns the write that rolls it back, or `None` if nothing to undo.
    pub fn undo(&mut self) -> (r: Option<StoreWrite<V>>)
        ensures
            old(self).within_bound() ==> final(self).within_bound(),
            old(self).undo_commands().len() == 0 ==> r is None && final(self).undo_commands() == old(
                self,
            ).undo_commands() && final(self).redo_commands() == old(self).redo_commands(),
            old(self).undo_commands().len() > 0 ==> r == Some(rollback_write(old(self).undo_commands().last()))
                && undone(*old(self), *final(self)),
            final(self).max() == old(self).max(),
            final(self).batch() == old(self).batch(),
            final(self).next_batch() == old(self).next_batch(),
    {
        match self.undo_stack.pop() {
            Some(cmd) => {
                let write = cmd.rollback();
                self.redo_stack.push(cmd);
                Some(write)
            },
            None => None,
        }
    }

    /// Redo the last undone command
    ///
    /// Returns the write that executes it again, or `None` if nothing to redo.
    pub fn redo(&mut self) -> (r: Option<StoreWrite<V>>)
        ensures
            old(self).within_bound() ==> final(self).within_bound(),
            old(self).redo_commands().len() == 0 ==> r is None && final(self).undo_commands() == old(
                self,
            ).undo_commands() && final(self).redo_commands() == old(self).redo_commands(),
            old(self).redo_commands().len() > 0 ==> r == Some(execute_write(old(self).redo_commands().last()))
                && redone(*old(self), *final(self)),
            final(self).max() == old(self).max(),
            final(self).batch() == old(self).batch(),
            final(self).next_batch() == old(self).next_batch(),
    {
        match self.redo_stack.pop() {
            Some(cmd) => {
                let write = cmd.execute();
                self.undo_stack.push(cmd);
                Some(write)
            },
            None => None,
        }
    }

    /// Undo multiple commands at once
    ///
    /// Returns the rollback writes in the order they are due: the most
    /// recent command first.
    pub fn undo_n(&mut self, count: usize) -> (r: Vec<StoreWrite<V>>)
        ensures
            old(self).within_bound() ==> final(self).within_bound(),
            ({
                let n = if count < old(self).undo_commands().len() {
                    count as int
                } else {
                    old(self).undo_commands().len() as int
                };
                let u = old(self).undo_commands();
                &&& r@.len() == n
                &&& forall|i: int| 0 <= i < n ==> #[trigger] r@[i] == rollback_write(u[u.len() - 1 - i])
                &&& final(self).undo_commands() == u.subrange(0, u.len() - n)
                &&& final(self).redo_commands() == old(self).redo_commands() + u.subrange(
                    u.len() - n,
                    u.len() as int,
                ).reverse()
            }),
            final(self).max() == old(self).max(),
            final(self).batch() == old(self).batch(),
            final(self).next_batch() == old(self).next_batch(),
    {
        let n = if count < self.undo_stack.len() {
            count
        } else {
            self.undo_stack.len()
        };
        let ghost u = self.undo_stack@;
        let ghost redo0 = self.redo_stack@;
        let mut writes: Vec<StoreWrite<V>> = Vec::new();
        let mut i: usize = 0;
        while i < n
            invariant
                n <= u.len(),
                i <= n,
                writes@.len() == i,
                forall|k: int| 0 <= k < i ==> #[trigger] writes@[k] == rollback_write(u[u.len() - 1 - k]),
                self.undo_stack@ == u.subrange(0, u.len() - i),
                self.redo_stack@ == redo0 + u.subrange(u.len() - i, u.len() as int).reverse(),
                self.max_history == old(self).max_history,
                self.batch_group == old(self).batch_group,
                self.next_batch_id == old(self).next_batch_id,
            decreases n - i,
        {
            let w = self.undo();
            match w {
                Some(w) => writes.push(w),
                None => {},
            }
            proof {
                assert(u.subrange(0, u.len() - i).last() == u[u.len() - 1 - i]);
                assert(u.subrange(0, u.len() - i).drop_last() =~= u.subrange(0, u.len() - (i + 1)));
                assert(u.subrange(u.len() - (i + 1), u.len() as int).reverse() =~= u.subrange(
                    u.len() - i,
                    u.len() as int,
                ).reverse().push(u[u.len() - 1 - i]));
                assert(redo0 + u.subrange(u.len() - (i + 1), u.len() as int).reverse() =~= (redo0
                    + u.subrange(u.len() - i, u.len() as int).reverse()).push(u[u.len() - 1 - i]));
            }
            i = i + 1;
        }
        writes
    }

    /// Redo multiple commands at once
    ///
    /// Returns the execute writes in the order they are due: the most
    /// recently undone command first.
    pub fn redo_n(&mut self, count: usize) -> (r: Vec<StoreWrite<V>>)
        ensures
            old(self).within_bound() ==> final(self).within_bound(),
            ({
                let n = if count < old(self).redo_commands().len() {
                    count as int
                } else {
                    old(self).redo_commands().len() as int
                };
                let d = old(self).redo_commands();
                &&& r@.len() == n
                &&& forall|i: int| 0 <= i < n ==> #[trigger] r@[i] == execute_write(d[d.len() - 1 - i])
                &&& final(self).redo_commands() == d.subrange(0, d.len() - n)
                &&& final(self).undo_commands() == old(self).undo_commands() + d.subrange(
                    d.len() - n,
                    d.len() as int,
                ).reverse()
            }),
            final(self).max() == old(self).max(),
            final(self).batch() == old(self).batch(),
            final(self).next_batch() == old(self).next_batch(),
    {
        let n = if count < self.redo_stack.len() {
            count
        } else {
            self.redo_stack.len()
        };
        let ghost d = self.redo_stack@;
        let ghost undo0 = self.undo_stack@;
        let mut writes: Vec<StoreWrite<V>> = Vec::new();
        let mut i: usize = 0;
        while i < n
            invariant
                n <= d.len(),
                i <= n,
                writes@.len() == i,
                forall|k: int| 0 <= k < i ==> #[trigger] writes@[k] == execute_write(d[d.len() - 1 - k]),
                self.redo_stack@ == d.subrange(0, d.len() - i),
                self.undo_stack@ == undo0 + d.subrange(d.len() - i, d.len() as int).reverse(),
                self.max_history == old(self).max_history,
                self.batch_group == old(self).batch_group,
                self.next_batch_id == old(self).next_batch_id,
            decreases n - i,
        {
            let w = self.redo();
            match w {
                Some(w) => writes.push(w),
                None => {},
            }
            proof {
                assert(d.subrange(0, d.len() - i).last() == d[d.len() - 1 - i]);
                assert(d.subrange(0, d.len() - i).drop_last() =~= d.subrange(0, d.len() - (i + 1)));
                assert(d.subrange(d.len() - (i + 1), d.len() as int).reverse() =~= d.subrange(
                    d.len() - i,
                    d.len() as int,
                ).reverse().push(d[d.len() - 1 - i]));
                assert(undo0 + d.subrange(d.len() - (i + 1), d.len() as int).reverse() =~= (undo0
                    + d.subrange(d.len() - i, d.len() as int).reverse()).push(d[d.len() - 1 - i]));
            }
            i = i + 1;
        }
        writes
    }

    /// Start a batch group
    ///
    /// Commands executed until `end_batch()` belong to it; the history stays
    /// within its bound in a batch as outside one.
    pub fn begin_batch(&mut self)
        ensures
            old(self).within_bound() ==> final(self).within_bound(),
            final(self).batch() == Some(old(self).next_batch()),
            final(self).next_batch() == (if old(self).next_batch() == u32::MAX {
                0
            } else {
                (old(self).next_batch() + 1) as u32
            }),
            final(self).undo_commands() == old(self).undo_commands(),
            final(self).redo_commands() == old(self).redo_commands(),
            final(self).max() == old(self).max(),
    {
        self.batch_group = Some(self.next_batch_id);
        self.next_batch_id = self.next_batch_id.wrapping_add(1);
    }

    /// End the current batch group
    pub fn end_batch(&mut self)
        ensures
            old(self).within_bound() ==> final(self).within_bound(),
            final(self).batch() == None::<u32>,
            final(self).next_batch() == old(self).next_batch(),
            final(self).undo_commands() == old(self).undo_commands(),
            final(self).redo_commands() == old(self).redo_commands(),
            final(self).max() == old(self).max(),
    {
        self.batch_group = None;
    }

    /// Check if undo is available
    pub fn can_undo(&self) -> (r: bool)
        ensures
            r == (self.undo_commands().len() > 0),
    {
        self.undo_stack.len() > 0
    }

    /// Check if redo is available
    pub fn can_redo(&self) -> (r: bool)
        ensures
            r == (self.redo_commands().len() > 0),
    {
        self.redo_stack.len() > 0
    }

    /// Get the description of the next command to undo
    pub fn undo_description(&self) -> (r: &'static str)
        ensures
            r@ == (if self.undo_commands().len() == 0 {
                ""@
            } else {
                description_of(self.undo_commands().last())
            }),
    {
        if self.undo_stack.len() == 0 {
            ""
        } else {
            self.undo_stack[self.undo_stack.len() - 1].description()
        }
    }

    /// Get the description of the next command to redo
    pub fn redo_description(&self) -> (r: &'static str)
        ensures
            r@ == (if self.redo_commands().len() == 0 {
                ""@
            } else {
                description_of(self.redo_commands().last())
            }),
    {
        if self.redo_stack.len() == 0 {
            ""
        } else {
            self.redo_stack[self.redo_stack.len() - 1].description()
        }
    }

    /// Get the number of commands in undo history
    pub fn undo_count(&self) -> (r: usize)
        ensures
            r == self.undo_commands().len(),
            self.within_bound() ==> r <= self.max(),
    {
        self.undo_stack.len()
    }

    /// Get the number of commands in redo history
    pub fn redo_count(&self) -> (r: usize)
        ensures
            r == self.redo_commands().len(),
    {
        self.redo_stack.len()
    }

    /// Clear all history
    pub fn clear(&mut self)
        ensures
            old(self).within_bound() ==> final(self).within_bound(),
            final(self).undo_commands() == Seq::<AnyCommand<V>>::empty(),
            final(self).redo_commands() == Seq::<AnyCommand<V>>::empty(),
            final(self).batch() == None::<u32>,
            final(self).max() == old(self).max(),
            final(self).next_batch() == old(self).next_batch(),
    {
        self.undo_stack.clear();
        self.redo_stack.clear();
        self.batch_group = None;
    }
}

impl<V: Copy> Default for CommandHistory<V> {
    fn default() -> (r: Self)
        ensures
            r.within_bound(),
            r.undo_commands() == Seq::<AnyCommand<V>>::empty(),
            r.redo_commands() == Seq::<AnyCommand<V>>::empty(),
            r.max() == DEFAULT_MAX_HISTORY,
            r.batch() == None::<u32>,
            r.next_batch() == 1,
    {
        Self::new()
    }
}

} // verus!
