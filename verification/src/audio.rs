//! Sound playback state: which entities are playing or have paused which
//! sound, as audio commands arrive. The audio itself is played elsewhere:
//! each command that takes effect reports the effect, for the caller to
//! forward to the audio backend.

use vstd::prelude::*;

verus! {

/// A command from an audio actuator, naming entities by their raw ids.
#[derive(Clone, Copy, Debug, PartialEq, Eq, Structural)]
pub enum AudioCommand {
    /// Play a sound for an entity
    Play { entity: u64, sound_id: u32 },
    /// Stop the entity's sound
    Stop { entity: u64 },
    /// Pause the entity's sound
    Pause { entity: u64 },
    /// Resume the entity's paused sound
    Resume { entity: u64 },
}

/// What a command did, for the audio backend to carry out.
#[derive(Clone, Copy, Debug, PartialEq, Eq, Structural)]
pub enum AudioEffect {
    /// The entity started playing the sound
    Played { entity: u64, sound_id: u32 },
    /// The entity's sound was stopped
    Stopped { entity: u64 },
    /// The entity's sound was paused
    Paused { entity: u64 },
    /// The entity's sound was resumed
    Resumed { entity: u64 },
}

/// `s` without the entries of `entity`.
pub open spec fn without_entity(s: Seq<(u64, u32)>, entity: u64) -> Seq<(u64, u32)>
    decreases s.len(),
{
    if s.len() == 0 {
        s
    } else if s.last().0 == entity {
        without_entity(s.drop_last(), entity)
    } else {
        without_entity(s.drop_last(), entity).push(s.last())
    }
}

/// Whether `entity` has an entry in `s`.
pub open spec fn has_entity(s: Seq<(u64, u32)>, entity: u64) -> bool {
    exists|i: int| 0 <= i < s.len() && (#[trigger] s[i]).0 == entity
}

/// Where the first entry of `entity` stands in `s`, if it has one.
pub open spec fn entity_position(s: Seq<(u64, u32)>, entity: u64) -> Option<int> {
    if has_entity(s, entity) {
        Some(choose|i: int| 0 <= i < s.len() && s[i].0 == entity && forall|j: int| 0 <= j < i ==> (#[trigger] s[j]).0 != entity)
    } else {
        None
    }
}

/// Every entity has at most one entry over both lists.
pub open spec fn playback_consistent(playing: Seq<(u64, u32)>, paused: Seq<(u64, u32)>) -> bool {
    &&& keys_distinct(playing)
    &&& keys_distinct(paused)
    &&& forall|i: int, j: int| 0 <= i < playing.len() && 0 <= j < paused.len() ==> (#[trigger] playing[i]).0 != (#[trigger] paused[j]).0
}

/// The playing and paused lists after a command, and what it did.
pub open spec fn after_command(playing: Seq<(u64, u32)>, paused: Seq<(u64, u32)>, cmd: AudioCommand) -> (Seq<(u64, u32)>, Seq<(u64, u32)>, Option<AudioEffect>) {
    match cmd {
        AudioCommand::Play { entity, sound_id } => (
            without_entity(playing, entity).push((entity, sound_id)),
            without_entity(paused, entity),
            Some(AudioEffect::Played { entity, sound_id }),
        ),
        AudioCommand::Stop { entity } => (
            without_entity(playing, entity),
            without_entity(paused, entity),
            Some(AudioEffect::Stopped { entity }),
        ),
        AudioCommand::Pause { entity } => match entity_position(playing, entity) {
            Some(i) => (playing.remove(i), paused.push((entity, playing[i].1)), Some(AudioEffect::Paused { entity })),
            None => (playing, paused, None),
        },
        AudioCommand::Resume { entity } => match entity_position(paused, entity) {
            Some(i) => (playing.push((entity, paused[i].1)), paused.remove(i), Some(AudioEffect::Resumed { entity })),
            None => (playing, paused, None),
        },
    }
}

/// Stopping an entity's sound forgets it: afterwards it is neither playing
/// nor paused, so resuming it does nothing, and every other entity's
/// entries stay where they were.
pub proof fn lemma_stop_forgets_entity(playing: Seq<(u64, u32)>, paused: Seq<(u64, u32)>, entity: u64)
    ensures
        ({
            let after = after_command(playing, paused, AudioCommand::Stop { entity });
            &&& !has_entity(after.0, entity)
            &&& !has_entity(after.1, entity)
            &&& after.2 == Some(AudioEffect::Stopped { entity })
            &&& after_command(after.0, after.1, AudioCommand::Resume { entity }).2 is None
            &&& forall|x: (u64, u32)| x.0 != entity ==> (playing.contains(x) <==> #[trigger] after.0.contains(x))
            &&& forall|x: (u64, u32)| x.0 != entity ==> (paused.contains(x) <==> #[trigger] after.1.contains(x))
        }),
{
    lemma_without_entity(playing, entity);
    lemma_without_entity(paused, entity);
}

/// Removal of an entity keeps the other entries, in order.
proof fn lemma_without_entity(s: Seq<(u64, u32)>, entity: u64)
    ensures
        !has_entity(without_entity(s, entity), entity),
        forall|x: (u64, u32)| #![trigger without_entity(s, entity).contains(x)] x.0 != entity ==> (s.contains(x) <==> without_entity(s, entity).contains(x)),
        forall|i: int| 0 <= i < without_entity(s, entity).len() ==> s.contains(#[trigger] without_entity(s, entity)[i]),
    decreases s.len(),
{
    if s.len() > 0 {
        let d = s.drop_last();
        let w = without_entity(s, entity);
        let wd = without_entity(d, entity);
        lemma_without_entity(d, entity);
        assert forall|x: (u64, u32)| x.0 != entity implies (s.contains(x) <==> w.contains(x)) by {
            if s.contains(x) {
                let k = choose|k: int| 0 <= k < s.len() && s[k] == x;
                if k < d.len() {
                    assert(d[k] == x);
                    assert(wd.contains(x));
                    let m = choose|m: int| 0 <= m < wd.len() && wd[m] == x;
                    if s.last().0 != entity {
                        assert(w[m] == x);
                    }
                } else {
                    assert(w[w.len() - 1] == x);
                }
            }
            if w.contains(x) {
                let k = choose|k: int| 0 <= k < w.len() && w[k] == x;
                if s.last().0 == entity || k < wd.len() {
                    assert(wd[k] == x);
                    assert(wd.contains(x));
                    let m = choose|m: int| 0 <= m < d.len() && d[m] == x;
                    assert(s[m] == x);
                } else {
                    assert(s[s.len() - 1] == x);
                }
            }
        }
        assert forall|i: int| 0 <= i < w.len() implies s.contains(#[trigger] w[i]) by {
            if s.last().0 == entity || i < wd.len() {
                assert(w[i] == wd[i]);
                assert(d.contains(wd[i]));
                let m = choose|m: int| 0 <= m < d.len() && d[m] == wd[i];
                assert(s[m] == w[i]);
            } else {
                assert(s[s.len() - 1] == w[i]);
            }
        }
        if has_entity(w, entity) {
            let k = choose|k: int| 0 <= k < w.len() && (#[trigger] w[k]).0 == entity;
            if s.last().0 == entity || k < wd.len() {
                assert(wd[k].0 == entity);
            }
        }
    }
}

/// Whether no entity has two entries in `s`.
pub open spec fn keys_distinct(s: Seq<(u64, u32)>) -> bool {
    forall|i: int, j: int| 0 <= i < j < s.len() ==> (#[trigger] s[i]).0 != (#[trigger] s[j]).0
}

/// Removing an entity keeps the other entities' entries single.
proof fn lemma_without_entity_distinct(s: Seq<(u64, u32)>, entity: u64)
    requires
        keys_distinct(s),
    ensures
        keys_distinct(without_entity(s, entity)),
    decreases s.len(),
{
    if s.len() > 0 {
        let d = s.drop_last();
        let w = without_entity(s, entity);
        let wd = without_entity(d, entity);
        assert(keys_distinct(d)) by {
            assert forall|i: int, j: int| 0 <= i < j < d.len() implies (#[trigger] d[i]).0 != (#[trigger] d[j]).0 by {
                assert(s[i] == d[i] && s[j] == d[j]);
            }
        }
        lemma_without_entity_distinct(d, entity);
        lemma_without_entity(d, entity);
        if s.last().0 != entity {
            assert forall|a: int, b: int| 0 <= a < b < w.len() implies (#[trigger] w[a]).0 != (#[trigger] w[b]).0 by {
                if b < wd.len() {
                    assert(w[a] == wd[a] && w[b] == wd[b]);
                } else {
                    assert(w[b] == s.last());
                    assert(w[a] == wd[a]);
                    assert(d.contains(wd[a]));
                    let m = choose|m: int| 0 <= m < d.len() && d[m] == wd[a];
                    assert(s[m] == w[a]);
                    assert(s[m].0 != s[s.len() - 1].0);
                }
            }
        }
    }
}


/// Removing one entry keeps the other entries, in order.
proof fn lemma_remove_entry(s: Seq<(u64, u32)>, i: int)
    requires
        0 <= i < s.len(),
    ensures
        forall|k: int| 0 <= k < s.remove(i).len() ==> #[trigger] s.remove(i)[k] == if k < i {
            s[k]
        } else {
            s[k + 1]
        },
        s.remove(i).len() == s.len() - 1,
{
}

/// Every command keeps each entity to at most one entry over the playing
/// and paused lists together.
pub proof fn lemma_command_keeps_playback_consistent(playing: Seq<(u64, u32)>, paused: Seq<(u64, u32)>, cmd: AudioCommand)
    requires
        playback_consistent(playing, paused),
    ensures
        playback_consistent(after_command(playing, paused, cmd).0, after_command(playing, paused, cmd).1),
{
    let (p2, q2, _) = after_command(playing, paused, cmd);
    match cmd {
        AudioCommand::Play { entity, sound_id } => {
            let wp = without_entity(playing, entity);
            lemma_without_entity(playing, entity);
            lemma_without_entity(paused, entity);
            lemma_without_entity_distinct(playing, entity);
            lemma_without_entity_distinct(paused, entity);
            assert forall|i: int, j: int| 0 <= i < j < p2.len() implies (#[trigger] p2[i]).0 != (#[trigger] p2[j]).0 by {
                if j == p2.len() - 1 {
                    assert(p2[i] == wp[i]);
                    assert(wp[i].0 != entity);
                } else {
                    assert(p2[i] == wp[i] && p2[j] == wp[j]);
                }
            }
            assert forall|i: int, j: int| 0 <= i < p2.len() && 0 <= j < q2.len() implies (#[trigger] p2[i]).0 != (#[trigger] q2[j]).0 by {
                if i == p2.len() - 1 {
                    assert(q2[j].0 != entity);
                } else {
                    assert(p2[i] == wp[i]);
                    assert(playing.contains(wp[i]));
                    assert(paused.contains(q2[j]));
                    let a = choose|a: int| 0 <= a < playing.len() && playing[a] == wp[i];
                    let b = choose|b: int| 0 <= b < paused.len() && paused[b] == q2[j];
                    assert(playing[a].0 != paused[b].0);
                }
            }
        },
        AudioCommand::Stop { entity } => {
            lemma_without_entity(playing, entity);
            lemma_without_entity(paused, entity);
            lemma_without_entity_distinct(playing, entity);
            lemma_without_entity_distinct(paused, entity);
            assert forall|i: int, j: int| 0 <= i < p2.len() && 0 <= j < q2.len() implies (#[trigger] p2[i]).0 != (#[trigger] q2[j]).0 by {
                assert(playing.contains(p2[i]));
                assert(paused.contains(q2[j]));
                let a = choose|a: int| 0 <= a < playing.len() && playing[a] == p2[i];
                let b = choose|b: int| 0 <= b < paused.len() && paused[b] == q2[j];
                assert(playing[a].0 != paused[b].0);
            }
        },
        AudioCommand::Pause { entity } => {
            if let Some(pos) = entity_position(playing, entity) {
                assert(0 <= pos < playing.len() && playing[pos].0 == entity);
                lemma_remove_entry(playing, pos);
                assert forall|i: int, j: int| 0 <= i < j < p2.len() implies (#[trigger] p2[i]).0 != (#[trigger] p2[j]).0 by {
                    let a = if i < pos { i } else { i + 1 };
                    let b = if j < pos { j } else { j + 1 };
                    assert(p2[i] == playing[a] && p2[j] == playing[b]);
                }
                assert forall|i: int, j: int| 0 <= i < j < q2.len() implies (#[trigger] q2[i]).0 != (#[trigger] q2[j]).0 by {
                    if j == q2.len() - 1 {
                        assert(q2[i] == paused[i]);
                        assert(playing[pos].0 != paused[i].0);
                    } else {
                        assert(q2[i] == paused[i] && q2[j] == paused[j]);
                    }
                }
                assert forall|i: int, j: int| 0 <= i < p2.len() && 0 <= j < q2.len() implies (#[trigger] p2[i]).0 != (#[trigger] q2[j]).0 by {
                    let a = if i < pos { i } else { i + 1 };
                    assert(p2[i] == playing[a]);
                    if j == q2.len() - 1 {
                        assert(playing[a].0 != playing[pos].0);
                    } else {
                        assert(q2[j] == paused[j]);
                    }
                }
            }
        },
        AudioCommand::Resume { entity } => {
            if let Some(pos) = entity_position(paused, entity) {
                assert(0 <= pos < paused.len() && paused[pos].0 == entity);
                lemma_remove_entry(paused, pos);
                assert forall|i: int, j: int| 0 <= i < j < q2.len() implies (#[trigger] q2[i]).0 != (#[trigger] q2[j]).0 by {
                    let a = if i < pos { i } else { i + 1 };
                    let b = if j < pos { j } else { j + 1 };
                    assert(q2[i] == paused[a] && q2[j] == paused[b]);
                }
                assert forall|i: int, j: int| 0 <= i < j < p2.len() implies (#[trigger] p2[i]).0 != (#[trigger] p2[j]).0 by {
                    if j == p2.len() - 1 {
                        assert(p2[i] == playing[i]);
                        assert(playing[i].0 != paused[pos].0);
                    } else {
                        assert(p2[i] == playing[i] && p2[j] == playing[j]);
                    }
                }
                assert forall|i: int, j: int| 0 <= i < p2.len() && 0 <= j < q2.len() implies (#[trigger] p2[i]).0 != (#[trigger] q2[j]).0 by {
                    let b = if j < pos { j } else { j + 1 };
                    assert(q2[j] == paused[b]);
                    if i == p2.len() - 1 {
                        assert(paused[b].0 != paused[pos].0);
                    } else {
                        assert(p2[i] == playing[i]);
                    }
                }
            }
        },
    }
}

/// Playing a sound makes the entity playing and not paused; pausing a
/// playing entity makes it paused and not playing, and resuming it then
/// plays the same sound again.
pub proof fn lemma_play_pause_resume(playing: Seq<(u64, u32)>, paused: Seq<(u64, u32)>, entity: u64, sound_id: u32)
    requires
        playback_consistent(playing, paused),
    ensures
        ({
            let (p1, q1, _) = after_command(playing, paused, AudioCommand::Play { entity, sound_id });
            let (p2, q2, e2) = after_command(p1, q1, AudioCommand::Pause { entity });
            let (p3, q3, e3) = after_command(p2, q2, AudioCommand::Resume { entity });
            &&& has_entity(p1, entity) && !has_entity(q1, entity)
            &&& e2 == Some(AudioEffect::Paused { entity })
            &&& !has_entity(p2, entity) && has_entity(q2, entity)
            &&& e3 == Some(AudioEffect::Resumed { entity })
            &&& p3.last() == (entity, sound_id)
            &&& !has_entity(q3, entity)
        }),
{
    let (p1, q1, _) = after_command(playing, paused, AudioCommand::Play { entity, sound_id });
    lemma_without_entity(playing, entity);
    lemma_without_entity(paused, entity);
    lemma_command_keeps_playback_consistent(playing, paused, AudioCommand::Play { entity, sound_id });
    assert(p1[p1.len() - 1].0 == entity);
    assert(has_entity(p1, entity));
    let pos = entity_position(p1, entity).unwrap();
    assert(pos == p1.len() - 1) by {
        if pos < p1.len() - 1 {
            assert(p1[pos].0 != p1[p1.len() - 1].0);
        }
    }
    let (p2, q2, e2) = after_command(p1, q1, AudioCommand::Pause { entity });
    lemma_command_keeps_playback_consistent(p1, q1, AudioCommand::Pause { entity });
    assert(q2[q2.len() - 1] == (entity, sound_id));
    assert(has_entity(q2, entity));
    if has_entity(p2, entity) {
        let k = choose|k: int| 0 <= k < p2.len() && (#[trigger] p2[k]).0 == entity;
        assert(p2[k].0 != q2[q2.len() - 1].0);
    }
    let qpos = entity_position(q2, entity).unwrap();
    assert(qpos == q2.len() - 1) by {
        if qpos < q2.len() - 1 {
            assert(q2[qpos].0 != q2[q2.len() - 1].0);
        }
    }
    let (p3, q3, e3) = after_command(p2, q2, AudioCommand::Resume { entity });
    lemma_remove_entry(q2, qpos);
    if has_entity(q3, entity) {
        let k = choose|k: int| 0 <= k < q3.len() && (#[trigger] q3[k]).0 == entity;
        assert(q3[k] == q2[k]);
        assert(q2[k].0 != q2[q2.len() - 1].0);
    }
}

/// Playback state: the entities playing a sound and those whose sound is
/// paused, each with its sound.
#[derive(Clone, Debug)]
pub struct AudioPlayback {
    playing: Vec<(u64, u32)>,
    paused: Vec<(u64, u32)>,
    muted: bool,
}

impl AudioPlayback {
    /// The playing entities and their sounds, in the order they started.
    pub closed spec fn playing(&self) -> Seq<(u64, u32)> {
        self.playing@
    }

    /// The paused entities and their sounds, in the order they paused.
    pub closed spec fn paused(&self) -> Seq<(u64, u32)> {
        self.paused@
    }

    /// Whether the audio is muted.
    pub closed spec fn spec_muted(&self) -> bool {
        self.muted
    }

    /// Nothing playing or paused, not muted.
    pub fn new() -> (r: Self)
        ensures
            r.playing() == Seq::<(u64, u32)>::empty(),
            r.paused() == Seq::<(u64, u32)>::empty(),
            !r.spec_muted(),
    {
        AudioPlayback { playing: Vec::new(), paused: Vec::new(), muted: false }
    }

    /// `list` without the entries of `entity`.
    fn retain_other(list: &Vec<(u64, u32)>, entity: u64) -> (r: Vec<(u64, u32)>)
        ensures
            r@ == without_entity(list@, entity),
    {
        let mut kept: Vec<(u64, u32)> = Vec::new();
        let mut k: usize = 0;
        while k < list.len()
            invariant
                k <= list.len(),
                kept@ == without_entity(list@.subrange(0, k as int), entity),
            decreases list.len() - k,
        {
            assert(list@.subrange(0, k + 1).drop_last() =~= list@.subrange(0, k as int));
            if list[k].0 != entity {
                kept.push(list[k]);
            }
            k += 1;
        }
        assert(list@.subrange(0, k as int) =~= list@);
        kept
    }

    /// Where the first entry of `entity` stands in `list`.
    fn position_of(list: &Vec<(u64, u32)>, entity: u64) -> (r: Option<usize>)
        ensures
            match r {
                Some(i) => entity_position(list@, entity) == Some(i as int) && i < list@.len() && list@[i as int].0 == entity,
                None => entity_position(list@, entity) is None,
            },
    {
        let mut k: usize = 0;
        while k < list.len()
            invariant
                k <= list.len(),
                forall|j: int| 0 <= j < k ==> (#[trigger] list@[j]).0 != entity,
            decreases list.len() - k,
        {
            if list[k].0 == entity {
                assert(has_entity(list@, entity));
                let ghost c = choose|i: int| 0 <= i < list@.len() && list@[i].0 == entity && forall|j: int| 0 <= j < i ==> (#[trigger] list@[j]).0 != entity;
                assert(c == k) by {
                    if c < k {
                    } else if c > k {
                        assert(list@[k as int].0 == entity);
                    }
                }
                return Some(k);
            }
            k += 1;
        }
        None
    }

    /// Applies one command and reports what it did: playing or stopping
    /// always takes effect; pausing an entity that is not playing, or
    /// resuming one that is not paused, does nothing.
    pub fn apply(&mut self, cmd: AudioCommand) -> (r: Option<AudioEffect>)
        ensures
            (final(self).playing(), final(self).paused(), r) == after_command(old(self).playing(), old(self).paused(), cmd),
            final(self).spec_muted() == old(self).spec_muted(),
    {
        match cmd {
            AudioCommand::Play { entity, sound_id } => {
                self.paused = Self::retain_other(&self.paused, entity);
                self.playing = Self::retain_other(&self.playing, entity);
                self.playing.push((entity, sound_id));
                Some(AudioEffect::Played { entity, sound_id })
            },
            AudioCommand::Stop { entity } => {
                self.playing = Self::retain_other(&self.playing, entity);
                self.paused = Self::retain_other(&self.paused, entity);
                Some(AudioEffect::Stopped { entity })
            },
            AudioCommand::Pause { entity } => match Self::position_of(&self.playing, entity) {
                Some(pos) => {
                    let (_, sound_id) = self.playing.remove(pos);
                    self.paused.push((entity, sound_id));
                    Some(AudioEffect::Paused { entity })
                },
                None => None,
            },
            AudioCommand::Resume { entity } => match Self::position_of(&self.paused, entity) {
                Some(pos) => {
                    let (_, sound_id) = self.paused.remove(pos);
                    self.playing.push((entity, sound_id));
                    Some(AudioEffect::Resumed { entity })
                },
                None => None,
            },
        }
    }

    /// Applies the commands in order and reports the effects, in order.
    pub fn process_commands(&mut self, commands: Vec<AudioCommand>) -> (r: Vec<AudioEffect>)
        ensures
            final(self).spec_muted() == old(self).spec_muted(),
            r@ == effects_of(old(self).playing(), old(self).paused(), commands@).2,
            final(self).playing() == effects_of(old(self).playing(), old(self).paused(), commands@).0,
            final(self).paused() == effects_of(old(self).playing(), old(self).paused(), commands@).1,
    {
        let mut effects: Vec<AudioEffect> = Vec::new();
        let mut k: usize = 0;
        while k < commands.len()
            invariant
                k <= commands.len(),
                self.spec_muted() == old(self).spec_muted(),
                (self.playing(), self.paused(), effects@) == effects_of(old(self).playing(), old(self).paused(), commands@.subrange(0, k as int)),
            decreases commands.len() - k,
        {
            assert(commands@.subrange(0, k + 1).drop_last() =~= commands@.subrange(0, k as int));
            if let Some(effect) = self.apply(commands[k]) {
                effects.push(effect);
            }
            k += 1;
        }
        assert(commands@.subrange(0, k as int) =~= commands@);
        effects
    }

    /// Whether the entity is playing a sound.
    pub fn is_playing(&self, entity: u64) -> (r: bool)
        ensures
            r == has_entity(self.playing(), entity),
    {
        let r = Self::position_of(&self.playing, entity).is_some();
        proof {
            if has_entity(self.playing@, entity) {
                assert(entity_position(self.playing@, entity) is Some);
            }
        }
        r
    }

    /// Whether the entity's sound is paused.
    pub fn is_paused(&self, entity: u64) -> (r: bool)
        ensures
            r == has_entity(self.paused(), entity),
    {
        Self::position_of(&self.paused, entity).is_some()
    }

    /// Sets whether the audio is muted.
    pub fn set_muted(&mut self, muted: bool)
        ensures
            final(self).spec_muted() == muted,
            final(self).playing() == old(self).playing(),
            final(self).paused() == old(self).paused(),
    {
        self.muted = muted;
    }

    /// Whether the audio is muted.
    pub fn is_muted(&self) -> (r: bool)
        ensures
            r == self.spec_muted(),
    {
        self.muted
    }

    /// The number of playing entities.
    pub fn playing_count(&self) -> (r: usize)
        ensures
            r == self.playing().len(),
    {
        self.playing.len()
    }

    /// The number of paused entities.
    pub fn paused_count(&self) -> (r: usize)
        ensures
            r == self.paused().len(),
    {
        self.paused.len()
    }
}

impl Default for AudioPlayback {
    fn default() -> (r: Self)
        ensures
            r.playing() == Seq::<(u64, u32)>::empty(),
            r.paused() == Seq::<(u64, u32)>::empty(),
            !r.spec_muted(),
    {
        AudioPlayback::new()
    }
}

/// The playing and paused lists after the commands, in order, and the
/// effects they reported.
pub open spec fn effects_of(playing: Seq<(u64, u32)>, paused: Seq<(u64, u32)>, cmds: Seq<AudioCommand>) -> (Seq<(u64, u32)>, Seq<(u64, u32)>, Seq<AudioEffect>)
    decreases cmds.len(),
{
    if cmds.len() == 0 {
        (playing, paused, Seq::empty())
    } else {
        let (p, q, e) = effects_of(playing, paused, cmds.drop_last());
        let (p2, q2, eff) = after_command(p, q, cmds.last());
        match eff {
            Some(x) => (p2, q2, e.push(x)),
            None => (p2, q2, e),
        }
    }
}

} // verus!
