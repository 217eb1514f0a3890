use archflow_logic::audio::{AudioCommand, AudioEffect, AudioPlayback};

#[test]
fn test_play_stop() {
    let mut system = AudioPlayback::new();
    let entity = 1;

    // Play
    system.process_commands(vec![AudioCommand::Play { entity, sound_id: 0 }]);
    assert!(system.is_playing(entity));

    // Stop
    system.process_commands(vec![AudioCommand::Stop { entity }]);
    assert!(!system.is_playing(entity));
}

#[test]
fn test_pause_resume() {
    let mut system = AudioPlayback::new();
    let entity = 1;

    // Play then pause
    system.process_commands(vec![AudioCommand::Play { entity, sound_id: 0 }]);
    system.process_commands(vec![AudioCommand::Pause { entity }]);
    assert!(!system.is_playing(entity));
    assert!(system.is_paused(entity));

    // Resume
    system.process_commands(vec![AudioCommand::Resume { entity }]);
    assert!(system.is_playing(entity));
    assert!(!system.is_paused(entity));
}

#[test]
fn pausing_or_resuming_nothing_reports_nothing() {
    let mut system = AudioPlayback::new();
    let effects = system.process_commands(vec![AudioCommand::Pause { entity: 3 }, AudioCommand::Resume { entity: 3 }]);
    assert!(effects.is_empty());
    assert_eq!(system.playing_count(), 0);
    assert_eq!(system.paused_count(), 0);
}

#[test]
fn commands_report_their_effects_in_order() {
    let mut system = AudioPlayback::new();
    let effects = system.process_commands(vec![
        AudioCommand::Play { entity: 1, sound_id: 7 },
        AudioCommand::Play { entity: 2, sound_id: 8 },
        AudioCommand::Pause { entity: 1 },
        AudioCommand::Play { entity: 1, sound_id: 9 },
        AudioCommand::Stop { entity: 2 },
    ]);
    assert_eq!(
        effects,
        vec![
            AudioEffect::Played { entity: 1, sound_id: 7 },
            AudioEffect::Played { entity: 2, sound_id: 8 },
            AudioEffect::Paused { entity: 1 },
            AudioEffect::Played { entity: 1, sound_id: 9 },
            AudioEffect::Stopped { entity: 2 },
        ]
    );
    assert!(system.is_playing(1));
    assert!(!system.is_paused(1));
    assert!(!system.is_playing(2));
    assert_eq!(system.playing_count(), 1);
    assert_eq!(system.paused_count(), 0);
}

#[test]
fn playing_again_replaces_the_sound() {
    let mut system = AudioPlayback::new();
    system.apply(AudioCommand::Play { entity: 5, sound_id: 1 });
    system.apply(AudioCommand::Play { entity: 5, sound_id: 2 });
    assert_eq!(system.playing_count(), 1);
    system.apply(AudioCommand::Pause { entity: 5 });
    assert_eq!(system.apply(AudioCommand::Resume { entity: 5 }), Some(AudioEffect::Resumed { entity: 5 }));
    assert!(system.is_playing(5));
}

#[test]
fn muting_is_remembered() {
    let mut system = AudioPlayback::default();
    assert!(!system.is_muted());
    system.set_muted(true);
    assert!(system.is_muted());
}
