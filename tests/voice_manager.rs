use analog_synth::voice::{EnvelopeSettings, Voice, SILENCE_LEVEL};
use analog_synth::voice_manager::VoiceManager;

fn settings() -> EnvelopeSettings {
    EnvelopeSettings { attack: 10, decay: 10, sustain: 500_000, release: 20 }
}

/// Runs `n` samples and returns the levels of the last one.
fn run(vm: &mut VoiceManager, n: usize) -> Vec<Option<u32>> {
    let mut levels = vec![None; vm.max_voices()];
    for _ in 0..n {
        vm.next_levels(&mut levels);
    }
    levels
}

fn key_in(vm: &VoiceManager, slot: usize) -> Option<u8> {
    vm.voice(slot).map(|v| v.key)
}

#[test]
fn note_on_fills_lowest_free_slot() {
    let mut vm = VoiceManager::new(3, settings());
    assert_eq!(vm.active_voice_count(), 0);
    assert_eq!(vm.note_on(60, 100), 0);
    assert_eq!(vm.note_on(62, 100), 1);
    assert_eq!(vm.active_voice_count(), 2);
    let v = vm.voice(1).unwrap();
    assert_eq!(v.key, 62);
    assert_eq!(v.velocity, 100);
    assert!(v.is_active);
    assert!(!v.is_released);
}

#[test]
fn stealing_prefers_released_voice_over_older_held_one() {
    let mut vm = VoiceManager::new(2, settings());
    vm.note_on(60, 100);
    run(&mut vm, 5);
    vm.note_on(62, 100);
    run(&mut vm, 5);
    vm.note_off(62);
    // 60 is older but still held; 62 is released
    let slot = vm.note_on(64, 100);
    assert_eq!(slot, 1);
    assert_eq!(vm.active_voice_count(), 2);
    assert_eq!(key_in(&vm, 0), Some(60));
    assert_eq!(key_in(&vm, 1), Some(64));
}

#[test]
fn stealing_takes_oldest_when_none_released() {
    let mut vm = VoiceManager::new(2, settings());
    vm.note_on(60, 100);
    run(&mut vm, 5);
    vm.note_on(62, 100);
    run(&mut vm, 5);
    let slot = vm.note_on(64, 100);
    assert_eq!(slot, 0);
    assert_eq!(vm.active_voice_count(), 2);
    assert_eq!(key_in(&vm, 0), Some(64));
    assert_eq!(key_in(&vm, 1), Some(62));
}

#[test]
fn stealing_takes_oldest_released_voice() {
    let mut vm = VoiceManager::new(3, settings());
    vm.note_on(60, 100);
    run(&mut vm, 3);
    vm.note_on(62, 100);
    run(&mut vm, 3);
    vm.note_on(64, 100);
    vm.note_off(64);
    vm.note_off(62);
    let slot = vm.note_on(67, 100);
    assert_eq!(slot, 1);
    assert_eq!(key_in(&vm, 0), Some(60));
    assert_eq!(key_in(&vm, 1), Some(67));
    assert_eq!(key_in(&vm, 2), Some(64));
}

#[test]
fn stealing_tie_goes_to_lower_key() {
    let mut vm = VoiceManager::new(2, settings());
    vm.note_on(62, 100);
    vm.note_on(60, 100);
    let slot = vm.note_on(64, 100);
    assert_eq!(slot, 1);
    assert_eq!(key_in(&vm, 0), Some(62));
    assert_eq!(key_in(&vm, 1), Some(64));
}

#[test]
fn retriggered_key_keeps_fading_voice() {
    let mut vm = VoiceManager::new(4, settings());
    vm.note_on(60, 100);
    run(&mut vm, 30);
    let slot = vm.note_on(60, 90);
    assert_eq!(slot, 1);
    assert_eq!(vm.active_voice_count(), 2);
    let old = vm.voice(0).unwrap();
    let new = vm.voice(1).unwrap();
    assert!(old.is_released);
    assert!(!new.is_released);
    assert_eq!(new.velocity, 90);
    // a note-off reaches the new voice; the old one is already released
    vm.note_off(60);
    assert!(vm.voice(1).unwrap().is_released);
}

#[test]
fn note_off_twice_same_as_once() {
    let mut once = VoiceManager::new(2, settings());
    let mut twice = VoiceManager::new(2, settings());
    for vm in [&mut once, &mut twice] {
        vm.note_on(60, 100);
        run(vm, 15);
        vm.note_off(60);
    }
    run(&mut twice, 4);
    run(&mut once, 4);
    twice.note_off(60);
    let a = once.voice(0).unwrap();
    let b = twice.voice(0).unwrap();
    for t in 0..60u64 {
        assert_eq!(a.envelope.value(t), b.envelope.value(t));
    }
    assert_eq!(a.is_released, b.is_released);
    assert_eq!(once.active_voice_count(), twice.active_voice_count());
}

#[test]
fn note_off_for_silent_key_is_noop() {
    let mut vm = VoiceManager::new(2, settings());
    vm.note_on(60, 100);
    vm.note_off(61);
    assert!(!vm.voice(0).unwrap().is_released);
}

#[test]
fn levels_follow_envelope() {
    let mut vm = VoiceManager::new(2, settings());
    vm.note_on(60, 100);
    let levels = run(&mut vm, 1);
    assert_eq!(levels, vec![Some(0), None]);
    let levels = run(&mut vm, 5);
    assert_eq!(levels[0], Some(500_000));
    let levels = run(&mut vm, 10);
    assert_eq!(levels[0], Some(750_000));
    let levels = run(&mut vm, 100);
    assert_eq!(levels[0], Some(500_000));
    assert_eq!(vm.now(), 116);
}

#[test]
fn released_voice_is_retired_then_removed() {
    let mut vm = VoiceManager::new(2, settings());
    vm.note_on(60, 100);
    run(&mut vm, 40);
    vm.note_off(60);
    let levels = run(&mut vm, 1);
    assert_eq!(levels[0], Some(500_000));
    // twenty samples of release bring the level to 0
    let levels = run(&mut vm, 19);
    assert!(levels[0].unwrap() < 50_000);
    let levels = run(&mut vm, 1);
    assert_eq!(levels[0], None);
    assert_eq!(vm.active_voice_count(), 1);
    assert!(!vm.voice(0).unwrap().is_active);
    run(&mut vm, 1);
    assert_eq!(vm.active_voice_count(), 0);
}

#[test]
fn held_voice_is_never_retired_even_at_zero_sustain() {
    let mut vm = VoiceManager::new(1, EnvelopeSettings { attack: 1, decay: 1, sustain: 0, release: 1 });
    vm.note_on(60, 100);
    let levels = run(&mut vm, 50);
    assert_eq!(levels[0], Some(0));
    assert_eq!(vm.active_voice_count(), 1);
}

#[test]
fn update_settings_reaches_live_voices_and_new_ones() {
    let mut vm = VoiceManager::new(2, settings());
    vm.note_on(60, 100);
    run(&mut vm, 100);
    let new = EnvelopeSettings { attack: 10, decay: 10, sustain: 200_000, release: 40 };
    vm.update_settings(new);
    assert_eq!(vm.settings(), new);
    let levels = run(&mut vm, 1);
    assert_eq!(levels[0], Some(200_000));
    let v = vm.voice(0).unwrap();
    assert_eq!(v.key, 60);
    assert_eq!(v.start_time, 0);
    vm.note_on(62, 100);
    let w = vm.voice(1).unwrap();
    assert_eq!(w.envelope.value(1000), 200_000);
}

#[test]
fn voice_level_and_retirement() {
    let mut v = Voice::new(60, 127, 100, &settings());
    v.start_envelope();
    assert_eq!(v.level(105), Some(500_000));
    // before its start the voice reads its envelope at time 0
    assert_eq!(v.level(50), Some(0));
    v.note_off(200);
    assert!(v.is_released);
    assert_eq!(v.level(210), Some(250_000));
    assert!(SILENCE_LEVEL > 0);
    assert_eq!(v.level(220), None);
    assert!(!v.is_active);
    assert_eq!(v.level(205), None);
}
