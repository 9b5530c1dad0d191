use canary::audio::backend::SourceHandle;
use canary::audio::components::{AudioBackendName, SourceState};
use canary::audio::systems::{change_after, plan_voice, AudioVoices, VoiceChange, VoiceEntry, VoiceStep};
use canary::ecs::entity::Entity;

#[test]
fn backend_name_spelling_is_rodio() {
    assert_eq!(AudioBackendName::Rodio.as_str(), "rodio");
}

fn voice(index: u32, paused: bool) -> VoiceEntry {
    VoiceEntry { handle: SourceHandle::from_raw_parts(index, 0), paused }
}

#[test]
fn voice_table_records_replaces_and_forgets() {
    let mut voices = AudioVoices::new();
    let a = Entity::from_raw_parts(0, 0);
    let b = Entity::from_raw_parts(1, 0);
    assert!(voices.is_empty());
    voices.insert(a, voice(0, false));
    voices.insert(b, voice(1, false));
    voices.insert(a, voice(0, true));
    assert_eq!(voices.voice_count(), 2);
    assert_eq!(voices.get(a), Some(voice(0, true)));
    assert_eq!(voices.remove(a), Some(voice(0, true)));
    assert_eq!(voices.remove(a), None);
    assert_eq!(voices.entities(), vec![b]);
}

#[test]
fn scripted_state_changes_plan_exactly_one_call_each() {
    let handle = SourceHandle::from_raw_parts(0, 0);
    // A stopped source with no voice does nothing.
    assert_eq!(plan_voice(SourceState::Stopped, None, true), VoiceStep::Idle);
    // Playing with no voice starts one once the sound is loaded.
    assert_eq!(plan_voice(SourceState::Playing, None, true), VoiceStep::Start);
    assert_eq!(plan_voice(SourceState::Playing, None, false), VoiceStep::Idle);
    let started = change_after(VoiceStep::Start, Some(handle), false);
    assert_eq!(started, VoiceChange::Track(VoiceEntry { handle, paused: false }));
    // Pausing issues one pause; a second tick issues nothing.
    let step = plan_voice(SourceState::Paused, Some(VoiceEntry { handle, paused: false }), true);
    assert_eq!(step, VoiceStep::Pause { handle });
    assert_eq!(change_after(step, None, true), VoiceChange::Track(VoiceEntry { handle, paused: true }));
    assert_eq!(plan_voice(SourceState::Paused, Some(VoiceEntry { handle, paused: true }), true), VoiceStep::Idle);
    // Playing again resumes and refreshes the gain.
    let step = plan_voice(SourceState::Playing, Some(VoiceEntry { handle, paused: true }), true);
    assert_eq!(step, VoiceStep::Refresh { handle, resume: true });
    assert_eq!(change_after(step, None, true), VoiceChange::Track(VoiceEntry { handle, paused: false }));
    // Stopping stops and forgets.
    let step = plan_voice(SourceState::Stopped, Some(VoiceEntry { handle, paused: false }), true);
    assert_eq!(step, VoiceStep::Stop { handle });
    assert_eq!(change_after(step, None, false), VoiceChange::Forget);
}

#[test]
fn removal_and_despawn_leave_no_orphan_voices() {
    let mut voices = AudioVoices::new();
    let kept = Entity::from_raw_parts(0, 0);
    let removed = Entity::from_raw_parts(1, 0);
    let despawned = Entity::from_raw_parts(2, 0);
    voices.insert(kept, voice(0, false));
    voices.insert(removed, voice(1, false));
    voices.insert(despawned, voice(2, false));
    let stale = voices.stale_voices(&[kept]);
    assert_eq!(stale.len(), 2);
    let forget: Vec<Entity> = stale.iter().map(|(e, _)| *e).collect();
    voices.apply(&forget, &[]);
    assert_eq!(voices.entities(), vec![kept]);
}

#[test]
fn unknown_sound_yields_no_voice_and_the_intent_survives() {
    assert_eq!(plan_voice(SourceState::Playing, None, false), VoiceStep::Idle);
    assert_eq!(change_after(VoiceStep::Start, None, false), VoiceChange::Keep);
}

use canary::audio::voices::VoiceSlots;

#[test]
fn stopped_handles_stay_stale_across_every_method() {
    let mut voices: VoiceSlots<f32> = VoiceSlots::new();
    let handle = voices.start(1.0).expect("a fresh table has room");
    assert!(voices.stop(handle));

    assert!(!voices.stop(handle));
    assert!(!voices.pause(handle));
    assert!(!voices.resume(handle));
    assert!(!voices.set_payload(handle, 0.5));
    assert_eq!(voices.payload(handle), None);
    assert_eq!(voices.live_count(), 0);
}

#[test]
fn forged_handles_never_resolve_to_live_voices() {
    let mut voices: VoiceSlots<f32> = VoiceSlots::new();
    let live = voices.start(1.0).unwrap();
    let forged = SourceHandle::from_raw_parts(999, 0);
    let wrong_generation = SourceHandle::from_raw_parts(live.index(), live.generation() + 1);

    for h in [forged, wrong_generation] {
        assert!(!voices.stop(h));
        assert!(!voices.pause(h));
        assert!(!voices.resume(h));
        assert!(!voices.set_payload(h, 0.5));
    }
    assert!(voices.is_live(live));
    assert_eq!(voices.payload(live), Some(&1.0));
}

#[test]
fn pause_and_resume_are_idempotent_on_live_voices() {
    let mut voices: VoiceSlots<f32> = VoiceSlots::new();
    let handle = voices.start(1.0).unwrap();
    assert!(voices.pause(handle));
    assert!(voices.pause(handle));
    assert!(voices.resume(handle));
    assert!(voices.resume(handle));
    assert!(voices.is_live(handle));
}

#[test]
fn voices_take_fresh_slots_and_stop_bumps_the_generation() {
    let mut voices: VoiceSlots<u8> = VoiceSlots::new();
    let a = voices.start(1).unwrap();
    let b = voices.start(2).unwrap();
    assert_eq!((a.index(), a.generation()), (0, 0));
    assert_eq!((b.index(), b.generation()), (1, 0));
    assert_eq!(voices.live_count(), 2);
    assert!(voices.stop(a));
    assert_eq!(voices.live_count(), 1);
    assert!(!voices.is_live(a));
    assert!(!voices.is_live(SourceHandle::from_raw_parts(0, 1)), "a stopped slot holds no live voice at any generation");
    assert!(voices.set_payload(b, 7));
    assert_eq!(voices.payload(b), Some(&7));
}
