use timeline_engine::{Clip, Command, Engine, EngineEvent, PlaybackState};

fn clip(id: &str, url: &str, in_point: u64, out_point: u64) -> Clip {
    Clip { id: id.to_string(), url: url.to_string(), in_point, out_point }
}

fn engine_with_clips(clips: Vec<Clip>) -> Engine {
    let mut engine = Engine::new();
    for (i, c) in clips.into_iter().enumerate() {
        engine.handle(Command::AddClip(c, i));
    }
    engine
}

fn timeline_pairs(engine: &Engine) -> Vec<(u64, u64)> {
    let t = engine.get_timeline();
    t.clips.iter().map(|c| (c.in_point, c.out_point)).collect()
}

#[test]
fn new_engine_has_untitled_unsaved_project() {
    let engine = Engine::new();
    let project = engine.project.as_ref().expect("a new engine opens a project");
    assert_eq!(project.name, "Untitled Project");
    assert_eq!(project.created_at, project.modified_at);
    assert!(project.timeline.clips.is_empty());
    assert!(engine.is_dirty);
    assert!(engine.has_unsaved_changes());
    assert!(engine.current_file_path.is_none());
    assert!(!engine.playback_state.is_playing);
    assert_eq!(engine.playback_state.time_ms, 0);
}

#[test]
fn add_clip_within_bounds_inserts_and_shifts() {
    let mut engine = engine_with_clips(vec![clip("a", "u", 0, 100), clip("b", "u", 0, 200)]);
    engine.handle(Command::AddClip(clip("c", "u", 0, 300), 1));
    let t = engine.get_timeline();
    let ids: Vec<&str> = t.clips.iter().map(|c| c.id.as_str()).collect();
    assert_eq!(ids, vec!["a", "c", "b"]);
}

#[test]
fn add_clip_at_length_inserts_at_end() {
    let mut engine = engine_with_clips(vec![clip("a", "u", 0, 100)]);
    engine.handle(Command::AddClip(clip("b", "u", 0, 200), 1));
    let ids: Vec<String> = engine.get_timeline().clips.iter().map(|c| c.id.clone()).collect();
    assert_eq!(ids, vec!["a".to_string(), "b".to_string()]);
}

#[test]
fn add_clip_past_length_appends() {
    let mut engine = engine_with_clips(vec![clip("a", "u", 0, 100)]);
    engine.handle(Command::AddClip(clip("z", "u", 0, 50), 99));
    let ids: Vec<String> = engine.get_timeline().clips.iter().map(|c| c.id.clone()).collect();
    assert_eq!(ids, vec!["a".to_string(), "z".to_string()]);
}

#[test]
fn remove_clip_in_range_removes() {
    let mut engine = engine_with_clips(vec![clip("a", "u", 0, 100), clip("b", "u", 0, 200)]);
    engine.handle(Command::RemoveClip(0));
    let ids: Vec<String> = engine.get_timeline().clips.iter().map(|c| c.id.clone()).collect();
    assert_eq!(ids, vec!["b".to_string()]);
}

#[test]
fn remove_clip_out_of_range_is_a_noop_but_marks_dirty() {
    let mut engine = engine_with_clips(vec![clip("a", "u", 5, 100)]);
    let before = engine.get_project_as_json().unwrap();
    let stamp = engine.project.as_ref().unwrap().modified_at.clone();
    engine.mark_as_saved();
    let event = engine.handle_stamped(Command::RemoveClip(7), stamp, 0);
    let EngineEvent::TimelineChanged(t) = event;
    assert_eq!(t.clips.len(), 1);
    assert_eq!(t.clips[0].id, "a");
    assert_eq!(t.clips[0].in_point, 5);
    assert_eq!(t.clips[0].out_point, 100);
    assert!(engine.is_dirty, "even a no-op removal marks the project dirty");
    // With the timestamp held fixed, the serialized project is byte-for-byte
    // identical: only the dirty flag moved.
    let after = engine.get_project_as_json().unwrap();
    assert_eq!(before, after);
}

#[test]
fn cut_clip_splits_at_source_position() {
    let mut engine = engine_with_clips(vec![clip("orig", "file://v.mp4", 100, 500)]);
    engine.handle(Command::CutClip(0, 300));
    let t = engine.get_timeline();
    assert_eq!(t.clips.len(), 2);
    assert_eq!((t.clips[0].in_point, t.clips[0].out_point), (100, 300));
    assert_eq!((t.clips[1].in_point, t.clips[1].out_point), (300, 500));
    assert_eq!(t.clips[0].url, "file://v.mp4");
    assert_eq!(t.clips[1].url, "file://v.mp4");
    assert!(t.clips[0].id.starts_with("orig-"));
    assert!(t.clips[1].id.starts_with("orig-"));
    assert!(t.clips[0].id.ends_with("-A"));
    assert!(t.clips[1].id.ends_with("-B"));
    assert_ne!(t.clips[0].id, t.clips[1].id);
    let dur = |c: &Clip| c.out_point - c.in_point;
    assert_eq!(dur(&t.clips[0]) + dur(&t.clips[1]), 400);
}

#[test]
fn cut_clip_split_ids_share_one_timestamp() {
    let mut engine = engine_with_clips(vec![clip("x", "u", 0, 10)]);
    engine.handle_stamped(Command::CutClip(0, 4), "stamp".to_string(), 777);
    let t = engine.get_timeline();
    assert_eq!(t.clips[0].id, "x-777-A");
    assert_eq!(t.clips[1].id, "x-777-B");
}

#[test]
fn cut_clip_rejects_position_outside_range() {
    let mut engine = engine_with_clips(vec![clip("a", "u", 100, 500)]);
    engine.handle(Command::CutClip(0, 100));
    assert_eq!(timeline_pairs(&engine), vec![(100, 500)]);
    engine.handle(Command::CutClip(0, 500));
    assert_eq!(timeline_pairs(&engine), vec![(100, 500)]);
    engine.handle(Command::CutClip(0, 40));
    assert_eq!(timeline_pairs(&engine), vec![(100, 500)]);
    engine.handle(Command::CutClip(0, 900));
    assert_eq!(timeline_pairs(&engine), vec![(100, 500)]);
}

#[test]
fn cut_clip_out_of_range_index_is_a_noop() {
    let mut engine = engine_with_clips(vec![clip("a", "u", 100, 500)]);
    engine.handle(Command::CutClip(3, 300));
    assert_eq!(timeline_pairs(&engine), vec![(100, 500)]);
}

#[test]
fn update_clip_range_applies_valid_range() {
    let mut engine = engine_with_clips(vec![clip("a", "u", 10, 20)]);
    engine.handle(Command::UpdateClipRange(0, 30, 90));
    assert_eq!(timeline_pairs(&engine), vec![(30, 90)]);
}

#[test]
fn update_clip_range_rejects_inverted_or_empty_range() {
    let mut engine = engine_with_clips(vec![clip("a", "u", 10, 20)]);
    engine.handle(Command::UpdateClipRange(0, 90, 30));
    assert_eq!(timeline_pairs(&engine), vec![(10, 20)]);
    engine.handle(Command::UpdateClipRange(0, 50, 50));
    assert_eq!(timeline_pairs(&engine), vec![(10, 20)]);
}

#[test]
fn play_and_pause_toggle_playback() {
    let mut engine = Engine::new();
    engine.handle(Command::Play);
    assert!(engine.playback_state.is_playing);
    engine.handle(Command::Play);
    assert!(engine.playback_state.is_playing);
    engine.handle(Command::Pause);
    assert!(!engine.playback_state.is_playing);
}

#[test]
fn seek_within_duration_lands_on_target() {
    let mut engine = engine_with_clips(vec![clip("a", "u", 0, 200), clip("b", "u", 200, 500)]);
    engine.handle(Command::Seek(250));
    assert_eq!(engine.playback_state.time_ms, 250);
}

#[test]
fn seek_past_duration_clamps_to_total() {
    let mut engine = engine_with_clips(vec![clip("a", "u", 0, 200), clip("b", "u", 200, 500)]);
    engine.handle(Command::Seek(9_999));
    assert_eq!(engine.playback_state.time_ms, 500);
}

#[test]
fn tick_advances_while_playing_and_short_of_the_end() {
    let mut engine = engine_with_clips(vec![clip("a", "u", 0, 500)]);
    engine.handle(Command::Play);
    engine.handle(Command::Tick(120));
    assert_eq!(engine.playback_state.time_ms, 120);
    assert!(engine.playback_state.is_playing);
}

#[test]
fn tick_reaching_the_end_clamps_and_stops() {
    let mut engine = engine_with_clips(vec![clip("a", "u", 0, 500)]);
    engine.handle(Command::Play);
    engine.handle(Command::Seek(450));
    engine.handle(Command::Tick(60));
    assert_eq!(engine.playback_state.time_ms, 500);
    assert!(!engine.playback_state.is_playing);
}

#[test]
fn tick_while_paused_is_a_noop() {
    let mut engine = engine_with_clips(vec![clip("a", "u", 0, 500)]);
    engine.handle(Command::Seek(10));
    engine.handle(Command::Tick(60));
    assert_eq!(engine.playback_state.time_ms, 10);
    assert!(!engine.playback_state.is_playing);
}

#[test]
fn every_command_but_tick_marks_dirty_and_restamps() {
    let commands = vec![
        Command::AddClip(clip("n", "u", 0, 10), 0),
        Command::RemoveClip(0),
        Command::CutClip(9, 1),
        Command::UpdateClipRange(9, 1, 2),
        Command::Play,
        Command::Pause,
        Command::Seek(0),
    ];
    for cmd in commands {
        let mut engine = engine_with_clips(vec![clip("a", "u", 0, 100)]);
        engine.mark_as_saved();
        engine.handle_stamped(cmd, "fresh-stamp".to_string(), 1);
        assert!(engine.is_dirty);
        assert_eq!(engine.project.as_ref().unwrap().modified_at, "fresh-stamp");
    }
}

#[test]
fn tick_never_marks_dirty_or_restamps() {
    let mut engine = engine_with_clips(vec![clip("a", "u", 0, 100)]);
    let stamp_before = engine.project.as_ref().unwrap().modified_at.clone();
    engine.mark_as_saved();
    engine.handle_stamped(Command::Tick(5), "fresh-stamp".to_string(), 1);
    assert!(!engine.is_dirty);
    assert_eq!(engine.project.as_ref().unwrap().modified_at, stamp_before);
}

#[test]
fn playhead_resolves_into_second_clip() {
    let mut engine = engine_with_clips(vec![clip("a", "u", 0, 200), clip("b", "u", 200, 500)]);
    engine.handle(Command::Seek(250));
    let (found, within) = engine.get_clip_for_time().expect("time 250 lies in the second clip");
    assert_eq!(found.id, "b");
    assert_eq!(within, 200 + (250 - 200));
}

#[test]
fn playhead_in_first_clip_uses_its_in_point() {
    let mut engine = engine_with_clips(vec![clip("a", "u", 40, 200)]);
    engine.handle(Command::Seek(25));
    let (found, within) = engine.get_clip_for_time().unwrap();
    assert_eq!(found.id, "a");
    assert_eq!(within, 40 + 25);
}

#[test]
fn playhead_past_the_end_resolves_to_none() {
    let mut engine = engine_with_clips(vec![clip("a", "u", 0, 200)]);
    engine.handle(Command::Seek(200));
    assert!(engine.get_clip_for_time().is_none());
}

#[test]
fn playhead_on_empty_timeline_resolves_to_none() {
    let engine = Engine::new();
    assert!(engine.get_clip_for_time().is_none());
}

#[test]
fn commands_without_a_project_are_noops_with_empty_event() {
    let mut engine = Engine::new();
    engine.project = None;
    let EngineEvent::TimelineChanged(t) = engine.handle(Command::AddClip(clip("a", "u", 0, 9), 0));
    assert!(t.clips.is_empty());
    assert!(engine.project.is_none());
    assert!(engine.get_timeline().clips.is_empty());
    assert!(engine.get_project_as_json().is_none());
}

#[test]
fn new_project_resets_state() {
    let mut engine = engine_with_clips(vec![clip("a", "u", 0, 100)]);
    engine.handle(Command::Play);
    engine.set_current_file_path(Some("/tmp/movie.tl".to_string()));
    engine.mark_as_saved();
    assert!(engine.new_project("Fresh".to_string()));
    let project = engine.project.as_ref().unwrap();
    assert_eq!(project.name, "Fresh");
    assert!(project.timeline.clips.is_empty());
    assert_eq!(project.created_at, project.modified_at);
    assert!(engine.current_file_path.is_none());
    assert!(engine.is_dirty);
    assert_eq!(engine.playback_state, PlaybackState { is_playing: false, time_ms: 0 });
}

#[test]
fn set_current_file_path_sets_and_clears() {
    let mut engine = Engine::new();
    engine.set_current_file_path(Some("/a/b.tl".to_string()));
    assert_eq!(engine.current_file_path.as_deref(), Some("/a/b.tl"));
    engine.set_current_file_path(None);
    assert!(engine.current_file_path.is_none());
}

#[test]
fn mark_as_saved_clears_dirty_flag() {
    let mut engine = Engine::new();
    assert!(engine.has_unsaved_changes());
    engine.mark_as_saved();
    assert!(!engine.has_unsaved_changes());
}
