use vstd::prelude::*;
use vstd::string::StringExecFns;

use crate::clock::{now_rfc3339, now_unix_millis};
use crate::codec::{project_from_json, project_to_json, spec_parse_document, spec_render_project};
use crate::model::{
    clips_view, spec_clip_duration, spec_total_duration, spec_total_duration_sat,
    spec_total_prefix, spec_clip_at_time, spec_resolve, lemma_resolve_past,
    lemma_total_prefix_nonneg, Clip, ClipModel, PlaybackState, Project, ProjectModel, Timeline,
};
use crate::text::{spec_u64_digits, u64_string};

verus! {

/// One editing or playback command, submitted through `Engine::handle`.
pub enum Command {
    /// Insert the clip at the index; an index past the end appends.
    AddClip(Clip, usize),
    /// Remove the clip at the index; out of range is a no-op.
    RemoveClip(usize),
    /// Split the clip at the index at a position in its source range.
    CutClip(usize, u64),
    /// Replace a clip's trim points; an inverted range is a no-op.
    UpdateClipRange(usize, u64, u64),
    Play,
    Pause,
    /// Move the playhead, clamped to the total duration.
    Seek(u64),
    /// Advance the playhead by a delta while playing.
    Tick(u64),
}

/// The change notification returned by `Engine::handle`: the full
/// post-mutation timeline.
pub enum EngineEvent {
    TimelineChanged(Timeline),
}

impl View for EngineEvent {
    type V = Seq<ClipModel>;

    open spec fn view(&self) -> Seq<ClipModel> {
        match self {
            EngineEvent::TimelineChanged(t) => t@,
        }
    }
}

/// The state engine: at most one open project, the caller-tracked file path,
/// the unsaved-changes flag, and the playhead.
pub struct Engine {
    pub project: Option<Project>,
    pub current_file_path: Option<String>,
    pub is_dirty: bool,
    pub playback_state: PlaybackState,
}

/// The mathematical value of an `Engine`.
#[verifier::ext_equal]
pub ghost struct EngineModel {
    pub project: Option<ProjectModel>,
    pub current_file_path: Option<Seq<char>>,
    pub is_dirty: bool,
    pub playback: PlaybackState,
}

impl View for Engine {
    type V = EngineModel;

    open spec fn view(&self) -> EngineModel {
        EngineModel {
            project: match self.project {
                Some(p) => Some(p@),
                None => None,
            },
            current_file_path: match self.current_file_path {
                Some(s) => Some(s@),
                None => None,
            },
            is_dirty: self.is_dirty,
            playback: self.playback_state,
        }
    }
}

/// The clips of the engine's timeline, or the empty sequence when no project
/// is open.
pub open spec fn spec_project_clips(m: EngineModel) -> Seq<ClipModel> {
    match m.project {
        Some(p) => p.clips,
        None => Seq::empty(),
    }
}

/// `AddClip`: insert within bounds, append past the end.
pub open spec fn spec_insert_clip(clips: Seq<ClipModel>, c: ClipModel, idx: int) -> Seq<ClipModel> {
    if idx <= clips.len() {
        clips.insert(idx, c)
    } else {
        clips.push(c)
    }
}

/// `RemoveClip`: remove within bounds, otherwise leave the timeline alone.
pub open spec fn spec_remove_clip(clips: Seq<ClipModel>, idx: int) -> Seq<ClipModel> {
    if 0 <= idx < clips.len() {
        clips.remove(idx)
    } else {
        clips
    }
}

/// The identifier of one half of a split clip: the original identifier, the
/// shared split timestamp, and a distinguishing suffix.
pub open spec fn spec_split_id(id: Seq<char>, ts: u64, suffix: Seq<char>) -> Seq<char> {
    id + "-"@ + spec_u64_digits(ts as int) + suffix
}

/// `CutClip`: when the position lies strictly inside the clip's source range,
/// replace the clip with two clips that partition the range at the position;
/// otherwise leave the timeline alone.
pub open spec fn spec_cut_clip(clips: Seq<ClipModel>, idx: int, pos: u64, ts: u64) -> Seq<ClipModel> {
    if 0 <= idx < clips.len() && clips[idx].in_point < pos < clips[idx].out_point {
        let c = clips[idx];
        let first = ClipModel {
            id: spec_split_id(c.id, ts, "-A"@),
            url: c.url,
            in_point: c.in_point,
            out_point: pos,
        };
        let second = ClipModel {
            id: spec_split_id(c.id, ts, "-B"@),
            url: c.url,
            in_point: pos,
            out_point: c.out_point,
        };
        clips.remove(idx).insert(idx, second).insert(idx, first)
    } else {
        clips
    }
}

/// `UpdateClipRange`: replace the trim points when the new range is valid;
/// otherwise leave the clip alone.
pub open spec fn spec_update_clip_range(
    clips: Seq<ClipModel>,
    idx: int,
    new_in: u64,
    new_out: u64,
) -> Seq<ClipModel> {
    if 0 <= idx < clips.len() && new_in < new_out {
        clips.update(
            idx,
            ClipModel {
                id: clips[idx].id,
                url: clips[idx].url,
                in_point: new_in,
                out_point: new_out,
            },
        )
    } else {
        clips
    }
}

/// `Seek`: the target time clamped to the total duration.
pub open spec fn spec_seek_time(clips: Seq<ClipModel>, t: u64) -> u64 {
    if t <= spec_total_duration_sat(clips) {
        t
    } else {
        spec_total_duration_sat(clips) as u64
    }
}

/// `Tick`: while playing, advance by the delta; reaching or passing the end
/// clamps to the total duration and stops playback.
pub open spec fn spec_tick(clips: Seq<ClipModel>, pb: PlaybackState, delta: u64) -> PlaybackState {
    if !pb.is_playing {
        pb
    } else {
        let total = spec_total_duration_sat(clips);
        let advanced = if pb.time_ms + delta <= u64::MAX {
            pb.time_ms + delta
        } else {
            u64::MAX as int
        };
        if advanced >= total {
            PlaybackState { is_playing: false, time_ms: total as u64 }
        } else {
            PlaybackState { is_playing: true, time_ms: advanced as u64 }
        }
    }
}

/// The engine after a state-mutating command: new clips and playback, the
/// dirty flag raised, and the modification timestamp refreshed.
pub open spec fn spec_stamped(
    m: EngineModel,
    p: ProjectModel,
    new_clips: Seq<ClipModel>,
    new_playback: PlaybackState,
    stamp: Seq<char>,
) -> EngineModel {
    EngineModel {
        project: Some(
            ProjectModel {
                name: p.name,
                clips: new_clips,
                created_at: p.created_at,
                modified_at: stamp,
            },
        ),
        current_file_path: m.current_file_path,
        is_dirty: true,
        playback: new_playback,
    }
}

/// What one command does to the engine, given the clock values read while it
/// ran: `stamp` is the modification timestamp and `ts` the split timestamp.
/// With no open project every command is a no-op.
pub open spec fn spec_handle(m: EngineModel, cmd: Command, stamp: Seq<char>, ts: u64) -> EngineModel {
    match m.project {
        None => m,
        Some(p) => match cmd {
            Command::AddClip(clip, idx) => spec_stamped(
                m,
                p,
                spec_insert_clip(p.clips, clip@, idx as int),
                m.playback,
                stamp,
            ),
            Command::RemoveClip(idx) => spec_stamped(
                m,
                p,
                spec_remove_clip(p.clips, idx as int),
                m.playback,
                stamp,
            ),
            Command::CutClip(idx, pos) => spec_stamped(
                m,
                p,
                spec_cut_clip(p.clips, idx as int, pos, ts),
                m.playback,
                stamp,
            ),
            Command::UpdateClipRange(idx, new_in, new_out) => spec_stamped(
                m,
                p,
                spec_update_clip_range(p.clips, idx as int, new_in, new_out),
                m.playback,
                stamp,
            ),
            Command::Play => spec_stamped(
                m,
                p,
                p.clips,
                PlaybackState { is_playing: true, time_ms: m.playback.time_ms },
                stamp,
            ),
            Command::Pause => spec_stamped(
                m,
                p,
                p.clips,
                PlaybackState { is_playing: false, time_ms: m.playback.time_ms },
                stamp,
            ),
            Command::Seek(t) => spec_stamped(
                m,
                p,
                p.clips,
                PlaybackState { is_playing: m.playback.is_playing, time_ms: spec_seek_time(p.clips, t) },
                stamp,
            ),
            Command::Tick(delta) => EngineModel {
                project: m.project,
                current_file_path: m.current_file_path,
                is_dirty: m.is_dirty,
                playback: spec_tick(p.clips, m.playback, delta),
            },
        },
    }
}

/// The total duration of the clips, capped at the largest representable
/// millisecond count.
fn total_duration(clips: &Vec<Clip>) -> (t: u64)
    ensures
        t as int == spec_total_duration_sat(clips_view(clips@)),
{
    let ghost cv = clips_view(clips@);
    let mut acc: u64 = 0;
    let mut i: usize = 0;
    while i < clips.len()
        invariant
            i <= clips.len(),
            cv == clips_view(clips@),
            cv.len() == clips@.len(),
            acc as int == (if spec_total_prefix(cv, i as int) <= u64::MAX {
                spec_total_prefix(cv, i as int)
            } else {
                u64::MAX as int
            }),
        decreases clips.len() - i,
    {
        let c = &clips[i];
        let d: u64 = if c.in_point < c.out_point {
            c.out_point - c.in_point
        } else {
            0
        };
        proof {
            lemma_total_prefix_nonneg(cv, i as int);
            assert(cv[i as int] == clips@[i as int]@);
            assert(d as int == spec_clip_duration(cv[i as int]));
            assert(spec_total_prefix(cv, i as int + 1) == spec_total_prefix(cv, i as int)
                + spec_clip_duration(cv[i as int]));
        }
        acc = if acc > u64::MAX - d {
            u64::MAX
        } else {
            acc + d
        };
        i = i + 1;
    }
    acc
}

impl Engine {
    /// A fresh engine: an unsaved untitled project, no file path, and the
    /// playhead paused at zero.
    pub fn new() -> (res: Self)
        ensures
            res@.project is Some,
            res@.project.unwrap().name == "Untitled Project"@,
            res@.project.unwrap().clips == Seq::<ClipModel>::empty(),
            res@.project.unwrap().created_at == res@.project.unwrap().modified_at,
            res@.current_file_path is None,
            res@.is_dirty == true,
            res@.playback == (PlaybackState { is_playing: false, time_ms: 0u64 }),
    {
        Engine {
            project: Some(Project::new(String::from_str("Untitled Project"))),
            current_file_path: None,
            is_dirty: true,
            playback_state: PlaybackState::default(),
        }
    }

    /// The current timeline, or an empty one when no project is open.
    pub fn get_timeline(&self) -> (r: Timeline)
        ensures
            r@ == spec_project_clips(self@),
    {
        match &self.project {
            Some(p) => p.timeline.clone(),
            None => Timeline::default(),
        }
    }

    /// Applies one command, reading the clock for the timestamps it needs, and
    /// returns the full post-mutation timeline.
    pub fn handle(&mut self, cmd: Command) -> (event: EngineEvent)
        ensures
            exists|stamp: Seq<char>, ts: u64|
                final(self)@ == spec_handle(old(self)@, cmd, stamp, ts),
            event@ == spec_project_clips(final(self)@),
    {
        let stamp = now_rfc3339();
        let raw_ts = now_unix_millis();
        let ts: u64 = if raw_ts < 0 {
            0
        } else {
            raw_ts as u64
        };
        let ghost stamp_view = stamp@;
        let event = self.handle_stamped(cmd, stamp, ts);
        proof {
            assert(self@ == spec_handle(old(self)@, cmd, stamp_view, ts));
        }
        event
    }

    /// Applies one command with the clock values passed in: `stamp` becomes
    /// the new modification timestamp of a state-mutating command, and `ts`
    /// the shared timestamp in the identifiers of a split clip.
    pub fn handle_stamped(&mut self, cmd: Command, stamp: String, split_ts: u64) -> (event: EngineEvent)
        ensures
            final(self)@ == spec_handle(old(self)@, cmd, stamp@, split_ts),
            event@ == spec_project_clips(final(self)@),
    {
        match self.project.take() {
            None => {
                let tl = Timeline::default();
                assert(self@ =~~= spec_handle(old(self)@, cmd, stamp@, split_ts));
                EngineEvent::TimelineChanged(tl)
            },
            Some(mut project) => {
                let ghost pre = old(self)@;
                let ghost clips0 = clips_view(project.timeline.clips@);
                match &cmd {
                    Command::AddClip(clip, idx) => {
                        if *idx <= project.timeline.clips.len() {
                            project.timeline.clips.insert(*idx, clip.clone());
                        } else {
                            project.timeline.clips.push(clip.clone());
                        }
                        proof {
                            assert(clips_view(project.timeline.clips@) =~~= spec_insert_clip(
                                clips0,
                                clip@,
                                *idx as int,
                            ));
                        }
                    },
                    Command::RemoveClip(idx) => {
                        if *idx < project.timeline.clips.len() {
                            project.timeline.clips.remove(*idx);
                        }
                        proof {
                            assert(clips_view(project.timeline.clips@) =~~= spec_remove_clip(
                                clips0,
                                *idx as int,
                            ));
                        }
                    },
                    Command::CutClip(idx, position) => {
                        if *idx < project.timeline.clips.len() {
                            let in_pt = project.timeline.clips[*idx].in_point;
                            let out_pt = project.timeline.clips[*idx].out_point;
                            if *position > in_pt && *position < out_pt {
                                let num = u64_string(split_ts);
                                let base = project.timeline.clips[*idx].id.clone();
                                let url = project.timeline.clips[*idx].url.clone();
                                let id_a = base.clone().concat("-").concat(num.as_str()).concat(
                                    "-A",
                                );
                                let id_b = base.concat("-").concat(num.as_str()).concat("-B");
                                proof {
                                    assert(id_a@ == spec_split_id(clips0[*idx as int].id, split_ts, "-A"@));
                                    assert(id_b@ == spec_split_id(clips0[*idx as int].id, split_ts, "-B"@));
                                }
                                let first_clip = Clip {
                                    id: id_a,
                                    url: url.clone(),
                                    in_point: in_pt,
                                    out_point: *position,
                                };
                                let second_clip = Clip {
                                    id: id_b,
                                    url,
                                    in_point: *position,
                                    out_point: out_pt,
                                };
                                project.timeline.clips.remove(*idx);
                                project.timeline.clips.insert(*idx, second_clip);
                                project.timeline.clips.insert(*idx, first_clip);
                            }
                        }
                        proof {
                            assert(clips_view(project.timeline.clips@) =~~= spec_cut_clip(
                                clips0,
                                *idx as int,
                                *position,
                                split_ts,
                            ));
                        }
                    },
                    Command::UpdateClipRange(idx, new_in, new_out) => {
                        if *idx < project.timeline.clips.len() {
                            if *new_in < *new_out {
                                let id = project.timeline.clips[*idx].id.clone();
                                let url = project.timeline.clips[*idx].url.clone();
                                let updated = Clip {
                                    id,
                                    url,
                                    in_point: *new_in,
                                    out_point: *new_out,
                                };
                                project.timeline.clips.set(*idx, updated);
                            }
                        }
                        proof {
                            assert(clips_view(project.timeline.clips@) =~~= spec_update_clip_range(
                                clips0,
                                *idx as int,
                                *new_in,
                                *new_out,
                            ));
                        }
                    },
                    Command::Play => {
                        self.playback_state.is_playing = true;
                    },
                    Command::Pause => {
                        self.playback_state.is_playing = false;
                    },
                    Command::Seek(time) => {
                        let total = total_duration(&project.timeline.clips);
                        self.playback_state.time_ms = if *time <= total {
                            *time
                        } else {
                            total
                        };
                    },
                    Command::Tick(delta) => {
                        if self.playback_state.is_playing {
                            let total = total_duration(&project.timeline.clips);
                            let t = self.playback_state.time_ms;
                            let advanced: u64 = if t > u64::MAX - *delta {
                                u64::MAX
                            } else {
                                t + *delta
                            };
                            if advanced >= total {
                                self.playback_state.time_ms = total;
                                self.playback_state.is_playing = false;
                            } else {
                                self.playback_state.time_ms = advanced;
                            }
                        }
                    },
                }
                let is_tick = matches!(&cmd, Command::Tick(_));
                if !is_tick {
                    project.modified_at = stamp;
                    self.is_dirty = true;
                }
                let tl = project.timeline.clone();
                self.project = Some(project);
                proof {
                    assert(self@ =~~= spec_handle(pre, cmd, stamp@, split_ts));
                }
                EngineEvent::TimelineChanged(tl)
            },
        }
    }

    /// The clip under the playhead and the matching position in its source
    /// range, or `None` when the playhead is past the end (or no project is
    /// open).
    pub fn get_clip_for_time(&self) -> (r: Option<(Clip, u64)>)
        ensures
            (spec_clip_at_time(spec_project_clips(self@), self@.playback.time_ms as int) is Some)
                == (r is Some),
            r is Some ==> {
                let resolved = spec_clip_at_time(
                    spec_project_clips(self@),
                    self@.playback.time_ms as int,
                );
                &&& r.unwrap().0@ == spec_project_clips(self@)[resolved.unwrap().0]
                &&& r.unwrap().1 as int == resolved.unwrap().1
            },
    {
        match &self.project {
            None => None,
            Some(project) => {
                let ghost cv = clips_view(project.timeline.clips@);
                let clips = &project.timeline.clips;
                let t = self.playback_state.time_ms;
                let mut cur: u64 = 0;
                let mut i: usize = 0;
                while i < clips.len()
                    invariant
                        i <= clips.len(),
                        cv == clips_view(clips@),
                        cv.len() == clips@.len(),
                        spec_clip_at_time(cv, t as int) == spec_resolve(cv, i as int, cur as int, t as int),
                        cur <= t,
                        t == self@.playback.time_ms,
                        cv == spec_project_clips(self@),
                    decreases clips.len() - i,
                {
                    let c = &clips[i];
                    let d: u64 = if c.in_point < c.out_point {
                        c.out_point - c.in_point
                    } else {
                        0
                    };
                    proof {
                        assert(cv[i as int] == clips@[i as int]@);
                        assert(d as int == spec_clip_duration(cv[i as int]));
                    }
                    if t - cur < d {
                        let within = c.in_point + (t - cur);
                        return Some((c.clone(), within));
                    }
                    cur = cur + d;
                    if cur > t {
                        proof {
                            lemma_resolve_past(cv, i as int + 1, cur as int, t as int);
                        }
                        return None;
                    }
                    i = i + 1;
                }
                None
            },
        }
    }

    /// Whether the project has edits that the caller has not saved.
    pub fn has_unsaved_changes(&self) -> (r: bool)
        ensures
            r == self@.is_dirty,
    {
        self.is_dirty
    }

    /// Clears the dirty flag after the caller has saved the project.
    pub fn mark_as_saved(&mut self)
        ensures
            final(self)@ == (EngineModel { is_dirty: false, ..old(self)@ }),
    {
        self.is_dirty = false;
    }

    /// Records (or clears) the file path the caller saved to or opened from.
    pub fn set_current_file_path(&mut self, file_path: Option<String>)
        ensures
            final(self)@ == (EngineModel {
                current_file_path: match file_path {
                    Some(p) => Some(p@),
                    None => None,
                },
                ..old(self)@
            }),
    {
        self.current_file_path = file_path;
    }

    /// Starts a brand-new named project: unsaved, no file path, playhead
    /// paused at zero.
    pub fn new_project(&mut self, name: String) -> (ok: bool)
        ensures
            ok,
            final(self)@.project is Some,
            final(self)@.project.unwrap().name == name@,
            final(self)@.project.unwrap().clips == Seq::<ClipModel>::empty(),
            final(self)@.project.unwrap().created_at == final(self)@.project.unwrap().modified_at,
            final(self)@.current_file_path is None,
            final(self)@.is_dirty == true,
            final(self)@.playback == (PlaybackState { is_playing: false, time_ms: 0u64 }),
    {
        self.project = Some(Project::new(name));
        self.current_file_path = None;
        self.is_dirty = true;
        self.playback_state = PlaybackState::default();
        true
    }

    /// The current project written as one interchange document, or `None`
    /// when no project is open.
    pub fn get_project_as_json(&self) -> (r: Option<String>)
        ensures
            match self@.project {
                Some(pm) => r is Some && r.unwrap()@ == spec_render_project(pm),
                None => r is None,
            },
    {
        match &self.project {
            Some(p) => Some(project_to_json(p)),
            None => None,
        }
    }

    /// Replaces the current project with one read from an interchange
    /// document. A well-formed document is loaded wholesale, the file path is
    /// cleared and the project counts as saved; a malformed one leaves the
    /// engine untouched and reports failure.
    pub fn load_project_from_json(&mut self, json: &str) -> (ok: bool)
        ensures
            match spec_parse_document(json@) {
                Some(pm) => ok && final(self)@ == (EngineModel {
                    project: Some(pm),
                    current_file_path: None,
                    is_dirty: false,
                    playback: old(self)@.playback,
                }),
                None => !ok && final(self)@ == old(self)@,
            },
    {
        match project_from_json(json) {
            Some(p) => {
                self.project = Some(p);
                self.current_file_path = None;
                self.is_dirty = false;
                true
            },
            None => false,
        }
    }
}

/// Insertion bounds: `AddClip` with an index past the end appends; with an
/// index within bounds it inserts there, shifting the clips after it right by
/// one position.
pub proof fn lemma_add_clip_bounds(clips: Seq<ClipModel>, c: ClipModel, idx: int)
    requires
        0 <= idx,
    ensures
        idx > clips.len() ==> spec_insert_clip(clips, c, idx) == clips.push(c),
        idx <= clips.len() ==> {
            let r = spec_insert_clip(clips, c, idx);
            &&& r.len() == clips.len() + 1
            &&& r[idx] == c
            &&& forall|j: int| 0 <= j < idx ==> r[j] == clips[j]
            &&& forall|j: int| idx <= j < clips.len() ==> r[j + 1] == clips[j]
        },
{
    broadcast use vstd::seq_lib::group_seq_properties;

}

/// Removal no-op: `RemoveClip` with an out-of-range index leaves the whole
/// timeline identical; only the dirty flag and the modification timestamp
/// move.
pub proof fn lemma_remove_clip_out_of_range(m: EngineModel, idx: usize, stamp: Seq<char>, ts: u64)
    requires
        m.project is Some,
        idx >= m.project.unwrap().clips.len(),
    ensures
        ({
            let r = spec_handle(m, Command::RemoveClip(idx), stamp, ts);
            &&& r.project is Some
            &&& r.project.unwrap().clips == m.project.unwrap().clips
            &&& r.project.unwrap().name == m.project.unwrap().name
            &&& r.project.unwrap().created_at == m.project.unwrap().created_at
            &&& r.project.unwrap().modified_at == stamp
            &&& r.current_file_path == m.current_file_path
            &&& r.playback == m.playback
            &&& r.is_dirty == true
        }),
{
}

/// Split correctness: a valid `CutClip` replaces the clip with exactly two
/// clips that partition its source range at the position, keep its locator,
/// carry distinct identifiers both derived from the original one, preserve
/// the combined duration, and leave every other clip in its order.
pub proof fn lemma_cut_clip_splits(clips: Seq<ClipModel>, idx: int, pos: u64, ts: u64)
    requires
        0 <= idx < clips.len(),
        clips[idx].in_point < pos < clips[idx].out_point,
    ensures
        ({
            let r = spec_cut_clip(clips, idx, pos, ts);
            let c = clips[idx];
            &&& r.len() == clips.len() + 1
            &&& r[idx] == ClipModel {
                id: spec_split_id(c.id, ts, "-A"@),
                url: c.url,
                in_point: c.in_point,
                out_point: pos,
            }
            &&& r[idx + 1] == ClipModel {
                id: spec_split_id(c.id, ts, "-B"@),
                url: c.url,
                in_point: pos,
                out_point: c.out_point,
            }
            &&& r[idx].id != r[idx + 1].id
            &&& spec_clip_duration(r[idx]) + spec_clip_duration(r[idx + 1])
                == spec_clip_duration(c)
            &&& forall|j: int| 0 <= j < idx ==> r[j] == clips[j]
            &&& forall|j: int| idx < j < clips.len() ==> r[j + 1] == clips[j]
        }),
{
    broadcast use vstd::seq_lib::group_seq_properties;

    let r = spec_cut_clip(clips, idx, pos, ts);
    let c = clips[idx];
    let a_id = spec_split_id(c.id, ts, "-A"@);
    let b_id = spec_split_id(c.id, ts, "-B"@);
    reveal_strlit("-A");
    reveal_strlit("-B");
    assert(a_id.len() == b_id.len());
    assert(a_id[a_id.len() - 1] == 'A');
    assert(b_id[b_id.len() - 1] == 'B');
    assert(a_id != b_id);
}

/// Split rejection: `CutClip` at a position at or outside the clip's trim
/// range leaves the clip list unchanged.
pub proof fn lemma_cut_clip_rejects(clips: Seq<ClipModel>, idx: int, pos: u64, ts: u64)
    requires
        0 <= idx < clips.len(),
        pos <= clips[idx].in_point || pos >= clips[idx].out_point,
    ensures
        spec_cut_clip(clips, idx, pos, ts) == clips,
{
}

/// Trim validity: `UpdateClipRange` with an inverted or empty range leaves
/// the target clip unchanged; with a valid range it replaces both trim
/// points at once and touches nothing else.
pub proof fn lemma_update_clip_range(clips: Seq<ClipModel>, idx: int, new_in: u64, new_out: u64)
    requires
        0 <= idx < clips.len(),
    ensures
        new_in >= new_out ==> spec_update_clip_range(clips, idx, new_in, new_out) == clips,
        new_in < new_out ==> {
            let r = spec_update_clip_range(clips, idx, new_in, new_out);
            &&& r.len() == clips.len()
            &&& r[idx] == ClipModel {
                id: clips[idx].id,
                url: clips[idx].url,
                in_point: new_in,
                out_point: new_out,
            }
            &&& forall|j: int| 0 <= j < clips.len() && j != idx ==> r[j] == clips[j]
        },
{
    broadcast use vstd::seq_lib::group_seq_properties;

}

/// Seek clamp: a `Seek` past the total duration lands exactly on the total
/// duration, and a `Seek` within it lands exactly on the target.
pub proof fn lemma_seek_clamps(clips: Seq<ClipModel>, t: u64)
    requires
        spec_total_duration(clips) <= u64::MAX,
    ensures
        t > spec_total_duration(clips) ==> spec_seek_time(clips, t) == spec_total_duration(clips),
        t <= spec_total_duration(clips) ==> spec_seek_time(clips, t) == t,
{
    lemma_total_prefix_nonneg(clips, clips.len() as int);
}

/// Auto-stop: while playing, a `Tick` that reaches or passes the total
/// duration clamps the playhead to it and stops playback; one that stays
/// short of it advances the playhead by the delta and keeps playing.
pub proof fn lemma_tick_auto_stop(clips: Seq<ClipModel>, pb: PlaybackState, delta: u64)
    requires
        pb.is_playing,
        spec_total_duration(clips) <= u64::MAX,
    ensures
        ({
            let d = spec_total_duration(clips);
            let r = spec_tick(clips, pb, delta);
            &&& pb.time_ms + delta >= d ==> r.time_ms == d && !r.is_playing
            &&& pb.time_ms + delta < d ==> r.time_ms == pb.time_ms + delta && r.is_playing
        }),
{
    lemma_total_prefix_nonneg(clips, clips.len() as int);
}

/// A `Tick` while paused leaves the playback state untouched.
pub proof fn lemma_tick_paused(clips: Seq<ClipModel>, pb: PlaybackState, delta: u64)
    requires
        !pb.is_playing,
    ensures
        spec_tick(clips, pb, delta) == pb,
{
}

/// Dirty propagation: every command except `Tick` raises the dirty flag and
/// replaces the modification timestamp with the fresh clock value, whether or
/// not it changed any data; `Tick` never touches either.
pub proof fn lemma_dirty_propagation(m: EngineModel, cmd: Command, stamp: Seq<char>, ts: u64)
    requires
        m.project is Some,
    ensures
        ({
            let r = spec_handle(m, cmd, stamp, ts);
            &&& !(cmd is Tick) ==> r.is_dirty && r.project.unwrap().modified_at == stamp
                && r.project.unwrap().created_at == m.project.unwrap().created_at
            &&& cmd is Tick ==> r.is_dirty == m.is_dirty && r.project.unwrap().modified_at
                == m.project.unwrap().modified_at
        }),
{
    match cmd {
        Command::AddClip(..) => {},
        Command::RemoveClip(..) => {},
        Command::CutClip(..) => {},
        Command::UpdateClipRange(..) => {},
        Command::Play => {},
        Command::Pause => {},
        Command::Seek(..) => {},
        Command::Tick(..) => {},
    }
}

} // verus!

