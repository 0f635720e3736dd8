use vstd::prelude::*;

use crate::clock::now_rfc3339;

verus! {

/// One trimmed reference to a media source: a locator plus an in/out
/// millisecond range into that source.
pub struct Clip {
    pub id: String,
    pub url: String,
    pub in_point: u64,
    pub out_point: u64,
}

/// The mathematical value of a `Clip`: its strings as character sequences.
#[verifier::ext_equal]
pub ghost struct ClipModel {
    pub id: Seq<char>,
    pub url: Seq<char>,
    pub in_point: u64,
    pub out_point: u64,
}

impl View for Clip {
    type V = ClipModel;

    open spec fn view(&self) -> ClipModel {
        ClipModel { id: self.id@, url: self.url@, in_point: self.in_point, out_point: self.out_point }
    }
}

impl Clone for Clip {
    fn clone(&self) -> (res: Self)
        ensures
            res@ == self@,
    {
        Clip {
            id: self.id.clone(),
            url: self.url.clone(),
            in_point: self.in_point,
            out_point: self.out_point,
        }
    }
}

/// The values of a sequence of clips.
pub open spec fn clips_view(clips: Seq<Clip>) -> Seq<ClipModel> {
    clips.map_values(|c: Clip| c@)
}

/// An ordered, magnetic sequence of clips: a clip's position on the global
/// playback axis is the sum of the durations of the clips before it.
pub struct Timeline {
    pub clips: Vec<Clip>,
}

impl View for Timeline {
    type V = Seq<ClipModel>;

    open spec fn view(&self) -> Seq<ClipModel> {
        clips_view(self.clips@)
    }
}

impl Clone for Timeline {
    fn clone(&self) -> (res: Self)
        ensures
            res@ == self@,
    {
        let mut clips: Vec<Clip> = Vec::new();
        let mut i: usize = 0;
        while i < self.clips.len()
            invariant
                i <= self.clips.len(),
                clips@.len() == i as int,
                forall|j: int| 0 <= j < i as int ==> clips@[j]@ == self.clips@[j]@,
            decreases self.clips.len() - i,
        {
            clips.push(self.clips[i].clone());
            i = i + 1;
        }
        let res = Timeline { clips };
        assert(res@ =~= self@);
        res
    }
}

impl Default for Timeline {
    /// An empty timeline.
    fn default() -> (res: Self)
        ensures
            res@ == Seq::<ClipModel>::empty(),
    {
        let res = Timeline { clips: Vec::new() };
        assert(res@ =~= Seq::<ClipModel>::empty());
        res
    }
}

/// One named editing session: a timeline plus creation and modification
/// timestamps in RFC 3339 form.
pub struct Project {
    pub name: String,
    pub timeline: Timeline,
    pub created_at: String,
    pub modified_at: String,
}

/// The mathematical value of a `Project`.
#[verifier::ext_equal]
pub ghost struct ProjectModel {
    pub name: Seq<char>,
    pub clips: Seq<ClipModel>,
    pub created_at: Seq<char>,
    pub modified_at: Seq<char>,
}

impl View for Project {
    type V = ProjectModel;

    open spec fn view(&self) -> ProjectModel {
        ProjectModel {
            name: self.name@,
            clips: self.timeline@,
            created_at: self.created_at@,
            modified_at: self.modified_at@,
        }
    }
}

impl Clone for Project {
    fn clone(&self) -> (res: Self)
        ensures
            res@ == self@,
    {
        Project {
            name: self.name.clone(),
            timeline: self.timeline.clone(),
            created_at: self.created_at.clone(),
            modified_at: self.modified_at.clone(),
        }
    }
}

impl Project {
    /// A fresh project: the given name, an empty timeline, and identical
    /// creation and modification timestamps taken from the clock.
    pub fn new(name: String) -> (res: Self)
        ensures
            res@.name == name@,
            res@.clips == Seq::<ClipModel>::empty(),
            res@.created_at == res@.modified_at,
    {
        let now = now_rfc3339();
        let res = Project {
            name,
            timeline: Timeline::default(),
            created_at: now.clone(),
            modified_at: now,
        };
        res
    }

    /// Refreshes the modification timestamp from the clock; every other field
    /// is left as it was.
    pub fn update_modified_time(&mut self)
        ensures
            final(self).name == old(self).name,
            final(self).timeline == old(self).timeline,
            final(self).created_at == old(self).created_at,
    {
        self.modified_at = now_rfc3339();
    }
}

/// The playhead: whether playback is running, and the position on the global
/// timeline axis in milliseconds.
#[derive(Clone, Copy, Debug, PartialEq, Eq, Structural)]
pub struct PlaybackState {
    pub is_playing: bool,
    pub time_ms: u64,
}

impl Default for PlaybackState {
    /// Paused at the start of the timeline.
    fn default() -> (res: Self)
        ensures
            res == (PlaybackState { is_playing: false, time_ms: 0u64 }),
    {
        PlaybackState { is_playing: false, time_ms: 0 }
    }
}

/// Milliseconds a clip covers of its source: `out_point - in_point` for a
/// well-formed trim range, and zero when the range is empty or inverted.
pub open spec fn spec_clip_duration(c: ClipModel) -> int {
    if c.in_point < c.out_point {
        c.out_point - c.in_point
    } else {
        0
    }
}

/// The summed duration of the first `n` clips.
pub open spec fn spec_total_prefix(clips: Seq<ClipModel>, n: int) -> int
    decreases n,
{
    if n <= 0 {
        0
    } else {
        spec_total_prefix(clips, n - 1) + spec_clip_duration(clips[n - 1])
    }
}

/// The summed duration of all clips on the timeline.
pub open spec fn spec_total_duration(clips: Seq<ClipModel>) -> int {
    spec_total_prefix(clips, clips.len() as int)
}

/// The total duration as the engine measures it: capped at the largest
/// representable millisecond count.
pub open spec fn spec_total_duration_sat(clips: Seq<ClipModel>) -> int {
    if spec_total_duration(clips) <= u64::MAX {
        spec_total_duration(clips)
    } else {
        u64::MAX as int
    }
}

/// Prefix sums of clip durations are never negative.
pub proof fn lemma_total_prefix_nonneg(clips: Seq<ClipModel>, n: int)
    ensures
        spec_total_prefix(clips, n) >= 0,
    decreases n,
{
    if n > 0 {
        lemma_total_prefix_nonneg(clips, n - 1);
    }
}

/// The clip under a global playback time, scanned from clip `j` whose window
/// starts at accumulated time `cur`: the index of the clip whose half-open
/// window contains `t`, with the matching position in the clip's source range.
pub open spec fn spec_resolve(clips: Seq<ClipModel>, j: int, cur: int, t: int) -> Option<(int, int)>
    decreases clips.len() - j,
{
    if j < 0 || j >= clips.len() {
        None
    } else if cur <= t < cur + spec_clip_duration(clips[j]) {
        Some((j, clips[j].in_point + (t - cur)))
    } else {
        spec_resolve(clips, j + 1, cur + spec_clip_duration(clips[j]), t)
    }
}

/// The clip under global playback time `t`, with the position inside its
/// source range, or `None` when `t` lies past the end of the timeline.
pub open spec fn spec_clip_at_time(clips: Seq<ClipModel>, t: int) -> Option<(int, int)> {
    spec_resolve(clips, 0, 0, t)
}

/// Once the accumulated start time has passed `t`, no later clip matches.
pub proof fn lemma_resolve_past(clips: Seq<ClipModel>, j: int, cur: int, t: int)
    requires
        t < cur,
    ensures
        spec_resolve(clips, j, cur, t) is None,
    decreases clips.len() - j,
{
    if 0 <= j < clips.len() {
        lemma_total_prefix_nonneg(clips, 0);
        assert(spec_clip_duration(clips[j]) >= 0);
        lemma_resolve_past(clips, j + 1, cur + spec_clip_duration(clips[j]), t);
    }
}

} // verus!
