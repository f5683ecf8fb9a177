//! Building a scene list from scene boundaries.
use vstd::prelude::*;

use crate::model::{DetectionOptions, FrameIndex, FrameRate, MinSceneLenPolicy, SceneBoundary, SceneList, SceneSpan};

verus! {

/// Every element is smaller than every later one.
pub open spec fn strictly_increasing(s: Seq<u64>) -> bool {
    forall|i: int, j: int| 0 <= i < j < s.len() ==> s[i] < s[j]
}

/// `s` holds exactly the values that `values` holds.
pub open spec fn same_values(s: Seq<u64>, values: Seq<u64>) -> bool {
    forall|x: u64| s.contains(x) <==> values.contains(x)
}

/// The distinct values of `values` in increasing order.
pub open spec fn sorted_distinct(values: Seq<u64>) -> Seq<u64> {
    choose|s: Seq<u64>| strictly_increasing(s) && same_values(s, values)
}

/// The frame numbers of a list of boundaries.
pub open spec fn boundary_frames(boundaries: Seq<SceneBoundary>) -> Seq<u64> {
    boundaries.map_values(|b: SceneBoundary| b.frame.0)
}

/// The first frame of every scene: frame 0 and every boundary, sorted, without repeats.
pub open spec fn scene_starts(boundaries: Seq<SceneBoundary>) -> Seq<u64> {
    sorted_distinct(seq![0u64] + boundary_frames(boundaries))
}

/// One scene from each start to the next start, the last one ending at `total_frames`.
pub open spec fn split_at_starts(starts: Seq<u64>, total_frames: u64) -> Seq<SceneSpan> {
    Seq::new(
        starts.len(),
        |i: int|
            SceneSpan {
                start: FrameIndex(starts[i]),
                end: FrameIndex(
                    if i + 1 < starts.len() {
                        starts[i + 1]
                    } else {
                        total_frames
                    },
                ),
            },
    )
}

/// The number of frames in a scene.
pub open spec fn span_len(span: SceneSpan) -> int {
    span.end.0 - span.start.0
}

/// Under `MergeLast`, a final scene shorter than the minimum scene length is
/// merged into the scene before it; otherwise the scenes are left as they are.
pub open spec fn apply_min_scene_len_policy(
    scenes: Seq<SceneSpan>,
    options: DetectionOptions,
) -> Seq<SceneSpan> {
    if options.min_scene_len_policy == MinSceneLenPolicy::MergeLast && scenes.len() > 1
        && span_len(scenes.last()) < options.min_scene_len {
        let n = scenes.len();
        scenes.drop_last().update(
            n - 2,
            SceneSpan { start: scenes[n - 2].start, end: scenes.last().end },
        )
    } else {
        scenes
    }
}

/// The scenes that detection reports for `total_frames` frames and the given boundaries.
pub open spec fn scene_spans(
    total_frames: u64,
    boundaries: Seq<SceneBoundary>,
    options: DetectionOptions,
) -> Seq<SceneSpan> {
    if total_frames == 0 {
        Seq::empty()
    } else {
        apply_min_scene_len_policy(
            split_at_starts(scene_starts(boundaries), total_frames),
            options,
        )
    }
}

/// `MergeLast` computes the length of the last scene in `u64`: that scene must
/// not start after the end of the video.
pub open spec fn merge_last_is_defined(
    total_frames: u64,
    boundaries: Seq<SceneBoundary>,
    options: DetectionOptions,
) -> bool {
    options.min_scene_len_policy == MinSceneLenPolicy::MergeLast && total_frames > 0 ==> forall|
        i: int,
    |
        0 <= i < boundaries.len() ==> #[trigger] boundaries[i].frame.0 <= total_frames
}

/// Two increasing sequences with the same values are the same sequence.
pub proof fn lemma_strictly_increasing_unique(a: Seq<u64>, b: Seq<u64>)
    requires
        strictly_increasing(a),
        strictly_increasing(b),
        forall|x: u64| a.contains(x) <==> b.contains(x),
    ensures
        a == b,
    decreases a.len(),
{
    if a.len() == 0 {
        if b.len() > 0 {
            assert(b.contains(b[0]));
        }
        assert(a =~= b);
    } else if b.len() == 0 {
        assert(a.contains(a[0]));
    } else {
        // Both first elements are the least value.
        assert(a.contains(a[0]));
        assert(b.contains(b[0]));
        let ia = choose|i: int| 0 <= i < a.len() && a[i] == b[0];
        let ib = choose|i: int| 0 <= i < b.len() && b[i] == a[0];
        assert(a[0] <= a[ia]);
        assert(b[0] <= b[ib]);
        assert(a[0] == b[0]);
        let ra = a.drop_first();
        let rb = b.drop_first();
        assert forall|x: u64| ra.contains(x) implies rb.contains(x) by {
            let k = choose|k: int| 0 <= k < ra.len() && ra[k] == x;
            assert(a[k + 1] == x);
            assert(b.contains(x));
            let m = choose|m: int| 0 <= m < b.len() && b[m] == x;
            assert(a[0] < x);
            assert(m != 0);
            assert(rb[m - 1] == x);
        }
        assert forall|x: u64| rb.contains(x) implies ra.contains(x) by {
            let k = choose|k: int| 0 <= k < rb.len() && rb[k] == x;
            assert(b[k + 1] == x);
            assert(a.contains(x));
            let m = choose|m: int| 0 <= m < a.len() && a[m] == x;
            assert(b[0] < x);
            assert(m != 0);
            assert(ra[m - 1] == x);
        }
        lemma_strictly_increasing_unique(ra, rb);
        assert(a =~= seq![a[0]] + ra);
        assert(b =~= seq![b[0]] + rb);
    }
}

/// An increasing sequence holding exactly `values` is `sorted_distinct(values)`.
pub proof fn lemma_sorted_distinct_is(s: Seq<u64>, values: Seq<u64>)
    requires
        strictly_increasing(s),
        same_values(s, values),
    ensures
        sorted_distinct(values) == s,
{
    let t = sorted_distinct(values);
    assert(strictly_increasing(t) && same_values(t, values));
    lemma_strictly_increasing_unique(s, t);
}

/// Adds `x` to an increasing vector, keeping it increasing and free of repeats.
fn insert_sorted_distinct(v: &mut Vec<u64>, x: u64)
    requires
        strictly_increasing(old(v)@),
    ensures
        strictly_increasing(final(v)@),
        forall|y: u64| final(v)@.contains(y) <==> (old(v)@.contains(y) || y == x),
{
    let ghost before = v@;
    let ghost t = lemma_insert_increasing(before, x);
    let mut i: usize = 0;
    while i < v.len() && v[i] < x
        invariant
            v@ == before,
            i <= v@.len(),
            forall|j: int| 0 <= j < i ==> #[trigger] v@[j] < x,
        decreases v@.len() - i,
    {
        i = i + 1;
    }
    if i < v.len() && v[i] == x {
        assert(before.contains(x));
        return;
    }
    proof {
        lemma_count_below(before, x);
        let c = count_below(before, x);
        if i < c {
            assert(before[i as int] < x);
        }
        if i > c {
            assert(before[c] >= x);
            assert(before[c] < x);
        }
        if before.contains(x) {
            let k = choose|k: int| 0 <= k < before.len() && before[k] == x;
            if k < i {
                assert(before[k] < x);
            } else if k > i {
                assert(before[i as int] < before[k]);
            }
        }
    }
    v.insert(i, x);
}

/// The first frame of every scene, computed: 0 and the boundary frames, sorted, without repeats.
pub(crate) fn scene_start_frames(boundaries: &Vec<SceneBoundary>) -> (starts: Vec<u64>)
    ensures
        starts@ == scene_starts(boundaries@),
        strictly_increasing(starts@),
        same_values(starts@, seq![0u64] + boundary_frames(boundaries@)),
        starts@.len() >= 1,
        starts@[0] == 0,
{
    let mut starts: Vec<u64> = Vec::new();
    starts.push(0);
    let ghost all = seq![0u64] + boundary_frames(boundaries@);
    proof {
        assert(all.take(1) =~= starts@);
    }
    let mut k: usize = 0;
    while k < boundaries.len()
        invariant
            k <= boundaries@.len(),
            all == seq![0u64] + boundary_frames(boundaries@),
            strictly_increasing(starts@),
            forall|y: u64| starts@.contains(y) <==> all.take(k + 1).contains(y),
        decreases boundaries@.len() - k,
    {
        insert_sorted_distinct(&mut starts, boundaries[k].frame.0);
        proof {
            broadcast use vstd::seq_lib::lemma_seq_contains_after_push;
            assert(all.take(k + 2) =~= all.take(k + 1).push(all[k + 1]));
            assert(all[k + 1] == boundaries@[k as int].frame.0);
        }
        k = k + 1;
    }
    proof {
        assert(all.take(k + 1) =~= all);
        lemma_sorted_distinct_is(starts@, all);
        assert(starts@.contains(0)) by {
            assert(all[0] == 0);
        }
        if starts@[0] != 0 {
            let m = choose|m: int| 0 <= m < starts@.len() && starts@[m] == 0;
            assert(starts@[0] < starts@[m]);
        }
    }
    starts
}

/// The scenes from each start to the next, the last one ending at `total_frames`.
pub(crate) fn spans_between_starts(starts: &Vec<u64>, total_frames: u64) -> (scenes: Vec<SceneSpan>)
    ensures
        scenes@ == split_at_starts(starts@, total_frames),
{
    let n = starts.len();
    let mut scenes: Vec<SceneSpan> = Vec::new();
    let mut i: usize = 0;
    while i < n
        invariant
            n == starts@.len(),
            i <= n,
            scenes@ =~= split_at_starts(starts@, total_frames).take(i as int),
        decreases n - i,
    {
        let end = if i + 1 < n {
            starts[i + 1]
        } else {
            total_frames
        };
        scenes.push(SceneSpan { start: FrameIndex(starts[i]), end: FrameIndex(end) });
        i = i + 1;
    }
    assert(scenes@ =~= split_at_starts(starts@, total_frames));
    scenes
}

/// Applies the minimum scene length policy to the final scene.
fn merge_short_last_scene(scenes: &mut Vec<SceneSpan>, options: DetectionOptions)
    requires
        options.min_scene_len_policy == MinSceneLenPolicy::MergeLast && old(scenes)@.len() > 1
            ==> old(scenes)@.last().start.0 <= old(scenes)@.last().end.0,
    ensures
        final(scenes)@ == apply_min_scene_len_policy(old(scenes)@, options),
{
    if options.min_scene_len_policy == MinSceneLenPolicy::MergeLast && scenes.len() > 1 {
        let last_index = scenes.len() - 1;
        let last = scenes[last_index];
        let last_len = last.end.0 - last.start.0;
        if last_len < options.min_scene_len {
            let ghost before = scenes@;
            scenes.pop();
            let previous = scenes[last_index - 1];
            scenes.set(last_index - 1, SceneSpan { start: previous.start, end: last.end });
            assert(scenes@ =~= apply_min_scene_len_policy(before, options));
        }
    }
}

/// Builds the scene list for `total_frames` frames split at the given boundaries.
pub fn build_scene_list(
    frame_rate: FrameRate,
    total_frames: u64,
    boundaries: Vec<SceneBoundary>,
    options: DetectionOptions,
) -> (list: SceneList)
    requires
        merge_last_is_defined(total_frames, boundaries@, options),
    ensures
        list.frame_rate == frame_rate,
        list.scenes@ == scene_spans(total_frames, boundaries@, options),
{
    if total_frames == 0 {
        let list = SceneList { frame_rate, scenes: Vec::new() };
        assert(list.scenes@ =~= scene_spans(total_frames, boundaries@, options));
        return list;
    }
    let starts = scene_start_frames(&boundaries);
    let mut scenes = spans_between_starts(&starts, total_frames);
    proof {
        let n = starts@.len();
        if options.min_scene_len_policy == MinSceneLenPolicy::MergeLast && n > 1 {
            // The last scene starts at the largest start, which is 0 or a boundary.
            let m = starts@[n - 1];
            let all = seq![0u64] + boundary_frames(boundaries@);
            assert(starts@.contains(m));
            assert(all.contains(m));
            let k = choose|k: int| 0 <= k < all.len() && all[k] == m;
            if k > 0 {
                assert(boundaries@[k - 1].frame.0 == m);
            }
            assert(scenes@.last().start.0 == m);
        }
    }
    merge_short_last_scene(&mut scenes, options);
    SceneList { frame_rate, scenes }
}

/// The number of leading elements of an increasing sequence that are below `x`.
pub open spec fn count_below(s: Seq<u64>, x: u64) -> int
    decreases s.len(),
{
    if s.len() == 0 {
        0
    } else if s.last() < x {
        s.len() as int
    } else {
        count_below(s.drop_last(), x)
    }
}

proof fn lemma_count_below(s: Seq<u64>, x: u64)
    requires
        strictly_increasing(s),
    ensures
        0 <= count_below(s, x) <= s.len(),
        forall|j: int| 0 <= j < count_below(s, x) ==> s[j] < x,
        forall|j: int| count_below(s, x) <= j < s.len() ==> s[j] >= x,
    decreases s.len(),
{
    if s.len() > 0 {
        let n = s.len() - 1;
        if s.last() < x {
            assert forall|j: int| 0 <= j < count_below(s, x) implies s[j] < x by {
                if j < n {
                    assert(s[j] < s[n]);
                }
            }
        } else {
            let r = s.drop_last();
            lemma_count_below(r, x);
            assert forall|j: int| 0 <= j < count_below(s, x) implies s[j] < x by {
                assert(s[j] == r[j]);
            }
            assert forall|j: int| count_below(s, x) <= j < s.len() implies s[j] >= x by {
                if j < n {
                    assert(s[j] == r[j]);
                }
            }
        }
    }
}

/// Inserting a value into an increasing sequence, in place and without repeats.
proof fn lemma_insert_increasing(s: Seq<u64>, x: u64) -> (t: Seq<u64>)
    requires
        strictly_increasing(s),
    ensures
        strictly_increasing(t),
        forall|y: u64| t.contains(y) <==> (s.contains(y) || y == x),
        s.contains(x) ==> t == s,
        !s.contains(x) ==> t == s.insert(count_below(s, x), x),
{
    if s.contains(x) {
        s
    } else {
        lemma_count_below(s, x);
        let i = count_below(s, x);
        let t = s.insert(i, x);
        assert forall|a: int, b: int| 0 <= a < b < t.len() implies t[a] < t[b] by {
            if b < i {
            } else if b == i {
            } else if a < i {
                assert(s[b - 1] >= x);
                assert(s[b - 1] != x);
            } else if a == i {
                assert(s[b - 1] >= x);
                assert(s[b - 1] != x);
            } else {
                assert(s[a - 1] < s[b - 1]);
            }
        }
        assert forall|y: u64| t.contains(y) <==> (s.contains(y) || y == x) by {
            if t.contains(y) {
                let k = choose|k: int| 0 <= k < t.len() && t[k] == y;
                if k < i {
                    assert(s[k] == y);
                } else if k > i {
                    assert(s[k - 1] == y);
                }
            }
            if s.contains(y) {
                let k = choose|k: int| 0 <= k < s.len() && s[k] == y;
                if k < i {
                    assert(t[k] == y);
                } else {
                    assert(t[k + 1] == y);
                }
            }
            if y == x {
                assert(t[i] == x);
            }
        }
        t
    }
}

/// Every sequence of values has an increasing arrangement without repeats.
pub proof fn lemma_sorted_distinct(values: Seq<u64>)
    ensures
        strictly_increasing(sorted_distinct(values)),
        same_values(sorted_distinct(values), values),
    decreases values.len(),
{
    broadcast use vstd::seq_lib::lemma_seq_contains_after_push;

    let witness = if values.len() == 0 {
        Seq::<u64>::empty()
    } else {
        let rest = values.drop_last();
        lemma_sorted_distinct(rest);
        let t = lemma_insert_increasing(sorted_distinct(rest), values.last());
        assert(values =~= rest.push(values.last()));
        t
    };
    assert(strictly_increasing(witness) && same_values(witness, values));
}

/// The scene starts are increasing, begin at frame 0, and are exactly frame 0
/// and the boundary frames.
pub proof fn lemma_scene_starts(boundaries: Seq<SceneBoundary>)
    ensures
        strictly_increasing(scene_starts(boundaries)),
        same_values(scene_starts(boundaries), seq![0u64] + boundary_frames(boundaries)),
        scene_starts(boundaries).len() >= 1,
        scene_starts(boundaries)[0] == 0,
{
    let all = seq![0u64] + boundary_frames(boundaries);
    lemma_sorted_distinct(all);
    let s = scene_starts(boundaries);
    assert(all[0] == 0);
    assert(all.contains(0));
    assert(s.contains(0));
    if s[0] != 0 {
        let m = choose|m: int| 0 <= m < s.len() && s[m] == 0;
        assert(s[0] < s[m]);
    }
}

/// Law: when every boundary lies inside the video, the scenes cover it exactly:
/// the first scene starts at frame 0, the last ends at `total_frames`, each scene
/// ends where the next begins, and no scene is empty.
pub proof fn law_scenes_partition_the_video(
    total_frames: u64,
    boundaries: Seq<SceneBoundary>,
    options: DetectionOptions,
)
    requires
        total_frames > 0,
        forall|i: int| 0 <= i < boundaries.len() ==> #[trigger] boundaries[i].frame.0 < total_frames,
    ensures
        ({
            let scenes = scene_spans(total_frames, boundaries, options);
            &&& scenes.len() >= 1
            &&& scenes[0].start.0 == 0
            &&& scenes.last().end.0 == total_frames
            &&& forall|i: int| 0 <= i < scenes.len() - 1 ==> #[trigger] scenes[i].end == scenes[i + 1].start
            &&& forall|i: int| 0 <= i < scenes.len() ==> #[trigger] scenes[i].start.0 < scenes[i].end.0
        }),
{
    lemma_scene_starts(boundaries);
    let starts = scene_starts(boundaries);
    let all = seq![0u64] + boundary_frames(boundaries);
    let split = split_at_starts(starts, total_frames);
    // Every start lies before the end of the video.
    assert forall|i: int| 0 <= i < starts.len() implies starts[i] < total_frames by {
        assert(starts.contains(starts[i]));
        assert(all.contains(starts[i]));
        let k = choose|k: int| 0 <= k < all.len() && all[k] == starts[i];
        if k > 0 {
            assert(boundaries[k - 1].frame.0 == starts[i]);
        }
    }
    assert forall|i: int| 0 <= i < split.len() implies #[trigger] split[i].start.0 < split[i].end.0 by {
        if i + 1 < starts.len() {
            assert(starts[i] < starts[i + 1]);
        }
    }
    let scenes = scene_spans(total_frames, boundaries, options);
    if scenes != split {
        let n = split.len();
        assert(split[n - 2].start.0 < split[n - 2].end.0);
        assert forall|i: int| 0 <= i < scenes.len() - 1 implies #[trigger] scenes[i].end == scenes[i + 1].start by {
            assert(split[i].end == split[i + 1].start);
        }
    }
}

/// Some scene starts at frame `f`.
pub open spec fn starts_a_scene(scenes: Seq<SceneSpan>, f: u64) -> bool {
    exists|i: int| 0 <= i < scenes.len() && #[trigger] scenes[i].start.0 == f
}

/// Law: under `Suppress`, a scene starts at a frame exactly when that frame is
/// frame 0 or one of the boundaries.
pub proof fn law_scenes_start_at_boundaries(
    total_frames: u64,
    boundaries: Seq<SceneBoundary>,
    min_scene_len: u64,
)
    requires
        total_frames > 0,
    ensures
        forall|f: u64|
            #[trigger] starts_a_scene(
                scene_spans(
                    total_frames,
                    boundaries,
                    DetectionOptions {
                        min_scene_len,
                        min_scene_len_policy: MinSceneLenPolicy::Suppress,
                    },
                ),
                f,
            ) <==> (f == 0 || boundary_frames(boundaries).contains(f)),
{
    lemma_scene_starts(boundaries);
    let starts = scene_starts(boundaries);
    let all = seq![0u64] + boundary_frames(boundaries);
    let options = DetectionOptions {
        min_scene_len,
        min_scene_len_policy: MinSceneLenPolicy::Suppress,
    };
    let scenes = scene_spans(total_frames, boundaries, options);
    assert(scenes == split_at_starts(starts, total_frames));
    assert forall|f: u64|
        #[trigger] starts_a_scene(scenes, f) <==> (f == 0 || boundary_frames(boundaries).contains(f)) by {
        if starts_a_scene(scenes, f) {
            let i = choose|i: int| 0 <= i < scenes.len() && #[trigger] scenes[i].start.0 == f;
            assert(starts[i] == f);
            assert(starts.contains(f));
            assert(all.contains(f));
            let k = choose|k: int| 0 <= k < all.len() && all[k] == f;
            if k > 0 {
                assert(boundary_frames(boundaries)[k - 1] == f);
            }
        }
        if f == 0 || boundary_frames(boundaries).contains(f) {
            if f != 0 {
                let k = choose|k: int|
                    0 <= k < boundary_frames(boundaries).len() && boundary_frames(boundaries)[k] == f;
                assert(all[k + 1] == f);
            }
            assert(all.contains(f));
            assert(starts.contains(f));
            let i = choose|i: int| 0 <= i < starts.len() && starts[i] == f;
            assert(scenes[i].start.0 == f);
        }
    }
}

/// Law: the scene list depends only on which frames are boundaries, not on the
/// order in which they were found or how often each was reported.
pub proof fn law_boundary_order_is_irrelevant(
    total_frames: u64,
    first: Seq<SceneBoundary>,
    second: Seq<SceneBoundary>,
    options: DetectionOptions,
)
    requires
        same_values(boundary_frames(first), boundary_frames(second)),
    ensures
        scene_spans(total_frames, first, options) == scene_spans(total_frames, second, options),
{
    lemma_scene_starts(first);
    lemma_scene_starts(second);
    let a = seq![0u64] + boundary_frames(first);
    let b = seq![0u64] + boundary_frames(second);
    assert forall|x: u64| a.contains(x) <==> b.contains(x) by {
        if a.contains(x) {
            let k = choose|k: int| 0 <= k < a.len() && a[k] == x;
            if k == 0 {
                assert(b[0] == x);
            } else {
                assert(boundary_frames(first)[k - 1] == x);
                assert(boundary_frames(second).contains(x));
                let m = choose|m: int|
                    0 <= m < boundary_frames(second).len() && boundary_frames(second)[m] == x;
                assert(b[m + 1] == x);
            }
        }
        if b.contains(x) {
            let k = choose|k: int| 0 <= k < b.len() && b[k] == x;
            if k == 0 {
                assert(a[0] == x);
            } else {
                assert(boundary_frames(second)[k - 1] == x);
                assert(boundary_frames(first).contains(x));
                let m = choose|m: int|
                    0 <= m < boundary_frames(first).len() && boundary_frames(first)[m] == x;
                assert(a[m + 1] == x);
            }
        }
    }
    lemma_strictly_increasing_unique(scene_starts(first), scene_starts(second));
}

/// Law: `MergeLast` changes the scene list only at its end, and only when the
/// final scene is short. Against `Suppress` on the same boundaries: when there
/// are at least two scenes and the last is shorter than the minimum scene
/// length, it is joined to the scene before it and every other scene stays;
/// otherwise both policies give the same scenes.
pub proof fn law_merge_last_merges_only_a_short_last_scene(
    total_frames: u64,
    boundaries: Seq<SceneBoundary>,
    min_scene_len: u64,
)
    ensures
        ({
            let kept = scene_spans(
                total_frames,
                boundaries,
                DetectionOptions { min_scene_len, min_scene_len_policy: MinSceneLenPolicy::Suppress },
            );
            let merged = scene_spans(
                total_frames,
                boundaries,
                DetectionOptions { min_scene_len, min_scene_len_policy: MinSceneLenPolicy::MergeLast },
            );
            let n = kept.len() as int;
            if n > 1 && kept[n - 1].end.0 - kept[n - 1].start.0 < min_scene_len {
                &&& merged.len() == n - 1
                &&& forall|i: int| 0 <= i < n - 2 ==> #[trigger] merged[i] == kept[i]
                &&& merged[n - 2] == (SceneSpan { start: kept[n - 2].start, end: kept[n - 1].end })
            } else {
                merged == kept
            }
        }),
{
}

} // verus!
