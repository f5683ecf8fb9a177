//! Which scenes look alike: a compact luma sample per frame, a majority
//! fingerprint per scene, and the closest pairs of scenes.
use vstd::prelude::*;
use vstd::string::StringExecFns;

use crate::model::{FrameIndex, SceneList, SceneSpan};

verus! {

/// Bits in a scene fingerprint.
pub const HASH_BITS: u64 = 64;

/// Side of the square luma sample taken from each frame.
pub const SAMPLE_SIDE: usize = 32;

/// At most this many scenes are compared pairwise.
pub const MAX_SCENES_FOR_PAIRWISE_COMPARISON: usize = 1024;

/// At most this many pairs are reported.
pub const MAX_REPORTED_PAIRS: usize = 48;

/// The fingerprint of one analysed frame.
#[derive(Debug, Clone, Copy, PartialEq, Eq, Structural)]
pub struct FrameVisualSignature {
    pub frame: FrameIndex,
    pub hash: u64,
}

/// Bit `i` of `h` is set.
pub open spec fn bit_set(h: u64, i: u64) -> bool {
    (h >> i) & 1u64 == 1u64
}

proof fn lemma_bit_of_or(h: u64, i: u64, j: u64)
    requires
        i < 64,
        j < 64,
    ensures
        bit_set(h | (1u64 << i), j) == (bit_set(h, j) || j == i),
{
    assert(((h | (1u64 << i)) >> j) & 1u64 == 1u64 <==> (((h >> j) & 1u64 == 1u64) || j == i))
        by (bit_vector)
        requires
            i < 64,
            j < 64,
    ;
}

proof fn lemma_bit_of_zero(j: u64)
    requires
        j < 64,
    ensures
        !bit_set(0, j),
{
    assert((0u64 >> j) & 1u64 != 1u64) by (bit_vector)
        requires
            j < 64,
    ;
}

proof fn lemma_bit_of_and(h: u64, i: u64)
    requires
        i < 64,
    ensures
        (h & (1u64 << i) != 0) == bit_set(h, i),
{
    assert((h & (1u64 << i) != 0) <==> ((h >> i) & 1u64 == 1u64)) by (bit_vector)
        requires
            i < 64,
    ;
}

/// How many of `hashes` have bit `i` set.
pub open spec fn ones(hashes: Seq<u64>, i: u64) -> nat
    decreases hashes.len(),
{
    if hashes.len() == 0 {
        0
    } else {
        ones(hashes.drop_last(), i) + if bit_set(hashes.last(), i) {
            1nat
        } else {
            0nat
        }
    }
}

proof fn lemma_ones_bound(hashes: Seq<u64>, i: u64)
    ensures
        ones(hashes, i) <= hashes.len(),
    decreases hashes.len(),
{
    if hashes.len() > 0 {
        lemma_ones_bound(hashes.drop_last(), i);
    }
}

/// Bit `i` of the majority fingerprint: set when more than half of the hashes
/// have it, and on a tie when the first hash has it.
pub open spec fn majority_bit(hashes: Seq<u64>, i: u64) -> bool {
    2 * ones(hashes, i) > hashes.len() || (2 * ones(hashes, i) == hashes.len() && bit_set(
        hashes[0],
        i,
    ))
}

/// The fingerprint whose bits below `k` are the majority bits of `hashes`.
pub open spec fn majority_bits(hashes: Seq<u64>, k: nat) -> u64
    decreases k,
{
    if k == 0 {
        0
    } else {
        let below = majority_bits(hashes, (k - 1) as nat);
        if majority_bit(hashes, (k - 1) as u64) {
            below | (1u64 << ((k - 1) as u64))
        } else {
            below
        }
    }
}

/// The majority fingerprint of a scene's frames.
pub open spec fn majority_value(hashes: Seq<u64>) -> u64 {
    majority_bits(hashes, 64)
}

/// The fingerprints of the frames of one scene, counted bit by bit.
pub struct SceneHashAggregate {
    one_counts: Vec<u32>,
    count: u32,
    first_hash: Option<u64>,
    hashes: Ghost<Seq<u64>>,
}

impl SceneHashAggregate {
    /// The fingerprints added so far, in order.
    pub closed spec fn added(&self) -> Seq<u64> {
        self.hashes@
    }

    pub closed spec fn wf(&self) -> bool {
        &&& self.one_counts@.len() == 64
        &&& self.count == self.hashes@.len()
        &&& self.first_hash == if self.hashes@.len() == 0 {
            None
        } else {
            Some(self.hashes@[0])
        }
        &&& forall|i: int| 0 <= i < 64 ==> #[trigger] self.one_counts@[i] == ones(self.hashes@, i as u64)
    }

    pub fn new() -> (aggregate: Self)
        ensures
            aggregate.wf(),
            aggregate.added() == Seq::<u64>::empty(),
    {
        let mut one_counts: Vec<u32> = Vec::new();
        let mut i: usize = 0;
        while i < 64
            invariant
                i <= 64,
                one_counts@.len() == i,
                forall|j: int| 0 <= j < i ==> #[trigger] one_counts@[j] == 0,
            decreases 64 - i,
        {
            one_counts.push(0);
            i = i + 1;
        }
        SceneHashAggregate { one_counts, count: 0, first_hash: None, hashes: Ghost(Seq::empty()) }
    }

    /// Counts one more fingerprint.
    pub fn add(&mut self, hash: u64)
        requires
            old(self).wf(),
            old(self).added().len() < u32::MAX,
        ensures
            final(self).wf(),
            final(self).added() == old(self).added().push(hash),
    {
        let ghost before = self.hashes@;
        let ghost after = before.push(hash);
        assert(after.drop_last() =~= before);
        if self.first_hash.is_none() {
            self.first_hash = Some(hash);
        }
        proof {
            if before.len() > 0 {
                assert(after[0] == before[0]);
            }
        }
        let mut bit: usize = 0;
        while bit < 64
            invariant
                bit <= 64,
                self.one_counts@.len() == 64,
                self.count == before.len(),
                before.len() < u32::MAX,
                after == before.push(hash),
                after.drop_last() == before,
                self.first_hash == Some(after[0]),
                forall|i: int| 0 <= i < bit ==> #[trigger] self.one_counts@[i] == ones(after, i as u64),
                forall|i: int| bit <= i < 64 ==> #[trigger] self.one_counts@[i] == ones(before, i as u64),
            decreases 64 - bit,
        {
            let b: u64 = bit as u64;
            proof {
                lemma_bit_of_and(hash, b);
                lemma_ones_bound(before, b);
            }
            if hash & (1u64 << b) != 0 {
                let current = self.one_counts[bit];
                self.one_counts.set(bit, current + 1);
            }
            bit = bit + 1;
        }
        self.count = self.count + 1;
        self.hashes = Ghost(after);
        proof {
            if before.len() > 0 {
                assert(after[0] == before[0]);
            }
        }
    }

    /// The majority fingerprint, or `None` before any fingerprint was added.
    pub fn majority_hash(&self) -> (hash: Option<u64>)
        requires
            self.wf(),
        ensures
            self.added().len() == 0 ==> hash is None,
            self.added().len() > 0 ==> (hash matches Some(h) && h == majority_value(self.added())
                && forall|i: u64| i < 64 ==> #[trigger] bit_set(h, i) == majority_bit(self.added(), i)),
    {
        let first_hash = match self.first_hash {
            Some(h) => h,
            None => return None,
        };
        let count: u64 = self.count as u64;
        let mut hash: u64 = 0;
        let mut bit: usize = 0;
        proof {
            assert forall|j: u64| j < 64 implies bit_set(hash, j) == (j < bit && majority_bit(
                self.hashes@,
                j,
            )) by {
                lemma_bit_of_zero(j);
            }
        }
        while bit < 64
            invariant
                bit <= 64,
                self.wf(),
                count == self.hashes@.len(),
                self.hashes@.len() > 0,
                first_hash == self.hashes@[0],
                hash == majority_bits(self.hashes@, bit as nat),
                forall|j: u64| j < 64 ==> #[trigger] bit_set(hash, j) == (j < bit && majority_bit(
                    self.hashes@,
                    j,
                )),
            decreases 64 - bit,
        {
            let b: u64 = bit as u64;
            let ones_here: u64 = self.one_counts[bit] as u64;
            assert(ones_here == ones(self.hashes@, b));
            proof {
                lemma_bit_of_and(first_hash, b);
            }
            let first_bit_is_set = first_hash & (1u64 << b) != 0;
            if ones_here * 2 > count || (ones_here * 2 == count && first_bit_is_set) {
                let ghost old_hash = hash;
                hash = hash | (1u64 << b);
                proof {
                    assert forall|j: u64| j < 64 implies bit_set(hash, j) == (j < bit + 1
                        && majority_bit(self.hashes@, j)) by {
                        lemma_bit_of_or(old_hash, b, j);
                    }
                }
            } else {
                assert forall|j: u64| j < 64 implies bit_set(hash, j) == (j < bit + 1
                    && majority_bit(self.hashes@, j)) by {
                    if j == b {
                        assert(!majority_bit(self.hashes@, j));
                    }
                }
            }
            bit = bit + 1;
        }
        Some(hash)
    }
}

/// Where sample `sample` of `SAMPLE_SIDE` falls along an extent of `extent`
/// pixels: the pixel under the sample's centre.
pub open spec fn sample_position(sample: int, extent: int) -> int {
    let p = (2 * sample + 1) * extent / (2 * (SAMPLE_SIDE as int));
    if p < extent - 1 {
        p
    } else {
        extent - 1
    }
}

pub fn sample_coordinate(sample: usize, extent: usize) -> (position: usize)
    requires
        extent >= 1,
        2 * sample + 1 <= usize::MAX,
        (2 * sample + 1) * extent <= u64::MAX,
    ensures
        position == sample_position(sample as int, extent as int),
        position < extent,
{
    let factor: u64 = (2 * sample + 1) as u64;
    let numerator: u64 = factor * extent as u64;
    let denominator: u64 = (2 * SAMPLE_SIDE) as u64;
    let p: u64 = numerator / denominator;
    let last: u64 = (extent - 1) as u64;
    if p < last {
        p as usize
    } else {
        extent - 1
    }
}

/// The 8-bit luma of an RGB pixel, with integer weights that sum to 256.
pub open spec fn luma_of(red: u8, green: u8, blue: u8) -> u8 {
    ((77 * red + 150 * green + 29 * blue + 128) / 256) as u8
}

/// The luma sample of a `width` x `height` RGB frame: `SAMPLE_SIDE` rows of
/// `SAMPLE_SIDE` pixels, row by row.
pub open spec fn compact_luma(width: int, height: int, rgb: Seq<u8>) -> Seq<u8> {
    Seq::new(
        (SAMPLE_SIDE * SAMPLE_SIDE) as nat,
        |k: int|
            {
                let y = sample_position(k / (SAMPLE_SIDE as int), height);
                let x = sample_position(k % (SAMPLE_SIDE as int), width);
                let offset = (y * width + x) * 3;
                luma_of(rgb[offset], rgb[offset + 1], rgb[offset + 2])
            },
    )
}

proof fn lemma_pixel_offset(x: int, y: int, width: int, height: int)
    requires
        0 <= x < width,
        0 <= y < height,
    ensures
        0 <= (y * width + x) * 3,
        (y * width + x) * 3 + 2 < width * height * 3,
        y * width + x < width * height,
{
    assert(y * width + x < width * height) by (nonlinear_arith)
        requires
            0 <= x < width,
            0 <= y < height,
    ;
    assert(0 <= y * width) by (nonlinear_arith)
        requires
            0 <= y,
            0 <= width,
    ;
}

/// Samples the luma of a frame on a `SAMPLE_SIDE` x `SAMPLE_SIDE` grid.
pub fn compact_luma_sample(width: u32, height: u32, rgb: &[u8]) -> (luma: Vec<u8>)
    requires
        width >= 1,
        height >= 1,
        rgb@.len() >= width as int * height as int * 3,
    ensures
        luma@ == compact_luma(width as int, height as int, rgb@),
{
    let w: usize = width as usize;
    let h: usize = height as usize;
    let n: usize = rgb.len();
    let mut luma: Vec<u8> = Vec::new();
    let mut sample_y: usize = 0;
    while sample_y < SAMPLE_SIDE
        invariant
            w == width,
            h == height,
            w >= 1,
            h >= 1,
            rgb@.len() >= w * h * 3,
            rgb@.len() == n,
            sample_y <= SAMPLE_SIDE,
            luma@.len() == sample_y * SAMPLE_SIDE,
            forall|k: int|
                0 <= k < luma@.len() ==> #[trigger] luma@[k] == compact_luma(
                    width as int,
                    height as int,
                    rgb@,
                )[k],
        decreases SAMPLE_SIDE - sample_y,
    {
        assert((2 * sample_y + 1) * h <= 63 * 0xffff_ffff) by (nonlinear_arith)
            requires
                sample_y < 32,
                h <= 0xffff_ffff,
        ;
        let y = sample_coordinate(sample_y, h);
        let mut sample_x: usize = 0;
        while sample_x < SAMPLE_SIDE
            invariant
                w == width,
                h == height,
                w >= 1,
                h >= 1,
                rgb@.len() >= w * h * 3,
                rgb@.len() == n,
                sample_y < SAMPLE_SIDE,
                y == sample_position(sample_y as int, h as int),
                y < h,
                sample_x <= SAMPLE_SIDE,
                luma@.len() == sample_y * SAMPLE_SIDE + sample_x,
                forall|k: int|
                    0 <= k < luma@.len() ==> #[trigger] luma@[k] == compact_luma(
                        width as int,
                        height as int,
                        rgb@,
                    )[k],
            decreases SAMPLE_SIDE - sample_x,
        {
            assert((2 * sample_x + 1) * w <= 63 * 0xffff_ffff) by (nonlinear_arith)
                requires
                    sample_x < 32,
                    w <= 0xffff_ffff,
            ;
            let x = sample_coordinate(sample_x, w);
            proof {
                lemma_pixel_offset(x as int, y as int, w as int, h as int);
            }
            let offset = (y * w + x) * 3;
            let red: u32 = rgb[offset] as u32;
            let green: u32 = rgb[offset + 1] as u32;
            let blue: u32 = rgb[offset + 2] as u32;
            let total: u32 = 77 * red + 150 * green + 29 * blue + 128;
            let value: u32 = total >> 8;
            assert(value == total / 256) by (bit_vector)
                requires
                    value == total >> 8,
            ;
            let ghost k = luma@.len() as int;
            assert(k / (SAMPLE_SIDE as int) == sample_y as int && k % (SAMPLE_SIDE as int)
                == sample_x as int) by (nonlinear_arith)
                requires
                    k == sample_y * 32 + sample_x,
                    0 <= sample_x < 32,
                    0 <= sample_y,
            ;
            luma.push(value as u8);
            sample_x = sample_x + 1;
        }
        sample_y = sample_y + 1;
    }
    assert(luma@ =~= compact_luma(width as int, height as int, rgb@));
    luma
}

/// The scenes compared pairwise: all of them, or, for longer lists, scenes
/// spread evenly from the first to the last.
pub open spec fn selected_indices(total_scenes: int) -> Seq<int> {
    if total_scenes <= MAX_SCENES_FOR_PAIRWISE_COMPARISON as int {
        Seq::new(total_scenes as nat, |i: int| i)
    } else {
        Seq::new(
            MAX_SCENES_FOR_PAIRWISE_COMPARISON as nat,
            |slot: int| slot * (total_scenes - 1) / (MAX_SCENES_FOR_PAIRWISE_COMPARISON as int - 1),
        )
    }
}

proof fn lemma_spread_increases(slot: int, span: int)
    requires
        0 <= slot,
        span >= 1023,
    ensures
        slot * span / 1023 < (slot + 1) * span / 1023,
{
    assert((slot + 1) * span == slot * span + span) by (nonlinear_arith);
    assert(slot * span >= 0) by (nonlinear_arith)
        requires
            0 <= slot,
            span >= 1023,
    ;
    assert((slot * span + span) / 1023 >= (slot * span + 1023) / 1023) by (nonlinear_arith)
        requires
            span >= 1023,
            slot * span >= 0,
    ;
    assert((slot * span + 1023) / 1023 == slot * span / 1023 + 1) by (nonlinear_arith)
        requires
            slot * span >= 0,
    ;
}

proof fn lemma_spread_bound(slot: int, span: int)
    requires
        0 <= slot <= 1023,
        span >= 0,
    ensures
        0 <= slot * span / 1023 <= span,
{
    assert(0 <= slot * span <= 1023 * span) by (nonlinear_arith)
        requires
            0 <= slot <= 1023,
            span >= 0,
    ;
    assert(slot * span / 1023 <= 1023 * span / 1023) by (nonlinear_arith)
        requires
            0 <= slot * span <= 1023 * span,
    ;
    assert(1023 * span / 1023 == span) by (nonlinear_arith);
}

/// Chooses the scenes to compare.
pub fn selected_scene_indices(total_scenes: usize) -> (selected: Vec<usize>)
    requires
        total_scenes as int * 1023 <= usize::MAX,
    ensures
        selected@.len() == selected_indices(total_scenes as int).len(),
        forall|k: int|
            0 <= k < selected@.len() ==> #[trigger] selected@[k] as int == selected_indices(
                total_scenes as int,
            )[k],
{
    let mut selected: Vec<usize> = Vec::new();
    if total_scenes <= MAX_SCENES_FOR_PAIRWISE_COMPARISON {
        let mut i: usize = 0;
        while i < total_scenes
            invariant
                i <= total_scenes <= MAX_SCENES_FOR_PAIRWISE_COMPARISON,
                selected@.len() == i,
                forall|k: int| 0 <= k < i ==> #[trigger] selected@[k] == k,
            decreases total_scenes - i,
        {
            selected.push(i);
            i = i + 1;
        }
        return selected;
    }
    let span: usize = total_scenes - 1;
    let mut slot: usize = 0;
    while slot < MAX_SCENES_FOR_PAIRWISE_COMPARISON
        invariant
            total_scenes > MAX_SCENES_FOR_PAIRWISE_COMPARISON,
            span == total_scenes - 1,
            total_scenes as int * 1023 <= usize::MAX,
            slot <= MAX_SCENES_FOR_PAIRWISE_COMPARISON,
            selected@.len() == slot,
            forall|k: int|
                0 <= k < slot ==> #[trigger] selected@[k] as int == k * (span as int) / 1023,
        decreases MAX_SCENES_FOR_PAIRWISE_COMPARISON - slot,
    {
        assert(slot as int * span as int <= 1023 * span as int) by (nonlinear_arith)
            requires
                slot <= 1023,
        ;
        proof {
            lemma_spread_bound(slot as int, span as int);
        }
        let index = slot * span / (MAX_SCENES_FOR_PAIRWISE_COMPARISON - 1);
        let repeated = match selected.last() {
            Some(previous) => *previous == index,
            None => false,
        };
        if slot > 0 {
            proof {
                lemma_spread_increases(slot - 1, span as int);
                assert(selected@.last() == selected@[slot - 1]);
            }
            assert(!repeated);
        }
        if !repeated {
            selected.push(index);
        }
        slot = slot + 1;
    }
    selected
}

/// Law: the scenes chosen for comparison run from the first scene to the last,
/// in increasing order without repeats, and there are as many as the bound
/// allows.
pub proof fn law_selection_spans_the_timeline(total_scenes: int)
    requires
        total_scenes >= 1,
    ensures
        ({
            let s = selected_indices(total_scenes);
            &&& s.len() == if total_scenes <= MAX_SCENES_FOR_PAIRWISE_COMPARISON as int {
                total_scenes
            } else {
                MAX_SCENES_FOR_PAIRWISE_COMPARISON as int
            }
            &&& s[0] == 0
            &&& s.last() == total_scenes - 1
            &&& forall|i: int, j: int| 0 <= i < j < s.len() ==> s[i] < s[j]
            &&& forall|i: int| 0 <= i < s.len() ==> 0 <= #[trigger] s[i] < total_scenes
        }),
{
    let s = selected_indices(total_scenes);
    if total_scenes > MAX_SCENES_FOR_PAIRWISE_COMPARISON as int {
        let span = total_scenes - 1;
        assert(s[1023] == 1023 * span / 1023);
        assert(1023 * span / 1023 == span) by (nonlinear_arith);
        assert(s[0] == 0 * span / 1023);
        assert forall|i: int, j: int| 0 <= i < j < s.len() implies s[i] < s[j] by {
            lemma_spread_increases(i, span);
            assert((i + 1) * span <= j * span) by (nonlinear_arith)
                requires
                    i + 1 <= j,
                    span >= 0,
            ;
            assert((i + 1) * span / 1023 <= j * span / 1023) by (nonlinear_arith)
                requires
                    (i + 1) * span <= j * span,
                    (i + 1) * span >= 0,
            ;
        }
        assert forall|i: int| 0 <= i < s.len() implies 0 <= #[trigger] s[i] < total_scenes by {
            lemma_spread_bound(i, span);
        }
    }
}

/// Bits where two fingerprints differ, among the lowest `k`.
pub open spec fn differing_bits(a: u64, b: u64, k: nat) -> nat
    decreases k,
{
    if k == 0 {
        0
    } else {
        differing_bits(a, b, (k - 1) as nat) + if bit_set(a, (k - 1) as u64) != bit_set(
            b,
            (k - 1) as u64,
        ) {
            1nat
        } else {
            0nat
        }
    }
}

/// The Hamming distance between two fingerprints.
pub fn hash_distance(a: u64, b: u64) -> (distance: u32)
    ensures
        distance == differing_bits(a, b, 64),
{
    let mut distance: u32 = 0;
    let mut bit: u64 = 0;
    while bit < 64
        invariant
            bit <= 64,
            distance == differing_bits(a, b, bit as nat),
            distance <= bit,
        decreases 64 - bit,
    {
        proof {
            lemma_bit_of_and(a, bit);
            lemma_bit_of_and(b, bit);
        }
        let in_a = a & (1u64 << bit) != 0;
        let in_b = b & (1u64 << bit) != 0;
        if in_a != in_b {
            distance = distance + 1;
        }
        bit = bit + 1;
    }
    distance
}

/// How far the walk over the selected scenes has come, and the fingerprints
/// each selected scene has collected.
pub struct SceneWalk {
    pub position: int,
    pub groups: Seq<Seq<u64>>,
    pub done: bool,
}

/// The first selected scene at or after `position` that does not end at or
/// before `frame`.
pub open spec fn advance(scenes: Seq<SceneSpan>, selected: Seq<usize>, position: int, frame: u64) -> int
    decreases selected.len() - position,
{
    if position < 0 || position >= selected.len() || frame < scenes[selected[position] as int].end.0 {
        position
    } else {
        advance(scenes, selected, position + 1, frame)
    }
}

/// Taking in one signature: the walk moves past the selected scenes that end
/// before it; the signature goes to the scene it then stands at when it lies
/// inside that scene; past the last selected scene the walk stops.
pub open spec fn walk_step(
    scenes: Seq<SceneSpan>,
    selected: Seq<usize>,
    walk: SceneWalk,
    signature: FrameVisualSignature,
) -> SceneWalk {
    if walk.done {
        walk
    } else {
        let p = advance(scenes, selected, walk.position, signature.frame.0);
        if p >= selected.len() {
            SceneWalk { position: p, groups: walk.groups, done: true }
        } else if signature.frame.0 < scenes[selected[p] as int].start.0 {
            SceneWalk { position: p, groups: walk.groups, done: false }
        } else {
            SceneWalk {
                position: p,
                groups: walk.groups.update(p, walk.groups[p].push(signature.hash)),
                done: false,
            }
        }
    }
}

/// The walk after taking in the signatures in order.
pub open spec fn scene_walk(
    scenes: Seq<SceneSpan>,
    selected: Seq<usize>,
    signatures: Seq<FrameVisualSignature>,
) -> SceneWalk
    decreases signatures.len(),
{
    if signatures.len() == 0 {
        SceneWalk {
            position: 0,
            groups: Seq::new(selected.len(), |k: int| Seq::<u64>::empty()),
            done: false,
        }
    } else {
        walk_step(
            scenes,
            selected,
            scene_walk(scenes, selected, signatures.drop_last()),
            signatures.last(),
        )
    }
}

/// The hashes of the signatures whose frames lie in `scene`, in order.
pub open spec fn hashes_within(signatures: Seq<FrameVisualSignature>, scene: SceneSpan) -> Seq<u64>
    decreases signatures.len(),
{
    if signatures.len() == 0 {
        Seq::empty()
    } else {
        let rest = hashes_within(signatures.drop_last(), scene);
        let last = signatures.last();
        if scene.start.0 <= last.frame.0 && last.frame.0 < scene.end.0 {
            rest.push(last.hash)
        } else {
            rest
        }
    }
}

/// The conditions under which the walk gathers each scene's signatures: the
/// signatures in increasing frame order, the selected scenes in increasing
/// order, and every scene ending before any later one starts.
pub open spec fn walk_is_ordered(
    scenes: Seq<SceneSpan>,
    selected: Seq<usize>,
    signatures: Seq<FrameVisualSignature>,
) -> bool {
    &&& forall|i: int, j: int|
        0 <= i < j < signatures.len() ==> signatures[i].frame.0 < signatures[j].frame.0
    &&& forall|i: int, j: int| 0 <= i < j < selected.len() ==> selected[i] < selected[j]
    &&& forall|k: int| 0 <= k < selected.len() ==> #[trigger] selected[k] < scenes.len()
    &&& forall|i: int, j: int| 0 <= i < j < scenes.len() ==> scenes[i].end.0 <= scenes[j].start.0
}

proof fn lemma_advance(scenes: Seq<SceneSpan>, selected: Seq<usize>, position: int, frame: u64)
    requires
        0 <= position <= selected.len(),
    ensures
        ({
            let r = advance(scenes, selected, position, frame);
            &&& position <= r <= selected.len()
            &&& forall|k: int| position <= k < r ==> #[trigger] scenes[selected[k] as int].end.0 <= frame
            &&& r < selected.len() ==> frame < scenes[selected[r] as int].end.0
        }),
    decreases selected.len() - position,
{
    if position < selected.len() && frame >= scenes[selected[position] as int].end.0 {
        lemma_advance(scenes, selected, position + 1, frame);
    }
}

proof fn lemma_walk_gathers(
    scenes: Seq<SceneSpan>,
    selected: Seq<usize>,
    signatures: Seq<FrameVisualSignature>,
)
    requires
        walk_is_ordered(scenes, selected, signatures),
    ensures
        ({
            let w = scene_walk(scenes, selected, signatures);
            &&& w.groups.len() == selected.len()
            &&& forall|k: int|
                0 <= k < selected.len() ==> #[trigger] w.groups[k] == hashes_within(
                    signatures,
                    scenes[selected[k] as int],
                )
            &&& w.done ==> signatures.len() > 0 && forall|k: int|
                0 <= k < selected.len() ==> #[trigger] scenes[selected[k] as int].end.0
                    <= signatures.last().frame.0
            &&& !w.done ==> 0 <= w.position <= selected.len() && (signatures.len() > 0 ==> forall|
                k: int,
            | 0 <= k < w.position ==> #[trigger] scenes[selected[k] as int].end.0
                <= signatures.last().frame.0)
        }),
    decreases signatures.len(),
{
    if signatures.len() > 0 {
        let before = signatures.drop_last();
        let x = signatures.last();
        let f = x.frame.0;
        assert(walk_is_ordered(scenes, selected, before)) by {
            assert forall|i: int, j: int| 0 <= i < j < before.len() implies before[i].frame.0
                < before[j].frame.0 by {
                assert(before[i] == signatures[i] && before[j] == signatures[j]);
            }
        }
        lemma_walk_gathers(scenes, selected, before);
        let w = scene_walk(scenes, selected, before);
        if before.len() > 0 {
            assert(before.last() == signatures[signatures.len() - 2]);
            assert(before.last().frame.0 < f);
        }
        let w2 = scene_walk(scenes, selected, signatures);
        assert(w2 == walk_step(scenes, selected, w, x));
        if w.done {
            assert forall|k: int| 0 <= k < selected.len() implies #[trigger] w2.groups[k]
                == hashes_within(signatures, scenes[selected[k] as int]) by {
                assert(scenes[selected[k] as int].end.0 <= before.last().frame.0);
            }
        } else {
            let p = w.position;
            lemma_advance(scenes, selected, p, f);
            let q = advance(scenes, selected, p, f);
            assert forall|k: int| 0 <= k < q implies #[trigger] scenes[selected[k] as int].end.0
                <= f by {
                if k < p {
                    assert(scenes[selected[k] as int].end.0 <= before.last().frame.0);
                }
            }
            if q < selected.len() {
                assert forall|k: int| q < k < selected.len() implies f
                    < #[trigger] scenes[selected[k] as int].start.0 by {
                    assert(selected[q] < selected[k]);
                    assert(scenes[selected[q] as int].end.0 <= scenes[selected[k] as int].start.0);
                }
            }
            assert forall|k: int| 0 <= k < selected.len() implies #[trigger] w2.groups[k]
                == hashes_within(signatures, scenes[selected[k] as int]) by {
                if k < q {
                    assert(scenes[selected[k] as int].end.0 <= f);
                } else if k > q {
                    assert(f < scenes[selected[k] as int].start.0);
                }
            }
        }
    }
}

/// Law: with the signatures in frame order and the scenes and selected scenes
/// in order, each selected scene gathers the hashes of every signature whose
/// frame lies in it, in order, and its fingerprint is the majority over all of
/// them; a scene that holds no signature gets no fingerprint.
pub proof fn law_fingerprints_use_every_signature_in_the_scene(
    scenes: Seq<SceneSpan>,
    selected: Seq<usize>,
    signatures: Seq<FrameVisualSignature>,
)
    requires
        walk_is_ordered(scenes, selected, signatures),
    ensures
        forall|k: int|
            0 <= k < selected.len() ==> #[trigger] scene_walk(scenes, selected, signatures).groups[k]
                == hashes_within(signatures, scenes[selected[k] as int]),
        forall|j: int|
            0 <= j < scene_fingerprints(scenes, selected, signatures).len() ==> {
                let (index, hash) = #[trigger] scene_fingerprints(scenes, selected, signatures)[j];
                &&& selected.contains(index)
                &&& hashes_within(signatures, scenes[index as int]).len() > 0
                &&& hash == majority_value(hashes_within(signatures, scenes[index as int]))
            },
        forall|k: int|
            0 <= k < selected.len() && hashes_within(signatures, #[trigger] scenes[selected[k] as int]).len()
                > 0 ==> scene_fingerprints(scenes, selected, signatures).contains(
                (selected[k], majority_value(hashes_within(signatures, scenes[selected[k] as int]))),
            ),
{
    lemma_walk_gathers(scenes, selected, signatures);
    let groups = scene_walk(scenes, selected, signatures).groups;
    lemma_fingerprints_from_entries(selected, groups, selected.len() as nat);
    assert forall|k: int|
        0 <= k < selected.len() && hashes_within(signatures, #[trigger] scenes[selected[k] as int]).len()
            > 0 implies scene_fingerprints(scenes, selected, signatures).contains(
        (selected[k], majority_value(hashes_within(signatures, scenes[selected[k] as int]))),
    ) by {
        assert(groups[k] == hashes_within(signatures, scenes[selected[k] as int]));
        assert(groups[k].len() > 0);
    }
}

proof fn lemma_fingerprints_from_entries(selected: Seq<usize>, groups: Seq<Seq<u64>>, k: nat)
    requires
        k <= selected.len(),
        groups.len() == selected.len(),
    ensures
        forall|j: int|
            0 <= j < fingerprints_from(selected, groups, k).len() ==> exists|m: int|
                0 <= m < k && #[trigger] fingerprints_from(selected, groups, k)[j] == (
                    selected[m],
                    majority_value(groups[m]),
                ) && groups[m].len() > 0,
        forall|m: int|
            0 <= m < k && #[trigger] groups[m].len() > 0 ==> fingerprints_from(
                selected,
                groups,
                k,
            ).contains((selected[m], majority_value(groups[m]))),
    decreases k,
{
    if k > 0 {
        lemma_fingerprints_from_entries(selected, groups, (k - 1) as nat);
        let before = fingerprints_from(selected, groups, (k - 1) as nat);
        let now = fingerprints_from(selected, groups, k);
        assert forall|j: int| 0 <= j < now.len() implies exists|m: int|
            0 <= m < k && #[trigger] now[j] == (selected[m], majority_value(groups[m]))
                && groups[m].len() > 0 by {
            if j < before.len() {
                assert(now[j] == before[j]);
            } else {
                assert(now[j] == (selected[k - 1], majority_value(groups[k - 1])));
            }
        }
        assert forall|m: int| 0 <= m < k && #[trigger] groups[m].len() > 0 implies now.contains(
            (selected[m], majority_value(groups[m])),
        ) by {
            if m < k - 1 {
                let at = choose|at: int|
                    0 <= at < before.len() && before[at] == (selected[m], majority_value(groups[m]));
                assert(now[at] == before[at]);
            } else {
                assert(now[now.len() - 1] == (selected[m], majority_value(groups[m])));
            }
        }
    }
}

/// The (scene index, majority fingerprint) of each of the first `k` selected
/// scenes that collected a fingerprint.
pub open spec fn fingerprints_from(selected: Seq<usize>, groups: Seq<Seq<u64>>, k: nat) -> Seq<
    (usize, u64),
>
    decreases k,
{
    if k == 0 {
        Seq::empty()
    } else {
        let before = fingerprints_from(selected, groups, (k - 1) as nat);
        if groups[k - 1].len() > 0 {
            before.push((selected[k - 1], majority_value(groups[k - 1])))
        } else {
            before
        }
    }
}

/// The fingerprints of the selected scenes.
pub open spec fn scene_fingerprints(
    scenes: Seq<SceneSpan>,
    selected: Seq<usize>,
    signatures: Seq<FrameVisualSignature>,
) -> Seq<(usize, u64)> {
    fingerprints_from(
        selected,
        scene_walk(scenes, selected, signatures).groups,
        selected.len(),
    )
}

proof fn lemma_walk_shape(
    scenes: Seq<SceneSpan>,
    selected: Seq<usize>,
    signatures: Seq<FrameVisualSignature>,
)
    ensures
        scene_walk(scenes, selected, signatures).groups.len() == selected.len(),
        scene_walk(scenes, selected, signatures).position >= 0,
        !scene_walk(scenes, selected, signatures).done ==> scene_walk(
            scenes,
            selected,
            signatures,
        ).position < selected.len() || selected.len() == 0 || scene_walk(
            scenes,
            selected,
            signatures,
        ).position == 0,
        forall|k: int|
            0 <= k < selected.len() ==> #[trigger] scene_walk(
                scenes,
                selected,
                signatures,
            ).groups[k].len() <= signatures.len(),
    decreases signatures.len(),
{
    if signatures.len() > 0 {
        lemma_walk_shape(scenes, selected, signatures.drop_last());
        let w = scene_walk(scenes, selected, signatures.drop_last());
        lemma_advance_bounds(scenes, selected, w.position, signatures.last().frame.0);
    }
}

proof fn lemma_advance_bounds(scenes: Seq<SceneSpan>, selected: Seq<usize>, position: int, frame: u64)
    requires
        position >= 0,
    ensures
        position <= advance(scenes, selected, position, frame),
        position <= selected.len() ==> advance(scenes, selected, position, frame) <= selected.len(),
        advance(scenes, selected, position, frame) < selected.len() ==> frame < scenes[selected[advance(
            scenes,
            selected,
            position,
            frame,
        ) as int] as int].end.0,
    decreases selected.len() - position,
{
    if position < selected.len() && frame >= scenes[selected[position] as int].end.0 {
        lemma_advance_bounds(scenes, selected, position + 1, frame);
    }
}

/// Collects the majority fingerprint of each selected scene from the
/// signatures, which the walk expects in frame order.
pub fn selected_scene_hashes(
    scene_list: &SceneList,
    signatures: &Vec<FrameVisualSignature>,
    selected: &Vec<usize>,
) -> (fingerprints: Vec<(usize, u64)>)
    requires
        forall|k: int| 0 <= k < selected@.len() ==> #[trigger] selected@[k] < scene_list.scenes@.len(),
        signatures@.len() < u32::MAX,
    ensures
        fingerprints@ == scene_fingerprints(scene_list.scenes@, selected@, signatures@),
{
    let scenes = &scene_list.scenes;
    let n = selected.len();
    let mut aggregates: Vec<SceneHashAggregate> = Vec::new();
    let mut k: usize = 0;
    while k < n
        invariant
            n == selected@.len(),
            k <= n,
            aggregates@.len() == k,
            forall|j: int|
                0 <= j < k ==> #[trigger] aggregates@[j].wf() && aggregates@[j].added() == Seq::<
                    u64,
                >::empty(),
        decreases n - k,
    {
        aggregates.push(SceneHashAggregate::new());
        k = k + 1;
    }
    let mut position: usize = 0;
    let mut i: usize = 0;
    proof {
        assert(signatures@.take(0).len() == 0);
        assert forall|j: int| 0 <= j < n implies aggregates@[j].added() == Seq::<u64>::empty() by {
            assert(aggregates@[j].wf());
        }
        assert(scene_walk(scenes@, selected@, signatures@.take(0)).groups =~= Seq::new(
            n as nat,
            |j: int| aggregates@[j].added(),
        ));
    }
    while i < signatures.len()
        invariant
            n == selected@.len(),
            scenes@ == scene_list.scenes@,
            forall|k: int| 0 <= k < selected@.len() ==> #[trigger] selected@[k] < scenes@.len(),
            signatures@.len() < u32::MAX,
            i <= signatures@.len(),
            aggregates@.len() == n,
            forall|j: int| 0 <= j < n ==> #[trigger] aggregates@[j].wf(),
            !scene_walk(scenes@, selected@, signatures@.take(i as int)).done,
            scene_walk(scenes@, selected@, signatures@.take(i as int)).position == position,
            position <= n,
            position < n || i == 0,
            scene_walk(scenes@, selected@, signatures@.take(i as int)).groups == Seq::new(
                n as nat,
                |j: int| aggregates@[j].added(),
            ),
        decreases signatures@.len() - i,
    {
        let signature = signatures[i];
        let frame = signature.frame.0;
        let ghost before = scene_walk(scenes@, selected@, signatures@.take(i as int));
        assert(signatures@.take(i + 1).drop_last() =~= signatures@.take(i as int));
        assert(signatures@.take(i + 1).last() == signature);
        proof {
            lemma_walk_shape(scenes@, selected@, signatures@.take(i as int));
            lemma_advance_bounds(scenes@, selected@, position as int, frame);
        }
        while position < n && frame >= scenes[selected[position]].end.0
            invariant
                n == selected@.len(),
                scenes@ == scene_list.scenes@,
                forall|k: int| 0 <= k < selected@.len() ==> #[trigger] selected@[k] < scenes@.len(),
                position <= n,
                advance(scenes@, selected@, before.position, frame) == advance(
                    scenes@,
                    selected@,
                    position as int,
                    frame,
                ),
            decreases n - position,
        {
            position = position + 1;
        }
        if position >= n {
            assert(scene_walk(scenes@, selected@, signatures@.take(i + 1)).done);
            proof {
                assert forall|m: int| i + 1 <= m <= signatures@.len() implies #[trigger] scene_walk(
                    scenes@,
                    selected@,
                    signatures@.take(m),
                ).done by {
                    lemma_walk_stays_done(scenes@, selected@, signatures@, i + 1, m);
                }
                assert(signatures@.take(signatures@.len() as int) =~= signatures@);
            }
            let fingerprints = fingerprints_of(selected, &aggregates);
            proof {
                let w = scene_walk(scenes@, selected@, signatures@);
                lemma_walk_stays_done_groups(scenes@, selected@, signatures@, i + 1);
                assert(w.groups =~= Seq::new(n as nat, |j: int| aggregates@[j].added()));
            }
            return fingerprints;
        }
        let scene_index = selected[position];
        if frame >= scenes[scene_index].start.0 {
            proof {
                lemma_walk_shape(scenes@, selected@, signatures@.take(i as int));
                let g = scene_walk(scenes@, selected@, signatures@.take(i as int)).groups;
                assert(g[position as int] == aggregates@[position as int].added());
                assert(g[position as int].len() <= signatures@.take(i as int).len());
                assert(aggregates@[position as int].added().len() <= i);
            }
            aggregates[position].add(signature.hash);
        }
        assert(scene_walk(scenes@, selected@, signatures@.take(i + 1)).groups =~= Seq::new(
            n as nat,
            |j: int| aggregates@[j].added(),
        ));
        i = i + 1;
    }
    assert(signatures@.take(i as int) =~= signatures@);
    fingerprints_of(selected, &aggregates)
}

proof fn lemma_walk_stays_done(
    scenes: Seq<SceneSpan>,
    selected: Seq<usize>,
    signatures: Seq<FrameVisualSignature>,
    from: int,
    m: int,
)
    requires
        0 <= from <= m <= signatures.len(),
        scene_walk(scenes, selected, signatures.take(from)).done,
    ensures
        scene_walk(scenes, selected, signatures.take(m)).done,
        scene_walk(scenes, selected, signatures.take(m)).groups == scene_walk(
            scenes,
            selected,
            signatures.take(from),
        ).groups,
    decreases m - from,
{
    if m > from {
        lemma_walk_stays_done(scenes, selected, signatures, from, m - 1);
        assert(signatures.take(m).drop_last() =~= signatures.take(m - 1));
    }
}

proof fn lemma_walk_stays_done_groups(
    scenes: Seq<SceneSpan>,
    selected: Seq<usize>,
    signatures: Seq<FrameVisualSignature>,
    from: int,
)
    requires
        0 <= from <= signatures.len(),
        scene_walk(scenes, selected, signatures.take(from)).done,
    ensures
        scene_walk(scenes, selected, signatures).groups == scene_walk(
            scenes,
            selected,
            signatures.take(from),
        ).groups,
{
    lemma_walk_stays_done(scenes, selected, signatures, from, signatures.len() as int);
    assert(signatures.take(signatures.len() as int) =~= signatures);
}

/// The fingerprints of the aggregates that collected anything.
fn fingerprints_of(selected: &Vec<usize>, aggregates: &Vec<SceneHashAggregate>) -> (fingerprints: Vec<
    (usize, u64),
>)
    requires
        aggregates@.len() == selected@.len(),
        forall|j: int| 0 <= j < aggregates@.len() ==> #[trigger] aggregates@[j].wf(),
    ensures
        fingerprints@ == fingerprints_from(
            selected@,
            Seq::new(selected@.len(), |j: int| aggregates@[j].added()),
            selected@.len(),
        ),
{
    let ghost groups = Seq::new(selected@.len(), |j: int| aggregates@[j].added());
    let mut fingerprints: Vec<(usize, u64)> = Vec::new();
    let mut k: usize = 0;
    while k < selected.len()
        invariant
            aggregates@.len() == selected@.len(),
            forall|j: int| 0 <= j < aggregates@.len() ==> #[trigger] aggregates@[j].wf(),
            groups == Seq::new(selected@.len(), |j: int| aggregates@[j].added()),
            k <= selected@.len(),
            fingerprints@ == fingerprints_from(selected@, groups, k as nat),
        decreases selected@.len() - k,
    {
        match aggregates[k].majority_hash() {
            Some(hash) => {
                fingerprints.push((selected[k], hash));
            },
            None => {},
        }
        k = k + 1;
    }
    fingerprints
}

/// Two scenes that look alike.
#[derive(Debug, Clone, Copy, PartialEq, Eq, Structural)]
pub struct SimilarityPair {
    /// One-based number of the earlier scene.
    pub first_scene: usize,
    /// One-based number of the later scene.
    pub second_scene: usize,
    pub first_start: FrameIndex,
    pub second_start: FrameIndex,
    /// Bits in which the two scene fingerprints differ.
    pub hash_distance: u32,
}

/// `a` ranks before `b`: a smaller distance, then the earlier first scene, then
/// the earlier second scene.
pub open spec fn ranks_before(a: SimilarityPair, b: SimilarityPair) -> bool {
    a.hash_distance < b.hash_distance || (a.hash_distance == b.hash_distance && (a.first_scene
        < b.first_scene || (a.first_scene == b.first_scene && a.second_scene < b.second_scene)))
}

fn pair_ranks_before(a: &SimilarityPair, b: &SimilarityPair) -> (before: bool)
    ensures
        before == ranks_before(*a, *b),
{
    a.hash_distance < b.hash_distance || (a.hash_distance == b.hash_distance && (a.first_scene
        < b.first_scene || (a.first_scene == b.first_scene && a.second_scene < b.second_scene)))
}

/// The position of the worst-ranked pair from `i` on, given the worst so far:
/// on a tie the later pair counts as worse.
pub open spec fn worst_from(pairs: Seq<SimilarityPair>, worst: int, i: int) -> int
    decreases pairs.len() - i,
{
    if i < 0 || i >= pairs.len() {
        worst
    } else {
        worst_from(
            pairs,
            if ranks_before(pairs[i], pairs[worst]) {
                worst
            } else {
                i
            },
            i + 1,
        )
    }
}

proof fn lemma_worst_from_bounds(pairs: Seq<SimilarityPair>, worst: int, i: int)
    requires
        0 <= worst < pairs.len(),
        0 <= i,
    ensures
        0 <= worst_from(pairs, worst, i) < pairs.len(),
    decreases pairs.len() - i,
{
    if i < pairs.len() {
        lemma_worst_from_bounds(
            pairs,
            if ranks_before(pairs[i], pairs[worst]) {
                worst
            } else {
                i
            },
            i + 1,
        );
    }
}

/// The pairs kept after offering `candidate`: fewer than the maximum are all
/// kept; otherwise the candidate replaces the worst-ranked pair when it ranks
/// before it.
pub open spec fn keep_best(pairs: Seq<SimilarityPair>, candidate: SimilarityPair) -> Seq<SimilarityPair> {
    if pairs.len() < MAX_REPORTED_PAIRS {
        pairs.push(candidate)
    } else {
        let worst = worst_from(pairs, 0, 1);
        if ranks_before(candidate, pairs[worst]) {
            pairs.update(worst, candidate)
        } else {
            pairs
        }
    }
}

/// Offers a candidate pair to the bounded list of best pairs.
pub fn keep_best_pair(pairs: &mut Vec<SimilarityPair>, candidate: SimilarityPair)
    requires
        old(pairs)@.len() <= MAX_REPORTED_PAIRS,
    ensures
        final(pairs)@ == keep_best(old(pairs)@, candidate),
        final(pairs)@.len() <= MAX_REPORTED_PAIRS,
{
    if pairs.len() < MAX_REPORTED_PAIRS {
        pairs.push(candidate);
        return;
    }
    let mut worst: usize = 0;
    let mut i: usize = 1;
    while i < pairs.len()
        invariant
            pairs@.len() == MAX_REPORTED_PAIRS,
            1 <= i <= pairs@.len(),
            worst < i,
            worst_from(pairs@, 0, 1) == worst_from(pairs@, worst as int, i as int),
        decreases pairs@.len() - i,
    {
        if !pair_ranks_before(&pairs[i], &pairs[worst]) {
            worst = i;
        }
        i = i + 1;
    }
    if pair_ranks_before(&candidate, &pairs[worst]) {
        pairs.set(worst, candidate);
    }
}

/// No pair ranks before an earlier one.
pub open spec fn ranked(pairs: Seq<SimilarityPair>) -> bool {
    forall|i: int, j: int| 0 <= i < j < pairs.len() ==> !ranks_before(pairs[j], pairs[i])
}

/// Sorts pairs by rank, keeping the order of pairs that rank alike.
pub fn sort_pairs(pairs: &Vec<SimilarityPair>) -> (sorted: Vec<SimilarityPair>)
    ensures
        ranked(sorted@),
        sorted@.to_multiset() == pairs@.to_multiset(),
{
    broadcast use vstd::seq_lib::to_multiset_insert;

    let mut sorted: Vec<SimilarityPair> = Vec::new();
    let mut k: usize = 0;
    assert(pairs@.take(0) =~= sorted@);
    while k < pairs.len()
        invariant
            k <= pairs@.len(),
            ranked(sorted@),
            sorted@.to_multiset() == pairs@.take(k as int).to_multiset(),
        decreases pairs@.len() - k,
    {
        let x = pairs[k];
        let mut at: usize = 0;
        while at < sorted.len() && !pair_ranks_before(&x, &sorted[at])
            invariant
                at <= sorted@.len(),
                forall|j: int| 0 <= j < at ==> !#[trigger] ranks_before(x, sorted@[j]),
            decreases sorted@.len() - at,
        {
            at = at + 1;
        }
        let ghost before = sorted@;
        sorted.insert(at, x);
        proof {
            vstd::seq_lib::to_multiset_build(pairs@.take(k as int), x);
            vstd::seq_lib::to_multiset_insert(before, at as int, x);
            assert(sorted@ == before.insert(at as int, x));
            assert(pairs@.take(k + 1) =~= pairs@.take(k as int).push(x));
            assert(sorted@.to_multiset() == pairs@.take(k + 1).to_multiset());
            assert forall|i: int, j: int| 0 <= i < j < sorted@.len() implies !ranks_before(
                sorted@[j],
                sorted@[i],
            ) by {
                if i < at && j == at {
                    assert(!ranks_before(x, before[i]));
                } else if i == at && j > at {
                    if at < before.len() {
                        assert(ranks_before(x, before[at as int]));
                        assert(!ranks_before(before[j - 1], before[at as int]));
                    }
                } else if i < at && j > at {
                    assert(!ranks_before(before[j - 1], before[i]));
                } else if i > at {
                    assert(!ranks_before(before[j - 1], before[i - 1]));
                } else {
                    assert(!ranks_before(before[j], before[i]));
                }
            }
        }
        k = k + 1;
    }
    assert(pairs@.take(k as int) =~= pairs@);
    sorted
}

/// The pair of the `first`-th and `second`-th fingerprinted scenes.
pub open spec fn pair_of(scenes: Seq<SceneSpan>, fingerprints: Seq<(usize, u64)>, first: int, second: int) -> SimilarityPair {
    SimilarityPair {
        first_scene: (fingerprints[first].0 + 1) as usize,
        second_scene: (fingerprints[second].0 + 1) as usize,
        first_start: scenes[fingerprints[first].0 as int].start,
        second_start: scenes[fingerprints[second].0 as int].start,
        hash_distance: differing_bits(fingerprints[first].1, fingerprints[second].1, 64) as u32,
    }
}

/// The best pairs after offering the pairs of `first` with every later scene
/// from `second` on.
pub open spec fn offer_row(
    pairs: Seq<SimilarityPair>,
    scenes: Seq<SceneSpan>,
    fingerprints: Seq<(usize, u64)>,
    first: int,
    second: int,
) -> Seq<SimilarityPair>
    decreases fingerprints.len() - second,
{
    if second < 0 || second >= fingerprints.len() {
        pairs
    } else {
        offer_row(
            keep_best(pairs, pair_of(scenes, fingerprints, first, second)),
            scenes,
            fingerprints,
            first,
            second + 1,
        )
    }
}

/// The best pairs after offering every pair whose earlier scene is `first` or later.
pub open spec fn offer_all(
    pairs: Seq<SimilarityPair>,
    scenes: Seq<SceneSpan>,
    fingerprints: Seq<(usize, u64)>,
    first: int,
) -> Seq<SimilarityPair>
    decreases fingerprints.len() - first,
{
    if first < 0 || first >= fingerprints.len() {
        pairs
    } else {
        offer_all(
            offer_row(pairs, scenes, fingerprints, first, first + 1),
            scenes,
            fingerprints,
            first + 1,
        )
    }
}

/// The pairs of the `first`-th fingerprinted scene with each later one from
/// `second` on, in the order they are offered.
pub open spec fn row_pairs(
    scenes: Seq<SceneSpan>,
    fingerprints: Seq<(usize, u64)>,
    first: int,
    second: int,
) -> Seq<SimilarityPair>
    decreases fingerprints.len() - second,
{
    if second < 0 || second >= fingerprints.len() {
        Seq::empty()
    } else {
        seq![pair_of(scenes, fingerprints, first, second)] + row_pairs(
            scenes,
            fingerprints,
            first,
            second + 1,
        )
    }
}

/// Every pair of fingerprinted scenes whose earlier scene is the `first`-th or
/// a later one, in the order they are offered.
pub open spec fn candidate_pairs(
    scenes: Seq<SceneSpan>,
    fingerprints: Seq<(usize, u64)>,
    first: int,
) -> Seq<SimilarityPair>
    decreases fingerprints.len() - first,
{
    if first < 0 || first >= fingerprints.len() {
        Seq::empty()
    } else {
        row_pairs(scenes, fingerprints, first, first + 1) + candidate_pairs(
            scenes,
            fingerprints,
            first + 1,
        )
    }
}

/// The pairs kept after offering `offered`, first to last.
pub open spec fn keep_all(pairs: Seq<SimilarityPair>, offered: Seq<SimilarityPair>) -> Seq<
    SimilarityPair,
>
    decreases offered.len(),
{
    if offered.len() == 0 {
        pairs
    } else {
        keep_all(keep_best(pairs, offered[0]), offered.drop_first())
    }
}

/// `kept` holds the best of `offered`: as many as the limit allows, each one
/// offered, and no pair offered more often than it is kept ranks before a
/// kept pair.
pub open spec fn keeps_best_of(kept: Seq<SimilarityPair>, offered: Seq<SimilarityPair>) -> bool {
    &&& kept.len() == if offered.len() < MAX_REPORTED_PAIRS {
        offered.len()
    } else {
        MAX_REPORTED_PAIRS as nat
    }
    &&& kept.to_multiset().subset_of(offered.to_multiset())
    &&& forall|left_out: SimilarityPair, k: SimilarityPair|
        offered.to_multiset().count(left_out) > kept.to_multiset().count(left_out)
            && #[trigger] kept.to_multiset().count(k) > 0 ==> !#[trigger] ranks_before(left_out, k)
}

spec fn keeps_all_while_few(kept: Seq<SimilarityPair>, offered: Seq<SimilarityPair>) -> bool {
    &&& keeps_best_of(kept, offered)
    &&& offered.len() <= MAX_REPORTED_PAIRS ==> kept.to_multiset() == offered.to_multiset()
}

proof fn lemma_keep_all_concat(pairs: Seq<SimilarityPair>, a: Seq<SimilarityPair>, b: Seq<SimilarityPair>)
    ensures
        keep_all(pairs, a + b) == keep_all(keep_all(pairs, a), b),
    decreases a.len(),
{
    if a.len() == 0 {
        assert(a + b =~= b);
    } else {
        assert((a + b)[0] == a[0]);
        assert((a + b).drop_first() =~= a.drop_first() + b);
        lemma_keep_all_concat(keep_best(pairs, a[0]), a.drop_first(), b);
    }
}

proof fn lemma_offer_row_keeps_all(
    pairs: Seq<SimilarityPair>,
    scenes: Seq<SceneSpan>,
    fingerprints: Seq<(usize, u64)>,
    first: int,
    second: int,
)
    ensures
        offer_row(pairs, scenes, fingerprints, first, second) == keep_all(
            pairs,
            row_pairs(scenes, fingerprints, first, second),
        ),
    decreases fingerprints.len() - second,
{
    if !(second < 0 || second >= fingerprints.len()) {
        let row = row_pairs(scenes, fingerprints, first, second);
        assert(row[0] == pair_of(scenes, fingerprints, first, second));
        assert(row.drop_first() =~= row_pairs(scenes, fingerprints, first, second + 1));
        lemma_offer_row_keeps_all(
            keep_best(pairs, pair_of(scenes, fingerprints, first, second)),
            scenes,
            fingerprints,
            first,
            second + 1,
        );
    }
}

proof fn lemma_offer_all_keeps_all(
    pairs: Seq<SimilarityPair>,
    scenes: Seq<SceneSpan>,
    fingerprints: Seq<(usize, u64)>,
    first: int,
)
    ensures
        offer_all(pairs, scenes, fingerprints, first) == keep_all(
            pairs,
            candidate_pairs(scenes, fingerprints, first),
        ),
    decreases fingerprints.len() - first,
{
    if !(first < 0 || first >= fingerprints.len()) {
        let row = row_pairs(scenes, fingerprints, first, first + 1);
        lemma_offer_row_keeps_all(pairs, scenes, fingerprints, first, first + 1);
        lemma_offer_all_keeps_all(
            offer_row(pairs, scenes, fingerprints, first, first + 1),
            scenes,
            fingerprints,
            first + 1,
        );
        lemma_keep_all_concat(pairs, row, candidate_pairs(scenes, fingerprints, first + 1));
    }
}

proof fn lemma_worst_is_worst(pairs: Seq<SimilarityPair>, worst: int, i: int)
    requires
        0 <= worst < pairs.len(),
        0 <= i,
        forall|j: int| 0 <= j < i && j < pairs.len() ==> !#[trigger] ranks_before(pairs[worst], pairs[j]),
    ensures
        forall|j: int|
            0 <= j < pairs.len() ==> !#[trigger] ranks_before(
                pairs[worst_from(pairs, worst, i)],
                pairs[j],
            ),
    decreases pairs.len() - i,
{
    if i < pairs.len() {
        let next = if ranks_before(pairs[i], pairs[worst]) {
            worst
        } else {
            i
        };
        assert forall|j: int| 0 <= j < i + 1 && j < pairs.len() implies !#[trigger] ranks_before(
            pairs[next],
            pairs[j],
        ) by {
            if j < i {
                assert(!ranks_before(pairs[worst], pairs[j]));
            }
        }
        lemma_worst_is_worst(pairs, next, i + 1);
        assert(worst_from(pairs, worst, i) == worst_from(pairs, next, i + 1));
    } else {
        assert(worst_from(pairs, worst, i) == worst);
        assert forall|j: int| 0 <= j < pairs.len() implies !#[trigger] ranks_before(
            pairs[worst],
            pairs[j],
        ) by {
            assert(j < i);
        }
    }
}

proof fn lemma_keep_best_step(kept: Seq<SimilarityPair>, offered: Seq<SimilarityPair>, x: SimilarityPair)
    requires
        keeps_all_while_few(kept, offered),
    ensures
        keeps_all_while_few(keep_best(kept, x), offered.push(x)),
{
    broadcast use vstd::seq_lib::group_to_multiset_ensures, vstd::multiset::group_multiset_axioms;

    let m = kept.to_multiset();
    let o = offered.to_multiset();
    let o2 = offered.push(x).to_multiset();
    assert(o2 == o.insert(x));
    if kept.len() < MAX_REPORTED_PAIRS {
        assert(offered.len() < MAX_REPORTED_PAIRS);
        assert(keep_best(kept, x).to_multiset() == m.insert(x));
        assert(keep_best(kept, x).to_multiset() =~= o2);
    } else {
        let w = worst_from(kept, 0, 1);
        lemma_worst_from_bounds(kept, 0, 1);
        lemma_worst_is_worst(kept, 0, 1);
        let k2 = keep_best(kept, x);
        let m2 = k2.to_multiset();
        assert(m.count(kept[w]) > 0);
        if ranks_before(x, kept[w]) {
            assert(k2 == kept.update(w, x));
            assert(m2 == m.insert(x).remove(kept[w]));
            assert forall|v: SimilarityPair| #[trigger] m2.count(v) <= o2.count(v) by {
                assert(m.count(v) <= o.count(v));
            }
            assert forall|left_out: SimilarityPair, k: SimilarityPair|
                o2.count(left_out) > m2.count(left_out) && #[trigger] m2.count(k) > 0 implies !#[trigger] ranks_before(left_out, k) by {
                if k != x {
                    assert(m.count(k) > 0);
                    assert(kept.contains(k));
                    let j = choose|j: int| 0 <= j < kept.len() && kept[j] == k;
                    assert(!ranks_before(kept[w], kept[j]));
                }
                if o.count(left_out) > m.count(left_out) {
                    assert(!ranks_before(left_out, kept[w]));
                    if k != x {
                        assert(m.count(k) > 0);
                    }
                } else {
                    assert(left_out == kept[w]);
                }
            }
        } else {
            assert(k2 == kept);
            assert forall|v: SimilarityPair| #[trigger] m2.count(v) <= o2.count(v) by {
                assert(m.count(v) <= o.count(v));
            }
            assert forall|left_out: SimilarityPair, k: SimilarityPair|
                o2.count(left_out) > m2.count(left_out) && #[trigger] m2.count(k) > 0 implies !#[trigger] ranks_before(left_out, k) by {
                assert(kept.contains(k));
                let j = choose|j: int| 0 <= j < kept.len() && kept[j] == k;
                assert(!ranks_before(kept[w], kept[j]));
                if o.count(left_out) <= m.count(left_out) {
                    assert(left_out == x);
                }
            }
        }
    }
}

proof fn lemma_keep_all_keeps_best(
    kept: Seq<SimilarityPair>,
    offered: Seq<SimilarityPair>,
    more: Seq<SimilarityPair>,
)
    requires
        keeps_all_while_few(kept, offered),
    ensures
        keeps_all_while_few(keep_all(kept, more), offered + more),
    decreases more.len(),
{
    if more.len() == 0 {
        assert(offered + more =~= offered);
    } else {
        lemma_keep_best_step(kept, offered, more[0]);
        assert(offered.push(more[0]) + more.drop_first() =~= offered + more);
        lemma_keep_all_keeps_best(keep_best(kept, more[0]), offered.push(more[0]), more.drop_first());
    }
}

proof fn lemma_keeps_best_of_same_multiset(
    a: Seq<SimilarityPair>,
    b: Seq<SimilarityPair>,
    offered: Seq<SimilarityPair>,
)
    requires
        keeps_best_of(a, offered),
        a.to_multiset() == b.to_multiset(),
    ensures
        keeps_best_of(b, offered),
{
    broadcast use vstd::seq_lib::to_multiset_len;

    assert(a.len() == a.to_multiset().len());
    assert(b.len() == b.to_multiset().len());
}

proof fn lemma_fingerprints_increase(selected: Seq<usize>, groups: Seq<Seq<u64>>, k: nat)
    requires
        k <= selected.len(),
        forall|i: int, j: int| 0 <= i < j < selected.len() ==> selected[i] < selected[j],
    ensures
        ({
            let f = fingerprints_from(selected, groups, k);
            &&& forall|i: int, j: int| 0 <= i < j < f.len() ==> f[i].0 < f[j].0
            &&& forall|i: int, m: int| 0 <= i < f.len() && k <= m < selected.len() ==> f[i].0 < selected[m]
        }),
    decreases k,
{
    if k > 0 {
        lemma_fingerprints_increase(selected, groups, (k - 1) as nat);
        let before = fingerprints_from(selected, groups, (k - 1) as nat);
        let f = fingerprints_from(selected, groups, k);
        if groups[k - 1].len() > 0 {
            assert(f == before.push((selected[k - 1], majority_value(groups[k - 1]))));
            assert forall|i: int, j: int| 0 <= i < j < f.len() implies f[i].0 < f[j].0 by {
                if j < before.len() {
                    assert(f[i] == before[i] && f[j] == before[j]);
                } else {
                    assert(f[i] == before[i]);
                }
            }
            assert forall|i: int, m: int| 0 <= i < f.len() && k <= m < selected.len() implies f[i].0
                < selected[m] by {
                if i < before.len() {
                    assert(f[i] == before[i]);
                }
                assert(selected[k - 1] < selected[m]);
            }
        }
    }
}

/// The pair names two scenes of `scenes` by their one-based numbers, the
/// earlier first, and gives the first frame of each.
pub open spec fn names_its_scenes(scenes: Seq<SceneSpan>, p: SimilarityPair) -> bool {
    &&& 1 <= p.first_scene < p.second_scene <= scenes.len()
    &&& p.first_start == scenes[p.first_scene - 1].start
    &&& p.second_start == scenes[p.second_scene - 1].start
}

proof fn lemma_row_pairs_ordered(
    scenes: Seq<SceneSpan>,
    fingerprints: Seq<(usize, u64)>,
    first: int,
    second: int,
)
    requires
        0 <= first < second,
        forall|i: int, j: int| 0 <= i < j < fingerprints.len() ==> fingerprints[i].0 < fingerprints[j].0,
        forall|i: int| 0 <= i < fingerprints.len() ==> #[trigger] fingerprints[i].0 < scenes.len(),
        scenes.len() < usize::MAX,
    ensures
        forall|p: SimilarityPair|
            #[trigger] row_pairs(scenes, fingerprints, first, second).contains(p) ==> names_its_scenes(
                scenes,
                p,
            ),
    decreases fingerprints.len() - second,
{
    if second < fingerprints.len() {
        lemma_row_pairs_ordered(scenes, fingerprints, first, second + 1);
        let head = seq![pair_of(scenes, fingerprints, first, second)];
        let rest = row_pairs(scenes, fingerprints, first, second + 1);
        assert forall|p: SimilarityPair| #[trigger] (head + rest).contains(p) implies names_its_scenes(
            scenes,
            p,
        ) by {
            let at = choose|at: int| 0 <= at < (head + rest).len() && (head + rest)[at] == p;
            if at > 0 {
                assert(rest[at - 1] == p);
                assert(rest.contains(p));
            }
        }
    }
}

proof fn lemma_candidate_pairs_ordered(
    scenes: Seq<SceneSpan>,
    fingerprints: Seq<(usize, u64)>,
    first: int,
)
    requires
        0 <= first,
        forall|i: int, j: int| 0 <= i < j < fingerprints.len() ==> fingerprints[i].0 < fingerprints[j].0,
        forall|i: int| 0 <= i < fingerprints.len() ==> #[trigger] fingerprints[i].0 < scenes.len(),
        scenes.len() < usize::MAX,
    ensures
        forall|p: SimilarityPair|
            #[trigger] candidate_pairs(scenes, fingerprints, first).contains(p) ==> names_its_scenes(
                scenes,
                p,
            ),
    decreases fingerprints.len() - first,
{
    if first < fingerprints.len() {
        lemma_row_pairs_ordered(scenes, fingerprints, first, first + 1);
        lemma_candidate_pairs_ordered(scenes, fingerprints, first + 1);
        let row = row_pairs(scenes, fingerprints, first, first + 1);
        let rest = candidate_pairs(scenes, fingerprints, first + 1);
        assert forall|p: SimilarityPair| #[trigger] (row + rest).contains(p) implies names_its_scenes(
            scenes,
            p,
        ) by {
            let at = choose|at: int| 0 <= at < (row + rest).len() && (row + rest)[at] == p;
            if at < row.len() {
                assert(row[at] == p);
                assert(row.contains(p));
            } else {
                assert(rest[at - row.len()] == p);
                assert(rest.contains(p));
            }
        }
    }
}

/// Every pair of the scenes chosen for comparison that has a fingerprint, in
/// the order they are offered.
pub open spec fn offered_pairs(scenes: Seq<SceneSpan>, signatures: Seq<FrameVisualSignature>) -> Seq<
    SimilarityPair,
> {
    candidate_pairs(
        scenes,
        scene_fingerprints(scenes, selected_positions(scenes.len() as int), signatures),
        0,
    )
}

/// Law: the pairs a similarity report keeps are the best of all pairs offered:
/// as many as the limit allows, each one offered, and no pair left out ranks
/// before a kept one.
pub proof fn law_similarity_keeps_the_best_pairs(
    scenes: Seq<SceneSpan>,
    signatures: Seq<FrameVisualSignature>,
)
    ensures
        keeps_best_of(best_pairs(scenes, signatures), offered_pairs(scenes, signatures)),
{
    broadcast use vstd::seq_lib::group_to_multiset_ensures, vstd::multiset::group_multiset_axioms;

    let fingerprints = scene_fingerprints(
        scenes,
        selected_positions(scenes.len() as int),
        signatures,
    );
    lemma_offer_all_keeps_all(Seq::empty(), scenes, fingerprints, 0);
    let empty = Seq::<SimilarityPair>::empty();
    assert(empty.to_multiset() =~= vstd::multiset::Multiset::empty());
    assert(keeps_all_while_few(empty, empty));
    lemma_keep_all_keeps_best(empty, empty, offered_pairs(scenes, signatures));
    assert(empty + offered_pairs(scenes, signatures) =~= offered_pairs(scenes, signatures));
}

/// The selected scene indices, as positions.
pub open spec fn selected_positions(total_scenes: int) -> Seq<usize> {
    selected_indices(total_scenes).map_values(|i: int| i as usize)
}

pub open spec fn similarity_method() -> Seq<char> {
    "visual_analysis_phash_scene_majority_v1"@
}

/// Which scenes of a scene list look most alike.
#[derive(Debug, Clone, PartialEq)]
pub struct SceneSimilarityReport {
    pub method: String,
    pub total_scenes: usize,
    pub scenes_considered: usize,
    pub truncated: bool,
    /// The closest pairs, best first.
    pub pairs: Vec<SimilarityPair>,
}

/// The best pairs of scenes of `scene_list`, from the frame signatures, before ranking.
pub open spec fn best_pairs(scenes: Seq<SceneSpan>, signatures: Seq<FrameVisualSignature>) -> Seq<
    SimilarityPair,
> {
    let fingerprints = scene_fingerprints(
        scenes,
        selected_positions(scenes.len() as int),
        signatures,
    );
    offer_all(Seq::empty(), scenes, fingerprints, 0)
}

/// Compares the scenes of `scene_list` by the signatures of their frames,
/// which come in frame order.
pub fn scene_similarity_report(
    scene_list: &SceneList,
    signatures: &Vec<FrameVisualSignature>,
) -> (report: SceneSimilarityReport)
    requires
        signatures@.len() < u32::MAX,
        scene_list.scenes@.len() * 1023 <= usize::MAX,
    ensures
        report.method@ == similarity_method(),
        report.total_scenes == scene_list.scenes@.len(),
        scene_list.scenes@.len() < 2 ==> report.scenes_considered == scene_list.scenes@.len()
            && !report.truncated && report.pairs@.len() == 0,
        scene_list.scenes@.len() >= 2 ==> {
            &&& report.scenes_considered == selected_indices(scene_list.scenes@.len() as int).len()
            &&& report.truncated == (report.scenes_considered < report.total_scenes)
            &&& ranked(report.pairs@)
            &&& report.pairs@.to_multiset() == best_pairs(scene_list.scenes@, signatures@).to_multiset()
            &&& keeps_best_of(report.pairs@, offered_pairs(scene_list.scenes@, signatures@))
            &&& forall|i: int|
                0 <= i < report.pairs@.len() ==> #[trigger] report.pairs@[i].first_scene
                    < report.pairs@[i].second_scene
            &&& forall|i: int|
                0 <= i < report.pairs@.len() ==> names_its_scenes(
                    scene_list.scenes@,
                    #[trigger] report.pairs@[i],
                )
        },
{
    let total_scenes = scene_list.scenes.len();
    let method = <String as StringExecFns>::from_str("visual_analysis_phash_scene_majority_v1");
    if total_scenes < 2 {
        return SceneSimilarityReport {
            method,
            total_scenes,
            scenes_considered: total_scenes,
            truncated: false,
            pairs: Vec::new(),
        };
    }
    let selected = selected_scene_indices(total_scenes);
    let ghost positions = selected_positions(total_scenes as int);
    assert(selected@ =~= positions);
    let truncated = selected.len() < total_scenes;
    proof {
        assert forall|k: int| 0 <= k < selected@.len() implies #[trigger] selected@[k]
            < scene_list.scenes@.len() by {
            if total_scenes > MAX_SCENES_FOR_PAIRWISE_COMPARISON {
                lemma_spread_bound(k, total_scenes - 1);
            }
        }
    }
    let fingerprints = selected_scene_hashes(scene_list, signatures, &selected);
    let ghost fps = fingerprints@;
    let n = fingerprints.len();
    proof {
        lemma_fingerprints_in_range(
            selected@,
            scene_walk(scene_list.scenes@, selected@, signatures@).groups,
            selected@.len() as nat,
            scene_list.scenes@.len(),
        );
    }
    let mut pairs: Vec<SimilarityPair> = Vec::new();
    let mut first: usize = 0;
    while first < n
        invariant
            n == fps.len(),
            fingerprints@ == fps,
            forall|j: int| 0 <= j < n ==> #[trigger] fps[j].0 < scene_list.scenes@.len(),
            scene_list.scenes@.len() * 1023 <= usize::MAX,
            first <= n,
            pairs@.len() <= MAX_REPORTED_PAIRS,
            offer_all(Seq::empty(), scene_list.scenes@, fps, 0) == offer_all(
                pairs@,
                scene_list.scenes@,
                fps,
                first as int,
            ),
        decreases n - first,
    {
        let ghost row_start = pairs@;
        let mut second: usize = first + 1;
        while second < n
            invariant
                n == fps.len(),
                fingerprints@ == fps,
                forall|j: int| 0 <= j < n ==> #[trigger] fps[j].0 < scene_list.scenes@.len(),
                scene_list.scenes@.len() * 1023 <= usize::MAX,
                first < n,
                first + 1 <= second <= n,
                pairs@.len() <= MAX_REPORTED_PAIRS,
                offer_row(row_start, scene_list.scenes@, fps, first as int, first + 1) == offer_row(
                    pairs@,
                    scene_list.scenes@,
                    fps,
                    first as int,
                    second as int,
                ),
            decreases n - second,
        {
            let (first_index, first_hash) = fingerprints[first];
            let (second_index, second_hash) = fingerprints[second];
            let distance = hash_distance(first_hash, second_hash);
            let candidate = SimilarityPair {
                first_scene: first_index + 1,
                second_scene: second_index + 1,
                first_start: scene_list.scenes[first_index].start,
                second_start: scene_list.scenes[second_index].start,
                hash_distance: distance,
            };
            assert(candidate == pair_of(scene_list.scenes@, fps, first as int, second as int));
            keep_best_pair(&mut pairs, candidate);
            second = second + 1;
        }
        first = first + 1;
    }
    let ranked_pairs = sort_pairs(&pairs);
    proof {
        law_similarity_keeps_the_best_pairs(scene_list.scenes@, signatures@);
        lemma_keeps_best_of_same_multiset(
            best_pairs(scene_list.scenes@, signatures@),
            ranked_pairs@,
            offered_pairs(scene_list.scenes@, signatures@),
        );
        law_selection_spans_the_timeline(total_scenes as int);
        assert forall|i: int, j: int| 0 <= i < j < selected@.len() implies selected@[i]
            < selected@[j] by {
            assert(selected@[i] as int == selected_indices(total_scenes as int)[i]);
            assert(selected@[j] as int == selected_indices(total_scenes as int)[j]);
        }
        lemma_fingerprints_increase(
            selected@,
            scene_walk(scene_list.scenes@, selected@, signatures@).groups,
            selected@.len() as nat,
        );
        lemma_candidate_pairs_ordered(scene_list.scenes@, fps, 0);
        let offered = offered_pairs(scene_list.scenes@, signatures@);
        assert(offered == candidate_pairs(scene_list.scenes@, fps, 0));
        assert forall|i: int| 0 <= i < ranked_pairs@.len() implies names_its_scenes(
            scene_list.scenes@,
            #[trigger] ranked_pairs@[i],
        ) by {
            broadcast use vstd::seq_lib::to_multiset_contains;

            let p = ranked_pairs@[i];
            assert(ranked_pairs@.contains(p));
            assert(ranked_pairs@.to_multiset().count(p) > 0);
            assert(offered.to_multiset().count(p) > 0);
            assert(offered.contains(p));
        }
    }
    SceneSimilarityReport {
        method,
        total_scenes,
        scenes_considered: selected.len(),
        truncated,
        pairs: ranked_pairs,
    }
}

/// Law: every pair a similarity report keeps names two of the scenes, the
/// earlier first, by their one-based numbers, and gives the first frame of each
/// of those scenes.
pub proof fn law_similarity_pairs_name_their_scenes(
    scenes: Seq<SceneSpan>,
    signatures: Seq<FrameVisualSignature>,
)
    requires
        1 <= scenes.len() < usize::MAX,
    ensures
        forall|i: int|
            0 <= i < best_pairs(scenes, signatures).len() ==> names_its_scenes(
                scenes,
                #[trigger] best_pairs(scenes, signatures)[i],
            ),
{
    broadcast use vstd::seq_lib::to_multiset_contains;

    let total = scenes.len() as int;
    let selected = selected_positions(total);
    law_selection_spans_the_timeline(total);
    let indices = selected_indices(total);
    assert forall|k: int| 0 <= k < selected.len() implies #[trigger] selected[k] < scenes.len()
        && selected[k] as int == indices[k] by {
        assert(0 <= indices[k] < total);
    }
    assert forall|i: int, j: int| 0 <= i < j < selected.len() implies selected[i] < selected[j] by {
        assert(selected[i] as int == indices[i]);
        assert(selected[j] as int == indices[j]);
    }
    let groups = scene_walk(scenes, selected, signatures).groups;
    lemma_fingerprints_in_range(selected, groups, selected.len() as nat, scenes.len());
    lemma_fingerprints_increase(selected, groups, selected.len() as nat);
    let fps = scene_fingerprints(scenes, selected, signatures);
    lemma_candidate_pairs_ordered(scenes, fps, 0);
    law_similarity_keeps_the_best_pairs(scenes, signatures);
    let best = best_pairs(scenes, signatures);
    let offered = offered_pairs(scenes, signatures);
    assert forall|i: int| 0 <= i < best.len() implies names_its_scenes(scenes, #[trigger] best[i]) by {
        let p = best[i];
        assert(best.contains(p));
        assert(best.to_multiset().count(p) > 0);
        assert(offered.to_multiset().count(p) > 0);
        assert(offered.contains(p));
    }
}

proof fn lemma_fingerprints_in_range(selected: Seq<usize>, groups: Seq<Seq<u64>>, k: nat, bound: nat)
    requires
        k <= selected.len(),
        forall|j: int| 0 <= j < selected.len() ==> #[trigger] selected[j] < bound,
    ensures
        forall|j: int|
            0 <= j < fingerprints_from(selected, groups, k).len() ==> #[trigger] fingerprints_from(
                selected,
                groups,
                k,
            )[j].0 < bound,
    decreases k,
{
    if k > 0 {
        lemma_fingerprints_in_range(selected, groups, (k - 1) as nat, bound);
        let before = fingerprints_from(selected, groups, (k - 1) as nat);
        let now = fingerprints_from(selected, groups, k);
        assert forall|j: int| 0 <= j < now.len() implies #[trigger] now[j].0 < bound by {
            if j < before.len() {
                assert(now[j] == before[j]);
            } else {
                assert(now[j].0 == selected[k - 1]);
            }
        }
    }
}

} // verus!
