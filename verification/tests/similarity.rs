use scenedetect::model::{FrameIndex, FrameRate, SceneList, SceneSpan};
use scenedetect::similarity::{
    compact_luma_sample, hash_distance, keep_best_pair, sample_coordinate, scene_similarity_report,
    selected_scene_hashes, selected_scene_indices, sort_pairs, FrameVisualSignature,
    SceneHashAggregate, SimilarityPair, MAX_REPORTED_PAIRS, MAX_SCENES_FOR_PAIRWISE_COMPARISON,
};

fn unit_scenes(total: usize) -> SceneList {
    SceneList {
        frame_rate: FrameRate(1.0f64.to_bits()),
        scenes: (0..total)
            .map(|index| SceneSpan {
                start: FrameIndex(index as u64),
                end: FrameIndex(index as u64 + 1),
            })
            .collect(),
    }
}

#[test]
fn retained_signature_is_compact() {
    assert!(std::mem::size_of::<FrameVisualSignature>() <= 16);
}

#[test]
fn very_large_scene_lists_are_sampled_across_the_full_timeline() {
    let total = MAX_SCENES_FOR_PAIRWISE_COMPARISON + 17;
    let scene_list = unit_scenes(total);

    let report = scene_similarity_report(&scene_list, &Vec::new());

    assert!(report.truncated);
    assert_eq!(report.scenes_considered, MAX_SCENES_FOR_PAIRWISE_COMPARISON);
    assert!(report.pairs.is_empty());
}

#[test]
fn selected_scene_aggregation_is_bounded() {
    let total = MAX_SCENES_FOR_PAIRWISE_COMPARISON + 33;
    let scene_list = unit_scenes(total);
    let selected = selected_scene_indices(total);
    let signatures = (0..total)
        .map(|index| FrameVisualSignature {
            frame: FrameIndex(index as u64),
            hash: index as u64,
        })
        .collect::<Vec<_>>();

    let fingerprints = selected_scene_hashes(&scene_list, &signatures, &selected);

    assert_eq!(selected.len(), MAX_SCENES_FOR_PAIRWISE_COMPARISON);
    assert_eq!(fingerprints.len(), MAX_SCENES_FOR_PAIRWISE_COMPARISON);
}

#[test]
fn selection_runs_from_the_first_scene_to_the_last() {
    let total = 5000;
    let selected = selected_scene_indices(total);
    assert_eq!(selected.len(), MAX_SCENES_FOR_PAIRWISE_COMPARISON);
    assert_eq!(selected[0], 0);
    assert_eq!(selected[MAX_SCENES_FOR_PAIRWISE_COMPARISON - 1], total - 1);
    assert!(selected.windows(2).all(|pair| pair[0] < pair[1]));
    assert_eq!(selected_scene_indices(3), vec![0, 1, 2]);
}

#[test]
fn hash_distance_counts_differing_bits() {
    assert_eq!(hash_distance(0, 0), 0);
    assert_eq!(hash_distance(0b1011, 0b0001), 2);
    assert_eq!(hash_distance(u64::MAX, 0), 64);
}

#[test]
fn majority_hash_takes_each_bit_from_most_frames() {
    let mut aggregate = SceneHashAggregate::new();
    assert_eq!(aggregate.majority_hash(), None);
    aggregate.add(0b0110);
    aggregate.add(0b0011);
    aggregate.add(0b0101);
    assert_eq!(aggregate.majority_hash(), Some(0b0111));
    // On a tie the first fingerprint decides.
    let mut tied = SceneHashAggregate::new();
    tied.add(0b10);
    tied.add(0b01);
    assert_eq!(tied.majority_hash(), Some(0b10));
}

#[test]
fn sample_coordinates_fall_on_pixel_centres() {
    assert_eq!(sample_coordinate(0, 64), 1);
    assert_eq!(sample_coordinate(31, 64), 63);
    assert_eq!(sample_coordinate(31, 1), 0);
    assert_eq!(sample_coordinate(10, 32), 10);
    // Positions past the grid still land inside the extent.
    assert_eq!(sample_coordinate(40, 64), 63);
    assert_eq!(sample_coordinate(20, 10), 6);
}

#[test]
fn compact_luma_weights_the_channels() {
    let width = 2;
    let height = 2;
    let rgb = vec![255_u8; 12];
    let luma = compact_luma_sample(width, height, &rgb);
    assert_eq!(luma.len(), 32 * 32);
    assert!(luma.iter().all(|value| *value == 255));
    let red = vec![255_u8, 0, 0];
    let luma = compact_luma_sample(1, 1, &red);
    assert_eq!(luma[0], ((77 * 255 + 128) >> 8) as u8);
}

fn pair(distance: u32, first: usize, second: usize) -> SimilarityPair {
    SimilarityPair {
        first_scene: first,
        second_scene: second,
        first_start: FrameIndex(first as u64),
        second_start: FrameIndex(second as u64),
        hash_distance: distance,
    }
}

#[test]
fn bounded_pair_list_replaces_its_worst_pair() {
    let mut pairs = Vec::new();
    for index in 0..MAX_REPORTED_PAIRS {
        keep_best_pair(&mut pairs, pair(10, index + 1, index + 2));
    }
    assert_eq!(pairs.len(), MAX_REPORTED_PAIRS);
    keep_best_pair(&mut pairs, pair(20, 1, 2));
    assert!(pairs.iter().all(|kept| kept.hash_distance == 10));
    keep_best_pair(&mut pairs, pair(3, 90, 91));
    assert_eq!(pairs.len(), MAX_REPORTED_PAIRS);
    assert!(pairs.contains(&pair(3, 90, 91)));
    assert!(!pairs.contains(&pair(10, MAX_REPORTED_PAIRS, MAX_REPORTED_PAIRS + 1)));
}

#[test]
fn pairs_sort_by_distance_then_scene_numbers() {
    let sorted = sort_pairs(&vec![pair(4, 2, 3), pair(1, 5, 6), pair(4, 1, 9), pair(1, 2, 7)]);
    assert_eq!(sorted, vec![pair(1, 2, 7), pair(1, 5, 6), pair(4, 1, 9), pair(4, 2, 3)]);
}

#[test]
fn report_ranks_identical_scenes_first() {
    let scene_list = SceneList {
        frame_rate: FrameRate(6.0f64.to_bits()),
        scenes: vec![
            SceneSpan { start: FrameIndex(0), end: FrameIndex(2) },
            SceneSpan { start: FrameIndex(2), end: FrameIndex(4) },
            SceneSpan { start: FrameIndex(4), end: FrameIndex(6) },
        ],
    };
    let signatures = vec![
        FrameVisualSignature { frame: FrameIndex(0), hash: 0xff00 },
        FrameVisualSignature { frame: FrameIndex(1), hash: 0xff00 },
        FrameVisualSignature { frame: FrameIndex(2), hash: 0x00ff },
        FrameVisualSignature { frame: FrameIndex(4), hash: 0xff01 },
    ];
    let report = scene_similarity_report(&scene_list, &signatures);
    assert_eq!(report.method, "visual_analysis_phash_scene_majority_v1");
    assert_eq!(report.total_scenes, 3);
    assert_eq!(report.scenes_considered, 3);
    assert!(!report.truncated);
    assert_eq!(report.pairs.len(), 3);
    assert_eq!(report.pairs[0].first_scene, 1);
    assert_eq!(report.pairs[0].second_scene, 3);
    assert_eq!(report.pairs[0].hash_distance, 1);
    assert_eq!(report.pairs[0].second_start, FrameIndex(4));
    assert!(report.pairs[1].hash_distance > report.pairs[0].hash_distance);
}

#[test]
fn report_of_a_single_scene_has_no_pairs() {
    let report = scene_similarity_report(&unit_scenes(1), &Vec::new());
    assert_eq!(report.total_scenes, 1);
    assert_eq!(report.scenes_considered, 1);
    assert!(report.pairs.is_empty());
}

#[test]
fn report_keeps_the_best_pairs_of_all_offered() {
    // Law: at most the limit of pairs is kept, ranked, and no pair left out
    // ranks before a kept one.
    let total = 12usize;
    let scene_list = unit_scenes(total);
    let hashes: Vec<u64> = (0..total).map(|i| (1u64 << (3 * i as u32 % 60)) | (i as u64 * 0x9e37)).collect();
    let signatures: Vec<FrameVisualSignature> = (0..total)
        .map(|i| FrameVisualSignature { frame: FrameIndex(i as u64), hash: hashes[i] })
        .collect();
    let mut keys: Vec<(u32, usize, usize)> = Vec::new();
    for first in 0..total {
        for second in first + 1..total {
            keys.push((hash_distance(hashes[first], hashes[second]), first + 1, second + 1));
        }
    }
    keys.sort();
    let report = scene_similarity_report(&scene_list, &signatures);
    assert_eq!(report.pairs.len(), MAX_REPORTED_PAIRS);
    let kept: Vec<(u32, usize, usize)> = report
        .pairs
        .iter()
        .map(|p| (p.hash_distance, p.first_scene, p.second_scene))
        .collect();
    assert_eq!(kept, keys[..MAX_REPORTED_PAIRS].to_vec());
    assert!(report.pairs.iter().all(|p| p.first_scene < p.second_scene));
}
