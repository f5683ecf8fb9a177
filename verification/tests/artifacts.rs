use scenedetect::artifacts::{
    boundary_review_filename, can_reuse, default_output_dir, default_recovery_command,
    default_scene_list_artifact_path, detection_stats_path_for_input,
    detection_stats_path_for_input_or_stats, export_html_filename, is_detection_stats_path,
    parse_1_to_256, render_manifest_path, render_output_path_for_input, scene_list_artifact_path,
    scene_list_filename, scene_list_html_render_kind, scene_list_render_kind, shell_quote,
    stable_key, stem_path, BoundaryReviewFormat, PathError, SceneListFormat,
};
use scenedetect::paths::{path_file_name, path_file_stem, path_join, path_parent};
use std::path::Path;

#[test]
fn stable_key_is_sixteen_hex_digits_of_fnv1a() {
    assert_eq!(stable_key(b""), "cbf29ce484222325");
    assert_eq!(stable_key(b"a"), "af63dc4c8601ec8c");
    assert_eq!(stable_key(b"foobar"), "85944171f73967e8");
}

#[test]
fn scene_list_artifacts_live_under_the_output_directory() {
    assert_eq!(
        default_scene_list_artifact_path("out", "0123456789abcdef"),
        "out/.scenedetect-rs/scene-list/0123456789abcdef.json"
    );
    assert_eq!(
        default_scene_list_artifact_path("out/", "k"),
        "out/.scenedetect-rs/scene-list/k.json"
    );
    assert_eq!(scene_list_artifact_path(Some("given.json"), "out", "k"), "given.json");
    assert_eq!(
        scene_list_artifact_path(None, ".", "k"),
        "./.scenedetect-rs/scene-list/k.json"
    );
}

#[test]
fn render_manifests_are_keyed_by_output_and_kind() {
    let key = stable_key("/abs/scenes.csv:scene_list_csv".as_bytes());
    assert_eq!(
        render_manifest_path("out", "/abs/scenes.csv", "scene_list_csv"),
        format!("out/.scenedetect-rs/renders/{key}.json")
    );
    assert_ne!(
        render_manifest_path("out", "/abs/scenes.csv", "scene_list_csv"),
        render_manifest_path("out", "/abs/scenes.csv", "scene_list_json")
    );
}

#[test]
fn outputs_are_named_after_the_input_stem() {
    assert_eq!(detection_stats_path_for_input("videos/clip.mp4").unwrap(), "videos/clip.scenedetect.json");
    assert_eq!(detection_stats_path_for_input("clip.mp4").unwrap(), "clip.scenedetect.json");
    assert_eq!(
        render_output_path_for_input("/media/a.b.mkv", "timeline.json").unwrap(),
        "/media/a.b.timeline.json"
    );
    assert_eq!(stem_path("dir/.hidden", "csv").unwrap(), "dir/.hidden.csv");
    assert_eq!(stem_path("/", "csv"), Err(PathError::NoFileStem("/".to_owned())));
    assert_eq!(
        PathError::NoFileStem("..".to_owned()).message(),
        "input path has no file stem: .."
    );
}

#[test]
fn detection_stats_paths_are_recognised_by_file_name() {
    assert!(is_detection_stats_path("a/clip.scenedetect.json"));
    assert!(!is_detection_stats_path("a/clip.mp4"));
    assert!(!is_detection_stats_path("scenedetect.json"));
    assert_eq!(
        detection_stats_path_for_input_or_stats("x/clip.scenedetect.json").unwrap(),
        "x/clip.scenedetect.json"
    );
    assert_eq!(
        detection_stats_path_for_input_or_stats("x/clip.mov").unwrap(),
        "x/clip.scenedetect.json"
    );
}

#[test]
fn recovery_commands_quote_the_input_for_a_shell() {
    assert_eq!(shell_quote("it's here"), "'it'\\''s here'");
    assert_eq!(
        default_recovery_command("clips/a b.mp4"),
        "scenedetect-rs detect content -i 'clips/a b.mp4'"
    );
    assert_eq!(
        default_recovery_command("a.scenedetect.json"),
        "scenedetect-rs detect content -i <video>"
    );
}

#[test]
fn output_names_follow_the_format() {
    assert_eq!(scene_list_filename(None, SceneListFormat::Csv), "scenes.csv");
    assert_eq!(scene_list_filename(None, SceneListFormat::Json), "scenes.json");
    assert_eq!(scene_list_filename(None, SceneListFormat::Ndjson), "scenes.ndjson");
    assert_eq!(scene_list_filename(Some("x.txt"), SceneListFormat::Json), "x.txt");
    assert_eq!(scene_list_render_kind(SceneListFormat::Ndjson), "scene_events_ndjson");
    assert_eq!(scene_list_render_kind(SceneListFormat::Csv), "scene_list_csv");
    assert_eq!(boundary_review_filename(None, BoundaryReviewFormat::Json), "boundaries.json");
    assert_eq!(boundary_review_filename(Some("b.csv"), BoundaryReviewFormat::Json), "b.csv");
    assert_eq!(export_html_filename(None), "scenes.html");
    assert_eq!(scene_list_html_render_kind(), "scene_list_html");
    assert!(can_reuse(false, false));
    assert!(!can_reuse(true, false));
    assert!(!can_reuse(false, true));
    assert_eq!(default_output_dir("a/b.mp4"), "a");
    assert_eq!(default_output_dir("/"), ".");
}

#[test]
fn counts_from_one_to_256_are_accepted() {
    assert_eq!(parse_1_to_256("1"), Ok(1));
    assert_eq!(parse_1_to_256("256"), Ok(256));
    assert_eq!(parse_1_to_256("0"), Err("0 must be between 1 and 256".to_owned()));
    assert_eq!(parse_1_to_256("300"), Err("300 must be between 1 and 256".to_owned()));
    assert_eq!(parse_1_to_256("ten"), Err("\"ten\" is not a positive integer".to_owned()));
    assert_eq!(parse_1_to_256("-1"), Err("\"-1\" is not a positive integer".to_owned()));
}

#[test]
fn paths_split_into_components_as_on_unix() {
    assert_eq!(path_file_name("a/b/"), Some("b".to_owned()));
    assert_eq!(path_file_name("a/b/."), Some("b".to_owned()));
    assert_eq!(path_file_name("a/.."), None);
    assert_eq!(path_file_name("/"), None);
    assert_eq!(path_parent("a"), Some("".to_owned()));
    assert_eq!(path_parent("/a"), Some("/".to_owned()));
    assert_eq!(path_parent("./a"), Some(".".to_owned()));
    assert_eq!(path_parent("a/./b"), Some("a".to_owned()));
    assert_eq!(path_parent(""), None);
    assert_eq!(path_file_stem("x/archive.tar.gz"), Some("archive.tar".to_owned()));
    assert_eq!(path_file_stem("x/noext"), Some("noext".to_owned()));
    assert_eq!(path_join("a", "/abs"), "/abs");
    assert_eq!(path_join("", "b"), "b");
    assert_eq!(path_join("a/", "b"), "a/b");
}

#[test]
fn path_model_agrees_with_std_on_unix() {
    for case in ["a/b/", "a/b/.", "a/..", "/", ".", "./a", "a/./b", "a//b", "x/archive.tar.gz", ".bashrc", "foo.", ""] {
        let path = Path::new(case);
        assert_eq!(
            path_file_name(case),
            path.file_name().map(|n| n.to_string_lossy().into_owned()),
            "file name of {case:?}"
        );
        assert_eq!(
            path_parent(case),
            path.parent().map(|p| p.to_string_lossy().into_owned()),
            "parent of {case:?}"
        );
        assert_eq!(
            path_file_stem(case),
            path.file_stem().map(|n| n.to_string_lossy().into_owned()),
            "stem of {case:?}"
        );
    }
    for (base, part) in [("a", "b"), ("a/", "b"), ("", "b"), ("a", "/b"), ("/", "b")] {
        assert_eq!(
            path_join(base, part),
            Path::new(base).join(part).to_string_lossy().into_owned()
        );
    }
}

#[test]
fn detection_stats_path_is_its_own_detection_stats_path() {
    // Law: looking up the Detection Stats path of a Detection Stats path gives it back.
    let stats = detection_stats_path_for_input_or_stats("input.mp4").unwrap();
    assert_eq!(stats, "input.scenedetect.json");
    assert_eq!(detection_stats_path_for_input_or_stats(&stats).unwrap(), stats);
    let nested = detection_stats_path_for_input_or_stats("/videos/a.b/clip.final.mkv").unwrap();
    assert_eq!(nested, "/videos/a.b/clip.final.scenedetect.json");
    assert_eq!(detection_stats_path_for_input_or_stats(&nested).unwrap(), nested);
}
