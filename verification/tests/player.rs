use blockymodel::{
    check_parts, choose_texture, frame_stats, png_name, PartSize, PartsError, TextureChoice,
    discover_animations_root, initial_clip_index, select_clip_index, source_order, step_clip_index,
    AnimationsRoot, FrameStats,
};

fn clips() -> Vec<(String, String)> {
    [("Idle", "Idle"), ("Run", "Run"), ("Idle", "Extra/Idle")]
        .iter()
        .map(|(a, b)| (a.to_string(), b.to_string()))
        .collect()
}

#[test]
fn the_sibling_animations_folder_wins() {
    assert_eq!(discover_animations_root(Some(true), true), Some(AnimationsRoot::Sibling));
    assert_eq!(discover_animations_root(Some(false), true), Some(AnimationsRoot::Local));
    assert_eq!(discover_animations_root(Some(false), false), None);
    assert_eq!(discover_animations_root(None, true), None);
}

#[test]
fn the_initial_clip_matches_name_or_source_ignoring_case() {
    let c = clips();
    assert_eq!(initial_clip_index(&c, Some("run")), 1);
    assert_eq!(initial_clip_index(&c, Some("extra/IDLE")), 2);
    assert_eq!(initial_clip_index(&c, Some("IDLE")), 0);
    assert_eq!(initial_clip_index(&c, Some("Sleep")), 0);
    assert_eq!(initial_clip_index(&c, None), 0);
}

#[test]
fn clip_selection_wraps() {
    assert_eq!(select_clip_index(4, 3), Some(1));
    assert_eq!(select_clip_index(0, 0), None);
    assert_eq!(step_clip_index(0, -1, 3), Some(2));
    assert_eq!(step_clip_index(2, 1, 3), Some(0));
    assert_eq!(step_clip_index(1, 1, 3), Some(2));
    assert_eq!(step_clip_index(1, -7, 3), Some(0));
    assert_eq!(step_clip_index(0, 1, 0), None);
}

#[test]
fn frame_stats_start_at_zero() {
    let stats = FrameStats::default();
    assert_eq!((stats.vertices, stats.triangles, stats.bones, stats.draw_calls), (0, 0, 0, 0));
}

#[test]
fn clips_are_listed_by_source_keeping_ties_in_place() {
    let sources: Vec<String> = ["Run", "Extra/Idle", "Idle", "Run", "Alert"]
        .iter()
        .map(|s| s.to_string())
        .collect();
    assert_eq!(source_order(&sources), vec![4, 1, 2, 0, 3]);
    assert_eq!(source_order(&Vec::new()), Vec::<usize>::new());
}

#[test]
fn sources_sort_by_bytes_so_capitals_come_first() {
    let sources: Vec<String> = ["idle", "Walk", "Idle"].iter().map(|s| s.to_string()).collect();
    assert_eq!(source_order(&sources), vec![2, 1, 0]);
}

fn names(list: &[&str]) -> Vec<String> {
    list.iter().map(|s| s.to_string()).collect()
}

#[test]
fn png_names_go_by_the_extension_ignoring_case() {
    assert!(png_name("Texture.png"));
    assert!(png_name("a.PnG"));
    assert!(png_name("skin.old.png"));
    assert!(!png_name(".png"));
    assert!(!png_name("png"));
    assert!(!png_name("Texture.png.bak"));
    assert!(!png_name("Texture.jpg"));
    assert!(!png_name("Texture.pngx"));
    assert!(!png_name(""));
}

#[test]
fn named_candidates_win_in_their_order() {
    let listing = names(&["a.png"]);
    assert_eq!(choose_texture([false, true, true], &listing, &listing), Some(TextureChoice::Candidate(1)));
    assert_eq!(choose_texture([true, true, true], &listing, &listing), Some(TextureChoice::Candidate(0)));
    assert_eq!(choose_texture([false, false, true], &vec![], &vec![]), Some(TextureChoice::Candidate(2)));
}

#[test]
fn the_textures_folder_comes_before_the_model_folder() {
    let textures = names(&["notes.txt", "Skin_B.png", "Skin_A.PNG", "Skin_C.png"]);
    let model_dir = names(&["Model.blockymodel", "Alpha.png"]);
    assert_eq!(choose_texture([false; 3], &textures, &model_dir), Some(TextureChoice::TexturesDir(2)));
    assert_eq!(choose_texture([false; 3], &names(&["readme"]), &model_dir), Some(TextureChoice::ModelDir(1)));
    assert_eq!(choose_texture([false; 3], &vec![], &names(&["Model.blockymodel"])), None);
}

#[test]
fn the_least_name_wins_by_bytes() {
    let listing = names(&["b.png", "B.png", "a.png"]);
    assert_eq!(choose_texture([false; 3], &listing, &vec![]), Some(TextureChoice::TexturesDir(1)));
}

#[test]
fn parts_need_one_model_within_the_bone_limit() {
    assert_eq!(check_parts(&vec![]), Err(PartsError::NoParts));
    assert_eq!(check_parts(&vec![31, 255]), Ok(()));
    assert_eq!(check_parts(&vec![31, 300, 256]), Err(PartsError::TooManyBones(300)));
}

#[test]
fn frame_stats_sum_the_parts() {
    let parts = vec![
        PartSize { vertices: 592, single_indices: 600, double_indices: 288, bones: 31 },
        PartSize { vertices: 8, single_indices: 12, double_indices: 0, bones: 2 },
    ];
    assert_eq!(
        frame_stats(&parts),
        FrameStats { vertices: 600, triangles: 300, bones: 33, draw_calls: 3 }
    );
    assert_eq!(frame_stats(&vec![]), FrameStats::default());
}
