use jl_ui::audio::{sound_id_for_file, SoundCategories};
use jl_ui::path::{joined_with, PathTrait, StringExt};
use jl_ui::logger::{is_log_file, last_line, Logger, MAX_LOG_FILES};
use jl_ui::path::get_xml_schema_path_str;
use jl_ui::ui::{
    anim_cache_key, anim_frame_path, class_matches, expand_frame_format, first_duplicate_id, frames_subdir,
    resolve_asset_path,
};

#[test]
fn class_queries() {
    assert!(class_matches("btn primary", "primary"));
    assert!(class_matches("btn,primary", "btn"));
    assert!(class_matches("  a\tb  ", "b"));
    assert!(!class_matches("btn-primary", "btn"));
    assert!(!class_matches("btn primary", ""));
    assert!(!class_matches("a b", "a b"));
    assert!(!class_matches("", "a"));
    assert!(class_matches("a", "a"));
}

#[test]
fn asset_paths() {
    assert_eq!(resolve_asset_path("@/assets/bg.png"), "assets/bg.png");
    assert_eq!(resolve_asset_path("assets/bg.png"), "assets/bg.png");
    assert_eq!(resolve_asset_path("@"), "@");
    assert_eq!(resolve_asset_path("@/"), "");
}

#[test]
fn frame_formats() {
    assert_eq!(expand_frame_format("$0.png", 3), "3.png");
    assert_eq!(expand_frame_format("$1.png", 3), "4.png");
    assert_eq!(expand_frame_format("frame_$10_x.png", 5), "frame_15_x.png");
    assert_eq!(expand_frame_format("$.png", 2), "2.png");
    assert_eq!(expand_frame_format("still.png", 7), "still.png");
    assert_eq!(expand_frame_format("a$2b$3", 0), "a2b$3");
    assert_eq!(expand_frame_format("$99999999999.png", 1), "1.png");
}

#[test]
fn frame_dirs_and_paths() {
    assert_eq!(frames_subdir("./frames"), "frames");
    assert_eq!(frames_subdir("././/x/"), "x/");
    assert_eq!(frames_subdir("/abs"), "abs");
    assert_eq!(frames_subdir(""), "");
    assert_eq!(anim_frame_path("anim", "frames", "0.png"), "anim/frames/0.png");
    assert_eq!(anim_frame_path("anim", "", "0.png"), "anim/0.png");
    assert_eq!(anim_cache_key("@/anim", 12), "@/anim/frame_12");
}

#[test]
fn duplicate_ids() {
    let ids: Vec<String> = ["a", "b", "c", "b", "a"].iter().map(|s| s.to_string()).collect();
    assert_eq!(first_duplicate_id(&ids), Some(3));
    let unique: Vec<String> = ["a", "b"].iter().map(|s| s.to_string()).collect();
    assert_eq!(first_duplicate_id(&unique), None);
    assert_eq!(first_duplicate_id(&Vec::new()), None);
}

#[test]
fn log_paths() {
    assert_eq!(Logger::log_file_path("logs", "2024-01-02_03-04-05"), "logs/2024-01-02_03-04-05.log");
    let l = Logger::for_session("out", "s");
    assert_eq!(l.logs_path, "out");
    assert_eq!(l.current_log_path, "out/s.log");
}

#[test]
fn rotation_removes_oldest() {
    let files: Vec<(String, u128)> = (0..12u128).map(|i| (format!("{}.log", i), i)).collect();
    let victims = Logger::rotation_victims(&files, MAX_LOG_FILES);
    assert_eq!(victims, vec!["0.log".to_string(), "1.log".to_string()]);
}

#[test]
fn rotation_keeps_few_and_breaks_ties_by_order() {
    let few: Vec<(String, u128)> = vec![("a".to_string(), 1), ("b".to_string(), 2)];
    assert!(Logger::rotation_victims(&few, 10).is_empty());
    let tied: Vec<(String, u128)> = vec![("x".to_string(), 5), ("y".to_string(), 5), ("z".to_string(), 5)];
    assert_eq!(Logger::rotation_victims(&tied, 2), vec!["z".to_string()]);
    assert_eq!(Logger::rotation_victims(&tied, 0).len(), 3);
}

#[test]
fn schema_path_below_cwd() {
    let p = get_xml_schema_path_str("/home/u/game");
    assert!(p.ends_with("src/modules/ui/schema/ui_schema.xml"));
    assert!(p.starts_with("/home/u/game"));
    assert_eq!(p.len(), "/home/u/game".len() + 1 + "src/modules/ui/schema/ui_schema.xml".len());
    assert_eq!(get_xml_schema_path_str("/home/u/"), "/home/u/src/modules/ui/schema/ui_schema.xml");
    assert_eq!(get_xml_schema_path_str(""), "src/modules/ui/schema/ui_schema.xml");
}

#[test]
fn sound_categories_keep_one_category_per_sound() {
    let mut c = SoundCategories::new();
    c.create_category("music");
    c.attach_to_category("boom", "sfx");
    c.attach_to_category("theme", "music");
    assert_eq!(c.get_category_of("boom"), Some("sfx"));
    c.assign_to_category("boom", "music");
    assert_eq!(c.get_category_of("boom"), Some("music"));
    assert!(c.get_sounds_in_category("sfx").is_empty());
    let mut m = c.get_sounds_in_category("music");
    m.sort();
    assert_eq!(m, vec!["boom".to_string(), "theme".to_string()]);
    c.remove_from_category("theme");
    assert_eq!(c.get_category_of("theme"), None);
    assert_eq!(c.get_sounds_in_category("music"), vec!["boom".to_string()]);
    let mut cats = c.list_categories();
    cats.sort();
    assert_eq!(cats, vec!["music".to_string(), "sfx".to_string()]);
    assert!(c.get_sounds_in_category("none").is_empty());
}

#[test]
fn attaching_again_moves_a_sound() {
    let mut c = SoundCategories::new();
    c.attach_to_category("s", "a");
    c.attach_to_category("s", "a");
    assert_eq!(c.get_sounds_in_category("a"), vec!["s".to_string()]);
    c.attach_to_category("s", "b");
    assert_eq!(c.get_category_of("s"), Some("b"));
    assert_eq!(c.get_sounds_in_category("b"), vec!["s".to_string()]);
    assert!(c.get_sounds_in_category("a").is_empty());
}

#[test]
fn sound_files_by_extension() {
    assert_eq!(sound_id_for_file("jump.ogg"), Some("jump".to_string()));
    assert_eq!(sound_id_for_file("Theme.Song.FLAC"), Some("Theme.Song".to_string()));
    assert_eq!(sound_id_for_file("beep.Mp3"), Some("beep".to_string()));
    assert_eq!(sound_id_for_file("notes.txt"), None);
    assert_eq!(sound_id_for_file(".wav"), None);
    assert_eq!(sound_id_for_file("wav"), None);
    assert_eq!(sound_id_for_file("odd."), None);
}

#[test]
fn relative_display_of_paths() {
    let sep = std::path::MAIN_SEPARATOR;
    assert_eq!(std::path::Path::new("a/b/c.txt").display_relative(), format!("b{}c.txt", sep));
    assert_eq!(std::path::PathBuf::from("logs/run.log").display_relative(), format!("logs{}run.log", sep));
    assert_eq!(std::path::Path::new("top.txt").display_relative(), format!("{}top.txt", sep));
    assert_eq!(joined_with("p", '/', "c"), "p/c");
}

#[test]
fn strings_become_paths() {
    assert_eq!("x/y.xml".to_string().to_path_buf(), std::path::PathBuf::from("x/y.xml"));
    assert_eq!("a b/caf\u{e9}.xml".to_string().to_path_buf().to_string_lossy(), "a b/caf\u{e9}.xml");
}

#[test]
fn last_line_of_a_log() {
    assert_eq!(last_line(b"first\nsecond\r\n"), Some("second".to_string()));
    assert_eq!(last_line(b"a\n\n"), Some("".to_string()));
    assert_eq!(last_line(b"tail\r"), Some("tail\r".to_string()));
    assert_eq!(last_line(b"ok\n\xff\xfe\n"), Some("ok".to_string()));
    assert_eq!(last_line(b"caf\xc3\xa9"), Some("caf\u{e9}".to_string()));
    assert_eq!(last_line(b""), None);
    assert_eq!(last_line(b"\xff"), None);
}

#[test]
fn log_files_by_extension() {
    assert!(is_log_file("2024-01-01_10-00-00.log"));
    assert!(is_log_file("a.b.log"));
    assert!(!is_log_file("run.LOG"));
    assert!(!is_log_file(".log"));
    assert!(!is_log_file("log"));
    assert!(!is_log_file("run.log.1"));
}
