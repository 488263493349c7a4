use media_tagger::paths::{
    file_name_of, final_path_for, image_path_for, join_path, stays_below_of, temp_path_for,
};

#[test]
fn joins_folder_and_name() {
    assert_eq!(join_path("bin_", "yt-dlp.exe"), "bin_/yt-dlp.exe");
    assert_eq!(join_path("bin_/", "yt-dlp.exe"), "bin_/yt-dlp.exe");
    assert_eq!(join_path("", "a"), "a");
    assert_eq!(join_path("a", ""), "a/");
    assert_eq!(join_path("a", "/b"), "/b");
}

#[test]
fn join_agrees_with_the_standard_library() {
    let folders = ["", "a", "a/", "/", "/home/u", "x/y/"];
    let names = ["", "b", "b/c", "/abs", "..", "song.mp3"];
    for folder in folders {
        for name in names {
            let expected = std::path::Path::new(folder).join(name);
            assert_eq!(join_path(folder, name), expected.to_str().unwrap());
        }
    }
}

#[test]
fn final_name_drops_the_infix() {
    assert_eq!(
        final_path_for("/music.mp3/dir/song.mp3_t.mp3").as_deref(),
        Some("/music.mp3/dir/song.mp3")
    );
    assert_eq!(final_path_for("song.mp3_t.mp3").as_deref(), Some("song.mp3"));
}

#[test]
fn final_name_keeps_the_parent_untouched() {
    assert_eq!(
        final_path_for("/a.mp3_t/b.mp3_t.mp3").as_deref(),
        Some("/a.mp3_t/b.mp3")
    );
}

#[test]
fn final_name_loses_only_the_mark_at_its_end() {
    assert_eq!(
        final_path_for("/m/x.mp3_t.y.mp3_t.mp3").as_deref(),
        Some("/m/x.mp3_t.y.mp3")
    );
    assert_eq!(final_path_for("song_t.mp3").as_deref(), Some("song"));
    assert_eq!(final_path_for("a.mp3_t.mp3_tb").as_deref(), Some("a.mp3_t.mp3_tb"));
    assert_eq!(final_path_for("dir/.mp3_t").as_deref(), Some("dir/.mp3_t"));
}

#[test]
fn temp_path_always_leads_back_to_the_output_path() {
    let outputs = ["/m/x.mp3_t.y.mp3", "song", "a/b.ogg", "_t.mp3", "/m/.mp3_t.mp3", "r\u{e9}.mp3"];
    for output in outputs {
        assert_eq!(final_path_for(&temp_path_for(output)).as_deref(), Some(output));
    }
}

#[test]
fn final_name_needs_a_file_name() {
    assert_eq!(final_path_for("dir/"), None);
    assert_eq!(final_path_for(""), None);
}

#[test]
fn temp_path_and_back() {
    let temp = temp_path_for("/home/u/music/song.mp3");
    assert_eq!(temp, "/home/u/music/song.mp3_t.mp3");
    assert_eq!(final_path_for(&temp).as_deref(), Some("/home/u/music/song.mp3"));
}

#[test]
fn image_path_replaces_the_extension() {
    assert_eq!(
        image_path_for("/m/song.mp3", None).as_deref(),
        Some("/m/song.jpeg")
    );
    assert_eq!(
        image_path_for("/m/song.ogg", None).as_deref(),
        Some("/m/song.ogg.jpeg")
    );
    assert_eq!(
        image_path_for("/m/song.mp3.mp3", None).as_deref(),
        Some("/m/song.mp3.jpeg")
    );
}

#[test]
fn relative_image_path_lies_below_home() {
    assert_eq!(
        image_path_for("m/song.mp3", Some("/home/u")).as_deref(),
        Some("/home/u/m/song.jpeg")
    );
    assert_eq!(image_path_for("m/song.mp3", None), None);
}

#[test]
fn file_name_is_the_last_part() {
    assert_eq!(file_name_of("/m/Artist - Title.mp3").as_deref(), Some("Artist - Title.mp3"));
    assert_eq!(file_name_of("plain").as_deref(), Some("plain"));
    assert_eq!(file_name_of("dir/"), None);
}

#[test]
fn only_relative_paths_without_parent_parts_stay_below() {
    for rest in ["a", "a/b", "a//b", ".", "..a", "a..", "a/.../b", "", "a/"] {
        assert!(stays_below_of(rest), "{}", rest);
    }
    for rest in ["/", "/a", "..", "../a", "a/..", "a/../b", "a/b/.."] {
        assert!(!stays_below_of(rest), "{}", rest);
    }
}
