use media_tagger::tagging::{tagging_command, TagAttempt};

#[test]
fn stream_copy_arguments() {
    let args = tagging_command(TagAttempt::StreamCopy, "in.mp3", "out.mp3", "Title", "b.jpeg");
    assert_eq!(
        args,
        vec![
            "-y", "-i", "in.mp3", "-i", "b.jpeg", "-map", "0:a?", "-map", "1:v?", "-metadata",
            "title=Title", "-metadata", "description=Title", "-disposition:v:0", "attached_pic",
            "-c", "copy", "out.mp3",
        ]
    );
}

#[test]
fn reencode_arguments() {
    let args = tagging_command(TagAttempt::Reencode, "in.mp3", "out.mp3", "A - B", "b.jpeg");
    assert_eq!(
        args,
        vec![
            "-y", "-i", "in.mp3", "-i", "b.jpeg", "-map", "0:a?", "-map", "1:v?", "-metadata",
            "title=A - B", "-metadata", "description=A - B", "-disposition:v:0", "attached_pic",
            "-id3v2_version", "3", "-c:a", "libmp3lame", "-b:a", "192k", "out.mp3",
        ]
    );
}

#[test]
fn attempts_follow_each_other() {
    assert_eq!(TagAttempt::first(), TagAttempt::StreamCopy);
    assert_eq!(TagAttempt::StreamCopy.following(), Some(TagAttempt::Reencode));
    assert_eq!(TagAttempt::Reencode.following(), None);
}
