use media_tagger::command::InstructionError;
use media_tagger::pipeline::{
    advance, start, PipelineAction, PipelineArtifact, PipelineError, PipelineEvent, PipelineState,
};
use media_tagger::tagging::TagAttempt;

const LINE: &str = "image:\"http://x/y.jpg\"; extract:-x -o \"~/music/song.mp3\" URL";
const HOME: Option<&str> = Some("/home/u");

fn artifact(output: &str) -> PipelineArtifact {
    PipelineArtifact::for_output(String::from(output), HOME).unwrap()
}

fn fetched() -> PipelineState {
    PipelineState::BannerFetched {
        artifact: artifact("/m/song.mp3"),
        title: String::from("song.mp3"),
        attempt: TagAttempt::StreamCopy,
        diagnostics: String::new(),
    }
}

fn failed_run(text: &str) -> PipelineEvent {
    PipelineEvent::TaggerExited { success: false, diagnostics: String::from(text) }
}

#[test]
fn a_request_runs_from_start_to_end() {
    let (state, action) = start(LINE, HOME);
    match action {
        PipelineAction::RunExtractor { arguments } => {
            assert_eq!(arguments, vec!["-x", "-o", "/home/u/music/song.mp3", "URL"]);
        }
        other => panic!("expected the extractor, found {:?}", other),
    }
    assert!(matches!(state, PipelineState::Parsed { .. }));

    let (state, action) = advance(state, PipelineEvent::ExtractorExited { code: 0 });
    assert!(matches!(state, PipelineState::Extracted { .. }));
    assert!(matches!(action, PipelineAction::Proceed));

    let (state, action) = advance(state, PipelineEvent::Proceeded);
    match &state {
        PipelineState::OutputLocated { artifact } => {
            assert_eq!(artifact.output_path, "/home/u/music/song.mp3");
            assert_eq!(artifact.image_path, "/home/u/music/song.jpeg");
            assert_eq!(artifact.temp_tagged_path, "/home/u/music/song.mp3_t.mp3");
        }
        other => panic!("expected a located output, found {:?}", other),
    }
    match action {
        PipelineAction::DownloadBanner { url, path } => {
            assert_eq!(url, "http://x/y.jpg");
            assert_eq!(path, "/home/u/music/song.jpeg");
        }
        other => panic!("expected a download, found {:?}", other),
    }

    let (state, action) = advance(state, PipelineEvent::BannerSaved);
    match &state {
        PipelineState::BannerFetched { title, attempt, diagnostics, .. } => {
            assert_eq!(title, "song.mp3");
            assert_eq!(*attempt, TagAttempt::StreamCopy);
            assert_eq!(diagnostics, "");
        }
        other => panic!("expected a fetched banner, found {:?}", other),
    }
    match action {
        PipelineAction::RunTagger { arguments } => {
            assert_eq!(arguments[2], "/home/u/music/song.mp3");
            assert_eq!(arguments[4], "/home/u/music/song.jpeg");
            assert_eq!(arguments[10], "title=song.mp3");
            assert_eq!(arguments[15..], ["-c", "copy", "/home/u/music/song.mp3_t.mp3"]);
        }
        other => panic!("expected the tagger, found {:?}", other),
    }

    let done = PipelineEvent::TaggerExited { success: true, diagnostics: String::from("noise") };
    let (state, action) = advance(state, done);
    assert!(matches!(state, PipelineState::Tagged { .. }));
    match action {
        PipelineAction::Finalize { replaced, temp, target } => {
            assert_eq!(replaced, "/home/u/music/song.mp3");
            assert_eq!(temp, "/home/u/music/song.mp3_t.mp3");
            assert_eq!(target, "/home/u/music/song.mp3");
        }
        other => panic!("expected the move, found {:?}", other),
    }

    let (state, action) = advance(state, PipelineEvent::Moved);
    match state {
        PipelineState::Finalized { artifact } => {
            assert_eq!(artifact.output_path, "/home/u/music/song.mp3")
        }
        other => panic!("expected the end, found {:?}", other),
    }
    assert!(matches!(action, PipelineAction::Stop));
}

#[test]
fn wrong_segment_count_starts_nothing() {
    for line in ["", "image:x", "image:x; extract:y; z"] {
        let (state, action) = start(line, HOME);
        assert!(matches!(action, PipelineAction::Stop));
        assert!(matches!(
            state,
            PipelineState::Failed(PipelineError::Rejected(InstructionError::SegmentCount))
        ));
    }
}

#[test]
fn wrong_directive_starts_nothing() {
    let (state, action) = start("picture:x; extract:y", HOME);
    assert!(matches!(action, PipelineAction::Stop));
    match state {
        PipelineState::Failed(PipelineError::Rejected(InstructionError::Directive {
            first,
            second,
        })) => {
            assert_eq!(first, "picture:x");
            assert_eq!(second, "extract:y");
        }
        other => panic!("expected a rejection, found {:?}", other),
    }
}

#[test]
fn open_quote_fails_before_the_extractor_runs() {
    let (state, action) = start("image:x; extract:-o \"a.mp3", HOME);
    assert!(matches!(action, PipelineAction::Stop));
    assert!(matches!(state, PipelineState::Failed(PipelineError::ArgumentParse)));
}

#[test]
fn extractor_failure_ends_the_request() {
    let (state, _) = start(LINE, HOME);
    let (state, action) = advance(state, PipelineEvent::ExtractorExited { code: 2 });
    assert!(matches!(state, PipelineState::Failed(PipelineError::ExtractorExit(2))));
    assert!(matches!(action, PipelineAction::Stop));

    let (state, _) = start(LINE, HOME);
    let event = PipelineEvent::ExtractorFailed { reason: String::from("not found") };
    let (state, action) = advance(state, event);
    match state {
        PipelineState::Failed(PipelineError::ExtractorStart(reason)) => {
            assert_eq!(reason, "not found")
        }
        other => panic!("expected a failure, found {:?}", other),
    }
    assert!(matches!(action, PipelineAction::Stop));
}

#[test]
fn missing_output_flag_ends_the_request() {
    let (state, _) = start("image:x; extract:-x URL", HOME);
    let (state, _) = advance(state, PipelineEvent::ExtractorExited { code: 0 });
    let (state, action) = advance(state, PipelineEvent::Proceeded);
    assert!(matches!(state, PipelineState::Failed(PipelineError::OutputPathMissing)));
    assert!(matches!(action, PipelineAction::Stop));
}

#[test]
fn relative_output_needs_a_home() {
    let (state, _) = start("image:x; extract:-o music/a.mp3 URL", None);
    let (state, _) = advance(state, PipelineEvent::ExtractorExited { code: 0 });
    let (state, action) = advance(state, PipelineEvent::Proceeded);
    assert!(matches!(state, PipelineState::Failed(PipelineError::HomeMissing)));
    assert!(matches!(action, PipelineAction::Stop));
}

#[test]
fn banner_failure_ends_the_request() {
    let state = PipelineState::OutputLocated { artifact: artifact("/m/a.mp3") };
    let event = PipelineEvent::BannerFailed { reason: String::from("HTTP error: 404") };
    let (state, action) = advance(state, event);
    match state {
        PipelineState::Failed(PipelineError::BannerDownload(reason)) => {
            assert_eq!(reason, "HTTP error: 404")
        }
        other => panic!("expected a failure, found {:?}", other),
    }
    assert!(matches!(action, PipelineAction::Stop));
}

#[test]
fn output_without_a_file_name_cannot_be_tagged() {
    let state = PipelineState::OutputLocated { artifact: artifact("/m/") };
    let (state, action) = advance(state, PipelineEvent::BannerSaved);
    assert!(matches!(state, PipelineState::Failed(PipelineError::InvalidFileName)));
    assert!(matches!(action, PipelineAction::Stop));
}

#[test]
fn failed_stream_copy_is_followed_by_one_reencode() {
    let (state, action) = advance(fetched(), failed_run("first\n"));
    match &state {
        PipelineState::BannerFetched { attempt, diagnostics, .. } => {
            assert_eq!(*attempt, TagAttempt::Reencode);
            assert_eq!(diagnostics, "first\n");
        }
        other => panic!("expected a second attempt, found {:?}", other),
    }
    match action {
        PipelineAction::RunTagger { arguments } => {
            assert_eq!(
                arguments[15..],
                ["-id3v2_version", "3", "-c:a", "libmp3lame", "-b:a", "192k", "/m/song.mp3_t.mp3"]
            );
        }
        other => panic!("expected the tagger, found {:?}", other),
    }

    let (state, action) = advance(state, failed_run("second\n"));
    match state {
        PipelineState::Failed(PipelineError::Tagging(report)) => {
            assert_eq!(report, "first\nsecond\n");
            assert!(report.contains("first"));
            assert!(report.contains("second"));
        }
        other => panic!("expected a failure, found {:?}", other),
    }
    assert!(matches!(action, PipelineAction::Stop));
}

#[test]
fn reencode_can_still_succeed() {
    let (state, _) = advance(fetched(), failed_run("first"));
    let done = PipelineEvent::TaggerExited { success: true, diagnostics: String::new() };
    let (state, action) = advance(state, done);
    assert!(matches!(state, PipelineState::Tagged { .. }));
    assert!(matches!(action, PipelineAction::Finalize { .. }));
}

#[test]
fn tagger_that_cannot_run_is_not_tried_again() {
    let event = PipelineEvent::TaggerFailed { reason: String::from("no such file") };
    let (state, action) = advance(fetched(), event);
    match state {
        PipelineState::Failed(PipelineError::Tagging(report)) => assert_eq!(report, "no such file"),
        other => panic!("expected a failure, found {:?}", other),
    }
    assert!(matches!(action, PipelineAction::Stop));
}

#[test]
fn failed_move_ends_the_request() {
    let state = PipelineState::Tagged { artifact: artifact("/m/a.mp3") };
    let event = PipelineEvent::MoveFailed { reason: String::from("denied") };
    let (state, action) = advance(state, event);
    match state {
        PipelineState::Failed(PipelineError::Finalize(reason)) => assert_eq!(reason, "denied"),
        other => panic!("expected a failure, found {:?}", other),
    }
    assert!(matches!(action, PipelineAction::Stop));
}

#[test]
fn ended_requests_stay_ended() {
    let failed = PipelineState::Failed(PipelineError::OutputPathMissing);
    let (state, action) = advance(failed, PipelineEvent::ExtractorExited { code: 0 });
    assert!(matches!(state, PipelineState::Failed(PipelineError::OutputPathMissing)));
    assert!(matches!(action, PipelineAction::Stop));

    let ended = PipelineState::Finalized { artifact: artifact("/m/a.mp3") };
    let (state, action) = advance(ended, PipelineEvent::Moved);
    assert!(matches!(state, PipelineState::Finalized { .. }));
    assert!(matches!(action, PipelineAction::Stop));
}

#[test]
fn an_event_out_of_turn_ends_the_request() {
    let (state, _) = start(LINE, HOME);
    let (state, action) = advance(state, PipelineEvent::BannerSaved);
    assert!(matches!(state, PipelineState::Failed(PipelineError::Protocol)));
    assert!(matches!(action, PipelineAction::Stop));

    let (state, action) = advance(fetched(), PipelineEvent::Moved);
    assert!(matches!(state, PipelineState::Failed(PipelineError::Protocol)));
    assert!(matches!(action, PipelineAction::Stop));
}

#[test]
fn artifact_paths_follow_from_the_output_path() {
    let files = PipelineArtifact::for_output(String::from("music/a.mp3"), Some("/home/u")).unwrap();
    assert_eq!(files.output_path, "music/a.mp3");
    assert_eq!(files.image_path, "/home/u/music/a.jpeg");
    assert_eq!(files.temp_tagged_path, "music/a.mp3_t.mp3");
    assert!(PipelineArtifact::for_output(String::from("music/a.mp3"), None).is_none());
    let rooted = PipelineArtifact::for_output(String::from("/m/a.ogg"), None).unwrap();
    assert_eq!(rooted.image_path, "/m/a.ogg.jpeg");
    assert_eq!(rooted.temp_tagged_path, "/m/a.ogg_t.mp3");
}

#[test]
fn home_is_the_one_given_at_the_start() {
    let (state, _) = start("image:x; extract:-o ~/a.mp3 URL", Some("/first"));
    let (state, _) = advance(state, PipelineEvent::ExtractorExited { code: 0 });
    let (state, _) = advance(state, PipelineEvent::Proceeded);
    match state {
        PipelineState::OutputLocated { artifact } => {
            assert_eq!(artifact.output_path, "/first/a.mp3");
            assert_eq!(artifact.image_path, "/first/a.jpeg");
        }
        other => panic!("expected a located output, found {:?}", other),
    }
}
