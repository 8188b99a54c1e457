use asciiview::config::MediaSource;
use asciiview::media::{detect_input_media_type, MediaError, MediaInput};
use asciiview::pacer::{
    frame_duration_nanos, sleep_nanos, PacerAction, PacerEvent, VideoSession,
};

#[test]
fn media_type_follows_the_extension() {
    assert_eq!(
        detect_input_media_type("clip.mp4"),
        Ok(MediaInput::Video("clip.mp4".to_string()))
    );
    assert_eq!(
        detect_input_media_type("dir/movie.mkv"),
        Ok(MediaInput::Video("dir/movie.mkv".to_string()))
    );
    assert_eq!(
        detect_input_media_type("a/b/photo.png"),
        Ok(MediaInput::Image("a/b/photo.png".to_string()))
    );
    assert_eq!(
        detect_input_media_type("pic.jpeg"),
        Ok(MediaInput::Image("pic.jpeg".to_string()))
    );
}

#[test]
fn unknown_extensions_are_unsupported() {
    assert_eq!(
        detect_input_media_type("notes.txt"),
        Err(MediaError::UnsupportedMediaType)
    );
    assert_eq!(
        detect_input_media_type("noextension"),
        Err(MediaError::UnsupportedMediaType)
    );
    assert_eq!(
        detect_input_media_type(".hidden"),
        Err(MediaError::UnsupportedMediaType)
    );
    assert_eq!(
        detect_input_media_type("dir.mp4/file"),
        Err(MediaError::UnsupportedMediaType)
    );
    assert_eq!(
        detect_input_media_type("clip.MP4"),
        Err(MediaError::UnsupportedMediaType)
    );
    assert_eq!(
        MediaError::UnsupportedMediaType.message(),
        "Unsupported Media type"
    );
}

#[test]
fn from_cli_guards_the_file_source_and_refuses_webcam() {
    assert_eq!(
        MediaInput::from_cli(&MediaSource::File, 0, ""),
        Err(MediaError::MissingPath)
    );
    assert_eq!(
        MediaInput::from_cli(&MediaSource::File, 0, "x.gif"),
        Ok(MediaInput::Image("x.gif".to_string()))
    );
    assert_eq!(
        MediaInput::from_cli(&MediaSource::WebCam, 3, "x.gif"),
        Err(MediaError::UnsupportedConfiguration)
    );
    assert_eq!(
        MediaError::MissingPath.message(),
        "File path is required when source is 'file'"
    );
}

#[test]
fn pacing_sleeps_the_remainder_and_never_repays_an_overrun() {
    const MS: u64 = 1_000_000;
    // A 25 fps stream: each frame lasts 40 ms.
    assert_eq!(frame_duration_nanos(25, 1), 40 * MS);
    // A fast frame sleeps the remainder; a slow one does not sleep, and
    // the wait after it is not shortened to compensate.
    assert_eq!(sleep_nanos(40 * MS, 10 * MS), 30 * MS);
    assert_eq!(sleep_nanos(40 * MS, 60 * MS), 0);
    assert_eq!(sleep_nanos(40 * MS, 10 * MS), 30 * MS);
}

#[test]
fn a_session_walks_the_pacing_loop() {
    const MS: u64 = 1_000_000;
    let mut s = VideoSession::new();
    let a = s.step(&PacerEvent::StreamFound {
        stream_index: 2,
        rate_num: 25,
        rate_den: 1,
    });
    assert_eq!(a, PacerAction::ReadPacket);
    assert_eq!(s.frame_duration_nanos, 40 * MS);
    // A packet of another stream is skipped.
    assert_eq!(
        s.step(&PacerEvent::Packet { stream_index: 1 }),
        PacerAction::ReadPacket
    );
    assert_eq!(
        s.step(&PacerEvent::Packet { stream_index: 2 }),
        PacerAction::SendPacket
    );
    assert_eq!(s.step(&PacerEvent::FrameReady), PacerAction::RenderFrame);
    assert_eq!(
        s.step(&PacerEvent::Rendered { elapsed_nanos: 10 * MS }),
        PacerAction::Sleep { nanos: 30 * MS }
    );
    assert_eq!(s.step(&PacerEvent::Slept), PacerAction::ReceiveFrame);
    assert_eq!(s.step(&PacerEvent::FrameReady), PacerAction::RenderFrame);
    // A 60 ms frame overruns: no sleep at all.
    assert_eq!(
        s.step(&PacerEvent::Rendered { elapsed_nanos: 60 * MS }),
        PacerAction::Sleep { nanos: 0 }
    );
    assert_eq!(s.step(&PacerEvent::Slept), PacerAction::ReceiveFrame);
    assert_eq!(s.step(&PacerEvent::FrameReady), PacerAction::RenderFrame);
    // The wait after the overrun is the full remainder again.
    assert_eq!(
        s.step(&PacerEvent::Rendered { elapsed_nanos: 10 * MS }),
        PacerAction::Sleep { nanos: 30 * MS }
    );
    // Draining ends the row: no more frames, then the stream ends.
    assert_eq!(s.step(&PacerEvent::Slept), PacerAction::ReceiveFrame);
    assert_eq!(s.step(&PacerEvent::NoFrame), PacerAction::ReadPacket);
    assert_eq!(s.step(&PacerEvent::EndOfInput), PacerAction::Stop);
}

#[test]
fn a_session_fails_without_a_video_stream() {
    let mut s = VideoSession::new();
    assert_eq!(s.step(&PacerEvent::NoStream), PacerAction::Fail);
    // A failed session accepts nothing further.
    assert_eq!(s.step(&PacerEvent::FrameReady), PacerAction::Fail);
}

#[test]
fn a_zero_frame_rate_fails_the_session() {
    let mut s = VideoSession::new();
    let a = s.step(&PacerEvent::StreamFound {
        stream_index: 0,
        rate_num: 0,
        rate_den: 1,
    });
    assert_eq!(a, PacerAction::Fail);
}
