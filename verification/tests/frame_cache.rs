use std::sync::{Arc, Mutex};

use rtsp_lib::camera::rtsp_session::{
    find_video_stream, FrameHolder, FrameRequest, SessionConfig, SessionError, SessionWrapper,
};
use rtsp_lib::decoders::{DecoderError, ImageDecoder};
use url::Url;

/// A stage that echoes its input and records every input it was fed, so a
/// test can observe decode order and memoization.
struct RecordingDecoder {
    buf: Vec<u8>,
    log: Arc<Mutex<Vec<Vec<u8>>>>,
}

impl RecordingDecoder {
    fn new(log: Arc<Mutex<Vec<Vec<u8>>>>) -> Self {
        Self { buf: Vec::new(), log }
    }
}

impl ImageDecoder for RecordingDecoder {
    fn decode(&mut self, data: &[u8]) -> Result<&[u8], DecoderError> {
        self.log.lock().unwrap().push(data.to_vec());
        self.buf.clear();
        self.buf.extend_from_slice(data);
        Ok(self.buf.as_slice())
    }
}

/// A stage that always reports a retryable empty result.
struct EmptyDecoder;

impl ImageDecoder for EmptyDecoder {
    fn decode(&mut self, _data: &[u8]) -> Result<&[u8], DecoderError> {
        Err(DecoderError::NoImageDecoded)
    }
}

fn test_url() -> Url {
    Url::parse("rtsp://camera.local:554/stream").unwrap()
}

#[test]
fn set_iframe_resets_length_and_age() {
    let mut holder = FrameHolder::new(0);
    holder.add_image(vec![1], 8);
    holder.set_iframe(vec![9, 9], 1000);
    assert_eq!(holder.raw_len(), 1);
    assert_eq!(holder.get_ts(), 1000);
    assert_eq!(holder.elapsed(1000), 0);
    assert_eq!(holder.elapsed(1003), 3);
}

#[test]
fn add_image_beyond_the_cap_is_a_no_op() {
    let mut holder = FrameHolder::new(0);
    holder.set_iframe(vec![0x10], 0);
    holder.add_image(vec![0x11], 3);
    holder.add_image(vec![0x12], 3);
    assert_eq!(holder.raw_len(), 3);
    // at the cap: the append is silently ignored
    holder.add_image(vec![0x13], 3);
    assert_eq!(holder.raw_len(), 3);
    assert_eq!(holder.get_ts(), 0);
}

#[test]
fn drain_empties_the_cache() {
    let mut holder = FrameHolder::new(0);
    holder.set_iframe(vec![1], 5);
    holder.add_image(vec![2], 8);
    assert!(!holder.is_empty());
    holder.drain(10);
    assert!(holder.is_empty());
    assert_eq!(holder.raw_len(), 0);
    assert_eq!(holder.get_ts(), 10);
}

#[test]
fn decode_one_past_the_end_fails_then_succeeds_after_one_more_frame() {
    let log = Arc::new(Mutex::new(Vec::new()));
    let mut dec = RecordingDecoder::new(log);
    let mut holder = FrameHolder::new(0);
    holder.set_iframe(vec![0xA0], 0);
    // one past the end: cache holds 1 frame, index 1 is not ingested yet
    let r = holder.decode(&mut dec, 1);
    assert!(matches!(r, Err(DecoderError::IndexOutOfBounds)));
    holder.add_image(vec![0xA1], 8);
    let out = holder.decode(&mut dec, 1).unwrap();
    assert_eq!(out, &[0xA1]);
}

#[test]
fn decode_runs_strictly_in_order_and_memoizes() {
    let log = Arc::new(Mutex::new(Vec::new()));
    let mut dec = RecordingDecoder::new(Arc::clone(&log));
    let mut holder = FrameHolder::new(0);
    holder.set_iframe(vec![0xC0u8], 0);
    holder.add_image(vec![0xD1u8], 8);
    holder.add_image(vec![0xD2u8], 8);
    // requesting index 2 must decode 0, 1, 2 in that order
    let out = holder.decode(&mut dec, 2).unwrap().to_vec();
    assert_eq!(out, vec![0xD2u8]);
    {
        let calls = log.lock().unwrap();
        assert_eq!(*calls, vec![vec![0xC0u8], vec![0xD1u8], vec![0xD2u8]]);
    }
    // a second request for index 1 must hit the memo: no new decoder call
    let out1 = holder.decode(&mut dec, 1).unwrap().to_vec();
    assert_eq!(out1, vec![0xD1u8]);
    assert_eq!(log.lock().unwrap().len(), 3);
}

#[test]
fn session_step_caps_the_epoch_at_buf_size() {
    let log = Arc::new(Mutex::new(Vec::new()));
    let dec = RecordingDecoder::new(log);
    let cfg = SessionConfig { buf_size: 3, frame_lifetime: 1000 };
    let mut session = SessionWrapper::new(test_url(), dec, cfg, 0);
    session.handle_video_frame(vec![0x10], true, 0);
    for i in 0..5u8 {
        session.handle_video_frame(vec![0x20 + i], false, 1);
    }
    // the key frame plus two deltas; the later deltas were dropped
    let r = session.handle_frame_request(2, 2).unwrap();
    assert_eq!(r.frame, vec![0x21]);
    let r3 = session.handle_frame_request(3, 2);
    assert!(matches!(
        r3,
        Err(SessionError::DecodingError(DecoderError::IndexOutOfBounds))
    ));
}

#[test]
fn delta_frame_without_an_epoch_is_ignored() {
    let log = Arc::new(Mutex::new(Vec::new()));
    let dec = RecordingDecoder::new(log);
    let cfg = SessionConfig { buf_size: 3, frame_lifetime: 1000 };
    let mut session = SessionWrapper::new(test_url(), dec, cfg, 0);
    assert_eq!(session.camera_url().as_str(), "rtsp://camera.local:554/stream");
    assert!(session.buffer_is_empty());
    session.handle_video_frame(vec![0x55], false, 1);
    assert!(session.buffer_is_empty());
    let r = session.handle_frame_request(0, 2);
    assert!(matches!(
        r,
        Err(SessionError::DecodingError(DecoderError::IndexOutOfBounds))
    ));
}

#[test]
fn stale_request_drains_and_next_request_sees_index_out_of_bounds() {
    let log = Arc::new(Mutex::new(Vec::new()));
    let dec = RecordingDecoder::new(Arc::clone(&log));
    let cfg = SessionConfig { buf_size: 4, frame_lifetime: 50 };
    let mut session = SessionWrapper::new(test_url(), dec, cfg, 0);
    session.handle_video_frame(vec![0x10], true, 0);
    session.handle_video_frame(vec![0x11], false, 1);
    // age 51 > lifetime 50: the buffer is drained and the caller told
    let r = session.handle_frame_request(0, 51);
    assert!(matches!(r, Err(SessionError::OldFrame)));
    // the next request must not be served against stale data
    let r2 = session.handle_frame_request(0, 52);
    assert!(matches!(
        r2,
        Err(SessionError::DecodingError(DecoderError::IndexOutOfBounds))
    ));
    // nothing was ever decoded
    assert_eq!(log.lock().unwrap().len(), 0);
}

#[test]
fn served_request_carries_the_anchor_timestamp() {
    let log = Arc::new(Mutex::new(Vec::new()));
    let dec = RecordingDecoder::new(log);
    let cfg = SessionConfig { buf_size: 4, frame_lifetime: 500 };
    let mut session = SessionWrapper::new(test_url(), dec, cfg, 0);
    session.handle_video_frame(vec![0x10], true, 7);
    let r = session.handle_frame_request(0, 20).unwrap();
    assert_eq!(r.i_frame_ts, 7);
    assert_eq!(r.frame, vec![0x10]);
}

#[test]
fn decoder_failure_is_reported_and_does_not_corrupt_the_cache() {
    let cfg = SessionConfig { buf_size: 4, frame_lifetime: 500 };
    let mut session = SessionWrapper::new(test_url(), EmptyDecoder, cfg, 0);
    session.handle_video_frame(vec![0x10], true, 0);
    let r = session.handle_frame_request(0, 1);
    assert!(matches!(
        r,
        Err(SessionError::DecodingError(DecoderError::NoImageDecoded))
    ));
    // the coded frame is still there; a later request hits the same slot
    let r2 = session.handle_frame_request(0, 2);
    assert!(matches!(
        r2,
        Err(SessionError::DecodingError(DecoderError::NoImageDecoded))
    ));
}

#[test]
fn frame_request_keeps_its_index() {
    let req = FrameRequest::new(3);
    assert_eq!(req.buf_index(), 3);
}

#[test]
fn find_video_stream_picks_the_first_video_entry() {
    let medias = vec![
        String::from("audio"),
        String::from("video"),
        String::from("video"),
    ];
    assert_eq!(find_video_stream(&medias), Some(1));
    let none = vec![String::from("audio"), String::from("application")];
    assert_eq!(find_video_stream(&none), None);
    assert_eq!(find_video_stream(&Vec::new()), None);
}
