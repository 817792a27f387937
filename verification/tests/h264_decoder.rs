use rtsp_lib::decoders::{H264RGBDecoder, ImageDecoder};

#[test]
fn h264_decoder_initialises() {
    let d = H264RGBDecoder::new(false, (16, 16));
    assert!(d.is_ok());
}

#[test]
fn h264_decoder_yields_no_picture_for_junk_input() {
    let mut d = H264RGBDecoder::new(false, (16, 16)).unwrap();
    // not a decodable picture: either a bitstream error or a retryable
    // empty result, never a decoded image
    let r = d.decode(&[0, 0, 0, 1, 0x09, 0x10]);
    assert!(r.is_err());
}
