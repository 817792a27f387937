use rtsp_lib::decoders::avcc::AVCCDecoder;
use rtsp_lib::decoders::{AVCCDecoder as AvccStage, Chain, DecoderError, ImageDecoder};

#[test]
fn reformat_empty_input_gives_empty_output() {
    let mut d = AVCCDecoder::new();
    let out = d.avcc_to_annex_b(&[]).unwrap();
    assert_eq!(out, &[] as &[u8]);
}

#[test]
fn reformat_single_unit_exact_bytes() {
    let mut d = AVCCDecoder::new();
    let input = [0u8, 0, 0, 1, 0xAB];
    let out = d.avcc_to_annex_b(&input).unwrap();
    assert_eq!(out, &[0u8, 0, 0, 1, 0xAB]);
}

#[test]
fn reformat_two_units_exact_bytes_and_length() {
    let mut d = AVCCDecoder::new();
    // unit 1: [0x11, 0x22]; unit 2: [0x33]
    let input = [0u8, 0, 0, 2, 0x11, 0x22, 0, 0, 0, 1, 0x33];
    let out = d.avcc_to_annex_b(&input).unwrap();
    assert_eq!(out, &[0u8, 0, 0, 1, 0x11, 0x22, 0, 0, 0, 1, 0x33]);
    // sum over units of (4 + unit_length): (4 + 2) + (4 + 1)
    assert_eq!(out.len(), (4 + 2) + (4 + 1));
}

#[test]
fn reformat_truncated_length_prefix_fails_field_out_of_bounds() {
    let mut d = AVCCDecoder::new();
    // a complete unit, then two trailing bytes where a length prefix is expected
    let input = [0u8, 0, 0, 1, 0xAA, 0x00, 0x01];
    let r = d.avcc_to_annex_b(&input);
    assert!(matches!(r, Err(DecoderError::FieldOutOfBounds)));
}

#[test]
fn reformat_unit_length_overrun_fails_nal_out_of_bounds() {
    let mut d = AVCCDecoder::new();
    // declared length 5 but only 2 bytes remain
    let input = [0u8, 0, 0, 5, 0x01, 0x02];
    let r = d.avcc_to_annex_b(&input);
    assert!(matches!(r, Err(DecoderError::NalOutOfBounds)));
}

#[test]
fn reformat_distinct_inputs_give_distinct_outputs() {
    // two well-formed inputs whose units hold no start code
    let a = [0u8, 0, 0, 2, 0x11, 0x22];
    let b = [0u8, 0, 0, 1, 0x11, 0, 0, 0, 1, 0x22];
    let mut d = AVCCDecoder::new();
    let out_a = d.avcc_to_annex_b(&a).unwrap().to_vec();
    let out_b = d.avcc_to_annex_b(&b).unwrap().to_vec();
    assert_ne!(out_a, out_b);
}

#[test]
fn decode_stage_reformats_like_the_standalone_reformatter() {
    let mut stage = AvccStage::new();
    let input = [0u8, 0, 0, 2, 0x11, 0x22, 0, 0, 0, 1, 0x33];
    let out = stage.decode(&input).unwrap();
    assert_eq!(out, &[0u8, 0, 0, 1, 0x11, 0x22, 0, 0, 0, 1, 0x33]);
}

#[test]
fn decode_stage_reports_both_error_kinds() {
    let mut stage = AvccStage::new();
    assert!(matches!(stage.decode(&[0u8, 0]), Err(DecoderError::FieldOutOfBounds)));
    assert!(matches!(stage.decode(&[0u8, 0, 0, 9, 1]), Err(DecoderError::NalOutOfBounds)));
}

/// A stage that upper-bounds testability of chaining: it echoes its input
/// with one marker byte appended.
struct MarkStage {
    buf: Vec<u8>,
    mark: u8,
}

impl ImageDecoder for MarkStage {
    fn decode(&mut self, data: &[u8]) -> Result<&[u8], DecoderError> {
        self.buf.clear();
        self.buf.extend_from_slice(data);
        self.buf.push(self.mark);
        Ok(self.buf.as_slice())
    }
}

/// A stage that always fails with a fixed error.
struct FailStage;

impl ImageDecoder for FailStage {
    fn decode(&mut self, _data: &[u8]) -> Result<&[u8], DecoderError> {
        Err(DecoderError::NoImageDecoded)
    }
}

#[test]
fn chained_stages_run_left_then_right() {
    let first = MarkStage { buf: Vec::new(), mark: 0xEE };
    let mut chain = AvccStage::new().chain(first).chain(MarkStage { buf: Vec::new(), mark: 0xFF });
    let input = [0u8, 0, 0, 1, 0xAB];
    let out = chain.decode(&input).unwrap();
    assert_eq!(out, &[0u8, 0, 0, 1, 0xAB, 0xEE, 0xFF]);
}

#[test]
fn chain_aborts_with_the_failing_stage_error_unchanged() {
    let mut chain = AvccStage::new().chain(FailStage);
    let r = chain.decode(&[0u8, 0, 0, 1, 0xAB]);
    assert!(matches!(r, Err(DecoderError::NoImageDecoded)));
    // the left stage's error also passes through unchanged
    let mut chain2 = AvccStage::new().chain(MarkStage { buf: Vec::new(), mark: 1 });
    let r2 = chain2.decode(&[0u8, 0]);
    assert!(matches!(r2, Err(DecoderError::FieldOutOfBounds)));
}
