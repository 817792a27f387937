use vstd::prelude::*;

use super::{annexb, parse_avcc, reformat_into, AvccParse, DecoderError};

verus! {

/// Reformatter from the length-prefixed unit layout to the
/// start-code-delimited one, with a reusable scratch buffer.
pub struct AVCCDecoder {
    buf: Vec<u8>,
}

impl AVCCDecoder {
    /// The scratch buffer left behind by the last reformatting.
    pub closed spec fn scratch(&self) -> Seq<u8> {
        self.buf@
    }

    pub fn new() -> (r: Self)
        ensures
            r.scratch() == Seq::<u8>::empty(),
    {
        Self { buf: Vec::new() }
    }

    /// Reformats `avcc_data`, read as length-prefixed units, into the
    /// start-code-delimited layout. A truncated length prefix yields
    /// `FieldOutOfBounds`; a declared unit length that overruns the input
    /// yields `NalOutOfBounds`; no output is returned on failure.
    pub fn avcc_to_annex_b(&mut self, avcc_data: &[u8]) -> (r: Result<&[u8], DecoderError>)
        ensures
            match parse_avcc(avcc_data@) {
                AvccParse::Units(us) => r matches Ok(out) && out@ == annexb(us),
                AvccParse::FieldErr => r matches Err(e) && e == DecoderError::FieldOutOfBounds,
                AvccParse::NalErr => r matches Err(e) && e == DecoderError::NalOutOfBounds,
            },
    {
        reformat_into(avcc_data, &mut self.buf)?;
        Ok(self.buf.as_slice())
    }
}

} // verus!
