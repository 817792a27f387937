pub mod avcc;

use vstd::prelude::*;

use openh264::decoder::{Decoder, DecoderConfig};
use openh264::formats::YUVSource;
use openh264::OpenH264API;

verus! {

#[verifier::external_type_specification]
#[verifier::external_body]
pub struct ExDecoder(Decoder);

#[verifier::external_type_specification]
#[verifier::external_body]
pub struct ExOpenh264Error(openh264::Error);

/// Errors produced while turning coded video into pixel data.
#[derive(Debug)]
pub enum DecoderError {
    InitFail(openh264::Error),
    DecodeFail(openh264::Error),
    NoImageDecoded,
    FieldOutOfBounds,
    NalOutOfBounds,
    IndexOutOfBounds,
}

/// The four-byte start code that separates units in the start-code-delimited
/// layout.
pub open spec fn start_code() -> Seq<u8> {
    seq![0u8, 0u8, 0u8, 1u8]
}

/// The value of a four-byte big-endian length prefix.
pub open spec fn be32(b0: u8, b1: u8, b2: u8, b3: u8) -> int {
    (b0 as int) * 0x1000000 + (b1 as int) * 0x10000 + (b2 as int) * 0x100 + (b3 as int)
}

/// Outcome of reading a byte string as a sequence of length-prefixed units.
pub enum AvccParse {
    Units(Seq<Seq<u8>>),
    FieldErr,
    NalErr,
}

/// Reads `s` as length-prefixed units: a four-byte big-endian length, then
/// exactly that many bytes, repeated until the input ends. `FieldErr` marks a
/// truncated length prefix, `NalErr` a declared length that overruns the input.
pub open spec fn parse_avcc(s: Seq<u8>) -> AvccParse
    decreases s.len(),
{
    if s.len() == 0 {
        AvccParse::Units(Seq::empty())
    } else if s.len() < 4 {
        AvccParse::FieldErr
    } else {
        let n = be32(s[0], s[1], s[2], s[3]);
        if 4 + n > s.len() {
            AvccParse::NalErr
        } else {
            match parse_avcc(s.subrange(4 + n, s.len() as int)) {
                AvccParse::Units(us) => AvccParse::Units(seq![s.subrange(4, 4 + n)] + us),
                AvccParse::FieldErr => AvccParse::FieldErr,
                AvccParse::NalErr => AvccParse::NalErr,
            }
        }
    }
}

/// The start-code-delimited image of a sequence of units: each unit is
/// emitted behind one start code, in order.
pub open spec fn annexb(units: Seq<Seq<u8>>) -> Seq<u8>
    decreases units.len(),
{
    if units.len() == 0 {
        Seq::empty()
    } else {
        start_code() + units[0] + annexb(units.drop_first())
    }
}

/// Prepends already-reformatted units to the outcome of parsing the rest of
/// an input; errors swallow whatever was already done.
pub open spec fn glue(done: Seq<Seq<u8>>, rest: AvccParse) -> AvccParse {
    match rest {
        AvccParse::Units(us) => AvccParse::Units(done + us),
        AvccParse::FieldErr => AvccParse::FieldErr,
        AvccParse::NalErr => AvccParse::NalErr,
    }
}

proof fn lemma_glue_empty(p: AvccParse)
    ensures
        glue(Seq::empty(), p) == p,
{
    match p {
        AvccParse::Units(us) => {
            assert(Seq::<Seq<u8>>::empty() + us =~= us);
        },
        _ => {},
    }
}

proof fn lemma_annexb_push(units: Seq<Seq<u8>>, unit: Seq<u8>)
    ensures
        annexb(units.push(unit)) == annexb(units) + start_code() + unit,
    decreases units.len(),
{
    if units.len() == 0 {
        let single = units.push(unit);
        assert(single.drop_first() =~= Seq::<Seq<u8>>::empty());
        assert(annexb(single.drop_first()) == Seq::<u8>::empty());
        assert(annexb(units) == Seq::<u8>::empty());
        assert(annexb(single) == start_code() + unit + Seq::<u8>::empty());
        assert(start_code() + unit + Seq::<u8>::empty() =~= annexb(units) + start_code() + unit);
    } else {
        assert(units.push(unit).drop_first() =~= units.drop_first().push(unit));
        lemma_annexb_push(units.drop_first(), unit);
        assert(start_code() + units[0] + (annexb(units.drop_first()) + start_code() + unit)
            =~= (start_code() + units[0] + annexb(units.drop_first())) + start_code() + unit);
    }
}

proof fn lemma_parse_step(s: Seq<u8>, done: Seq<Seq<u8>>, i: int, n: int)
    requires
        0 <= i,
        i + 4 + n <= s.len(),
        0 <= n,
        n == be32(s[i], s[i + 1], s[i + 2], s[i + 3]),
    ensures
        glue(done, parse_avcc(s.subrange(i, s.len() as int))) == glue(
            done.push(s.subrange(i + 4, i + 4 + n)),
            parse_avcc(s.subrange(i + 4 + n, s.len() as int)),
        ),
{
    let suf = s.subrange(i, s.len() as int);
    assert(suf[0] == s[i] && suf[1] == s[i + 1] && suf[2] == s[i + 2] && suf[3] == s[i + 3]);
    assert(suf.subrange(4 + n, suf.len() as int) =~= s.subrange(i + 4 + n, s.len() as int));
    assert(suf.subrange(4, 4 + n) =~= s.subrange(i + 4, i + 4 + n));
    let unit = s.subrange(i + 4, i + 4 + n);
    match parse_avcc(s.subrange(i + 4 + n, s.len() as int)) {
        AvccParse::Units(us) => {
            assert(done + (seq![unit] + us) =~= done.push(unit) + us);
        },
        _ => {},
    }
}

/// Total reformatted length of a unit sequence: four start-code bytes for
/// each unit plus the unit itself.
pub open spec fn units_total_len(units: Seq<Seq<u8>>) -> int
    decreases units.len(),
{
    if units.len() == 0 {
        0
    } else {
        4 + units[0].len() + units_total_len(units.drop_first())
    }
}

/// Law: the reformatted output's length is the sum over units of
/// (4 + unit length).
pub proof fn lemma_annexb_len(units: Seq<Seq<u8>>)
    ensures
        annexb(units).len() == units_total_len(units),
    decreases units.len(),
{
    if units.len() > 0 {
        lemma_annexb_len(units.drop_first());
    }
}

/// Law: for every input that parses as length-prefixed units, the
/// reformatted output's length is the sum over those units of
/// (4 + unit length).
pub proof fn lemma_reformat_len(s: Seq<u8>)
    requires
        parse_avcc(s) is Units,
    ensures
        annexb(parse_avcc(s)->Units_0).len() == units_total_len(parse_avcc(s)->Units_0),
{
    lemma_annexb_len(parse_avcc(s)->Units_0);
}

/// No start code occurs anywhere inside the unit.
pub open spec fn start_code_free(unit: Seq<u8>) -> bool {
    forall|j: int|
        0 <= j && j + 4 <= unit.len() ==> (#[trigger] unit.subrange(j, j + 4)) != start_code()
}

pub open spec fn all_start_code_free(units: Seq<Seq<u8>>) -> bool {
    forall|i: int| 0 <= i < units.len() ==> start_code_free(#[trigger] units[i])
}

proof fn lemma_annexb_first_unit(units: Seq<Seq<u8>>)
    requires
        units.len() > 0,
    ensures
        annexb(units).len() == 4 + units[0].len() + annexb(units.drop_first()).len(),
        forall|k: int| 0 <= k < 4 ==> annexb(units)[k] == start_code()[k],
        forall|k: int| 0 <= k < units[0].len() ==> annexb(units)[4 + k] == units[0][k],
        forall|k: int|
            0 <= k < annexb(units.drop_first()).len() ==> annexb(units)[4 + units[0].len() + k]
                == annexb(units.drop_first())[k],
{
    let a = units[0];
    let rest = annexb(units.drop_first());
    assert(annexb(units) == start_code() + a + rest);
    assert forall|k: int| 0 <= k < 4 implies annexb(units)[k] == start_code()[k] by {
        assert((start_code() + a + rest)[k] == (start_code() + a)[k]);
        assert((start_code() + a)[k] == start_code()[k]);
    }
    assert forall|k: int| 0 <= k < a.len() implies annexb(units)[4 + k] == a[k] by {
        assert((start_code() + a + rest)[4 + k] == (start_code() + a)[4 + k]);
        assert((start_code() + a)[4 + k] == a[k]);
    }
    assert forall|k: int| 0 <= k < rest.len() implies annexb(units)[4 + a.len() + k] == rest[k] by {
        assert((start_code() + a + rest)[4 + a.len() + k] == rest[k]);
    }
}

proof fn lemma_annexb_min_len(units: Seq<Seq<u8>>)
    requires
        units.len() > 0,
    ensures
        annexb(units).len() == 4 + units[0].len() + annexb(units.drop_first()).len(),
        units.drop_first().len() > 0 ==> annexb(units).len() >= 8 + units[0].len(),
        units.drop_first().len() == 0 ==> annexb(units).len() == 4 + units[0].len(),
{
    let r = units.drop_first();
    if r.len() > 0 {
        assert(annexb(r) == start_code() + r[0] + annexb(r.drop_first()));
    }
}

proof fn lemma_rest_byte(units: Seq<Seq<u8>>, k: int)
    requires
        units.len() > 0,
        units.drop_first().len() > 0,
        0 <= k < 4,
    ensures
        annexb(units)[4 + units[0].len() + k] == start_code()[k],
{
    lemma_annexb_first_unit(units);
    lemma_annexb_first_unit(units.drop_first());
    assert(annexb(units)[4 + units[0].len() + k] == annexb(units.drop_first())[k]);
}

proof fn lemma_sc_inside_second(u1: Seq<Seq<u8>>, u2: Seq<Seq<u8>>)
    requires
        u1.len() > 0,
        u2.len() > 0,
        u1.drop_first().len() > 0,
        u1[0].len() + 4 <= u2[0].len(),
        annexb(u1) == annexb(u2),
    ensures
        u2[0].subrange(u1[0].len() as int, u1[0].len() as int + 4) == start_code(),
{
    let a = u1[0];
    let b = u2[0];
    lemma_annexb_first_unit(u2);
    assert(b.subrange(a.len() as int, a.len() as int + 4) =~= start_code()) by {
        assert forall|k: int|
            0 <= k < 4 implies b.subrange(a.len() as int, a.len() as int + 4)[k]
            == start_code()[k] by {
            lemma_rest_byte(u1, k);
            assert(annexb(u2)[4 + (a.len() + k)] == b[a.len() + k]);
        }
    }
}

#[verifier::rlimit(100)]
proof fn lemma_annexb_first_len_ge(u1: Seq<Seq<u8>>, u2: Seq<Seq<u8>>)
    requires
        u1.len() > 0,
        u2.len() > 0,
        all_start_code_free(u2),
        annexb(u1) == annexb(u2),
    ensures
        u1[0].len() >= u2[0].len(),
{
    if u1[0].len() < u2[0].len() {
        let a = u1[0];
        let b = u2[0];
        let r1 = u1.drop_first();
        let r2 = u2.drop_first();
        let out = annexb(u1);
        let d = b.len() - a.len();
        lemma_annexb_min_len(u1);
        lemma_annexb_min_len(u2);
        if r1.len() == 0 {
            assert(out.len() == 4 + a.len());
            assert(out.len() >= 4 + b.len());
        } else if d >= 4 {
            lemma_sc_inside_second(u1, u2);
            assert(start_code_free(b));
        } else {
            let q = 4 + a.len() as int + 3;
            lemma_rest_byte(u1, 3);
            assert(out[q] == start_code()[3]);
            assert(start_code()[3] == 1u8);
            if r2.len() == 0 {
                assert(out.len() == 4 + b.len());
                assert(out.len() >= 8 + a.len());
            } else {
                let k = q - 4 - b.len();
                assert(0 <= k < 3);
                lemma_rest_byte(u2, k);
                assert(out[4 + b.len() + k] == start_code()[k]);
                assert(start_code()[k] == 0u8);
            }
        }
    }
}

/// Law: the start-code-delimited image is injective over unit sequences whose
/// units never contain a start code themselves.
pub proof fn lemma_annexb_injective(u1: Seq<Seq<u8>>, u2: Seq<Seq<u8>>)
    requires
        all_start_code_free(u1),
        all_start_code_free(u2),
        annexb(u1) == annexb(u2),
    ensures
        u1 == u2,
    decreases u1.len(),
{
    if u1.len() == 0 && u2.len() == 0 {
        assert(u1 =~= u2);
    } else if u1.len() == 0 {
        lemma_annexb_first_unit(u2);
        assert(annexb(u1).len() == 0);
    } else if u2.len() == 0 {
        lemma_annexb_first_unit(u1);
        assert(annexb(u2).len() == 0);
    } else {
        lemma_annexb_first_unit(u1);
        lemma_annexb_first_unit(u2);
        let a = u1[0];
        let b = u2[0];
        let r1 = u1.drop_first();
        let r2 = u2.drop_first();
        let out = annexb(u1);
        if a.len() == b.len() {
            assert(a =~= b) by {
                assert forall|k: int| 0 <= k < a.len() implies a[k] == b[k] by {
                    assert(out[4 + k] == a[k]);
                    assert(out[4 + k] == b[k]);
                }
            }
            assert(annexb(r1) =~= annexb(r2)) by {
                assert(annexb(r1).len() == annexb(r2).len());
                assert forall|k: int| 0 <= k < annexb(r1).len() implies annexb(r1)[k] == annexb(
                    r2,
                )[k] by {
                    assert(out[4 + a.len() + k] == annexb(r1)[k]);
                    assert(out[4 + b.len() + k] == annexb(r2)[k]);
                }
            }
            assert(all_start_code_free(r1)) by {
                assert forall|i: int| 0 <= i < r1.len() implies start_code_free(#[trigger] r1[i]) by {
                    assert(r1[i] == u1[i + 1]);
                }
            }
            assert(all_start_code_free(r2)) by {
                assert forall|i: int| 0 <= i < r2.len() implies start_code_free(#[trigger] r2[i]) by {
                    assert(r2[i] == u2[i + 1]);
                }
            }
            lemma_annexb_injective(r1, r2);
            assert(u1 =~= u2) by {
                assert forall|i: int| 0 <= i < u1.len() implies u1[i] == u2[i] by {
                    if i > 0 {
                        assert(u1[i] == r1[i - 1]);
                        assert(u2[i] == r2[i - 1]);
                    }
                }
            }
        } else {
            lemma_annexb_first_len_ge(u1, u2);
            lemma_annexb_first_len_ge(u2, u1);
        }
    }
}

/// Law: an input that parses as length-prefixed units is uniquely determined
/// by those units: two inputs that parse to the same units are the same
/// bytes.
pub proof fn lemma_parse_unique_source(s1: Seq<u8>, s2: Seq<u8>)
    requires
        parse_avcc(s1) is Units,
        parse_avcc(s2) is Units,
        parse_avcc(s1) == parse_avcc(s2),
    ensures
        s1 == s2,
    decreases s1.len(),
{
    let u = parse_avcc(s1)->Units_0;
    if s1.len() == 0 && s2.len() == 0 {
        assert(s1 =~= s2);
    } else if s1.len() == 0 {
        let n2 = be32(s2[0], s2[1], s2[2], s2[3]);
        let inner2 = parse_avcc(s2.subrange(4 + n2, s2.len() as int));
        assert(u == seq![s2.subrange(4, 4 + n2)] + inner2->Units_0);
        assert(u.len() >= 1);
        assert(u.len() == 0);
    } else if s2.len() == 0 {
        let n1 = be32(s1[0], s1[1], s1[2], s1[3]);
        let inner1 = parse_avcc(s1.subrange(4 + n1, s1.len() as int));
        assert(u == seq![s1.subrange(4, 4 + n1)] + inner1->Units_0);
        assert(u.len() >= 1);
        assert(u.len() == 0);
    } else {
        assert(s1.len() >= 4 && s2.len() >= 4);
        let n1 = be32(s1[0], s1[1], s1[2], s1[3]);
        let n2 = be32(s2[0], s2[1], s2[2], s2[3]);
        assert(4 + n1 <= s1.len() && 4 + n2 <= s2.len());
        let t1 = s1.subrange(4 + n1, s1.len() as int);
        let t2 = s2.subrange(4 + n2, s2.len() as int);
        assert(parse_avcc(t1) is Units && parse_avcc(t2) is Units);
        assert(u == seq![s1.subrange(4, 4 + n1)] + parse_avcc(t1)->Units_0);
        assert(u == seq![s2.subrange(4, 4 + n2)] + parse_avcc(t2)->Units_0);
        assert(u[0] == s1.subrange(4, 4 + n1));
        assert(u[0] == s2.subrange(4, 4 + n2));
        assert(n1 == u[0].len() && n2 == u[0].len());
        assert(s1[0] == s2[0] && s1[1] == s2[1] && s1[2] == s2[2] && s1[3] == s2[3]);
        assert(parse_avcc(t1)->Units_0 =~= u.drop_first());
        assert(parse_avcc(t2)->Units_0 =~= u.drop_first());
        assert(parse_avcc(t1) == parse_avcc(t2));
        lemma_parse_unique_source(t1, t2);
        assert(s1.len() == s2.len());
        assert forall|i: int| 0 <= i < s1.len() implies s1[i] == s2[i] by {
            if 4 <= i < 4 + n1 {
                assert(s1.subrange(4, 4 + n1)[i - 4] == s1[i]);
                assert(s2.subrange(4, 4 + n2)[i - 4] == s2[i]);
            } else if i >= 4 + n1 {
                assert(t1[i - 4 - n1] == s1[i]);
                assert(t2[i - 4 - n1] == s2[i]);
            }
        }
        assert(s1 =~= s2);
    }
}

/// Law: reformatting is injective for well-formed inputs whose units do not
/// themselves contain a start code: two such inputs with identical
/// reformatted output are identical. (Without that proviso two distinct
/// inputs can collide: one unit that holds a start code reformats to the same
/// bytes as the same payload split into two units at it.)
pub proof fn lemma_reformat_injective(s1: Seq<u8>, s2: Seq<u8>)
    requires
        parse_avcc(s1) is Units,
        parse_avcc(s2) is Units,
        all_start_code_free(parse_avcc(s1)->Units_0),
        all_start_code_free(parse_avcc(s2)->Units_0),
        annexb(parse_avcc(s1)->Units_0) == annexb(parse_avcc(s2)->Units_0),
    ensures
        s1 == s2,
{
    lemma_annexb_injective(parse_avcc(s1)->Units_0, parse_avcc(s2)->Units_0);
    lemma_parse_unique_source(s1, s2);
}

/// Reformats `data`, read as length-prefixed units, into `buf` in the
/// start-code-delimited layout, replacing whatever `buf` held. On a malformed
/// input the matching error is returned and no output is promised.
pub(crate) fn reformat_into(data: &[u8], buf: &mut Vec<u8>) -> (r: Result<(), DecoderError>)
    ensures
        match parse_avcc(data@) {
            AvccParse::Units(us) => r is Ok && final(buf)@ == annexb(us),
            AvccParse::FieldErr => r == Err::<(), DecoderError>(DecoderError::FieldOutOfBounds),
            AvccParse::NalErr => r == Err::<(), DecoderError>(DecoderError::NalOutOfBounds),
        },
{
    buf.clear();
    let ghost mut gunits: Seq<Seq<u8>> = Seq::empty();
    proof {
        lemma_glue_empty(parse_avcc(data@));
        assert(data@.subrange(0, data@.len() as int) =~= data@);
    }
    let mut index: usize = 0;
    while index < data.len()
        invariant
            index <= data.len(),
            buf@ == annexb(gunits),
            parse_avcc(data@) == glue(
                gunits,
                parse_avcc(data@.subrange(index as int, data@.len() as int)),
            ),
        decreases data@.len() - index,
    {
        let rem = data.len() - index;
        if rem < 4 {
            return Err(DecoderError::FieldOutOfBounds);
        }
        let b0 = data[index];
        let b1 = data[index + 1];
        let b2 = data[index + 2];
        let b3 = data[index + 3];
        let n32: u32 = (b0 as u32) * 0x1000000 + (b1 as u32) * 0x10000 + (b2 as u32) * 0x100
            + (b3 as u32);
        let n = n32 as usize;
        proof {
            let suf = data@.subrange(index as int, data@.len() as int);
            assert(suf[0] == data@[index as int]);
            assert(suf[1] == data@[index as int + 1]);
            assert(suf[2] == data@[index as int + 2]);
            assert(suf[3] == data@[index as int + 3]);
        }
        if n > rem - 4 {
            return Err(DecoderError::NalOutOfBounds);
        }
        let ghost snap = buf@;
        buf.push(0u8);
        buf.push(0u8);
        buf.push(0u8);
        buf.push(1u8);
        assert(buf@ =~= snap + start_code());
        let end = index + 4 + n;
        let mut j = index + 4;
        while j < end
            invariant
                index + 4 <= j <= end,
                end == index + 4 + n,
                end <= data@.len(),
                buf@ == snap + start_code() + data@.subrange(index as int + 4, j as int),
            decreases end - j,
        {
            let byte = data[j];
            buf.push(byte);
            proof {
                assert(snap + start_code() + data@.subrange(index as int + 4, j as int + 1)
                    =~= (snap + start_code() + data@.subrange(index as int + 4, j as int)).push(
                    data@[j as int]));
            }
            j += 1;
        }
        proof {
            let unit = data@.subrange(index as int + 4, end as int);
            lemma_annexb_push(gunits, unit);
            assert(annexb(gunits) + start_code() + unit =~= snap + start_code() + unit);
            lemma_parse_step(data@, gunits, index as int, n as int);
            gunits = gunits.push(unit);
        }
        index = end;
    }
    proof {
        assert(data@.subrange(index as int, data@.len() as int) =~= Seq::<u8>::empty());
        assert(gunits + Seq::<Seq<u8>>::empty() =~= gunits);
    }
    Ok(())
}

/// The outcome of one decode call, with the output bytes as a sequence.
pub open spec fn out_of(r: Result<&[u8], DecoderError>) -> Result<Seq<u8>, DecoderError> {
    match r {
        Ok(b) => Ok(b@),
        Err(e) => Err(e),
    }
}

/// One stage of a decode chain: feeds one coded frame in and hands the
/// transformed bytes back, or an error local to this frame. Stages hold
/// mutable scratch state, so a stage is exclusively owned by its caller.
pub trait ImageDecoder: Send + Sync + Sized {
    /// What one call of this stage may do: how the outcome and the stage's
    /// state after the call relate to the state before and the input bytes.
    /// Stages that promise nothing leave this at its default.
    open spec fn stage_spec(
        pre: Self,
        post: Self,
        input: Seq<u8>,
        r: Result<Seq<u8>, DecoderError>,
    ) -> bool {
        true
    }

    fn decode(&mut self, data: &[u8]) -> (r: Result<&[u8], DecoderError>)
        ensures
            Self::stage_spec(*old(self), *final(self), data@, out_of(r)),
    ;
}

/// Reformatting stage from the length-prefixed unit layout to the
/// start-code-delimited one, usable at the front of a decode chain.
pub struct AVCCDecoder {
    buf: Vec<u8>,
}

impl AVCCDecoder {
    /// The scratch buffer left behind by the last call.
    pub closed spec fn scratch(&self) -> Seq<u8> {
        self.buf@
    }

    pub fn new() -> (r: Self)
        ensures
            r.scratch() == Seq::<u8>::empty(),
    {
        Self { buf: Vec::new() }
    }
}

impl ImageDecoder for AVCCDecoder {
    /// Reformatting pins the outcome completely: the start-code-delimited
    /// image of the units on a well-formed input, else the matching error.
    open spec fn stage_spec(
        pre: Self,
        post: Self,
        input: Seq<u8>,
        r: Result<Seq<u8>, DecoderError>,
    ) -> bool {
        match parse_avcc(input) {
            AvccParse::Units(us) => r == Ok::<Seq<u8>, DecoderError>(annexb(us)),
            AvccParse::FieldErr => r == Err::<Seq<u8>, DecoderError>(
                DecoderError::FieldOutOfBounds,
            ),
            AvccParse::NalErr => r == Err::<Seq<u8>, DecoderError>(DecoderError::NalOutOfBounds),
        }
    }

    /// Reformats `data`, read as length-prefixed units, into the
    /// start-code-delimited layout; a truncated length prefix yields
    /// `FieldOutOfBounds`, a unit length that overruns the input yields
    /// `NalOutOfBounds`, and no output is returned on failure.
    fn decode(&mut self, data: &[u8]) -> (r: Result<&[u8], DecoderError>) {
        reformat_into(data, &mut self.buf)?;
        Ok(self.buf.as_slice())
    }
}

/// Relies on openh264's Decoder::with_api_config with the library's own code
/// as the backend: builds a fresh stateful single-frame decoder; fails only
/// when the backend cannot be initialised.
#[verifier::external_body]
fn new_raw_decoder(dbg: bool) -> (r: Result<Decoder, openh264::Error>) {
    Decoder::with_api_config(OpenH264API::from_source(), DecoderConfig::new().debug(dbg))
}

/// Relies on openh264's Decoder::decode (feeds one start-code-delimited frame
/// to the stateful decoder; `None` means the decoder buffered the input and
/// has no picture yet), and on DecodedYUV::rgb8_len and DecodedYUV::write_rgb8
/// (fill a buffer of exactly `rgb8_len` bytes with the interleaved image; the
/// decoder always hands out the planar format these expect). The picture
/// depends on every frame fed in since the decoder was created, so nothing is
/// promised of the bytes written.
#[verifier::external_body]
fn decode_rgb(dec: &mut Decoder, data: &[u8], buf: &mut Vec<u8>) -> (r: Result<
    bool,
    openh264::Error,
>)
    ensures
        !(r matches Ok(true)) ==> final(buf)@ == old(buf)@,
{
    match dec.decode(data) {
        Err(e) => Err(e),
        Ok(None) => Ok(false),
        Ok(Some(yuv)) => {
            buf.resize(yuv.rgb8_len(), 0u8);
            yuv.write_rgb8(buf.as_mut_slice());
            Ok(true)
        },
    }
}

/// Decode stage that turns one start-code-delimited coded frame into an
/// interleaved pixel buffer through the external single-frame decoder. The
/// decoder keeps inter-frame state, so frames must be fed in stream order.
pub struct H264RGBDecoder {
    inner: Decoder,
    buf: Vec<u8>,
}

impl H264RGBDecoder {
    /// `image_size` only sizes the initial pixel buffer; on each decoded
    /// picture the buffer is resized to the picture's true dimensions, so a
    /// stream of another size is converted correctly rather than rejected.
    pub fn new(dbg: bool, image_size: (usize, usize)) -> (r: Result<Self, DecoderError>)
        requires
            image_size.0 * image_size.1 * 3 <= usize::MAX,
        ensures
            r matches Err(e) ==> e matches DecoderError::InitFail(_),
    {
        let decoder = match new_raw_decoder(dbg) {
            Ok(d) => d,
            Err(e) => {
                return Err(DecoderError::InitFail(e));
            },
        };
        let buf = vec![0u8; image_size.0 * image_size.1 * 3];
        Ok(Self { inner: decoder, buf })
    }
}

impl ImageDecoder for H264RGBDecoder {
    /// The external decoder decides the picture, so only the error taxonomy
    /// can be promised.
    open spec fn stage_spec(
        pre: Self,
        post: Self,
        input: Seq<u8>,
        r: Result<Seq<u8>, DecoderError>,
    ) -> bool {
        r matches Err(e) ==> (e matches DecoderError::DecodeFail(_) || e
            == DecoderError::NoImageDecoded)
    }

    /// Feeds one frame to the external decoder. `NoImageDecoded` reports that
    /// the decoder buffered the input and has no picture yet, a retryable
    /// empty result; `DecodeFail` reports a corrupted bitstream.
    fn decode(&mut self, data: &[u8]) -> (r: Result<&[u8], DecoderError>) {
        match decode_rgb(&mut self.inner, data, &mut self.buf) {
            Err(e) => Err(DecoderError::DecodeFail(e)),
            Ok(false) => Err(DecoderError::NoImageDecoded),
            Ok(true) => Ok(self.buf.as_slice()),
        }
    }
}

/// Two decode stages run one after the other: the left stage's output is fed
/// to the right stage; a failure of either stage aborts the whole chain with
/// that stage's error, unchanged. The composite keeps its own scratch buffer
/// for the combined output.
pub struct ChainedDecoder<A: ImageDecoder, B: ImageDecoder> {
    a: A,
    b: B,
    buf: Vec<u8>,
}

impl<A: ImageDecoder, B: ImageDecoder> ChainedDecoder<A, B> {
    /// The two stages, left first.
    pub closed spec fn parts(self) -> (A, B) {
        (self.a, self.b)
    }
}

impl<A: ImageDecoder, B: ImageDecoder> ImageDecoder for ChainedDecoder<A, B> {
    /// The composition law: a successful outcome is the right stage's output
    /// on the left stage's output on the input; a failing left stage aborts
    /// the chain with its error, unchanged, before the right stage runs, and
    /// a failing right stage's error comes out unchanged too.
    open spec fn stage_spec(
        pre: Self,
        post: Self,
        input: Seq<u8>,
        r: Result<Seq<u8>, DecoderError>,
    ) -> bool {
        match r {
            Ok(out) => exists|mid: Seq<u8>|
                (#[trigger] A::stage_spec(pre.parts().0, post.parts().0, input, Ok(mid)))
                    && B::stage_spec(pre.parts().1, post.parts().1, mid, Ok(out)),
            Err(e) => (A::stage_spec(pre.parts().0, post.parts().0, input, Err(e))
                && post.parts().1 == pre.parts().1) || (exists|mid: Seq<u8>|
                (#[trigger] A::stage_spec(pre.parts().0, post.parts().0, input, Ok(mid)))
                    && B::stage_spec(pre.parts().1, post.parts().1, mid, Err(e))),
        }
    }

    /// Runs the left stage, then feeds its output to the right stage.
    fn decode(&mut self, data: &[u8]) -> (r: Result<&[u8], DecoderError>) {
        let r1 = self.a.decode(data);
        let mid = match r1 {
            Ok(m) => m,
            Err(e) => {
                return Err(e);
            },
        };
        let ghost mid_seq = mid@;
        let r2 = self.b.decode(mid);
        let out_vec = match r2 {
            Ok(o) => vstd::slice::slice_to_vec(o),
            Err(e) => {
                proof {
                    assert(A::stage_spec(
                        old(self).a,
                        self.a,
                        data@,
                        Ok::<Seq<u8>, DecoderError>(mid_seq),
                    ));
                    assert(B::stage_spec(
                        old(self).b,
                        self.b,
                        mid_seq,
                        Err::<Seq<u8>, DecoderError>(e),
                    ));
                }
                return Err(e);
            },
        };
        self.buf = out_vec;
        proof {
            assert(old(self).parts() == (old(self).a, old(self).b));
            assert(self.parts() == (self.a, self.b));
            assert(A::stage_spec(
                old(self).parts().0,
                self.parts().0,
                data@,
                Ok::<Seq<u8>, DecoderError>(mid_seq),
            ));
            assert(B::stage_spec(
                old(self).parts().1,
                self.parts().1,
                mid_seq,
                Ok::<Seq<u8>, DecoderError>(self.buf@),
            ));
        }
        Ok(self.buf.as_slice())
    }
}

/// Builder step that appends one more stage behind an existing decode chain.
pub trait Chain<T: ImageDecoder>: ImageDecoder + Sized {
    fn chain(self, other: T) -> (r: ChainedDecoder<Self, T>)
        ensures
            r.parts() == (self, other),
    ;
}

impl<T: ImageDecoder> Chain<T> for H264RGBDecoder {
    fn chain(self, other: T) -> (r: ChainedDecoder<Self, T>) {
        ChainedDecoder { a: self, b: other, buf: Vec::new() }
    }
}

impl<T: ImageDecoder> Chain<T> for AVCCDecoder {
    fn chain(self, other: T) -> (r: ChainedDecoder<Self, T>) {
        ChainedDecoder { a: self, b: other, buf: Vec::new() }
    }
}

impl<T: ImageDecoder, A: ImageDecoder, B: ImageDecoder> Chain<T> for ChainedDecoder<A, B> {
    fn chain(self, other: T) -> (r: ChainedDecoder<Self, T>) {
        ChainedDecoder { a: self, b: other, buf: Vec::new() }
    }
}

} // verus!
