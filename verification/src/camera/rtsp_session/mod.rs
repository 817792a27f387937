pub mod utils;

use vstd::prelude::*;
use vstd::string::StringExecFns;

use crate::decoders::{DecoderError, ImageDecoder};
use url::Url;

verus! {

#[verifier::external_type_specification]
#[verifier::external_body]
pub struct ExRetinaError(retina::Error);

/// Everything that can go wrong between a caller and the live session.
#[derive(Debug)]
pub enum SessionError {
    UrlParseError,
    UnsetParameter(String),
    ServerDropped,
    BrokenPipeline,
    UnableToSubscribe(String),
    DecodingError(DecoderError),
    OldFrame,
    FailedToDescribeSession(retina::Error),
    NoVideoStreamFound,
    FailedToSetupStream(retina::Error),
    FailedToPlayStream(retina::Error),
    FailedToDemuxStream(retina::Error),
}

/// Age of an anchor timestamp at instant `now`, both in milliseconds of a
/// monotonic clock; an anchor from the future counts as fresh.
pub open spec fn age_of(anchor: u64, now: u64) -> u64 {
    if now >= anchor {
        (now - anchor) as u64
    } else {
        0u64
    }
}

/// The per-epoch frame cache: every coded frame received since the last key
/// frame (the key frame itself at index 0), a parallel memo of frames already
/// decoded, and the ingestion instant of the key frame, in milliseconds of a
/// monotonic clock.
#[derive(Clone)]
pub struct FrameHolder {
    raw_frames: Vec<Vec<u8>>,
    ts: u64,
    decoded_frames: Vec<Vec<u8>>,
}

impl FrameHolder {
    /// The coded frames of the current epoch, in arrival order.
    pub closed spec fn coded(&self) -> Seq<Seq<u8>> {
        self.raw_frames.deep_view()
    }

    /// The decoded outputs memoized so far; always a prefix of the positions
    /// of `coded`, populated strictly left to right.
    pub closed spec fn decoded(&self) -> Seq<Seq<u8>> {
        self.decoded_frames.deep_view()
    }

    /// Ingestion instant of the current key frame.
    pub closed spec fn anchor(&self) -> u64 {
        self.ts
    }

    /// The decoded memo never outruns the coded frames.
    pub open spec fn wf(&self) -> bool {
        self.decoded().len() <= self.coded().len()
    }

    pub fn new(now: u64) -> (r: Self)
        ensures
            r.coded().len() == 0,
            r.decoded().len() == 0,
            r.anchor() == now,
            r.wf(),
    {
        Self { raw_frames: Vec::new(), ts: now, decoded_frames: Vec::new() }
    }

    /// Starts a new epoch: both sequences are cleared, the anchor moves to
    /// `now`, and the key frame becomes the only coded entry.
    pub fn set_iframe(&mut self, iframe: Vec<u8>, now: u64)
        ensures
            final(self).coded() =~= seq![iframe@],
            final(self).decoded().len() == 0,
            final(self).anchor() == now,
            final(self).wf(),
    {
        self.raw_frames.clear();
        self.decoded_frames.clear();
        self.ts = now;
        self.raw_frames.push(iframe);
        proof {
            assert(self.coded() =~~= seq![iframe@]);
        }
    }

    /// Appends one more coded frame to the current epoch, only while the
    /// epoch holds fewer than `cap` coded frames; beyond the cap the call is
    /// a no-op (the newest excess is dropped, never what is already held).
    /// The memo and the anchor are untouched either way, and the coded length
    /// never exceeds the cap.
    pub fn add_image(&mut self, data: Vec<u8>, cap: usize)
        ensures
            old(self).coded().len() < cap ==> final(self).coded() =~= old(self).coded().push(
                data@,
            ),
            old(self).coded().len() >= cap ==> *final(self) == *old(self),
            final(self).decoded() == old(self).decoded(),
            final(self).anchor() == old(self).anchor(),
            old(self).coded().len() <= cap ==> final(self).coded().len() <= cap,
            old(self).wf() ==> final(self).wf(),
    {
        if self.raw_frames.len() >= cap {
            return ;
        }
        self.raw_frames.push(data);
        proof {
            assert(self.coded() =~~= old(self).coded().push(data@));
        }
    }

    /// Empties the cache: no epoch is current afterwards, and the anchor
    /// moves to `now`.
    pub fn drain(&mut self, now: u64)
        ensures
            final(self).coded().len() == 0,
            final(self).decoded().len() == 0,
            final(self).anchor() == now,
            final(self).wf(),
    {
        self.raw_frames.clear();
        self.decoded_frames.clear();
        self.ts = now;
    }

    pub fn is_empty(&self) -> (r: bool)
        ensures
            r == (self.coded().len() == 0),
    {
        self.raw_frames.is_empty()
    }

    pub fn raw_len(&self) -> (r: usize)
        ensures
            r == self.coded().len(),
    {
        self.raw_frames.len()
    }

    /// Milliseconds elapsed since the current anchor, at instant `now` of the
    /// same monotonic clock.
    pub fn elapsed(&self, now: u64) -> (r: u64)
        ensures
            r == age_of(self.anchor(), now),
    {
        if now >= self.ts {
            now - self.ts
        } else {
            0
        }
    }

    pub fn get_ts(&self) -> (r: u64)
        ensures
            r == self.anchor(),
    {
        self.ts
    }

    /// Decode-on-demand through `index`: already-memoized slots are returned
    /// as they are; otherwise every slot up to `index` is decoded in order,
    /// left to right, each through one `decoder` call on the matching coded
    /// frame, and memoized. A slot is thus only ever populated after every
    /// slot before it, and each slot is decoded at most once per epoch.
    pub fn decode<D: ImageDecoder>(&mut self, decoder: &mut D, index: usize) -> (r: Result<
        &[u8],
        DecoderError,
    >)
        requires
            old(self).wf(),
        ensures
            final(self).wf(),
            final(self).coded() == old(self).coded(),
            final(self).anchor() == old(self).anchor(),
            final(self).decoded().len() >= old(self).decoded().len(),
            forall|i: int|
                0 <= i < old(self).decoded().len() ==> final(self).decoded()[i] == old(
                    self,
                ).decoded()[i],
            index >= old(self).coded().len() ==> (r matches Err(e) && e
                == DecoderError::IndexOutOfBounds && final(self).decoded() == old(self).decoded()),
            r matches Ok(out) ==> {
                &&& index < old(self).coded().len()
                &&& final(self).decoded().len() == if old(self).decoded().len() > index {
                    old(self).decoded().len() as int
                } else {
                    (index + 1) as int
                }
                &&& out@ == final(self).decoded()[index as int]
            },
            r is Err && index < old(self).coded().len() ==> final(self).decoded().len() <= index,
        decreases index,
    {
        if index >= self.raw_frames.len() {
            return Err(DecoderError::IndexOutOfBounds);
        }
        if self.decoded_frames.len() < index {
            self.decode(decoder, index - 1)?;
        }
        if index < self.decoded_frames.len() {
            return Ok(self.decoded_frames[index].as_slice());
        }
        let ghost pre = *self;
        let data = decoder.decode(self.raw_frames[index].as_slice());
        let decoded = match data {
            Ok(d) => vstd::slice::slice_to_vec(d),
            Err(e) => {
                return Err(e);
            },
        };
        self.decoded_frames.push(decoded);
        proof {
            assert(self.decoded() =~~= pre.decoded().push(self.decoded_frames@.last()@));
        }
        Ok(self.decoded_frames[index].as_slice())
    }
}

/// A caller's wish for one frame of the current epoch: index 0 is the key
/// frame, index N the N-th delta frame since it. The reply channel is
/// attached by the transport layer when the request is sent.
#[derive(Debug)]
pub struct FrameRequest {
    buf_index: usize,
}

impl FrameRequest {
    /// The requested slot.
    pub closed spec fn index(&self) -> usize {
        self.buf_index
    }

    pub fn new(index: usize) -> (r: Self)
        ensures
            r.index() == index,
    {
        Self { buf_index: index }
    }

    pub fn buf_index(&self) -> (r: usize)
        ensures
            r == self.index(),
    {
        self.buf_index
    }
}

/// The answer to a frame request: the decoded bytes, and the ingestion
/// instant of the key frame anchoring the epoch they belong to, so the caller
/// can tell when the anchor rolled over between request and response.
#[derive(Debug)]
pub struct FrameResponse {
    pub frame: Vec<u8>,
    pub i_frame_ts: u64,
}

/// Required session parameters: the cap on coded frames kept per epoch, and
/// the age in milliseconds past which an epoch counts as stale.
pub struct SessionConfig {
    pub buf_size: usize,
    pub frame_lifetime: u64,
}

/// The state owned by the live-session actor: the address of the remote
/// camera, the per-epoch frame cache, the decode chain, and the configured
/// limits. All mutation of the cache funnels through the step functions
/// below, which the actor's event loop calls one at a time.
pub struct SessionWrapper<D: ImageDecoder> {
    camera_url: Url,
    frame_holder: FrameHolder,
    decoder: D,
    cfg: SessionConfig,
}

impl<D: ImageDecoder> SessionWrapper<D> {
    /// The frame cache.
    pub closed spec fn holder(&self) -> FrameHolder {
        self.frame_holder
    }

    /// The remote camera's address.
    pub closed spec fn url(&self) -> Url {
        self.camera_url
    }

    /// Cap on coded frames kept per epoch.
    pub closed spec fn buf_size(&self) -> usize {
        self.cfg.buf_size
    }

    /// Age in milliseconds past which an epoch counts as stale.
    pub closed spec fn frame_lifetime(&self) -> u64 {
        self.cfg.frame_lifetime
    }

    /// The cache is well formed, and whenever a cap is configured the epoch
    /// respects it.
    pub open spec fn wf(&self) -> bool {
        &&& self.holder().wf()
        &&& self.buf_size() >= 1 ==> self.holder().coded().len() <= self.buf_size()
    }

    pub fn new(camera_url: Url, decoder: D, cfg: SessionConfig, now: u64) -> (r: Self)
        ensures
            r.holder().coded().len() == 0,
            r.holder().decoded().len() == 0,
            r.holder().anchor() == now,
            r.buf_size() == cfg.buf_size,
            r.frame_lifetime() == cfg.frame_lifetime,
            r.url() == camera_url,
            r.wf(),
    {
        Self { camera_url, frame_holder: FrameHolder::new(now), decoder, cfg }
    }

    pub fn camera_url(&self) -> (r: &Url)
        ensures
            *r == self.url(),
    {
        &self.camera_url
    }

    /// Whether no epoch is open; the event loop only takes frame requests
    /// when this is false.
    pub fn buffer_is_empty(&self) -> (r: bool)
        ensures
            r == (self.holder().coded().len() == 0),
    {
        self.frame_holder.is_empty()
    }

    /// One serving-loop step for a frame request. An epoch older than the
    /// configured lifetime is drained and reported as `OldFrame`, which tells
    /// the caller to force a new key frame out-of-band; afterwards no request
    /// can be served against the stale data, since the cache is empty (the
    /// drain also resets the anchor, so a request that itself comes more than
    /// a lifetime after the drain reports `OldFrame` once more rather than an
    /// index error). Otherwise the requested slot is decoded through
    /// (memoized, strictly in index order) and returned with the epoch's
    /// anchor timestamp; a slot that is already memoized is owed: it is
    /// served without any decoder involvement.
    pub fn handle_frame_request(&mut self, index: usize, now: u64) -> (r: Result<
        FrameResponse,
        SessionError,
    >)
        requires
            old(self).wf(),
        ensures
            final(self).wf(),
            final(self).url() == old(self).url(),
            final(self).buf_size() == old(self).buf_size(),
            final(self).frame_lifetime() == old(self).frame_lifetime(),
            age_of(old(self).holder().anchor(), now) > old(self).frame_lifetime() ==> {
                &&& r == Err::<FrameResponse, SessionError>(SessionError::OldFrame)
                &&& final(self).holder().coded().len() == 0
                &&& final(self).holder().decoded().len() == 0
                &&& final(self).holder().anchor() == now
            },
            age_of(old(self).holder().anchor(), now) <= old(self).frame_lifetime() ==> {
                &&& final(self).holder().coded() == old(self).holder().coded()
                &&& final(self).holder().anchor() == old(self).holder().anchor()
                &&& final(self).holder().decoded().len() >= old(self).holder().decoded().len()
                &&& forall|i: int|
                    0 <= i < old(self).holder().decoded().len() ==> final(self).holder().decoded()[i]
                        == old(self).holder().decoded()[i]
                &&& (index >= old(self).holder().coded().len() ==> r == Err::<
                    FrameResponse,
                    SessionError,
                >(SessionError::DecodingError(DecoderError::IndexOutOfBounds)))
                &&& (index < old(self).holder().decoded().len() ==> r is Ok)
                &&& (r matches Ok(resp) ==> {
                    &&& index < old(self).holder().coded().len()
                    &&& final(self).holder().decoded().len() == if old(
                        self,
                    ).holder().decoded().len() > index {
                        old(self).holder().decoded().len() as int
                    } else {
                        (index + 1) as int
                    }
                    &&& resp.frame@ == final(self).holder().decoded()[index as int]
                    &&& resp.i_frame_ts == old(self).holder().anchor()
                })
                &&& (r is Err && index < old(self).holder().coded().len()
                    ==> final(self).holder().decoded().len() <= index)
                &&& (r matches Err(e) ==> e matches SessionError::DecodingError(_))
            },
    {
        if self.frame_holder.elapsed(now) > self.cfg.frame_lifetime {
            self.frame_holder.drain(now);
            return Err(SessionError::OldFrame);
        }
        let ts = self.frame_holder.get_ts();
        let res = self.frame_holder.decode(&mut self.decoder, index);
        match res {
            Ok(frame) => Ok(
                FrameResponse { frame: vstd::slice::slice_to_vec(frame), i_frame_ts: ts },
            ),
            Err(e) => Err(SessionError::DecodingError(e)),
        }
    }

    /// One serving-loop step for an incoming coded frame. A key frame starts
    /// a new epoch anchored at `now`; a delta frame is appended only when an
    /// epoch is open and the configured cap is not yet reached, and is
    /// silently dropped otherwise (newest excess goes, the key frame never
    /// does), so the epoch never grows past the cap.
    pub fn handle_video_frame(&mut self, data: Vec<u8>, is_key: bool, now: u64)
        requires
            old(self).wf(),
        ensures
            final(self).wf(),
            final(self).url() == old(self).url(),
            final(self).buf_size() == old(self).buf_size(),
            final(self).frame_lifetime() == old(self).frame_lifetime(),
            is_key ==> {
                &&& final(self).holder().coded() == seq![data@]
                &&& final(self).holder().decoded().len() == 0
                &&& final(self).holder().anchor() == now
            },
            !is_key && 0 < old(self).holder().coded().len() < old(self).buf_size() ==> {
                &&& final(self).holder().coded() == old(self).holder().coded().push(data@)
                &&& final(self).holder().decoded() == old(self).holder().decoded()
                &&& final(self).holder().anchor() == old(self).holder().anchor()
            },
            !is_key && (old(self).holder().coded().len() == 0 || old(self).holder().coded().len()
                >= old(self).buf_size()) ==> final(self).holder() == old(self).holder(),
            old(self).holder().coded().len() <= old(self).buf_size() && old(self).buf_size() >= 1
                ==> final(self).holder().coded().len() <= old(self).buf_size(),
    {
        if is_key {
            self.frame_holder.set_iframe(data, now);
            return ;
        }
        if self.frame_holder.is_empty() {
            return ;
        }
        self.frame_holder.add_image(data, self.cfg.buf_size);
    }
}

/// The bootstrap decision of the session actor: the sub-stream to set up is
/// the first one tagged as video; with none, the session fails permanently
/// with `NoVideoStreamFound`.
pub fn find_video_stream(medias: &Vec<String>) -> (r: Option<usize>)
    ensures
        match r {
            Some(i) => i < medias@.len() && medias@[i as int]@ == "video"@ && (forall|j: int|
                0 <= j < i ==> medias@[j]@ != "video"@),
            None => forall|j: int| 0 <= j < medias@.len() ==> medias@[j]@ != "video"@,
        },
{
    let target: String = String::from_str("video");
    let mut i: usize = 0;
    while i < medias.len()
        invariant
            i <= medias@.len(),
            target@ == "video"@,
            forall|j: int| 0 <= j < i ==> medias@[j]@ != "video"@,
        decreases medias@.len() - i,
    {
        if medias[i] == target {
            return Some(i);
        }
        i += 1;
    }
    None
}

} // verus!

