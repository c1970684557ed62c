use vstd::prelude::*;

use vstd::string::{StringExecFns, StringSliceAdditionalSpecFns};

use crate::address::{format_spec, Address};
use crate::frame::{
    decode_frame_spec, encode_frame_spec, lemma_frame_round_trip, Ax25Frame, CommandResponse,
    ContentModel, FrameContent, FrameDecodeError, FrameModel, ProtocolIdentifier,
};
use crate::kiss::{
    concat_chunks, kiss_encode, kiss_encode_spec, lemma_kiss_frame, lemma_run_concat,
    lemma_two_frames_any_chunks, run, run_chunks, DecoderState, KissDecoder,
};
use crate::text::{ascii_chars, ascii_to_string, utf8_or_empty, utf8_text};

verus! {

/// The KISS port that frames are sent on.
pub const DATA_PORT: u8 = 0;

/// Where a session stands.
#[derive(Clone, Copy, Debug, PartialEq, Eq)]
pub enum SessionState {
    Disconnected,
    Connecting,
    Open,
    Closed,
}

/// Why a frame was not sent.
#[derive(Clone, Copy, Debug, PartialEq, Eq)]
pub enum SendError {
    /// The session is not open.
    NotOpen,
    /// Writing to the transport failed.
    Transport,
}

/// A decode result as a value.
pub open spec fn result_view(r: Result<Ax25Frame, FrameDecodeError>) -> Result<
    FrameModel,
    FrameDecodeError,
> {
    match r {
        Ok(f) => Ok(f@),
        Err(e) => Err(e),
    }
}

/// Each recovered payload decoded as a frame, in order.
pub open spec fn decode_all(ps: Seq<Seq<u8>>) -> Seq<Result<FrameModel, FrameDecodeError>> {
    ps.map_values(|p: Seq<u8>| decode_frame_spec(p))
}

/// The decisions of a TNC session over a duplex byte stream: which state it
/// is in, what bytes to write for a frame, and which frames the bytes read
/// so far hold. The transport itself is driven by the caller.
#[derive(Debug)]
pub struct TncSession {
    state: SessionState,
    decoder: KissDecoder,
}

impl View for TncSession {
    type V = (SessionState, DecoderState);

    closed spec fn view(&self) -> (SessionState, DecoderState) {
        (self.state, self.decoder@)
    }
}

impl TncSession {
    /// A session with no transport yet.
    pub fn new() -> (r: TncSession)
        ensures
            r@ == (SessionState::Disconnected, DecoderState::Idle),
    {
        TncSession { state: SessionState::Disconnected, decoder: KissDecoder::new() }
    }

    pub fn state(&self) -> (r: SessionState)
        ensures
            r == self@.0,
    {
        self.state
    }

    /// Starts opening the transport. Only a disconnected session can; the
    /// result says whether this one did.
    pub fn begin_connect(&mut self) -> (r: bool)
        ensures
            r == (old(self)@.0 == SessionState::Disconnected),
            r ==> final(self)@ == (SessionState::Connecting, old(self)@.1),
            !r ==> final(self)@ == old(self)@,
    {
        match self.state {
            SessionState::Disconnected => {
                self.state = SessionState::Connecting;
                true
            },
            _ => false,
        }
    }

    /// The transport was opened (`opened`) or could not be. A connecting
    /// session becomes open, with a decoder waiting for its first delimiter,
    /// or falls back to disconnected; any other session is left as it is.
    pub fn connect_finished(&mut self, opened: bool)
        ensures
            old(self)@.0 == SessionState::Connecting && opened ==> final(self)@ == (
            SessionState::Open,
            DecoderState::Idle,
            ),
            old(self)@.0 == SessionState::Connecting && !opened ==> final(self)@ == (
            SessionState::Disconnected,
            old(self)@.1,
            ),
            old(self)@.0 != SessionState::Connecting ==> final(self)@ == old(self)@,
    {
        match self.state {
            SessionState::Connecting => {
                if opened {
                    self.state = SessionState::Open;
                    self.decoder = KissDecoder::new();
                } else {
                    self.state = SessionState::Disconnected;
                }
            },
            _ => {},
        }
    }

    /// The bytes to write to the transport for `frame`: its wire bytes in a
    /// KISS data frame on port 0. Fails with `NotOpen` unless the session is
    /// open.
    pub fn prepare_send(&self, frame: &Ax25Frame) -> (r: Result<Vec<u8>, SendError>)
        requires
            frame.wf(),
        ensures
            self@.0 == SessionState::Open ==> r is Ok && r->Ok_0@ == kiss_encode_spec(
                DATA_PORT,
                encode_frame_spec(frame@),
            ),
            self@.0 != SessionState::Open ==> r == Err::<Vec<u8>, SendError>(SendError::NotOpen),
    {
        match self.state {
            SessionState::Open => {
                let wire = frame.encode();
                Ok(kiss_encode(DATA_PORT, wire.as_slice()))
            },
            _ => Err(SendError::NotOpen),
        }
    }

    /// Takes bytes read from the transport and returns, in order, one decode
    /// result for each data frame that they complete. A frame that does not
    /// decode is reported as an error item and decoding goes on. A session
    /// that is not open ignores the bytes.
    pub fn receive(&mut self, chunk: &[u8]) -> (r: Vec<Result<Ax25Frame, FrameDecodeError>>)
        ensures
            old(self)@.0 == SessionState::Open ==> {
                &&& final(self)@ == (SessionState::Open, run(old(self)@.1, chunk@).0)
                &&& r@.map_values(|x: Result<Ax25Frame, FrameDecodeError>| result_view(x))
                    == decode_all(run(old(self)@.1, chunk@).1)
            },
            old(self)@.0 != SessionState::Open ==> final(self)@ == old(self)@ && r@.len() == 0,
    {
        let mut out: Vec<Result<Ax25Frame, FrameDecodeError>> = Vec::new();
        match self.state {
            SessionState::Open => {},
            _ => {
                return out;
            },
        }
        let payloads = self.decoder.feed(chunk);
        let ghost ps = payloads@.map_values(|p: Vec<u8>| p@);
        let mut i: usize = 0;
        while i < payloads.len()
            invariant
                ps == payloads@.map_values(|p: Vec<u8>| p@),
                0 <= i <= payloads@.len(),
                out@.len() == i,
                out@.map_values(|x: Result<Ax25Frame, FrameDecodeError>| result_view(x))
                    =~= decode_all(ps.subrange(0, i as int)),
            decreases payloads@.len() - i,
        {
            let ghost prev = out@;
            let d = Ax25Frame::decode(payloads[i].as_slice());
            out.push(d);
            proof {
                assert(ps[i as int] == payloads@[i as int]@);
                assert(out@ == prev.push(d));
                assert(ps.subrange(0, i + 1) =~= ps.subrange(0, i as int).push(ps[i as int]));
                assert(result_view(d) == decode_frame_spec(ps[i as int]));
                let mv = out@.map_values(|x: Result<Ax25Frame, FrameDecodeError>| result_view(x));
                let pv = prev.map_values(|x: Result<Ax25Frame, FrameDecodeError>| result_view(x));
                assert forall|j: int| 0 <= j < i implies mv[j] == pv[j] by {
                    assert(out@[j] == prev[j]);
                }
                assert(mv.len() == i + 1);
                assert(mv[i as int] == result_view(d));
                assert(out@.map_values(|x: Result<Ax25Frame, FrameDecodeError>| result_view(x))
                    =~= decode_all(ps.subrange(0, i + 1)));
            }
            i = i + 1;
        }
        assert(ps.subrange(0, i as int) =~= ps);
        out
    }

    /// The transport was closed or failed: an open session is closed.
    pub fn transport_closed(&mut self)
        ensures
            old(self)@.0 == SessionState::Open ==> final(self)@ == (
            SessionState::Closed,
            old(self)@.1,
            ),
            old(self)@.0 != SessionState::Open ==> final(self)@ == old(self)@,
    {
        match self.state {
            SessionState::Open => {
                self.state = SessionState::Closed;
            },
            _ => {},
        }
    }

    /// Ends the session; doing so again changes nothing.
    pub fn disconnect(&mut self)
        ensures
            final(self)@ == (SessionState::Closed, old(self)@.1),
    {
        self.state = SessionState::Closed;
    }
}

/// A data frame whose contents do not decode (a truncated frame, say)
/// followed by a well-formed one gives exactly one decode failure and then
/// the good frame: the bad frame neither stops nor swallows the next.
pub proof fn lemma_truncated_then_valid(t: Seq<u8>, f: FrameModel)
    requires
        decode_frame_spec(t) is Err,
        f.wf(),
    ensures
        decode_all(
            run(
                DecoderState::Idle,
                kiss_encode_spec(DATA_PORT, t) + kiss_encode_spec(
                    DATA_PORT,
                    encode_frame_spec(f),
                ),
            ).1,
        ) == seq![decode_frame_spec(t), Ok::<FrameModel, FrameDecodeError>(f)],
{
    let g = encode_frame_spec(f);
    lemma_run_concat(DecoderState::Idle, kiss_encode_spec(DATA_PORT, t), kiss_encode_spec(DATA_PORT, g));
    lemma_kiss_frame(DecoderState::Idle, DATA_PORT, t);
    lemma_kiss_frame(DecoderState::InFrame(Seq::empty()), DATA_PORT, g);
    assert(seq![t] + seq![g] =~= seq![t, g]);
    lemma_frame_round_trip(f);
    assert(decode_all(seq![t, g]) =~= seq![decode_frame_spec(t), Ok::<FrameModel, FrameDecodeError>(f)]);
}

/// Two well-formed frames sent one after the other, however the bytes are
/// split into reads, are received as exactly those two frames, in order.
pub proof fn lemma_two_frames_received(a: FrameModel, b: FrameModel, cs: Seq<Seq<u8>>)
    requires
        a.wf(),
        b.wf(),
        concat_chunks(cs) == kiss_encode_spec(DATA_PORT, encode_frame_spec(a)) + kiss_encode_spec(
            DATA_PORT,
            encode_frame_spec(b),
        ),
    ensures
        decode_all(run_chunks(DecoderState::Idle, cs).1) == seq![
            Ok::<FrameModel, FrameDecodeError>(a),
            Ok::<FrameModel, FrameDecodeError>(b),
        ],
{
    lemma_two_frames_any_chunks(DATA_PORT, encode_frame_spec(a), DATA_PORT, encode_frame_spec(b), cs);
    lemma_frame_round_trip(a);
    lemma_frame_round_trip(b);
    assert(decode_all(seq![encode_frame_spec(a), encode_frame_spec(b)]) =~= seq![
        Ok::<FrameModel, FrameDecodeError>(a),
        Ok::<FrameModel, FrameDecodeError>(b),
    ]);
}

// ---------------------------------------------------------------------------
// Messages for the user
// ---------------------------------------------------------------------------

/// A line of the conversation: who sent it, to whom, and its text.
#[derive(Clone, Debug, PartialEq, Eq)]
pub struct Message {
    pub source: String,
    pub destination: String,
    pub content: String,
}

fn copy_bytes(b: &Vec<u8>) -> (r: Vec<u8>)
    ensures
        r@ == b@,
{
    let mut out: Vec<u8> = Vec::new();
    let mut i: usize = 0;
    while i < b.len()
        invariant
            0 <= i <= b@.len(),
            out@ =~= b@.subrange(0, i as int),
        decreases b@.len() - i,
    {
        out.push(b[i]);
        i = i + 1;
    }
    assert(b@.subrange(0, i as int) =~= b@);
    out
}

/// `label` followed by the digit of a sequence number.
fn with_digit(label: &str, n: u8) -> (r: String)
    requires
        n < 10,
    ensures
        r@ == label@ + ascii_chars(seq![(n + 0x30) as u8]),
{
    let mut s = String::from_str(label);
    let mut d: Vec<u8> = Vec::new();
    d.push(n + 0x30);
    let digit = ascii_to_string(d);
    s.append(digit.as_str());
    s
}

impl Message {
    /// The message that a received frame shows as. Its addresses are in
    /// `CALL-SSID` form; I and UI frames show their information as text,
    /// supervisory frames a short description with their sequence number.
    pub fn from_frame(frame: &Ax25Frame) -> (r: Message)
        requires
            frame.wf(),
        ensures
            r.source@ == ascii_chars(format_spec(frame@.source)),
            r.destination@ == ascii_chars(format_spec(frame@.destination)),
            match frame@.content {
                ContentModel::UnnumberedInformation { info, .. } => r.content@ == utf8_text(info),
                ContentModel::Information { info, .. } => r.content@ == utf8_text(info),
                ContentModel::ReceiveReady { recv_seq, .. } => r.content@ == "Receive Ready, seq "@
                    + ascii_chars(seq![(recv_seq + 0x30) as u8]),
                ContentModel::ReceiveNotReady { recv_seq, .. } => r.content@
                    == "Receive Not Ready, seq "@ + ascii_chars(seq![(recv_seq + 0x30) as u8]),
                ContentModel::Unsupported { .. } => r.content@ == "Unsupported frame content"@,
            },
    {
        let content = match &frame.content {
            FrameContent::UnnumberedInformation { info, .. } => utf8_or_empty(copy_bytes(info)),
            FrameContent::Information { info, .. } => utf8_or_empty(copy_bytes(info)),
            FrameContent::ReceiveReady { recv_seq, .. } => with_digit(
                "Receive Ready, seq ",
                *recv_seq,
            ),
            FrameContent::ReceiveNotReady { recv_seq, .. } => with_digit(
                "Receive Not Ready, seq ",
                *recv_seq,
            ),
            FrameContent::Unsupported { .. } => String::from_str("Unsupported frame content"),
        };
        Message { source: frame.source.format(), destination: frame.destination.format(), content }
    }
}

/// The frame that sends `text` from `source` to `destination`: a UI command
/// frame with no digipeaters, no layer-3 protocol and the text's bytes as
/// information.
pub fn text_frame(source: &Address, destination: &Address, text: &str) -> (r: Ax25Frame)
    requires
        source.wf(),
        destination.wf(),
    ensures
        r.wf(),
        r@.source == source@,
        r@.destination == destination@,
        r@.route.len() == 0,
        r@.command_or_response == Some(CommandResponse::Command),
        r@.content == (ContentModel::UnnumberedInformation {
            pid: ProtocolIdentifier::NoLayer3,
            info: text.spec_bytes(),
            poll_or_final: false,
        }),
{
    let b = text.as_bytes();
    let mut info: Vec<u8> = Vec::new();
    let mut i: usize = 0;
    while i < b.len()
        invariant
            0 <= i <= b@.len(),
            info@ =~= b@.subrange(0, i as int),
        decreases b@.len() - i,
    {
        info.push(b[i]);
        i = i + 1;
    }
    assert(b@.subrange(0, i as int) =~= b@);
    let r = Ax25Frame {
        source: Address { callsign: copy_bytes(&source.callsign), ssid: source.ssid },
        destination: Address { callsign: copy_bytes(&destination.callsign), ssid: destination.ssid },
        route: Vec::new(),
        command_or_response: Some(CommandResponse::Command),
        content: FrameContent::UnnumberedInformation {
            pid: ProtocolIdentifier::NoLayer3,
            info,
            poll_or_final: false,
        },
    };
    assert(r@.route =~= Seq::<crate::address::AddressModel>::empty());
    r
}

} // verus!
