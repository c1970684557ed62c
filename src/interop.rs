use vstd::prelude::*;

use ax25::frame::Ax25Frame as WireFrame;
use ax25::frame::FrameParseError as WireParseError;

use crate::frame::{
    bit, content_bytes, control_byte, decode_frame_spec, encode_frame_spec, lemma_control_i,
    lemma_control_s, lemma_frame_layout, ContentModel, FrameDecodeError,
};
use crate::session::result_view;

verus! {

#[verifier::external_type_specification]
#[verifier::external_body]
pub struct ExWireFrame(WireFrame);

#[verifier::external_type_specification]
#[verifier::external_body]
pub struct ExWireParseError(WireParseError);

/// The unframed wire bytes that the `ax25` crate writes for a frame.
pub uninterp spec fn ax25_bytes_of(f: WireFrame) -> Seq<u8>;

/// Whether the `ax25` crate takes a buffer as a frame.
pub uninterp spec fn ax25_accepts(b: Seq<u8>) -> bool;

/// The content after the address field is one that `ax25` parses: an I
/// frame or a UI frame with its PID byte, or an RR or RNR frame.
pub open spec fn ax25_content_ok(r: Seq<u8>) -> bool {
    let c = r[0];
    ||| c % 2 == 0 && r.len() >= 2
    ||| c % 16 == 1
    ||| c % 16 == 5
    ||| c % 16 == 3 && c / 32 == 0 && r.len() >= 2
}

/// A buffer laid out as `ax25` reads it: a non-zero first byte, the first
/// byte with bit 0 set at index `e` (ending an address field of at least
/// two addresses), and parseable content after it.
pub open spec fn ax25_layout(b: Seq<u8>, e: int) -> bool {
    &&& b.len() > 0
    &&& b[0] != 0
    &&& 13 <= e
    &&& e + 1 < b.len()
    &&& b[e] % 2 == 1
    &&& forall|i: int| 0 <= i < e ==> #[trigger] b[i] % 2 == 0
    &&& ax25_content_ok(b.subrange(e + 1, b.len() as int))
}

/// Relies on `ax25::frame::Ax25Frame::to_bytes`: the frame's unframed wire
/// bytes, which depend on the frame alone.
#[verifier::external_body]
fn ax25_wire_bytes(f: &WireFrame) -> (r: Vec<u8>)
    ensures
        r@ == ax25_bytes_of(*f),
{
    f.to_bytes()
}

/// Relies on `ax25::frame::Ax25Frame::from_bytes`. Whether it succeeds
/// depends on the bytes alone. It refuses anything shorter than two
/// addresses and a control byte. It takes a buffer with `ax25_layout`: the
/// address field starts at the first non-zero byte and ends at the first
/// byte with bit 0 set; callsigns, being shifted right, are always valid
/// UTF-8; and the control byte selects an I, RR, RNR or UI frame whose PID
/// byte, where one is needed, is present.
#[verifier::external_body]
fn ax25_from_wire(b: &[u8]) -> (r: Result<WireFrame, WireParseError>)
    ensures
        r is Ok == ax25_accepts(b@),
        b@.len() < 15 ==> r is Err,
        forall|e: int| ax25_layout(b@, e) ==> r is Ok,
{
    WireFrame::from_bytes(b)
}

/// The wire bytes of a well-formed frame with I, UI, RR or RNR content are
/// laid out as `ax25` reads them.
pub proof fn lemma_ax25_layout(f: crate::frame::FrameModel)
    requires
        f.wf(),
        !(f.content is Unsupported),
    ensures
        ax25_layout(encode_frame_spec(f), 7 * (f.route.len() + 2) - 1),
{
    lemma_frame_layout(f);
    let c = content_bytes(f.content);
    match f.content {
        ContentModel::UnnumberedInformation { .. } => {
            assert(control_byte(f.content) == (3 + 16 * bit(
                f.content->UnnumberedInformation_poll_or_final,
            )) as u8);
        },
        ContentModel::Information { send_seq, recv_seq, poll_or_final, .. } => {
            lemma_control_i(recv_seq, poll_or_final, send_seq);
        },
        ContentModel::ReceiveReady { recv_seq, poll_or_final } => {
            lemma_control_s(1, recv_seq, poll_or_final);
        },
        ContentModel::ReceiveNotReady { recv_seq, poll_or_final } => {
            lemma_control_s(5, recv_seq, poll_or_final);
        },
        _ => {},
    }
    assert(c[0] == control_byte(f.content));
}

impl crate::frame::Ax25Frame {
    /// This frame as the `ax25` crate's frame type, by way of its wire bytes;
    /// `None` where that crate does not take them. It takes every frame
    /// whose content is not `Unsupported`.
    pub fn to_ax25(&self) -> (r: Option<WireFrame>)
        requires
            self.wf(),
        ensures
            r is Some == ax25_accepts(encode_frame_spec(self@)),
            !(self@.content is Unsupported) ==> r is Some,
    {
        let bytes = self.encode();
        proof {
            if !(self@.content is Unsupported) {
                lemma_ax25_layout(self@);
            }
        }
        match ax25_from_wire(bytes.as_slice()) {
            Ok(f) => Some(f),
            Err(_) => None,
        }
    }

    /// A frame of the `ax25` crate's type, decoded here from the wire bytes
    /// that crate writes for it.
    pub fn from_ax25(f: &WireFrame) -> (r: Result<crate::frame::Ax25Frame, FrameDecodeError>)
        ensures
            result_view(r) == decode_frame_spec(ax25_bytes_of(*f)),
            r is Ok ==> r->Ok_0.wf(),
    {
        let bytes = ax25_wire_bytes(f);
        crate::frame::Ax25Frame::decode(bytes.as_slice())
    }
}

} // verus!
