use vstd::prelude::*;

use crate::address::{
    decode_address_at, decode_address_spec, encode_address_spec, ends_address_field, high_flag,
    lemma_address_round_trip, lemma_encode_address_bits, lemma_encoded_address_parity, Address,
    AddressModel,
};

verus! {

/// Most digipeaters that an address field may name.
pub const MAX_ROUTE_LEN: usize = 8;

/// The layer-3 protocol carried in an information field.
#[derive(Clone, Copy, Debug, PartialEq, Eq)]
pub enum ProtocolIdentifier {
    X25Plp,
    CompressedTcpIp,
    UncompressedTcpIp,
    SegmentationFragment,
    TexnetDatagram,
    LinkQuality,
    Appletalk,
    AppletalkArp,
    ArpaIp,
    ArpaAddress,
    Flexnet,
    NetRom,
    /// No layer-3 protocol (0xF0), as used for plain text.
    NoLayer3,
    Escape,
    /// Any other identifier byte.
    Other(u8),
}

pub open spec fn pid_byte(p: ProtocolIdentifier) -> u8 {
    match p {
        ProtocolIdentifier::X25Plp => 0x01,
        ProtocolIdentifier::CompressedTcpIp => 0x06,
        ProtocolIdentifier::UncompressedTcpIp => 0x07,
        ProtocolIdentifier::SegmentationFragment => 0x08,
        ProtocolIdentifier::TexnetDatagram => 0xC3,
        ProtocolIdentifier::LinkQuality => 0xC4,
        ProtocolIdentifier::Appletalk => 0xCA,
        ProtocolIdentifier::AppletalkArp => 0xCB,
        ProtocolIdentifier::ArpaIp => 0xCC,
        ProtocolIdentifier::ArpaAddress => 0xCD,
        ProtocolIdentifier::Flexnet => 0xCE,
        ProtocolIdentifier::NetRom => 0xCF,
        ProtocolIdentifier::NoLayer3 => 0xF0,
        ProtocolIdentifier::Escape => 0xFF,
        ProtocolIdentifier::Other(b) => b,
    }
}

pub open spec fn pid_from_byte(b: u8) -> ProtocolIdentifier {
    if b == 0x01 {
        ProtocolIdentifier::X25Plp
    } else if b == 0x06 {
        ProtocolIdentifier::CompressedTcpIp
    } else if b == 0x07 {
        ProtocolIdentifier::UncompressedTcpIp
    } else if b == 0x08 {
        ProtocolIdentifier::SegmentationFragment
    } else if b == 0xC3 {
        ProtocolIdentifier::TexnetDatagram
    } else if b == 0xC4 {
        ProtocolIdentifier::LinkQuality
    } else if b == 0xCA {
        ProtocolIdentifier::Appletalk
    } else if b == 0xCB {
        ProtocolIdentifier::AppletalkArp
    } else if b == 0xCC {
        ProtocolIdentifier::ArpaIp
    } else if b == 0xCD {
        ProtocolIdentifier::ArpaAddress
    } else if b == 0xCE {
        ProtocolIdentifier::Flexnet
    } else if b == 0xCF {
        ProtocolIdentifier::NetRom
    } else if b == 0xF0 {
        ProtocolIdentifier::NoLayer3
    } else if b == 0xFF {
        ProtocolIdentifier::Escape
    } else {
        ProtocolIdentifier::Other(b)
    }
}

impl ProtocolIdentifier {
    /// `Other` holds only bytes that have no name of their own.
    pub open spec fn wf(self) -> bool {
        self matches ProtocolIdentifier::Other(b) ==> pid_from_byte(b) == self
    }

    pub fn to_byte(&self) -> (r: u8)
        ensures
            r == pid_byte(*self),
    {
        match self {
            ProtocolIdentifier::X25Plp => 0x01,
            ProtocolIdentifier::CompressedTcpIp => 0x06,
            ProtocolIdentifier::UncompressedTcpIp => 0x07,
            ProtocolIdentifier::SegmentationFragment => 0x08,
            ProtocolIdentifier::TexnetDatagram => 0xC3,
            ProtocolIdentifier::LinkQuality => 0xC4,
            ProtocolIdentifier::Appletalk => 0xCA,
            ProtocolIdentifier::AppletalkArp => 0xCB,
            ProtocolIdentifier::ArpaIp => 0xCC,
            ProtocolIdentifier::ArpaAddress => 0xCD,
            ProtocolIdentifier::Flexnet => 0xCE,
            ProtocolIdentifier::NetRom => 0xCF,
            ProtocolIdentifier::NoLayer3 => 0xF0,
            ProtocolIdentifier::Escape => 0xFF,
            ProtocolIdentifier::Other(b) => *b,
        }
    }

    pub fn from_byte(b: u8) -> (r: ProtocolIdentifier)
        ensures
            r == pid_from_byte(b),
            r.wf(),
    {
        if b == 0x01 {
            ProtocolIdentifier::X25Plp
        } else if b == 0x06 {
            ProtocolIdentifier::CompressedTcpIp
        } else if b == 0x07 {
            ProtocolIdentifier::UncompressedTcpIp
        } else if b == 0x08 {
            ProtocolIdentifier::SegmentationFragment
        } else if b == 0xC3 {
            ProtocolIdentifier::TexnetDatagram
        } else if b == 0xC4 {
            ProtocolIdentifier::LinkQuality
        } else if b == 0xCA {
            ProtocolIdentifier::Appletalk
        } else if b == 0xCB {
            ProtocolIdentifier::AppletalkArp
        } else if b == 0xCC {
            ProtocolIdentifier::ArpaIp
        } else if b == 0xCD {
            ProtocolIdentifier::ArpaAddress
        } else if b == 0xCE {
            ProtocolIdentifier::Flexnet
        } else if b == 0xCF {
            ProtocolIdentifier::NetRom
        } else if b == 0xF0 {
            ProtocolIdentifier::NoLayer3
        } else if b == 0xFF {
            ProtocolIdentifier::Escape
        } else {
            ProtocolIdentifier::Other(b)
        }
    }
}

/// Whether a frame is a command or a response, as carried in bit 7 of the
/// destination and source SSID bytes.
#[derive(Clone, Copy, Debug, PartialEq, Eq)]
pub enum CommandResponse {
    Command,
    Response,
}

/// What follows the address field.
#[derive(Clone, Debug, PartialEq, Eq)]
pub enum FrameContent {
    /// UI frame: connectionless data.
    UnnumberedInformation { pid: ProtocolIdentifier, info: Vec<u8>, poll_or_final: bool },
    /// I frame: sequenced data.
    Information {
        pid: ProtocolIdentifier,
        info: Vec<u8>,
        send_seq: u8,
        recv_seq: u8,
        poll_or_final: bool,
    },
    /// RR supervisory frame.
    ReceiveReady { recv_seq: u8, poll_or_final: bool },
    /// RNR supervisory frame.
    ReceiveNotReady { recv_seq: u8, poll_or_final: bool },
    /// Any other control byte, kept as it came.
    Unsupported { control: u8 },
}

/// `FrameContent` as a value.
pub enum ContentModel {
    UnnumberedInformation { pid: ProtocolIdentifier, info: Seq<u8>, poll_or_final: bool },
    Information {
        pid: ProtocolIdentifier,
        info: Seq<u8>,
        send_seq: u8,
        recv_seq: u8,
        poll_or_final: bool,
    },
    ReceiveReady { recv_seq: u8, poll_or_final: bool },
    ReceiveNotReady { recv_seq: u8, poll_or_final: bool },
    Unsupported { control: u8 },
}

impl View for FrameContent {
    type V = ContentModel;

    open spec fn view(&self) -> ContentModel {
        match self {
            FrameContent::UnnumberedInformation { pid, info, poll_or_final } => {
                ContentModel::UnnumberedInformation {
                    pid: *pid,
                    info: info@,
                    poll_or_final: *poll_or_final,
                }
            },
            FrameContent::Information { pid, info, send_seq, recv_seq, poll_or_final } => {
                ContentModel::Information {
                    pid: *pid,
                    info: info@,
                    send_seq: *send_seq,
                    recv_seq: *recv_seq,
                    poll_or_final: *poll_or_final,
                }
            },
            FrameContent::ReceiveReady { recv_seq, poll_or_final } => {
                ContentModel::ReceiveReady { recv_seq: *recv_seq, poll_or_final: *poll_or_final }
            },
            FrameContent::ReceiveNotReady { recv_seq, poll_or_final } => {
                ContentModel::ReceiveNotReady {
                    recv_seq: *recv_seq,
                    poll_or_final: *poll_or_final,
                }
            },
            FrameContent::Unsupported { control } => ContentModel::Unsupported { control: *control },
        }
    }
}

pub open spec fn bit(b: bool) -> int {
    if b {
        1
    } else {
        0
    }
}

/// The poll/final bit (bit 4) of a control byte.
pub open spec fn pf_of(c: u8) -> bool {
    (c / 16) % 2 == 1
}

/// The control byte selects a supervisory or UI layout; any other byte with
/// bit 0 set is unsupported.
pub open spec fn is_unsupported_control(c: u8) -> bool {
    &&& c % 2 == 1
    &&& c % 16 != 1
    &&& c % 16 != 5
    &&& !(c % 16 == 3 && c / 32 == 0)
}

impl ContentModel {
    /// Sequence numbers are below 8, identifiers are in their canonical form,
    /// and an unsupported control byte is one that decodes as unsupported.
    pub open spec fn wf(self) -> bool {
        match self {
            ContentModel::UnnumberedInformation { pid, .. } => pid.wf(),
            ContentModel::Information { pid, send_seq, recv_seq, .. } => {
                pid.wf() && send_seq < 8 && recv_seq < 8
            },
            ContentModel::ReceiveReady { recv_seq, .. } => recv_seq < 8,
            ContentModel::ReceiveNotReady { recv_seq, .. } => recv_seq < 8,
            ContentModel::Unsupported { control } => is_unsupported_control(control),
        }
    }
}

/// The control byte in the standard AX.25 layout: N(R) in bits 5-7, P/F in
/// bit 4, N(S) in bits 1-3 of an I frame; RR is `0x01`, RNR `0x05`, UI `0x03`.
pub open spec fn control_byte(c: ContentModel) -> u8 {
    match c {
        ContentModel::UnnumberedInformation { poll_or_final, .. } => (3 + 16 * bit(poll_or_final)) as u8,
        ContentModel::Information { send_seq, recv_seq, poll_or_final, .. } => (32 * recv_seq + 16
            * bit(poll_or_final) + 2 * send_seq) as u8,
        ContentModel::ReceiveReady { recv_seq, poll_or_final } => (1 + 16 * bit(poll_or_final) + 32
            * recv_seq) as u8,
        ContentModel::ReceiveNotReady { recv_seq, poll_or_final } => (5 + 16 * bit(poll_or_final)
            + 32 * recv_seq) as u8,
        ContentModel::Unsupported { control } => control,
    }
}

/// Control byte, then for I and UI frames the PID byte and the information.
pub open spec fn content_bytes(c: ContentModel) -> Seq<u8> {
    match c {
        ContentModel::UnnumberedInformation { pid, info, .. } => seq![control_byte(c), pid_byte(pid)]
            + info,
        ContentModel::Information { pid, info, .. } => seq![control_byte(c), pid_byte(pid)] + info,
        _ => seq![control_byte(c)],
    }
}

/// Why a buffer did not decode as a frame.
#[derive(Clone, Copy, Debug, PartialEq, Eq)]
pub enum FrameDecodeError {
    /// Fewer than the fourteen bytes of destination and source.
    TooShort,
    /// The buffer ends inside the address field, before the control byte, or
    /// before the PID byte of an I or UI frame.
    Truncated,
    /// More than eight digipeaters.
    RouteTooLong,
    /// An address whose callsign is not valid.
    InvalidAddress,
}

/// What the bytes from the control byte on decode to.
pub open spec fn decode_content_spec(r: Seq<u8>) -> Result<ContentModel, FrameDecodeError> {
    if r.len() == 0 {
        Err(FrameDecodeError::Truncated)
    } else {
        let c = r[0];
        if c % 2 == 0 {
            if r.len() < 2 {
                Err(FrameDecodeError::Truncated)
            } else {
                Ok(
                    ContentModel::Information {
                        pid: pid_from_byte(r[1]),
                        info: r.subrange(2, r.len() as int),
                        send_seq: ((c / 2) % 8) as u8,
                        recv_seq: (c / 32) as u8,
                        poll_or_final: pf_of(c),
                    },
                )
            }
        } else if c % 16 == 1 {
            Ok(ContentModel::ReceiveReady { recv_seq: (c / 32) as u8, poll_or_final: pf_of(c) })
        } else if c % 16 == 5 {
            Ok(ContentModel::ReceiveNotReady { recv_seq: (c / 32) as u8, poll_or_final: pf_of(c) })
        } else if c % 16 == 3 && c / 32 == 0 {
            if r.len() < 2 {
                Err(FrameDecodeError::Truncated)
            } else {
                Ok(
                    ContentModel::UnnumberedInformation {
                        pid: pid_from_byte(r[1]),
                        info: r.subrange(2, r.len() as int),
                        poll_or_final: pf_of(c),
                    },
                )
            }
        } else {
            Ok(ContentModel::Unsupported { control: c })
        }
    }
}

/// A frame as a value.
pub struct FrameModel {
    pub source: AddressModel,
    pub destination: AddressModel,
    pub route: Seq<AddressModel>,
    pub command_or_response: Option<CommandResponse>,
    pub content: ContentModel,
}

impl FrameModel {
    pub open spec fn wf(self) -> bool {
        &&& self.source.wf()
        &&& self.destination.wf()
        &&& self.route.len() <= MAX_ROUTE_LEN
        &&& forall|i: int| 0 <= i < self.route.len() ==> (#[trigger] self.route[i]).wf()
        &&& self.content.wf()
    }
}

/// An AX.25 frame: addresses, digipeater route, command/response flag and
/// content.
#[derive(Clone, Debug, PartialEq, Eq)]
pub struct Ax25Frame {
    pub source: Address,
    pub destination: Address,
    pub route: Vec<Address>,
    pub command_or_response: Option<CommandResponse>,
    pub content: FrameContent,
}

impl View for Ax25Frame {
    type V = FrameModel;

    open spec fn view(&self) -> FrameModel {
        FrameModel {
            source: self.source@,
            destination: self.destination@,
            route: self.route@.map_values(|a: Address| a@),
            command_or_response: self.command_or_response,
            content: self.content@,
        }
    }
}

/// Bit 7 of the destination and of the source SSID byte.
pub open spec fn cr_flags(cr: Option<CommandResponse>) -> (bool, bool) {
    match cr {
        Some(CommandResponse::Command) => (true, false),
        Some(CommandResponse::Response) => (false, true),
        None => (false, false),
    }
}

pub open spec fn cr_from_flags(dest: bool, src: bool) -> Option<CommandResponse> {
    if dest && !src {
        Some(CommandResponse::Command)
    } else if !dest && src {
        Some(CommandResponse::Response)
    } else {
        None
    }
}

/// The first `n` digipeater addresses of `route`; the last entry of the
/// whole route carries the end-of-field mark.
pub open spec fn route_bytes(route: Seq<AddressModel>, n: nat) -> Seq<u8>
    decreases n,
{
    if n == 0 {
        Seq::empty()
    } else {
        route_bytes(route, (n - 1) as nat) + encode_address_spec(
            route[n - 1],
            n == route.len(),
            false,
        )
    }
}

/// The unframed wire bytes of a frame: destination, source, route, then
/// content. Only the last address carries the end-of-field mark.
pub open spec fn encode_frame_spec(f: FrameModel) -> Seq<u8> {
    encode_address_spec(f.destination, false, cr_flags(f.command_or_response).0)
        + encode_address_spec(f.source, f.route.len() == 0, cr_flags(f.command_or_response).1)
        + route_bytes(f.route, f.route.len()) + content_bytes(f.content)
}

/// The `k`-th address of an address field (0 destination, 1 source, then the
/// digipeaters).
pub open spec fn addr_at(b: Seq<u8>, k: int) -> Seq<u8> {
    b.subrange(7 * k, 7 * k + 7)
}

/// Number of digipeaters, scanning from address `k` for the end-of-field mark.
pub open spec fn route_count_from(b: Seq<u8>, k: int) -> Result<nat, FrameDecodeError>
    decreases 9 - k,
{
    if k < 1 || b.len() < 7 * k + 7 {
        Err(FrameDecodeError::Truncated)
    } else if ends_address_field(addr_at(b, k)) {
        Ok((k - 1) as nat)
    } else if k >= MAX_ROUTE_LEN + 1 {
        Err(FrameDecodeError::RouteTooLong)
    } else if b.len() < 7 * k + 14 {
        Err(FrameDecodeError::Truncated)
    } else {
        route_count_from(b, k + 1)
    }
}

pub open spec fn addresses_valid(b: Seq<u8>, n: nat) -> bool {
    &&& decode_address_spec(addr_at(b, 0)) is Some
    &&& decode_address_spec(addr_at(b, 1)) is Some
    &&& forall|i: int| 0 <= i < n ==> (#[trigger] decode_address_spec(addr_at(b, i + 2))) is Some
}

/// What an unframed buffer decodes to.
pub open spec fn decode_frame_spec(b: Seq<u8>) -> Result<FrameModel, FrameDecodeError> {
    if b.len() < 14 {
        Err(FrameDecodeError::TooShort)
    } else {
        match route_count_from(b, 1) {
            Err(e) => Err(e),
            Ok(n) => {
                if !addresses_valid(b, n) {
                    Err(FrameDecodeError::InvalidAddress)
                } else {
                    match decode_content_spec(b.subrange(7 * (n + 2) as int, b.len() as int)) {
                        Err(e) => Err(e),
                        Ok(c) => Ok(
                            FrameModel {
                                destination: decode_address_spec(addr_at(b, 0))->0,
                                source: decode_address_spec(addr_at(b, 1))->0,
                                route: Seq::new(
                                    n,
                                    |i: int| decode_address_spec(addr_at(b, i + 2))->0,
                                ),
                                command_or_response: cr_from_flags(
                                    high_flag(addr_at(b, 0)),
                                    high_flag(addr_at(b, 1)),
                                ),
                                content: c,
                            },
                        ),
                    }
                }
            },
        }
    }
}

// ---------------------------------------------------------------------------
// Lemmas
// ---------------------------------------------------------------------------

proof fn lemma_pid_round_trip(p: ProtocolIdentifier)
    requires
        p.wf(),
    ensures
        pid_from_byte(pid_byte(p)) == p,
{
}

/// The fields of an I-frame control byte read back from it.
pub proof fn lemma_control_i(recv: u8, pf: bool, send: u8)
    requires
        recv < 8,
        send < 8,
    ensures
        ({
            let c = (32 * recv + 16 * bit(pf) + 2 * send) as u8;
            &&& c % 2 == 0
            &&& (c / 2) % 8 == send
            &&& c / 32 == recv
            &&& pf_of(c) == pf
        }),
{
    let p = bit(pf);
    let c: int = 32 * recv + 16 * p + 2 * send;
    assert(0 <= c < 256) by (nonlinear_arith)
        requires
            recv < 8,
            send < 8,
            0 <= p <= 1,
            c == 32 * recv + 16 * p + 2 * send,
    ;
    assert(c % 2 == 0 && (c / 2) % 8 == send && c / 32 == recv && (c / 16) % 2 == p) by (
    nonlinear_arith)
        requires
            recv < 8,
            send < 8,
            0 <= p <= 1,
            c == 32 * recv + 16 * p + 2 * send,
    ;
}

/// The type and fields of an RR (`base` 1) or RNR (`base` 5) control byte
/// read back from it.
pub proof fn lemma_control_s(base: int, recv: u8, pf: bool)
    requires
        base == 1 || base == 5,
        recv < 8,
    ensures
        ({
            let c = (base + 16 * bit(pf) + 32 * recv) as u8;
            &&& c % 16 == base
            &&& c / 32 == recv
            &&& pf_of(c) == pf
        }),
{
    let p = bit(pf);
    let c: int = base + 16 * p + 32 * recv;
    assert(0 <= c < 256 && c % 16 == base && c / 32 == recv && (c / 16) % 2 == p) by (
    nonlinear_arith)
        requires
            base == 1 || base == 5,
            recv < 8,
            0 <= p <= 1,
            c == base + 16 * p + 32 * recv,
    ;
}

/// The content bytes of well-formed content decode back to it.
pub proof fn lemma_content_round_trip(c: ContentModel)
    requires
        c.wf(),
    ensures
        decode_content_spec(content_bytes(c)) == Ok::<ContentModel, FrameDecodeError>(c),
{
    let b = content_bytes(c);
    match c {
        ContentModel::UnnumberedInformation { pid, info, poll_or_final } => {
            lemma_pid_round_trip(pid);
            assert(b.subrange(2, b.len() as int) =~= info);
        },
        ContentModel::Information { pid, info, send_seq, recv_seq, poll_or_final } => {
            lemma_pid_round_trip(pid);
            lemma_control_i(recv_seq, poll_or_final, send_seq);
            assert(b.subrange(2, b.len() as int) =~= info);
        },
        ContentModel::ReceiveReady { recv_seq, poll_or_final } => {
            lemma_control_s(1, recv_seq, poll_or_final);
        },
        ContentModel::ReceiveNotReady { recv_seq, poll_or_final } => {
            lemma_control_s(5, recv_seq, poll_or_final);
        },
        ContentModel::Unsupported { control } => {},
    }
}

proof fn lemma_route_bytes(route: Seq<AddressModel>, n: nat)
    requires
        n <= route.len(),
    ensures
        route_bytes(route, n).len() == 7 * n,
        forall|i: int|
            0 <= i < n ==> #[trigger] route_bytes(route, n).subrange(7 * i, 7 * i + 7)
                == encode_address_spec(route[i], i + 1 == route.len(), false),
    decreases n,
{
    if n > 0 {
        lemma_route_bytes(route, (n - 1) as nat);
        let prev = route_bytes(route, (n - 1) as nat);
        let last = encode_address_spec(route[n - 1], n == route.len(), false);
        assert forall|i: int| 0 <= i < n implies #[trigger] route_bytes(route, n).subrange(
            7 * i,
            7 * i + 7,
        ) == encode_address_spec(route[i], i + 1 == route.len(), false) by {
            if i < n - 1 {
                assert(route_bytes(route, n).subrange(7 * i, 7 * i + 7) =~= prev.subrange(
                    7 * i,
                    7 * i + 7,
                ));
            } else {
                assert(route_bytes(route, n).subrange(7 * i, 7 * i + 7) =~= last);
            }
        }
    }
}

proof fn lemma_route_count(f: FrameModel, k: int)
    requires
        f.wf(),
        1 <= k <= f.route.len() + 1,
        forall|j: int|
            0 <= j < f.route.len() ==> #[trigger] addr_at(encode_frame_spec(f), j + 2)
                == encode_address_spec(f.route[j], j + 1 == f.route.len(), false),
        addr_at(encode_frame_spec(f), 1) == encode_address_spec(
            f.source,
            f.route.len() == 0,
            cr_flags(f.command_or_response).1,
        ),
        encode_frame_spec(f).len() >= 7 * (f.route.len() + 2),
    ensures
        route_count_from(encode_frame_spec(f), k) == Ok::<nat, FrameDecodeError>(f.route.len()),
    decreases f.route.len() + 1 - k,
{
    let b = encode_frame_spec(f);
    let n = f.route.len() as int;
    if k == 1 {
        lemma_encode_address_bits(f.source, n == 0, cr_flags(f.command_or_response).1);
    } else {
        assert(addr_at(b, (k - 2) + 2) == encode_address_spec(f.route[k - 2], k - 1 == n, false));
        lemma_encode_address_bits(f.route[k - 2], k - 1 == n, false);
    }
    if k < n + 1 {
        lemma_route_count(f, k + 1);
    }
}

/// Decoding the wire bytes of a well-formed frame gives that frame back.
pub proof fn lemma_frame_round_trip(f: FrameModel)
    requires
        f.wf(),
    ensures
        decode_frame_spec(encode_frame_spec(f)) == Ok::<FrameModel, FrameDecodeError>(f),
{
    let (dc, sc) = cr_flags(f.command_or_response);
    let n = f.route.len();
    let a0 = encode_address_spec(f.destination, false, dc);
    let a1 = encode_address_spec(f.source, n == 0, sc);
    let r = route_bytes(f.route, n);
    let c = content_bytes(f.content);
    let b = encode_frame_spec(f);
    assert(b == a0 + a1 + r + c);
    lemma_route_bytes(f.route, n);
    lemma_encode_address_bits(f.destination, false, dc);
    lemma_encode_address_bits(f.source, n == 0, sc);
    assert(addr_at(b, 0) =~= a0);
    assert(addr_at(b, 1) =~= a1);
    assert forall|j: int| 0 <= j < n implies #[trigger] addr_at(b, j + 2) == encode_address_spec(
        f.route[j],
        j + 1 == n,
        false,
    ) by {
        assert(addr_at(b, j + 2) =~= r.subrange(7 * j, 7 * j + 7));
    }
    lemma_route_count(f, 1);
    lemma_address_round_trip(f.destination, false, dc);
    lemma_address_round_trip(f.source, n == 0, sc);
    assert forall|i: int| 0 <= i < n implies (#[trigger] decode_address_spec(
        addr_at(b, i + 2),
    )) == Some(f.route[i]) by {
        lemma_address_round_trip(f.route[i], i + 1 == n, false);
    }
    assert(b.subrange(7 * (n + 2) as int, b.len() as int) =~= c);
    lemma_content_round_trip(f.content);
    let g = decode_frame_spec(b)->Ok_0;
    assert(g.route =~= f.route);
}

/// The `k`-th address of a frame (0 destination, 1 source, then the route).
pub open spec fn address_of(f: FrameModel, k: int) -> AddressModel {
    if k == 0 {
        f.destination
    } else if k == 1 {
        f.source
    } else {
        f.route[k - 2]
    }
}

/// Bit 7 of the `k`-th address's SSID byte as encoded.
pub open spec fn flag_of(f: FrameModel, k: int) -> bool {
    if k == 0 {
        cr_flags(f.command_or_response).0
    } else if k == 1 {
        cr_flags(f.command_or_response).1
    } else {
        false
    }
}

/// The wire bytes of a well-formed frame: the address field ends at byte
/// `7 * (route + 2) - 1`, the only byte before the content with bit 0 set;
/// the first byte is not zero; the content follows.
pub proof fn lemma_frame_layout(f: FrameModel)
    requires
        f.wf(),
    ensures
        ({
            let b = encode_frame_spec(f);
            let e = 7 * (f.route.len() + 2) - 1;
            &&& b.len() > e + 1
            &&& b[0] != 0
            &&& b[e] % 2 == 1
            &&& forall|i: int| 0 <= i < e ==> #[trigger] b[i] % 2 == 0
            &&& b.subrange(e + 1, b.len() as int) == content_bytes(f.content)
        }),
{
    let (dc, sc) = cr_flags(f.command_or_response);
    let n = f.route.len() as int;
    let a0 = encode_address_spec(f.destination, false, dc);
    let a1 = encode_address_spec(f.source, n == 0, sc);
    let r = route_bytes(f.route, n as nat);
    let c = content_bytes(f.content);
    let b = encode_frame_spec(f);
    let e = 7 * (n + 2) - 1;
    assert(b == a0 + a1 + r + c);
    lemma_route_bytes(f.route, n as nat);
    assert(c.len() >= 1);
    assert forall|k: int| 0 <= k <= n + 1 implies #[trigger] addr_at(b, k) == encode_address_spec(
        address_of(f, k),
        k == n + 1,
        flag_of(f, k),
    ) by {
        if k == 0 {
            assert(addr_at(b, 0) =~= a0);
        } else if k == 1 {
            assert(addr_at(b, 1) =~= a1);
        } else {
            assert(addr_at(b, k) =~= r.subrange(7 * (k - 2), 7 * (k - 2) + 7));
        }
    }
    assert forall|k: int| 0 <= k <= n + 1 implies (#[trigger] address_of(f, k)).wf() by {
        if k >= 2 {
            assert(f.route[k - 2].wf());
        }
    }
    assert(b[0] == addr_at(b, 0)[0]);
    lemma_encoded_address_parity(address_of(f, 0), 0 == n + 1, flag_of(f, 0), 0);
    assert(b[e] == addr_at(b, n + 1)[6]);
    lemma_encoded_address_parity(address_of(f, n + 1), true, flag_of(f, n + 1), 6);
    assert forall|i: int| 0 <= i < e implies #[trigger] b[i] % 2 == 0 by {
        let k = i / 7;
        let off = i % 7;
        assert(0 <= k <= n + 1);
        assert(b[i] == addr_at(b, k)[off]);
        lemma_encoded_address_parity(address_of(f, k), k == n + 1, flag_of(f, k), off);
    }
    assert(b.subrange(e + 1, b.len() as int) =~= c);
}

proof fn lemma_route_count_bound(b: Seq<u8>, k: int)
    requires
        1 <= k <= MAX_ROUTE_LEN + 1,
        route_count_from(b, k) is Ok,
    ensures
        route_count_from(b, k)->Ok_0 <= MAX_ROUTE_LEN,
        7 * (route_count_from(b, k)->Ok_0 + 2) <= b.len(),
    decreases 9 - k,
{
    if !ends_address_field(addr_at(b, k)) {
        lemma_route_count_bound(b, k + 1);
    }
}

/// Whatever decodes is a well-formed frame.
pub proof fn lemma_decode_wf(b: Seq<u8>)
    requires
        decode_frame_spec(b) is Ok,
    ensures
        decode_frame_spec(b)->Ok_0.wf(),
{
    let f = decode_frame_spec(b)->Ok_0;
    lemma_route_count_bound(b, 1);
    let n = f.route.len();
    assert(route_count_from(b, 1) == Ok::<nat, FrameDecodeError>(n));
    assert forall|i: int| 0 <= i < n implies (#[trigger] f.route[i]).wf() by {
        assert(decode_address_spec(addr_at(b, i + 2)) is Some);
    }
    let r = b.subrange(7 * (n + 2) as int, b.len() as int);
    let c = r[0];
    assert(c / 32 < 8);
    assert((c / 2) % 8 < 8);
}

// ---------------------------------------------------------------------------
// Executable code
// ---------------------------------------------------------------------------

fn push_all(out: &mut Vec<u8>, b: &Vec<u8>)
    ensures
        final(out)@ == old(out)@ + b@,
{
    let mut i: usize = 0;
    while i < b.len()
        invariant
            0 <= i <= b@.len(),
            out@ =~= old(out)@ + b@.subrange(0, i as int),
        decreases b@.len() - i,
    {
        out.push(b[i]);
        i = i + 1;
    }
    assert(b@.subrange(0, i as int) =~= b@);
}

impl FrameContent {
    /// The control byte in the standard AX.25 layout.
    pub fn control(&self) -> (r: u8)
        requires
            self@.wf(),
        ensures
            r == control_byte(self@),
    {
        match self {
            FrameContent::UnnumberedInformation { poll_or_final, .. } => {
                if *poll_or_final {
                    0x13
                } else {
                    0x03
                }
            },
            FrameContent::Information { send_seq, recv_seq, poll_or_final, .. } => {
                let p: u8 = if *poll_or_final {
                    16
                } else {
                    0
                };
                32 * *recv_seq + p + 2 * *send_seq
            },
            FrameContent::ReceiveReady { recv_seq, poll_or_final } => {
                let p: u8 = if *poll_or_final {
                    16
                } else {
                    0
                };
                1 + p + 32 * *recv_seq
            },
            FrameContent::ReceiveNotReady { recv_seq, poll_or_final } => {
                let p: u8 = if *poll_or_final {
                    16
                } else {
                    0
                };
                5 + p + 32 * *recv_seq
            },
            FrameContent::Unsupported { control } => *control,
        }
    }

    /// Control byte, then for I and UI frames the PID byte and the information.
    pub fn encode(&self) -> (r: Vec<u8>)
        requires
            self@.wf(),
        ensures
            r@ == content_bytes(self@),
    {
        let mut out: Vec<u8> = Vec::new();
        out.push(self.control());
        match self {
            FrameContent::UnnumberedInformation { pid, info, .. } => {
                out.push(pid.to_byte());
                push_all(&mut out, info);
            },
            FrameContent::Information { pid, info, .. } => {
                out.push(pid.to_byte());
                push_all(&mut out, info);
            },
            _ => {},
        }
        assert(out@ =~= content_bytes(self@));
        out
    }
}

/// Decodes the content that starts at `start`.
fn decode_content_at(b: &[u8], start: usize) -> (r: Result<FrameContent, FrameDecodeError>)
    requires
        start <= b@.len(),
    ensures
        match decode_content_spec(b@.subrange(start as int, b@.len() as int)) {
            Ok(c) => r is Ok && r->Ok_0@ == c,
            Err(e) => r == Err::<FrameContent, FrameDecodeError>(e),
        },
{
    let ghost rest = b@.subrange(start as int, b@.len() as int);
    if start == b.len() {
        return Err(FrameDecodeError::Truncated);
    }
    let c = b[start];
    let pf = (c / 16) % 2 == 1;
    if c % 2 == 0 || (c % 16 == 3 && c / 32 == 0) {
        if start + 1 == b.len() {
            return Err(FrameDecodeError::Truncated);
        }
        let pid = ProtocolIdentifier::from_byte(b[start + 1]);
        let mut info: Vec<u8> = Vec::new();
        let mut i: usize = start + 2;
        while i < b.len()
            invariant
                start + 2 <= i <= b@.len(),
                info@ =~= b@.subrange(start + 2, i as int),
            decreases b@.len() - i,
        {
            info.push(b[i]);
            i = i + 1;
        }
        assert(info@ =~= rest.subrange(2, rest.len() as int));
        if c % 2 == 0 {
            Ok(
                FrameContent::Information {
                    pid,
                    info,
                    send_seq: (c / 2) % 8,
                    recv_seq: c / 32,
                    poll_or_final: pf,
                },
            )
        } else {
            Ok(FrameContent::UnnumberedInformation { pid, info, poll_or_final: pf })
        }
    } else if c % 16 == 1 {
        Ok(FrameContent::ReceiveReady { recv_seq: c / 32, poll_or_final: pf })
    } else if c % 16 == 5 {
        Ok(FrameContent::ReceiveNotReady { recv_seq: c / 32, poll_or_final: pf })
    } else {
        Ok(FrameContent::Unsupported { control: c })
    }
}

impl Ax25Frame {
    pub open spec fn wf(&self) -> bool {
        self@.wf()
    }

    /// The unframed wire bytes: destination (command/response bit), source
    /// (end-of-field mark when there is no route), each digipeater (the last
    /// one marked), then control byte, PID and information.
    pub fn encode(&self) -> (r: Vec<u8>)
        requires
            self.wf(),
        ensures
            r@ == encode_frame_spec(self@),
    {
        let (dc, sc) = match self.command_or_response {
            Some(CommandResponse::Command) => (true, false),
            Some(CommandResponse::Response) => (false, true),
            None => (false, false),
        };
        let n = self.route.len();
        let mut out = self.destination.encode(false, dc);
        let mut src = self.source.encode(n == 0, sc);
        out.append(&mut src);
        let ghost head = out@;
        let ghost route = self@.route;
        let mut i: usize = 0;
        while i < n
            invariant
                self.wf(),
                n == self.route@.len(),
                route == self@.route,
                0 <= i <= n,
                out@ == head + route_bytes(route, i as nat),
            decreases n - i,
        {
            assert(route[i as int] == self.route@[i as int]@);
            assert((route[i as int]).wf());
            let mut e = self.route[i].encode(i + 1 == n, false);
            out.append(&mut e);
            proof {
                assert(head + route_bytes(route, (i + 1) as nat) =~= head + route_bytes(
                    route,
                    i as nat,
                ) + encode_address_spec(route[i as int], i + 1 == n, false));
            }
            i = i + 1;
        }
        let mut c = self.content.encode();
        out.append(&mut c);
        proof {
            assert(out@ =~= encode_frame_spec(self@));
        }
        out
    }

    /// Decodes an unframed buffer. An unknown control byte gives
    /// `FrameContent::Unsupported`, not an error.
    pub fn decode(b: &[u8]) -> (r: Result<Ax25Frame, FrameDecodeError>)
        ensures
            match decode_frame_spec(b@) {
                Ok(f) => r is Ok && r->Ok_0@ == f,
                Err(e) => r == Err::<Ax25Frame, FrameDecodeError>(e),
            },
            r is Ok ==> r->Ok_0.wf(),
    {
        let len = b.len();
        if len < 14 {
            return Err(FrameDecodeError::TooShort);
        }
        // Find the address that carries the end-of-field mark.
        let mut k: usize = 1;
        loop
            invariant
                len == b@.len(),
                len >= 14,
                1 <= k <= MAX_ROUTE_LEN + 1,
                7 * k + 7 <= len,
                route_count_from(b@, 1) == route_count_from(b@, k as int),
            ensures
                1 <= k <= MAX_ROUTE_LEN + 1,
                7 * k + 7 <= len,
                route_count_from(b@, 1) == Ok::<nat, FrameDecodeError>((k - 1) as nat),
            decreases MAX_ROUTE_LEN + 1 - k,
        {
            assert(addr_at(b@, k as int)[6] == b@[7 * k + 6]);
            if b[7 * k + 6] % 2 == 1 {
                assert(ends_address_field(addr_at(b@, k as int)));
                break;
            }
            if k >= MAX_ROUTE_LEN + 1 {
                return Err(FrameDecodeError::RouteTooLong);
            }
            if len < 7 * k + 14 {
                return Err(FrameDecodeError::Truncated);
            }
            k = k + 1;
        }
        let n = k - 1;
        assert(route_count_from(b@, 1) == Ok::<nat, FrameDecodeError>(n as nat));
        assert(addr_at(b@, 0) =~= b@.subrange(0, 7));
        assert(addr_at(b@, 1) =~= b@.subrange(7, 14));
        let destination = match decode_address_at(b, 0) {
            Some(a) => a,
            None => {
                return Err(FrameDecodeError::InvalidAddress);
            },
        };
        let source = match decode_address_at(b, 7) {
            Some(a) => a,
            None => {
                return Err(FrameDecodeError::InvalidAddress);
            },
        };
        let mut route: Vec<Address> = Vec::new();
        let mut i: usize = 0;
        while i < n
            invariant
                len == b@.len(),
                n < MAX_ROUTE_LEN + 1,
                7 * n + 14 <= len,
                route_count_from(b@, 1) == Ok::<nat, FrameDecodeError>(n as nat),
                decode_address_spec(addr_at(b@, 0)) is Some,
                decode_address_spec(addr_at(b@, 1)) is Some,
                destination@ == decode_address_spec(addr_at(b@, 0))->0,
                source@ == decode_address_spec(addr_at(b@, 1))->0,
                0 <= i <= n,
                route@.len() == i,
                forall|j: int|
                    0 <= j < i ==> (#[trigger] decode_address_spec(addr_at(b@, j + 2))) is Some
                        && route@[j]@ == decode_address_spec(addr_at(b@, j + 2))->0,
            decreases n - i,
        {
            assert(addr_at(b@, i + 2) =~= b@.subrange(7 * (i + 2) as int, 7 * (i + 2) + 7));
            match decode_address_at(b, 7 * (i + 2)) {
                Some(a) => {
                    route.push(a);
                },
                None => {
                    assert(!addresses_valid(b@, n as nat)) by {
                        assert(decode_address_spec(addr_at(b@, i + 2)) is None);
                    }
                    return Err(FrameDecodeError::InvalidAddress);
                },
            }
            i = i + 1;
        }
        assert(addresses_valid(b@, n as nat));
        let content = match decode_content_at(b, 7 * (n + 2)) {
            Ok(c) => c,
            Err(e) => {
                return Err(e);
            },
        };
        let cr = if b[6] >= 0x80 && b[13] < 0x80 {
            Some(CommandResponse::Command)
        } else if b[6] < 0x80 && b[13] >= 0x80 {
            Some(CommandResponse::Response)
        } else {
            None
        };
        let f = Ax25Frame { source, destination, route, command_or_response: cr, content };
        proof {
            let g = decode_frame_spec(b@)->Ok_0;
            assert(addr_at(b@, 0)[6] == b@[6]);
            assert(addr_at(b@, 1)[6] == b@[13]);
            assert(f@.route =~= g.route);
            lemma_decode_wf(b@);
        }
        Ok(f)
    }
}

} // verus!
