use linbpq_chat::{
    kiss_encode, text_frame, Address, AddressDecodeError, AddressFormatError, Ax25Frame,
    CommandResponse, FrameContent, FrameDecodeError, KissDecoder, LinbpqApp, Message,
    ProtocolIdentifier, SendError, SessionState, TncSession,
};
use linbpq_chat::{Endpoint, EndpointError, TransportKind};

fn addr(s: &str) -> Address {
    Address::parse(s).unwrap()
}

fn ui_frame(route: Vec<Address>, info: &[u8]) -> Ax25Frame {
    Ax25Frame {
        source: addr("N0CALL-1"),
        destination: addr("HARECH-0"),
        route,
        command_or_response: Some(CommandResponse::Command),
        content: FrameContent::UnnumberedInformation {
            pid: ProtocolIdentifier::NoLayer3,
            info: info.to_vec(),
            poll_or_final: false,
        },
    }
}

fn open_session() -> TncSession {
    let mut s = TncSession::new();
    assert!(s.begin_connect());
    s.connect_finished(true);
    assert_eq!(s.state(), SessionState::Open);
    s
}

// ---- Address ----------------------------------------------------------------

#[test]
fn address_encode_n0call_example() {
    let a = addr("N0CALL-0");
    // Each callsign byte is the ASCII code shifted left: 'L' gives 0x98.
    assert_eq!(a.encode(false, false), vec![0x9C, 0x60, 0x86, 0x82, 0x98, 0x98, 0x60]);
    // A shorter callsign is padded with shifted spaces.
    assert_eq!(addr("N0CAL-0").encode(false, false), vec![0x9C, 0x60, 0x86, 0x82, 0x98, 0x40, 0x60]);
}

#[test]
fn address_encode_flags_and_padding() {
    let a = addr("ID-15");
    // "ID" shifted, four shifted spaces, then SSID 15 with last and flag bits.
    assert_eq!(a.encode(true, true), vec![0x92, 0x88, 0x40, 0x40, 0x40, 0x40, 0xFF]);
    assert_eq!(a.encode(false, false)[6], 0x7E);
}

#[test]
fn address_decode_round_trip() {
    for text in ["N0CALL-0", "VK7NTK-5", "A-15", "ABCDEF-9"] {
        let a = addr(text);
        for (last, flag) in [(false, false), (true, false), (false, true), (true, true)] {
            let bytes = a.encode(last, flag);
            assert_eq!(Address::decode(&bytes).unwrap(), a);
        }
    }
}

#[test]
fn address_decode_errors() {
    assert_eq!(Address::decode(&[0x9C, 0x60]), Err(AddressDecodeError::WrongLength));
    // All spaces: empty callsign.
    assert_eq!(
        Address::decode(&[0x40, 0x40, 0x40, 0x40, 0x40, 0x40, 0x60]),
        Err(AddressDecodeError::InvalidCallsign)
    );
    // A shifted '!' is not a callsign character.
    assert_eq!(
        Address::decode(&[0x42, 0x40, 0x40, 0x40, 0x40, 0x40, 0x60]),
        Err(AddressDecodeError::InvalidCallsign)
    );
}

#[test]
fn address_parse_and_format() {
    let a = addr("vk7ntk-5");
    assert_eq!(a.callsign, b"VK7NTK".to_vec());
    assert_eq!(a.ssid, 5);
    assert_eq!(a.format(), "VK7NTK-5");
    assert_eq!(addr("N0CALL-0").format(), "N0CALL-0");
    assert_eq!(addr("N0CALL-007").ssid, 7);
}

#[test]
fn address_parse_format_parse() {
    for text in ["n0call-1", "W1AW-12", "k-0", "ab1cd-09"] {
        let first = Address::parse(text).unwrap();
        let again = Address::parse(&first.format()).unwrap();
        assert_eq!(again, first);
    }
}

#[test]
fn address_parse_errors() {
    assert_eq!(Address::parse("N0CALL"), Err(AddressFormatError::MissingSsid));
    assert_eq!(Address::parse("-1"), Err(AddressFormatError::EmptyCallsign));
    assert_eq!(Address::parse("TOOLONG-1"), Err(AddressFormatError::CallsignTooLong));
    assert_eq!(Address::parse("VK7N -5"), Err(AddressFormatError::InvalidCharacter));
    assert_eq!(Address::parse("VK7NTK-16"), Err(AddressFormatError::InvalidSsid));
    assert_eq!(Address::parse("VK7NTK-"), Err(AddressFormatError::InvalidSsid));
    assert_eq!(Address::parse("vk7n--1"), Err(AddressFormatError::InvalidSsid));
    assert_eq!(Address::parse("VK7NTK-1a"), Err(AddressFormatError::InvalidSsid));
    assert_eq!(Address::parse("VK7NTK-999"), Err(AddressFormatError::InvalidSsid));
}

// ---- Frames -----------------------------------------------------------------

#[test]
fn frame_send_hi_example() {
    let frame = text_frame(&addr("N0CALL-1"), &addr("HARECH-0"), "hi");
    let wire = frame.encode();
    assert_eq!(wire.len(), 14 + 4);
    assert_eq!(&wire[14..], &[0x03, 0xF0, b'h', b'i']);
    // Command: C bit on the destination, not on the source; source ends the field.
    assert_eq!(wire[6], 0xE0);
    assert_eq!(wire[13], 0x63);
    let kiss = kiss_encode(0, &wire);
    assert_eq!(&kiss[..2], &[0xC0, 0x00]);
    assert_eq!(*kiss.last().unwrap(), 0xC0);
}

#[test]
fn frame_round_trip_every_content() {
    let contents = vec![
        FrameContent::UnnumberedInformation {
            pid: ProtocolIdentifier::Other(0x42),
            info: vec![0xC0, 0xDB, 0x00],
            poll_or_final: true,
        },
        FrameContent::Information {
            pid: ProtocolIdentifier::NetRom,
            info: b"data".to_vec(),
            send_seq: 5,
            recv_seq: 7,
            poll_or_final: true,
        },
        FrameContent::ReceiveReady { recv_seq: 3, poll_or_final: false },
        FrameContent::ReceiveNotReady { recv_seq: 6, poll_or_final: true },
        FrameContent::Unsupported { control: 0x2F },
    ];
    let routes = vec![
        vec![],
        vec![addr("WIDE1-1")],
        (1..=8).map(|i| addr(&format!("DIGI{}-{}", i, i))).collect::<Vec<_>>(),
    ];
    for cr in [None, Some(CommandResponse::Command), Some(CommandResponse::Response)] {
        for route in &routes {
            for content in &contents {
                let f = Ax25Frame {
                    source: addr("N0CALL-1"),
                    destination: addr("APRS-0"),
                    route: route.clone(),
                    command_or_response: cr,
                    content: content.clone(),
                };
                assert_eq!(Ax25Frame::decode(&f.encode()).unwrap(), f);
            }
        }
    }
}

#[test]
fn frame_control_bytes() {
    let i = FrameContent::Information {
        pid: ProtocolIdentifier::NoLayer3,
        info: vec![],
        send_seq: 2,
        recv_seq: 5,
        poll_or_final: true,
    };
    assert_eq!(i.control(), 0xB4);
    assert_eq!(FrameContent::ReceiveReady { recv_seq: 3, poll_or_final: false }.control(), 0x61);
    assert_eq!(FrameContent::ReceiveNotReady { recv_seq: 1, poll_or_final: true }.control(), 0x35);
    let ui = FrameContent::UnnumberedInformation {
        pid: ProtocolIdentifier::NoLayer3,
        info: vec![],
        poll_or_final: true,
    };
    assert_eq!(ui.control(), 0x13);
    assert_eq!(ui.encode(), vec![0x13, 0xF0]);
}

#[test]
fn frame_decode_unknown_control_is_unsupported() {
    let mut wire = ui_frame(vec![], b"").encode();
    wire.truncate(14);
    wire.push(0x2F); // SABM
    let f = Ax25Frame::decode(&wire).unwrap();
    assert_eq!(f.content, FrameContent::Unsupported { control: 0x2F });
    assert_eq!(ProtocolIdentifier::from_byte(0xF0), ProtocolIdentifier::NoLayer3);
    assert_eq!(ProtocolIdentifier::from_byte(0x45), ProtocolIdentifier::Other(0x45));
    assert_eq!(ProtocolIdentifier::Other(0x45).to_byte(), 0x45);
}

#[test]
fn frame_decode_errors() {
    let good = ui_frame(vec![], b"x").encode();
    assert_eq!(Ax25Frame::decode(&good[..13]), Err(FrameDecodeError::TooShort));
    // Address field complete, control byte missing.
    assert_eq!(Ax25Frame::decode(&good[..14]), Err(FrameDecodeError::Truncated));
    // UI control byte without its PID.
    assert_eq!(Ax25Frame::decode(&good[..15]), Err(FrameDecodeError::Truncated));
    // Source not marked last and nothing after it.
    let mut open = good[..14].to_vec();
    open[13] &= 0xFE;
    assert_eq!(Ax25Frame::decode(&open), Err(FrameDecodeError::Truncated));
    // Invalid destination callsign.
    let mut bad = good.clone();
    bad[0] = 0x42;
    assert_eq!(Ax25Frame::decode(&bad), Err(FrameDecodeError::InvalidAddress));
}

#[test]
fn frame_decode_route_too_long() {
    let route: Vec<Address> = (1..=8).map(|i| addr(&format!("R{}-0", i))).collect();
    let mut wire = ui_frame(route, b"x").encode();
    // Clear the end mark of the eighth digipeater and add a ninth.
    wire[9 * 7 + 6] &= 0xFE;
    let ninth = addr("R9-0").encode(true, false);
    let tail = wire.split_off(10 * 7);
    wire.extend_from_slice(&ninth);
    wire.extend_from_slice(&tail);
    assert_eq!(Ax25Frame::decode(&wire), Err(FrameDecodeError::RouteTooLong));
}

// ---- KISS -------------------------------------------------------------------

#[test]
fn kiss_escapes_delimiters() {
    assert_eq!(
        kiss_encode(0, &[0x01, 0xC0, 0xDB, 0x02]),
        vec![0xC0, 0x00, 0x01, 0xDB, 0xDC, 0xDB, 0xDD, 0x02, 0xC0]
    );
    // Port 12 gives the command byte 0xC0, which is escaped too.
    assert_eq!(kiss_encode(12, &[0x05]), vec![0xC0, 0xDB, 0xDC, 0x05, 0xC0]);
    assert_eq!(kiss_encode(3, &[]), vec![0xC0, 0x30, 0xC0]);
}

#[test]
fn kiss_round_trip() {
    let payloads: Vec<Vec<u8>> = vec![vec![], vec![0xC0], vec![0xDB, 0xDC, 0xDD, 0xC0, 0xC0], (0..=255).collect()];
    for p in payloads {
        for port in [0u8, 5, 12, 15] {
            let mut d = KissDecoder::new();
            assert_eq!(d.feed(&kiss_encode(port, &p)), vec![p.clone()]);
        }
    }
}

#[test]
fn kiss_two_frames_any_chunks() {
    let first = vec![0x01, 0xC0, 0x02];
    let second = vec![0xDB, 0x03];
    let mut stream = kiss_encode(0, &first);
    stream.extend(kiss_encode(0, &second));
    for cut1 in 0..=stream.len() {
        for cut2 in cut1..=stream.len() {
            let mut d = KissDecoder::new();
            let mut out = d.feed(&stream[..cut1]);
            out.extend(d.feed(&stream[cut1..cut2]));
            out.extend(d.feed(&stream[cut2..]));
            assert_eq!(out, vec![first.clone(), second.clone()]);
        }
    }
}

#[test]
fn kiss_decoder_resynchronises() {
    let mut d = KissDecoder::new();
    // Leading noise, then a frame with a bad escape, then a good frame.
    let mut stream = vec![0x11, 0x22, 0xC0, 0x00, 0x01, 0xDB, 0x05, 0x02];
    stream.extend(kiss_encode(0, &[0x07, 0x08]));
    assert_eq!(d.feed(&stream), vec![vec![0x07, 0x08]]);
    // Non-data frames (command nibble other than 0) are not handed on.
    let mut d2 = KissDecoder::new();
    assert_eq!(d2.feed(&[0xC0, 0x06, 0x10, 0xC0, 0xC0, 0x00, 0x09, 0xC0]), vec![vec![0x09]]);
}

// ---- Session ----------------------------------------------------------------

#[test]
fn session_receives_two_frames_in_three_chunks() {
    let a = ui_frame(vec![], b"first");
    let b = text_frame(&addr("HARECH-0"), &addr("N0CALL-1"), "second");
    let mut stream = kiss_encode(0, &a.encode());
    stream.extend(kiss_encode(0, &b.encode()));
    let mut s = open_session();
    let mut got = Vec::new();
    got.extend(s.receive(&stream[..5]));
    got.extend(s.receive(&stream[5..30]));
    got.extend(s.receive(&stream[30..]));
    assert_eq!(got, vec![Ok(a), Ok(b)]);
}

#[test]
fn session_truncated_then_valid() {
    let good = ui_frame(vec![addr("WIDE2-2")], b"ok");
    let mut stream = kiss_encode(0, &good.encode()[..9]);
    stream.extend(kiss_encode(0, &good.encode()));
    let mut s = open_session();
    let got = s.receive(&stream);
    assert_eq!(got, vec![Err(FrameDecodeError::TooShort), Ok(good)]);
}

#[test]
fn session_states_and_send() {
    let frame = text_frame(&addr("N0CALL-1"), &addr("HARECH-0"), "hi");
    let mut s = TncSession::new();
    assert_eq!(s.state(), SessionState::Disconnected);
    assert_eq!(s.prepare_send(&frame), Err(SendError::NotOpen));
    assert!(s.receive(&kiss_encode(0, &frame.encode())).is_empty());
    assert!(s.begin_connect());
    assert!(!s.begin_connect());
    assert_eq!(s.state(), SessionState::Connecting);
    s.connect_finished(false);
    assert_eq!(s.state(), SessionState::Disconnected);
    assert!(s.begin_connect());
    s.connect_finished(true);
    assert_eq!(s.state(), SessionState::Open);
    assert_eq!(s.prepare_send(&frame), Ok(kiss_encode(0, &frame.encode())));
    s.transport_closed();
    assert_eq!(s.state(), SessionState::Closed);
    assert_eq!(s.prepare_send(&frame), Err(SendError::NotOpen));
    s.disconnect();
    s.disconnect();
    assert_eq!(s.state(), SessionState::Closed);
}

#[test]
fn message_from_frames() {
    let m = Message::from_frame(&ui_frame(vec![], "héllo".as_bytes()));
    assert_eq!(m.source, "N0CALL-1");
    assert_eq!(m.destination, "HARECH-0");
    assert_eq!(m.content, "héllo");
    let bad = Message::from_frame(&ui_frame(vec![], &[0xFF, 0xFE]));
    assert_eq!(bad.content, "");
    let mut rr = ui_frame(vec![], b"");
    rr.content = FrameContent::ReceiveReady { recv_seq: 3, poll_or_final: false };
    assert_eq!(Message::from_frame(&rr).content, "Receive Ready, seq 3");
    rr.content = FrameContent::ReceiveNotReady { recv_seq: 7, poll_or_final: true };
    assert_eq!(Message::from_frame(&rr).content, "Receive Not Ready, seq 7");
    rr.content = FrameContent::Unsupported { control: 0x2F };
    assert_eq!(Message::from_frame(&rr).content, "Unsupported frame content");
}

#[test]
fn chat_state_records_traffic() {
    let mut app = LinbpqApp::default();
    assert!(app.received_messages().is_empty());
    app.set_callsign("N0CALL-1".to_string());
    app.set_message_input("hello".to_string());
    app.record_send("HARECH-0".to_string(), Ok(()));
    let m = &app.received_messages()[0];
    assert_eq!((m.source.as_str(), m.destination.as_str(), m.content.as_str()), ("N0CALL-1", "HARECH-0", "hello"));
    assert_eq!(app.message_input(), "");
    app.record_send("HARECH-0".to_string(), Err("refused".to_string()));
    let e = &app.received_messages()[1];
    assert_eq!((e.source.as_str(), e.destination.as_str(), e.content.as_str()), ("System", "N/A", "Error: refused"));
    app.record_listen_error("bad address".to_string());
    assert_eq!(app.received_messages()[2].content, "Error starting listener: bad address");
    app.clear_messages();
    assert!(app.received_messages().is_empty());
    assert_eq!(app.callsign(), "N0CALL-1");
}

#[test]
fn endpoint_parsing() {
    let e = Endpoint::parse("kiss-tcp:localhost:8001").unwrap();
    assert_eq!(e.kind, TransportKind::KissTcp);
    assert_eq!(e.target, "localhost:8001");
    let s = Endpoint::parse("kiss-serial:/dev/ttyUSB0:9600").unwrap();
    assert_eq!(s.kind, TransportKind::KissSerial);
    assert_eq!(s.target, "/dev/ttyUSB0:9600");
    let t = Endpoint::parse("tnc:tcpkiss:localhost:8001").unwrap();
    assert_eq!(t.kind, TransportKind::Tnc);
    assert_eq!(t.target, "tnc:tcpkiss:localhost:8001");
    assert_eq!(Endpoint::parse("tnc:"), Err(EndpointError::MissingTarget));
    assert_eq!(Endpoint::parse("tcpkiss:localhost:8001"), Err(EndpointError::UnknownScheme));
    assert_eq!(Endpoint::parse("kiss-tcp:"), Err(EndpointError::MissingTarget));
    assert_eq!(Endpoint::parse(""), Err(EndpointError::UnknownScheme));
}

#[test]
fn ax25_crate_frames_convert() {
    let src: ax25::frame::Address = "N0CALL".parse().unwrap();
    let dst: ax25::frame::Address = "HARECH".parse().unwrap();
    let theirs = ax25::frame::Ax25Frame::new_simple_ui_frame(src, dst, b"hi".to_vec());
    let ours = Ax25Frame::from_ax25(&theirs).unwrap();
    assert_eq!(ours, text_frame(&addr("N0CALL-0"), &addr("HARECH-0"), "hi"));

    let f = ui_frame(vec![addr("WIDE1-1")], b"via digi");
    let converted = f.to_ax25().unwrap();
    assert_eq!(converted.source.callsign(), "N0CALL");
    assert_eq!(converted.source.ssid(), 1);
    assert_eq!(converted.route.len(), 1);
    assert_eq!(converted.info_string_lossy(), Some("via digi".to_string()));
    assert_eq!(Ax25Frame::from_ax25(&converted).unwrap(), f);
}

#[test]
fn ax25_crate_refuses_unknown_supervisory_type() {
    let mut f = ui_frame(vec![], b"");
    f.content = FrameContent::Unsupported { control: 0x0D };
    assert!(f.to_ax25().is_none());
    let text = text_frame(&addr("N0CALL-1"), &addr("HARECH-0"), "hi");
    assert!(text.to_ax25().is_some());
}
