use extruder_telemetry::parser::SystemStatus;
use extruder_telemetry::ports::{PortInfo, PortKind};
use extruder_telemetry::session::{Event, InitBlock, ParserState, Session};

const HEADER: &str = "Time\tSetT1\tTemp1\tdc1\tErr1\tSetT2\tTemp2\tdc2\tErr2\tSetT3\tTemp3\tdc3\tErr3\tSetT4\tTemp4\tdc4\tErr4\tintT4\tExtCur\tExtPWM\tExtTmp\tUnused\tFAULT\tSetRPM\tRPM\tFT\tFTAVG\tPuller\tMemFree\tStatus\tWndrSpd\tPosSpd\tLength\tVolume\tSpDia\tSpFill\tFsIntT";
const DATA: &str = "1\t265\t49.25\t0\t0\t275\t76.25\t0\t0\t265\t68.25\t0\t0\t255\t82.50\t0\t0\t21.75\t0\t0\t23\t0\t0\t1500\t0\t0\t0\t640\t1689\tIDLE\t271\t0\t0\t0\t105\t0\t21000";

#[test]
fn boot_header_data_sequencing() {
    let mut s = Session::new();
    assert_eq!(s.state, ParserState::Init);

    let evs = s.handle_line("bootLine1");
    assert_eq!(evs, vec![Event::InitLine("bootLine1".to_string())]);
    assert_eq!(s.state, ParserState::Init);

    let evs = s.handle_line("bootLine2");
    assert_eq!(evs, vec![Event::InitLine("bootLine2".to_string())]);

    let evs = s.handle_line(HEADER);
    assert_eq!(evs.len(), 2);
    assert_eq!(evs[0], Event::InitBlockReady("bootLine1\nbootLine2".to_string()));
    assert_eq!(evs[1], Event::HeaderDetected(HEADER.to_string()));
    assert_eq!(s.state, ParserState::HeaderDetected);

    let evs = s.handle_line(DATA);
    assert_eq!(evs.len(), 1);
    match &evs[0] {
        Event::Row(row) => {
            assert_eq!(row.time, "1");
            assert_eq!(row.status, SystemStatus::IDLE);
        },
        other => panic!("expected a row, got {:?}", other),
    }
    assert_eq!(s.state, ParserState::DataStreaming);
}

#[test]
fn header_without_boot_lines_emits_no_init_block() {
    let mut s = Session::new();
    let evs = s.handle_line(HEADER);
    assert_eq!(evs, vec![Event::HeaderDetected(HEADER.to_string())]);
    assert_eq!(s.state, ParserState::HeaderDetected);
}

#[test]
fn midstream_header_does_not_regress_phase() {
    let mut s = Session::new();
    s.handle_line(HEADER);
    s.handle_line(DATA);
    assert_eq!(s.state, ParserState::DataStreaming);

    let evs = s.handle_line(HEADER);
    assert_eq!(evs, vec![Event::HeaderDetected(HEADER.to_string())]);
    assert_eq!(s.state, ParserState::DataStreaming);

    // The stream goes on afterwards.
    let evs = s.handle_line(DATA);
    assert!(matches!(evs[0], Event::Row(_)));
    assert_eq!(s.state, ParserState::DataStreaming);
}

#[test]
fn bad_line_warns_and_stream_continues() {
    let mut s = Session::new();
    s.handle_line(HEADER);

    let evs = s.handle_line("garbage line");
    assert_eq!(evs.len(), 1);
    assert!(matches!(evs[0], Event::ParseWarning(_)));
    assert_eq!(s.state, ParserState::HeaderDetected);

    let evs = s.handle_line(DATA);
    assert!(matches!(evs[0], Event::Row(_)));
    assert_eq!(s.state, ParserState::DataStreaming);

    let evs = s.handle_line("");
    assert!(matches!(evs[0], Event::ParseWarning(_)));
    assert_eq!(s.state, ParserState::DataStreaming);
}

#[test]
fn reset_returns_to_init_and_keeps_boot_text() {
    let mut s = Session::new();
    s.handle_line("bootLine1");
    s.handle_line(HEADER);
    s.handle_line(DATA);
    assert_eq!(s.state, ParserState::DataStreaming);

    s.reset();
    assert_eq!(s.state, ParserState::Init);

    // On reconnection the old boot text is flushed again with the header.
    let evs = s.handle_line(HEADER);
    assert_eq!(evs.len(), 2);
    assert_eq!(evs[0], Event::InitBlockReady("bootLine1".to_string()));
    assert_eq!(evs[1], Event::HeaderDetected(HEADER.to_string()));
    assert_eq!(s.state, ParserState::HeaderDetected);
}

#[test]
fn init_block_accumulates_and_joins() {
    let mut b = InitBlock::new();
    assert!(b.drain_if_nonempty().is_none());
    b.push("one");
    assert_eq!(b.drain_if_nonempty(), Some("one".to_string()));
    b.push("two");
    b.push("three");
    assert_eq!(b.drain_if_nonempty(), Some("one\ntwo\nthree".to_string()));
}

#[test]
fn port_kind_labels() {
    assert_eq!(PortKind::Usb.label(), "USB");
    assert_eq!(PortKind::Pci.label(), "PCI");
    assert_eq!(PortKind::Bluetooth.label(), "Bluetooth");
    assert_eq!(PortKind::Unknown.label(), "Unknown");

    let p = PortInfo::new("/dev/ttyUSB0".to_string(), PortKind::Usb);
    assert_eq!(p.port_name, "/dev/ttyUSB0");
    assert_eq!(p.port_type, "USB");
}
