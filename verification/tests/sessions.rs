use qapi::BrokenReader;
use qapi::ErrorClass;
use qapi::Json;
use qapi::MemReader;
use qapi::MemWriter;
use qapi::QMPCapability;
use qapi::Qapi;
use qapi::QapiCapabilities;
use qapi::Qga;
use qapi::Qmp;
use qapi::SessionError;
use qapi::Stream;
use qapi::query_version;

type MemStream = Stream<MemReader, MemWriter>;

fn mem_stream(input: &str) -> MemStream {
    Stream::new(MemReader::new(input.to_string()), MemWriter::new())
}

fn sent_of(stream: MemStream) -> String {
    let (_, w) = stream.into_inner();
    w.sent_text()
}

const GREETING: &str = "{\"QMP\":{\"version\":{\"qemu\":{\"major\":4,\"minor\":2,\"micro\":0},\"package\":\"\"},\"capabilities\":[]}}\n";

#[test]
fn execute_returns_payload_and_leaves_queue_alone() {
    let mut qmp = Qmp::new(mem_stream("{\"return\": {}}\n"));
    let got = qmp.execute(&query_version {}).expect("no transport failure");
    assert_eq!(got, Ok(Json::Obj(vec![])));
    assert!(qmp.events().is_empty());
    assert_eq!(
        sent_of(qmp.into_inner()),
        "{\"execute\":\"query-version\"}\n"
    );
}

#[test]
fn events_drain_in_arrival_order_then_empty() {
    let input = format!(
        "{}{}{}",
        "{\"event\":\"POWERDOWN\",\"data\":{},\"timestamp\":{\"seconds\":1,\"microseconds\":2}}\n",
        "{\"event\":\"RESET\",\"data\":{},\"timestamp\":{\"seconds\":3,\"microseconds\":4}}\n",
        "{\"return\": 42}\n",
    );
    let input = input.as_str();
    let mut qmp = Qmp::new(mem_stream(input));
    let got = qmp.execute(&query_version {}).unwrap();
    assert_eq!(got, Ok(Json::Int(42)));
    let events = qmp.events();
    assert_eq!(events.len(), 2);
    assert_eq!(events[0].name, "POWERDOWN");
    assert_eq!(events[0].timestamp.seconds, 1);
    assert_eq!(events[1].name, "RESET");
    assert_eq!(events[1].timestamp.microseconds, 4);
    assert!(qmp.events().is_empty());
}

#[test]
fn shutdown_event_while_awaiting_integer_result() {
    let input = format!(
        "{}{}",
        "{\"event\":\"SHUTDOWN\",\"data\":{},\"timestamp\":{\"seconds\":1,\"microseconds\":0}}\n",
        "{\"return\":42}\n",
    );
    let input = input.as_str();
    let mut qmp = Qmp::new(mem_stream(input));
    let got = qmp.execute(&query_version {}).unwrap();
    assert_eq!(got, Ok(Json::Int(42)));
    let events = qmp.events();
    assert_eq!(events.len(), 1);
    assert_eq!(events[0].name, "SHUTDOWN");
}

#[test]
fn handshake_returns_greeting_unchanged() {
    let input = format!("{}{}", GREETING, "{\"return\":{}}\n");
    let mut qmp = Qmp::new(mem_stream(&input));
    let caps = qmp.handshake().expect("handshake succeeds");
    assert_eq!(caps.version.qemu.major, 4);
    assert_eq!(caps.version.qemu.minor, 2);
    assert_eq!(caps.version.qemu.micro, 0);
    assert_eq!(caps.version.package, "");
    assert!(caps.capabilities.is_empty());
    let wrapped = QapiCapabilities { QMP: caps };
    assert!(!wrapped.supports_oob());
    assert!(wrapped.capabilities().is_empty());
    assert_eq!(
        sent_of(qmp.into_inner()),
        "{\"execute\":\"qmp_capabilities\"}\n"
    );
}

#[test]
fn handshake_queues_events_met_during_negotiation() {
    let input = format!(
        "{}{}{}",
        GREETING,
        "{\"event\":\"NIC_RX\",\"data\":{},\"timestamp\":{\"seconds\":5,\"microseconds\":6}}\n",
        "{\"return\":{}}\n",
    );
    let mut qmp = Qmp::new(mem_stream(&input));
    qmp.handshake().unwrap();
    let events = qmp.events();
    assert_eq!(events.len(), 1);
    assert_eq!(events[0].name, "NIC_RX");
}

#[test]
fn handshake_rejects_response_as_first_line() {
    let mut qmp = Qmp::new(mem_stream("{\"return\": {}}\n"));
    assert_eq!(qmp.handshake().unwrap_err(), SessionError::InvalidData);
}

#[test]
fn handshake_oob_capability_recognized_unknown_ignored() {
    let input = format!(
        "{}{}",
        "{\"QMP\":{\"version\":{\"qemu\":{\"major\":9,\"minor\":0,\"micro\":1},\"package\":\"v9.0.1\"},\"capabilities\":[\"oob\",\"future-cap\",7]}}\n",
        "{\"return\":{}}\n",
    );
    let input = input.as_str();
    let mut qmp = Qmp::new(mem_stream(input));
    let caps = qmp.handshake().unwrap();
    let wrapped = QapiCapabilities { QMP: caps };
    assert!(wrapped.supports_oob());
    assert_eq!(wrapped.capabilities(), vec![QMPCapability::oob]);
}

#[test]
fn execute_surfaces_remote_error_and_session_survives() {
    let input = format!(
        "{}{}",
        "{\"error\":{\"class\":\"CommandNotFound\",\"desc\":\"no such command\"}}\n",
        "{\"return\":{}}\n",
    );
    let input = input.as_str();
    let mut qmp = Qmp::new(mem_stream(input));
    let got = qmp.execute(&query_version {}).unwrap();
    match got {
        Err(e) => {
            assert_eq!(e.class, ErrorClass::CommandNotFound);
            assert_eq!(e.desc, "no such command");
        },
        Ok(v) => panic!("expected a remote error, got {:?}", v),
    }
    let again = qmp.execute(&query_version {}).unwrap();
    assert_eq!(again, Ok(Json::Obj(vec![])));
}

#[test]
fn execute_fails_with_unexpected_eof_on_closed_stream() {
    let mut qmp = Qmp::new(mem_stream(""));
    assert_eq!(
        qmp.execute(&query_version {}).unwrap_err(),
        SessionError::UnexpectedEof
    );
}

#[test]
fn execute_fails_with_decode_on_garbled_line() {
    let mut qmp = Qmp::new(mem_stream("not json at all\n"));
    assert_eq!(
        qmp.execute(&query_version {}).unwrap_err(),
        SessionError::Decode
    );
}

#[test]
fn greeting_mid_session_is_protocol_violation() {
    let input = format!("{}{}{}", GREETING, "{\"return\":{}}\n", GREETING);
    let mut qmp = Qmp::new(mem_stream(&input));
    qmp.handshake().unwrap();
    assert_eq!(
        qmp.execute(&query_version {}).unwrap_err(),
        SessionError::InvalidData
    );
}

#[test]
fn nop_discards_result_and_queues_events() {
    let input = format!(
        "{}{}",
        "{\"event\":\"RTC_CHANGE\",\"data\":{\"offset\":3},\"timestamp\":{\"seconds\":9,\"microseconds\":8}}\n",
        "{\"return\":{\"qemu\":{}}}\n",
    );
    let input = input.as_str();
    let mut qmp = Qmp::new(mem_stream(input));
    assert_eq!(qmp.nop(), Ok(()));
    let events = qmp.events();
    assert_eq!(events.len(), 1);
    assert_eq!(events[0].name, "RTC_CHANGE");
    assert_eq!(
        events[0].data,
        Json::Obj(vec![("offset".to_string(), Json::Int(3))])
    );
}

#[test]
fn qga_handshake_accepts_exact_echo() {
    let mut qga = Qga::new(mem_stream("{\"return\": 1}\n"));
    assert_eq!(qga.handshake(), Ok(()));
    assert_eq!(
        sent_of(qga.into_inner()),
        "{\"execute\":\"guest-sync\",\"arguments\":{\"id\":1}}\n"
    );
}

#[test]
fn qga_handshake_rejects_wrong_echo_despite_success() {
    let mut qga = Qga::new(mem_stream("{\"return\": 999}\n"));
    assert_eq!(qga.handshake().unwrap_err(), SessionError::InvalidData);
}

#[test]
fn qga_handshake_surfaces_remote_error() {
    let input = "{\"error\":{\"class\":\"GenericError\",\"desc\":\"boom\"}}\n";
    let mut qga = Qga::new(mem_stream(input));
    match qga.handshake().unwrap_err() {
        SessionError::Remote(e) => {
            assert_eq!(e.class, ErrorClass::GenericError);
            assert_eq!(e.desc, "boom");
        },
        other => panic!("expected a remote error, got {:?}", other),
    }
}

#[test]
fn qga_rejects_non_response_shape() {
    let input = "{\"event\":\"X\",\"data\":{},\"timestamp\":{\"seconds\":0,\"microseconds\":0}}\n";
    let mut qga = Qga::new(mem_stream(input));
    assert_eq!(
        qga.execute(&query_version {}).unwrap_err(),
        SessionError::InvalidData
    );
}

#[test]
fn transport_fault_surfaces_as_fault() {
    let stream = Stream::new(BrokenReader, MemWriter::new());
    let mut qmp = Qmp::new(stream);
    assert_eq!(
        qmp.execute(&query_version {}).unwrap_err(),
        SessionError::Fault(qapi::IoFault)
    );
}

#[test]
fn decode_line_signals_clean_eof_as_no_value() {
    let mut codec = Qapi::new(mem_stream(""));
    assert_eq!(codec.decode_line(), Ok(None));
}

#[test]
fn decode_line_reads_one_value_per_line() {
    let mut codec = Qapi::new(mem_stream("{\"a\": 1}\n[2]\n"));
    assert_eq!(
        codec.decode_line(),
        Ok(Some(Json::Obj(vec![("a".to_string(), Json::Int(1))])))
    );
    assert_eq!(codec.decode_line(), Ok(Some(Json::Arr(vec![Json::Int(2)]))));
    assert_eq!(codec.decode_line(), Ok(None));
}

#[test]
fn stream_halves_are_reachable() {
    let mut stream = mem_stream("{\"return\": 3}\n");
    let _reader: &MemReader = stream.get_ref_read();
    let _writer: &MemWriter = stream.get_ref_write();
    let _reader_mut: &mut MemReader = stream.get_mut_read();
    let _writer_mut: &mut MemWriter = stream.get_mut_write();
    let (r, w) = stream.into_inner();
    let rebuilt = Stream::new(r, w);
    let mut qga = Qga::new(rebuilt);
    let got = qga.execute(&query_version {}).unwrap();
    assert_eq!(got, Ok(Json::Int(3)));
}
