use tunnel::frame::{FrameFault, FrameReader, FrameStep};
use tunnel::http::{RequestFault, RequestReader, RequestStep};
use tunnel::packet::{Pack, UnPack};
use tunnel::proto::{Bind, Data, Header, PackType, Packet};

fn feed_all(reader: &mut FrameReader, bytes: &[u8], chunk: usize) -> Vec<FrameStep> {
    let mut steps = Vec::new();
    let mut at = 0;
    while at < bytes.len() {
        let want = reader.wanted() as usize;
        let n = chunk.min(want).min(bytes.len() - at);
        steps.push(reader.on_bytes(&bytes[at..at + n]));
        at += n;
    }
    steps
}

fn ready(step: FrameStep) -> Packet {
    match step {
        FrameStep::Ready(p) => p,
        other => panic!("not ready: {:?}", other),
    }
}

#[test]
fn reads_data_frame_in_any_chunks() {
    let d = Data { agent_ip_port: "1.2.3.4:5".to_string(), host: Some("h".to_string()), data: vec![7; 40] };
    let p = Packet::new(PackType::Data, Some(d)).unwrap();
    let bytes = p.pack().unwrap();
    for chunk in [1, 3, 14, 1000] {
        let mut reader = FrameReader::new();
        let mut steps = feed_all(&mut reader, &bytes, chunk);
        let last = steps.pop().unwrap();
        assert!(steps.iter().all(|s| matches!(s, FrameStep::Continue)));
        assert_eq!(ready(last), p);
        assert_eq!(reader.wanted(), 14);
    }
}

#[test]
fn reads_bind_and_heartbeat_frames() {
    let b = Packet::new(PackType::Bind, Some(Bind { host: "x.org".to_string() })).unwrap();
    let mut bytes = b.pack().unwrap();
    bytes.extend(Packet::new_without_data(PackType::Heartbeat).pack().unwrap());
    let mut reader = FrameReader::new();
    let mut steps = feed_all(&mut reader, &bytes, 1000);
    let heartbeat = ready(steps.pop().unwrap());
    let bind = ready(steps.pop().unwrap());
    assert_eq!(bind, b);
    assert_eq!(Bind::unpack(&bind.data).unwrap().host, "x.org");
    assert_eq!(heartbeat, Packet::new_without_data(PackType::Heartbeat));
}

#[test]
fn data_end_body_is_dropped() {
    let p = Packet::with_body(PackType::DataEnd, vec![1, 2, 3]);
    let mut reader = FrameReader::new();
    let mut steps = feed_all(&mut reader, &p.pack().unwrap(), 1000);
    assert_eq!(ready(steps.pop().unwrap()), Packet::new_without_data(PackType::DataEnd));
}

#[test]
fn end_of_stream_and_failures() {
    let mut reader = FrameReader::new();
    assert!(matches!(reader.on_bytes(&[0xaa]), FrameStep::Continue));
    assert_eq!(reader.wanted(), 13);
    assert_eq!(ready(reader.on_closed()), Packet::new_without_data(PackType::DisConnect));
    assert_eq!(ready(reader.on_failed()), Packet::new_without_data(PackType::DisConnect));

    // a failed read in a data body ends reading
    let mut reader = FrameReader::new();
    let head = Header::new(10, PackType::Data).pack().unwrap();
    assert!(matches!(reader.on_bytes(&head), FrameStep::Continue));
    assert_eq!(reader.wanted(), 10);
    assert!(matches!(reader.on_failed(), FrameStep::Fault(FrameFault::ReadFailed)));

    // in a bind body the read is tried again
    let mut reader = FrameReader::new();
    let head = Header::new(10, PackType::Bind).pack().unwrap();
    assert!(matches!(reader.on_bytes(&head), FrameStep::Continue));
    assert!(matches!(reader.on_failed(), FrameStep::Continue));
    assert_eq!(reader.wanted(), 10);
    assert_eq!(ready(reader.on_closed()), Packet::new_without_data(PackType::DisConnect));
}

#[test]
fn bad_headers() {
    let mut reader = FrameReader::new();
    let mut unmarked = Header::new(0, PackType::Heartbeat).pack().unwrap();
    unmarked[1] = 0;
    assert!(matches!(reader.on_bytes(&unmarked), FrameStep::Fault(FrameFault::BadFlag)));

    let mut reader = FrameReader::new();
    let mut unknown = Header::new(0, PackType::Heartbeat).pack().unwrap();
    unknown[10] = 9;
    assert_eq!(ready(reader.on_bytes(&unknown)), Packet::new_without_data(PackType::DisConnect));

    let mut reader = FrameReader::new();
    let login = Header::new(0, PackType::Login).pack().unwrap();
    assert!(matches!(reader.on_bytes(&login), FrameStep::Unsupported(PackType::Login)));

    let mut reader = FrameReader::new();
    let garbage = Packet::with_body(PackType::Data, vec![1, 2, 3]).pack().unwrap();
    let mut steps = feed_all(&mut reader, &garbage, 1000);
    assert!(matches!(steps.pop().unwrap(), FrameStep::Fault(FrameFault::BadData)));

    let mut reader = FrameReader::new();
    let empty_data = Header::new(0, PackType::Data).pack().unwrap();
    assert!(matches!(reader.on_bytes(&empty_data), FrameStep::Fault(FrameFault::BadData)));

    let mut reader = FrameReader::new();
    let bad_bind = Packet::with_body(PackType::Bind, vec![1, 0, 0, 0, 0, 0, 0, 0]).pack().unwrap();
    let mut steps = feed_all(&mut reader, &bad_bind, 1000);
    assert!(matches!(steps.pop().unwrap(), FrameStep::Fault(FrameFault::BadBind)));
}

fn request_ready(step: RequestStep) -> Packet {
    match step {
        RequestStep::Ready(p) => p,
        other => panic!("not ready: {:?}", other),
    }
}

#[test]
fn request_without_body() {
    let mut reader = RequestReader::new("9.9.9.9:1".to_string());
    let req = b"GET / HTTP/1.1\r\nHost: example.com\r\nAccept: */*\r\n\r\n";
    assert!(matches!(reader.on_bytes(&req[..20]), RequestStep::Continue));
    let p = request_ready(reader.on_bytes(&req[20..]));
    assert_eq!(p.header.pack_type, PackType::Data);
    let d = Data::unpack(&p.data).unwrap();
    assert_eq!(d.agent_ip_port, "9.9.9.9:1");
    assert_eq!(d.host, Some("example.com".to_string()));
    assert_eq!(d.data, req.to_vec());
}

#[test]
fn request_with_body_in_pieces() {
    let mut reader = RequestReader::new("u".to_string());
    let head = b"POST /a HTTP/1.1\r\nContent-Length: 10\r\nHost: Host: svc\r\n\r\n";
    let mut first = head.to_vec();
    first.extend_from_slice(b"0123");
    assert!(matches!(reader.on_bytes(&first), RequestStep::Continue));
    assert_eq!(reader.body_wanted(), Some(6));
    assert!(matches!(reader.on_bytes(b"45"), RequestStep::Continue));
    assert_eq!(reader.body_wanted(), Some(4));
    let p = request_ready(reader.on_bytes(b"6789"));
    let d = Data::unpack(&p.data).unwrap();
    // every leading copy of the header name is taken off
    assert_eq!(d.host, Some("svc".to_string()));
    let mut whole = head.to_vec();
    whole.extend_from_slice(b"0123456789");
    assert_eq!(d.data, whole);
    assert_eq!(reader.body_wanted(), None);
}

#[test]
fn request_faults() {
    let mut reader = RequestReader::new("u".to_string());
    assert!(matches!(
        reader.on_bytes(b"GET / HTTP/1.1\r\nAccept: x\r\n\r\n"),
        RequestStep::Fault(RequestFault::NoHost)
    ));
    let mut reader = RequestReader::new("u".to_string());
    assert!(matches!(
        reader.on_bytes(b"GET / HTTP/1.1\r\nHost: a\r\nContent-Length: 1x\r\n\r\n"),
        RequestStep::Fault(RequestFault::BadContentLength)
    ));
    let mut reader = RequestReader::new("u".to_string());
    assert!(matches!(
        reader.on_bytes(b"GET / HTTP/1.1\r\nHost: a\r\nContent-Length: 1\r\n\r\nabc"),
        RequestStep::Fault(RequestFault::BodyOverrun)
    ));
    let mut reader = RequestReader::new("u".to_string());
    let p = request_ready(reader.on_bytes(b"GET / HTTP/1.1\r\nHost: a\r\nContent-Length: +2\r\n\r\nab"));
    assert_eq!(Data::unpack(&p.data).unwrap().host, Some("a".to_string()));
    let mut reader = RequestReader::new("u".to_string());
    assert!(matches!(reader.on_bytes(b"GET / HT"), RequestStep::Continue));
    assert_eq!(request_ready(reader.on_end()), Packet::new_without_data(PackType::DisConnect));
}

#[test]
fn host_with_invalid_utf8_is_read_lossily() {
    let mut reader = RequestReader::new("u".to_string());
    let p = request_ready(reader.on_bytes(b"GET / HTTP/1.1\r\nHost: a\xffb\r\n\r\n"));
    let d = Data::unpack(&p.data).unwrap();
    assert_eq!(d.host, Some("a\u{FFFD}b".to_string()));
}

#[test]
fn request_crosses_the_tunnel_unchanged() {
    let request = b"POST /x HTTP/1.1\r\nHost: svc.test\r\nContent-Length: 3\r\n\r\nabc".to_vec();
    let mut reader = RequestReader::new("5.6.7.8:9".to_string());
    let packet = request_ready(reader.on_bytes(&request));
    let bytes = packet.pack().unwrap();
    let mut frames = FrameReader::new();
    let mut steps = feed_all(&mut frames, &bytes, 7);
    let received = ready(steps.pop().unwrap());
    assert_eq!(received, packet);
    match tunnel::session::delivery(&received) {
        tunnel::session::Delivery::Write(v) => assert_eq!(v, request),
        other => panic!("{:?}", other),
    }
}
