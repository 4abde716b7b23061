use bincode::Options;
use tunnel::packet::{Pack, PackKind, UnPack};
use tunnel::proto::{Bind, Data, Header, PackType, Packet};

#[test]
fn it_works() {
    let result = 2 + 2;
    assert_eq!(result, 4);
}

fn options() -> impl bincode::Options {
    bincode::DefaultOptions::new().with_fixint_encoding().with_little_endian()
}

#[test]
fn test_pack_unpack() {
    // The task message (task_id: i32, product_name: String) in the body of a data frame.
    let task = options().serialize(&(1i32, "test".to_string())).unwrap();
    let packet = Packet::with_body(PackType::Data, task);
    let data = packet.pack().unwrap();
    println!("packed:{:x?}", data);
    // read the header
    let header_size = Header::size().unwrap();
    let header = Header::unpack(&data[0..header_size]).unwrap();
    assert_eq!(header.pack_type, PackType::Data);
    assert!(header.check_flag());
    // read the body
    let (task_id, product_name): (i32, String) = options().deserialize(&data[header_size..]).unwrap();
    assert_eq!(task_id, 1);
    assert_eq!(product_name, "test".to_string());
}

#[test]
fn header_size_is_fourteen() {
    assert_eq!(Header::size().unwrap(), 14);
}

#[test]
fn header_bytes_are_little_endian_fields() {
    let h = Header::new(5, PackType::Data);
    assert!(h.check_flag());
    assert_eq!(
        h.pack().unwrap(),
        vec![0xaa, 0x55, 5, 0, 0, 0, 0, 0, 0, 0, 3, 0, 0, 0]
    );
    let h = Header::new(0x0102, PackType::DisConnect);
    assert_eq!(
        h.pack().unwrap(),
        vec![0xaa, 0x55, 2, 1, 0, 0, 0, 0, 0, 0, 6, 0, 0, 0]
    );
}

#[test]
fn header_round_trip() {
    for kind in [
        PackType::Heartbeat,
        PackType::Login,
        PackType::Logout,
        PackType::Data,
        PackType::DataEnd,
        PackType::Bind,
        PackType::DisConnect,
    ] {
        let h = Header::new(123456789, kind);
        let back = Header::unpack(&h.pack().unwrap()).unwrap();
        assert_eq!(back, h);
        assert_eq!(back.pack_type, kind);
        assert_eq!(back.body_size, 123456789);
    }
}

#[test]
fn header_unpack_refuses_bad_input() {
    let bytes = Header::new(1, PackType::Bind).pack().unwrap();
    assert!(Header::unpack(&bytes[..13]).is_err());
    let mut longer = bytes.clone();
    longer.push(0);
    assert!(Header::unpack(&longer).is_err());
    let mut unknown = bytes.clone();
    unknown[10] = 7;
    assert_eq!(
        Header::unpack(&unknown),
        Err(String::from("Custom(\"invalid value: integer `7`, expected variant index 0 <= i < 7\")"))
    );
    // a header without the marker still reads, but fails the flag check
    let mut unmarked = bytes.clone();
    unmarked[0] = 0;
    let h = Header::unpack(&unmarked).unwrap();
    assert!(!h.check_flag());
}

#[test]
fn header_unpack_names_an_unknown_kind_before_trailing_bytes() {
    let mut bytes = Header::new(3, PackType::Data).pack().unwrap();
    bytes[10] = 44;
    bytes[11] = 1;
    bytes.push(9);
    assert_eq!(
        Header::unpack(&bytes),
        Err(String::from("Custom(\"invalid value: integer `300`, expected variant index 0 <= i < 7\")"))
    );
    // with a known kind, the same extra byte is refused as trailing input
    let mut known = Header::new(3, PackType::Data).pack().unwrap();
    known.push(9);
    let err = Header::unpack(&known).unwrap_err();
    assert!(!err.starts_with("Custom(\"invalid value"));
    assert_eq!(PackType::kind_count(), 7);
}

#[test]
fn default_header_has_no_marker() {
    let h: Header = Default::default();
    assert!(!h.check_flag());
    assert_eq!(h.body_size, 0);
    assert_eq!(h.pack_type, PackType::Heartbeat);
    assert_eq!(PackType::default(), PackType::Heartbeat);
}

#[test]
fn kind_indices_follow_declaration_order() {
    assert_eq!(PackType::Heartbeat.index(), 0);
    assert_eq!(PackType::Data.index(), 3);
    assert_eq!(PackType::DisConnect.index(), 6);
    assert_eq!(PackType::from_index(5), Some(PackType::Bind));
    assert_eq!(PackType::from_index(7), None);
}

#[test]
fn new_without_data_is_empty() {
    let p = Packet::new_without_data(PackType::Heartbeat);
    assert!(p.header.check_flag());
    assert_eq!(p.header.body_size, 0);
    assert!(p.data.is_empty());
    assert_eq!(p.pack().unwrap(), Header::new(0, PackType::Heartbeat).pack().unwrap());
}

#[test]
fn packet_new_wraps_packed_data() {
    let d = Data { agent_ip_port: "a".to_string(), host: None, data: vec![1, 2] };
    let p = Packet::new(PackType::Data, Some(d.clone())).unwrap();
    let body = vec![1, 0, 0, 0, 0, 0, 0, 0, b'a', 0, 2, 0, 0, 0, 0, 0, 0, 0, 1, 2];
    assert_eq!(p.data, body);
    assert_eq!(p.header.body_size, body.len() as u64);
    let mut frame = Header::new(body.len() as u64, PackType::Data).pack().unwrap();
    frame.extend_from_slice(&body);
    assert_eq!(p.pack().unwrap(), frame);
    let none: Option<Data> = None;
    let empty = Packet::new(PackType::DataEnd, none).unwrap();
    assert_eq!(empty, Packet::new_without_data(PackType::DataEnd));
}

#[test]
fn packing_stops_at_body_size() {
    let mut p = Packet::with_body(PackType::Data, vec![9, 8, 7]);
    p.header.body_size = 2;
    let bytes = p.pack().unwrap();
    assert_eq!(bytes.len(), 16);
    assert_eq!(&bytes[14..], &[9, 8]);
}

#[test]
fn data_round_trip() {
    let d = Data {
        agent_ip_port: "127.0.0.1:5000".to_string(),
        host: Some("例子.com".to_string()),
        data: b"GET / HTTP/1.1\r\n\r\n".to_vec(),
    };
    let bytes = d.pack().unwrap();
    let expected: Vec<u8> = options()
        .serialize(&(d.agent_ip_port.clone(), d.host.clone(), d.data.clone()))
        .unwrap();
    assert_eq!(bytes, expected);
    assert_eq!(bytes[22], 1);
    assert_eq!(Data::unpack(&bytes).unwrap(), d);
}

#[test]
fn data_unpack_refuses_bad_input() {
    let d = Data { agent_ip_port: "u".to_string(), host: Some("h".to_string()), data: vec![] };
    let bytes = d.pack().unwrap();
    // trailing byte
    let mut longer = bytes.clone();
    longer.push(0);
    assert!(Data::unpack(&longer).is_err());
    // truncated
    assert!(Data::unpack(&bytes[..bytes.len() - 1]).is_err());
    // option tag other than 0 or 1
    let mut tag = bytes.clone();
    tag[9] = 2;
    assert!(Data::unpack(&tag).is_err());
    // invalid UTF-8 in the address
    let mut utf = bytes.clone();
    utf[8] = 0xff;
    assert!(Data::unpack(&utf).is_err());
    assert!(Data::unpack(&[]).is_err());
}

#[test]
fn bind_round_trip() {
    let b = Bind { host: "example.com".to_string() };
    let bytes = b.pack().unwrap();
    assert_eq!(&bytes[..8], &[11, 0, 0, 0, 0, 0, 0, 0]);
    assert_eq!(&bytes[8..], b"example.com");
    assert_eq!(Bind::unpack(&bytes).unwrap(), b);
    assert!(Bind::unpack(&bytes[..10]).is_err());
}

#[test]
fn packing_errors_are_handed_on() {
    let ok = Packet::from_packed(PackType::Bind, Ok(vec![1, 2]));
    assert_eq!(ok.unwrap(), Packet::with_body(PackType::Bind, vec![1, 2]));
    let err = Packet::from_packed(PackType::Bind, Err("boom".to_string()));
    assert_eq!(err, Err("boom".to_string()));
    let default: tunnel::packet::Header<PackType> = Default::default();
    assert_eq!(default.pack_type, PackType::Heartbeat);
}
