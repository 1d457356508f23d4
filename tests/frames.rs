use pushback_client::header::RequestGenerator;
use pushback_client::netconfig::get_default_netbricks_config;
use pushback_client::rpc::{parse_response, ParsedResponse, OP_GET, OP_INVOKE, OP_PUT};

fn generator(use_invoke: bool) -> RequestGenerator {
    RequestGenerator::new(
        [0xaa, 0xbb, 0xcc, 0xdd, 0xee, 0x01],
        [0x11, 0x22, 0x33, 0x44, 0x55, 0x02],
        0xc0a8_0001,
        0xc0a8_0002,
        0x1234,
        0x5678,
        use_invoke,
    )
}

fn be16(f: &[u8], at: usize) -> u16 {
    u16::from_be_bytes([f[at], f[at + 1]])
}

#[test]
fn header_templates() {
    let g = generator(false);
    let t = g.create_request();
    assert_eq!(t.len(), 42);
    assert_eq!(&t[0..6], &[0x11, 0x22, 0x33, 0x44, 0x55, 0x02]);
    assert_eq!(&t[6..12], &[0xaa, 0xbb, 0xcc, 0xdd, 0xee, 0x01]);
    assert_eq!(be16(&t, 12), 0x0800);
    assert_eq!(t[14], 0x45);
    assert_eq!(be16(&t, 16), 20);
    assert_eq!(t[22], 128);
    assert_eq!(&t[26..30], &[0xc0, 0xa8, 0, 1]);
    assert_eq!(&t[30..34], &[0xc0, 0xa8, 0, 2]);
    assert_eq!(be16(&t, 34), 0x1234);
    assert_eq!(be16(&t, 36), 0x5678);
    assert_eq!(be16(&t, 38), 8);
    assert_eq!(be16(&t, 40), 0);
}

#[test]
fn identical_config_identical_templates() {
    let a = generator(true);
    let b = generator(true);
    assert_eq!(a.create_request(), b.create_request());
    assert_eq!(
        a.create_get_request(3, 1, &[1, 2], 9),
        b.create_get_request(3, 1, &[1, 2], 9)
    );
}

#[test]
fn fixup_sets_lengths() {
    let g = generator(false);
    let mut f = g.create_request();
    f.extend_from_slice(&[0u8; 100]);
    let f = RequestGenerator::fixup_header_length_fields(f);
    assert_eq!(be16(&f, 38), 108);
    assert_eq!(be16(&f, 16), 128);
}

#[test]
fn get_request_layout() {
    let g = generator(false);
    let key = [9u8; 30];
    let f = g.create_get_request(5, 1, &key, 0x0102_0304_0506_0708);
    assert_eq!(f.len(), 42 + 13 + 10 + 30);
    assert_eq!(f[42], OP_GET);
    assert_eq!(&f[43..47], &5u32.to_le_bytes());
    assert_eq!(&f[47..55], &0x0102_0304_0506_0708u64.to_le_bytes());
    assert_eq!(&f[55..63], &1u64.to_le_bytes());
    assert_eq!(&f[63..65], &30u16.to_le_bytes());
    assert_eq!(&f[65..], &key);
    assert_eq!(be16(&f, 38) as usize, 8 + 13 + 10 + 30);
    assert_eq!(be16(&f, 16) as usize, 28 + 13 + 10 + 30);
}

#[test]
fn put_request_layout() {
    let g = generator(false);
    let f = g.create_put_request(2, 1, &[1, 2, 3, 4], &[0; 6], 77);
    assert_eq!(f[42], OP_PUT);
    assert_eq!(&f[63..65], &4u16.to_le_bytes());
    assert_eq!(&f[65..67], &6u16.to_le_bytes());
    assert_eq!(&f[67..71], &[1, 2, 3, 4]);
    assert_eq!(f.len(), 71 + 6);
}

#[test]
fn invoke_request_layout() {
    let g = generator(true);
    let payload = b"pushbackARGS";
    let f = g.create_invoke_request(7, 8, 4, payload, 5);
    assert_eq!(f[42], OP_INVOKE);
    assert_eq!(&f[55..59], &8u32.to_le_bytes());
    assert_eq!(&f[59..63], &4u32.to_le_bytes());
    assert_eq!(&f[63..], payload);
}

#[test]
fn generate_request_kinds() {
    let mut g = generator(true);
    let f = g.generate_request(11);
    assert_eq!(f[42], OP_INVOKE);
    assert_eq!(&f[43..47], &1u32.to_le_bytes());
    assert_eq!(&f[55..59], &3u32.to_le_bytes());
    assert_eq!(&f[59..63], &38u32.to_le_bytes());
    assert_eq!(&f[63..66], b"get");
    assert_eq!(&f[66..74], &1u64.to_le_bytes());
    assert_eq!(&f[74..], &[0u8; 30]);
    assert_eq!(g.requests_sent, 1);
    let mut n = generator(false);
    let f = n.generate_request(12);
    assert_eq!(f[42], OP_GET);
    assert_eq!(f.len(), 42 + 23 + 30);
}

#[test]
fn parse_response_kinds() {
    let mut f = vec![0u8; 42];
    f.push(OP_GET);
    f.extend_from_slice(&6u32.to_le_bytes());
    f.extend_from_slice(&123u64.to_le_bytes());
    f.push(1);
    f.extend_from_slice(&[4, 5]);
    match parse_response(&f) {
        ParsedResponse::GetOk { stamp, tenant, payload } => {
            assert_eq!(stamp, 123);
            assert_eq!(tenant, 6);
            assert_eq!(payload, vec![4, 5]);
        }
        _ => panic!("expected a get response"),
    }
    f[42] = OP_INVOKE;
    f[55] = 2;
    assert!(matches!(
        parse_response(&f),
        ParsedResponse::InvokePushback { stamp: 123, tenant: 6, .. }
    ));
    f[55] = 1;
    assert!(matches!(parse_response(&f), ParsedResponse::InvokeOk { stamp: 123 }));
    f[55] = 9;
    assert!(matches!(parse_response(&f), ParsedResponse::Unknown));
    f[42] = OP_PUT;
    assert!(matches!(parse_response(&f), ParsedResponse::PutOk { stamp: 123 }));
    assert!(matches!(parse_response(&f[..50]), ParsedResponse::Unknown));
}

#[test]
fn default_netbricks_config() {
    let c = get_default_netbricks_config();
    assert_eq!(c.name, "client");
    assert!(!c.secondary);
    assert_eq!(c.primary_core, 0);
    assert_eq!(c.cores, vec![1]);
    assert!(c.strict);
    assert_eq!(c.pool_size, 2047);
    assert_eq!(c.cache_size, 64);
    assert!(c.dpdk_args.is_none());
    assert_eq!(c.ports.len(), 1);
    let p = &c.ports[0];
    assert_eq!(p.name, "0000:04:00.1");
    assert_eq!(p.rx_queues, vec![1]);
    assert_eq!(p.tx_queues, vec![1]);
    assert_eq!(p.rxd, 256);
    assert_eq!(p.txd, 256);
    assert!(!p.loopback && !p.tso && !p.csum);
}
