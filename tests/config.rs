use minihttp::client::encode_request;
use minihttp::config::parse_env;
use minihttp::method::Method;
use minihttp::request::parse_head;

#[test]
fn env_file_gives_all_three_settings() {
    let env = parse_env(b"DISCORD_TOKEN=abc\nPUBLIC_KEY=00ff\nAPP_ID=42\n").unwrap();
    assert_eq!(env.token, b"abc".to_vec());
    assert_eq!(env.pubkey, b"00ff".to_vec());
    assert_eq!(env.appid, b"42".to_vec());
}

#[test]
fn env_file_order_and_repeats() {
    let env = parse_env(b"APP_ID=1\nAPP_ID=2\nPUBLIC_KEY=k\nDISCORD_TOKEN=t\nignored").unwrap();
    assert_eq!(env.appid, b"2".to_vec());
    assert_eq!(env.pubkey, b"k".to_vec());
    assert_eq!(env.token, b"t".to_vec());
}

#[test]
fn env_file_refusals() {
    assert!(parse_env(b"").is_none());
    assert!(parse_env(b"DISCORD_TOKEN=abc\nPUBLIC_KEY=00ff\n").is_none());
    assert!(parse_env(b"OTHER=1\nDISCORD_TOKEN=abc\nPUBLIC_KEY=00ff\nAPP_ID=42\n").is_none());
    assert!(parse_env(b"DISCORD_TOKEN=abc\nPUBLIC_KEY=00ff\nAPP_ID=42").is_none());
}

#[test]
fn client_request_reads_back_on_the_server() {
    let fields = vec![(b"X-A".to_vec(), b"1".to_vec()), (b"X-A".to_vec(), b"2".to_vec())];
    let bytes = encode_request(Method::Delete, b"example.org", b"/item/7", &fields, b"tail");
    let (h, n) = parse_head(&bytes).ok().unwrap();
    assert_eq!(h.method, Method::Delete);
    assert_eq!(h.path, b"/item/7".to_vec());
    assert_eq!(
        h.headers,
        vec![
            (b"Host".to_vec(), b"example.org".to_vec()),
            (b"Connection".to_vec(), b"close".to_vec()),
            (b"X-A".to_vec(), b"1".to_vec()),
            (b"X-A".to_vec(), b"2".to_vec()),
        ]
    );
    assert_eq!(&bytes[n..], b"tail");
}
