use ruueb::addr::ServerAddr;

#[test]
fn loopback_bind_string() {
    let addr = ServerAddr::local_at(7089);
    assert_eq!(addr.to_bind_string(), "127.0.0.1:7089".to_string());
}

#[test]
fn custom_address_bind_string() {
    let addr = ServerAddr::new("0.0.0.0", 80);
    assert_eq!(addr.to_bind_string(), "0.0.0.0:80".to_string());
}

#[test]
fn port_zero_renders_one_digit() {
    let addr = ServerAddr::local_at(0);
    assert_eq!(addr.to_bind_string(), "127.0.0.1:0".to_string());
}
