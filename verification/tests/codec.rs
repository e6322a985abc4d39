use revproxy::codec::DecodeError;
use revproxy::messages::{
    CertificateAndKey, HttpFront, HttpProxyConfiguration, Instance, Order, TcpFront, TlsFront,
    TlsProxyConfiguration, Topic,
};
use revproxy::wire::{parse_http_front, parse_order, write_order};

#[test]
fn add_acl_test() {
    let raw_json = r#"{"type": "ADD_HTTP_FRONT", "data": {"app_id": "xxx", "hostname": "yyy", "path_begin": "xxx", "port": 4242}}"#;
    let command: Order = parse_order(raw_json).expect("could not parse json");
    println!("{:?}", command);
    assert!(
        command
            == Order::AddHttpFront(HttpFront {
                app_id: String::from("xxx"),
                hostname: String::from("yyy"),
                path_begin: String::from("xxx"),
            })
    );
}

#[test]
fn remove_acl_test() {
    let raw_json = r#"{"type": "REMOVE_HTTP_FRONT", "data": {"app_id": "xxx", "hostname": "yyy", "path_begin": "xxx", "port": 4242}}"#;
    let command: Order = parse_order(raw_json).expect("could not parse json");
    println!("{:?}", command);
    assert!(
        command
            == Order::RemoveHttpFront(HttpFront {
                app_id: String::from("xxx"),
                hostname: String::from("yyy"),
                path_begin: String::from("xxx"),
            })
    );
}

#[test]
fn add_instance_test() {
    let raw_json = r#"{"type": "ADD_INSTANCE", "data": {"app_id": "xxx", "ip_address": "yyy", "port": 8080}}"#;
    let command: Order = parse_order(raw_json).expect("could not parse json");
    println!("{:?}", command);
    assert!(
        command
            == Order::AddInstance(Instance {
                app_id: String::from("xxx"),
                ip_address: String::from("yyy"),
                port: 8080,
            })
    );
}

#[test]
fn remove_instance_test() {
    let raw_json = r#"{"type": "REMOVE_INSTANCE", "data": {"app_id": "xxx", "ip_address": "yyy", "port": 8080}}"#;
    let command: Order = parse_order(raw_json).expect("could not parse json");
    println!("{:?}", command);
    assert!(
        command
            == Order::RemoveInstance(Instance {
                app_id: String::from("xxx"),
                ip_address: String::from("yyy"),
                port: 8080,
            })
    );
}

#[test]
fn http_front_crash_test() {
    let raw_json = r#"{"type": "ADD_HTTP_FRONT", "data": {"app_id": "aa", "hostname": "cltdl.fr", "path_begin": ""}}"#;
    let command: Order = parse_order(raw_json).expect("could not parse json");
    println!("{:?}", command);
    assert!(
        command
            == Order::AddHttpFront(HttpFront {
                app_id: String::from("aa"),
                hostname: String::from("cltdl.fr"),
                path_begin: String::from(""),
            })
    );
}

#[test]
fn http_front_crash_test2() {
    let raw_json = r#"{"app_id": "aa", "hostname": "cltdl.fr", "path_begin": ""}"#;
    let front: HttpFront = parse_http_front(raw_json).expect("could not parse json");
    println!("{:?}", front);
    assert!(
        front
            == HttpFront {
                app_id: String::from("aa"),
                hostname: String::from("cltdl.fr"),
                path_begin: String::from(""),
            }
    );
}

fn round_trips(order: Order) {
    let text = write_order(&order);
    let back = parse_order(&text).expect("could not parse json");
    assert!(back == order);
}

#[test]
fn order_round_trip_fronts() {
    round_trips(Order::AddHttpFront(HttpFront {
        app_id: String::from("app_1"),
        hostname: String::from("example.com"),
        path_begin: String::from("/api"),
    }));
    round_trips(Order::RemoveHttpFront(HttpFront {
        app_id: String::from("app_1"),
        hostname: String::from("example.com"),
        path_begin: String::from(""),
    }));
    round_trips(Order::AddTlsFront(TlsFront {
        app_id: String::from("app_2"),
        hostname: String::from("secure.example.com"),
        path_begin: String::from("/"),
        fingerprint: vec![0, 1, 2, 255],
    }));
    round_trips(Order::RemoveTlsFront(TlsFront {
        app_id: String::from("app_2"),
        hostname: String::from("secure.example.com"),
        path_begin: String::from("/"),
        fingerprint: vec![0, 1, 2, 255],
    }));
    round_trips(Order::AddTcpFront(TcpFront {
        app_id: String::from("app_3"),
        ip_address: String::from("127.0.0.1"),
        port: 1234,
    }));
    round_trips(Order::RemoveTcpFront(TcpFront {
        app_id: String::from("app_3"),
        ip_address: String::from("127.0.0.1"),
        port: 1234,
    }));
}

#[test]
fn order_round_trip_instances_and_certs() {
    round_trips(Order::AddInstance(Instance {
        app_id: String::from("app_1"),
        ip_address: String::from("10.0.0.2"),
        port: 8080,
    }));
    round_trips(Order::RemoveInstance(Instance {
        app_id: String::from("app_1"),
        ip_address: String::from("10.0.0.2"),
        port: 8080,
    }));
    round_trips(Order::AddCertificate(CertificateAndKey {
        certificate: String::from("CERT PEM"),
        certificate_chain: vec![String::from("CHAIN 1"), String::from("CHAIN 2")],
        key: String::from("KEY PEM"),
    }));
    round_trips(Order::RemoveCertificate(vec![17, 34, 51]));
    round_trips(Order::SoftStop);
    round_trips(Order::HardStop);
    round_trips(Order::Status);
}

#[test]
fn order_round_trip_configurations() {
    round_trips(Order::HttpProxy(HttpProxyConfiguration::default()));
    round_trips(Order::TlsProxy(TlsProxyConfiguration::default()));
    let custom = HttpProxyConfiguration {
        public_address: Some(String::from("192.0.2.1")),
        ..HttpProxyConfiguration::default()
    };
    round_trips(Order::HttpProxy(custom));
}

#[test]
fn decode_errors() {
    assert_eq!(parse_order("{"), Err(DecodeError::InvalidJson));
    assert_eq!(parse_order("[1, 2]"), Err(DecodeError::NotAnObject));
    assert_eq!(parse_order(r#"{"data": {}}"#), Err(DecodeError::MissingType));
    assert_eq!(
        parse_order(r#"{"type": "ADD_HTTP_FRONT"}"#),
        Err(DecodeError::MissingData)
    );
    assert_eq!(
        parse_order(r#"{"type": "BOGUS", "data": {}}"#),
        Err(DecodeError::UnknownType)
    );
    assert_eq!(
        parse_order(r#"{"type": "ADD_HTTP_FRONT", "data": {"app_id": "x"}}"#),
        Err(DecodeError::InvalidData)
    );
    assert_eq!(
        parse_order(r#"{"type": "ADD_INSTANCE", "data": {"app_id": "x", "ip_address": "y", "port": 70000}}"#),
        Err(DecodeError::InvalidData)
    );
}

#[test]
fn wire_tag_casing() {
    let order = Order::SoftStop;
    let text = write_order(&order);
    assert!(text.contains("SOFT_STOP"));
    let order = Order::TlsProxy(TlsProxyConfiguration::default());
    let text = write_order(&order);
    assert!(text.contains("CONFIGURE_TLS_PROXY"));
}

#[test]
fn topics_per_order() {
    let front = HttpFront {
        app_id: String::from("a"),
        hostname: String::from("h"),
        path_begin: String::from("/"),
    };
    assert_eq!(
        Order::AddHttpFront(front.clone()).get_topics(),
        vec![Topic::HttpProxyConfig]
    );
    let instance = Instance {
        app_id: String::from("a"),
        ip_address: String::from("127.0.0.1"),
        port: 80,
    };
    assert_eq!(
        Order::AddInstance(instance).get_topics(),
        vec![
            Topic::HttpProxyConfig,
            Topic::TlsProxyConfig,
            Topic::TcpProxyConfig
        ]
    );
    assert_eq!(
        Order::Status.get_topics(),
        vec![
            Topic::HttpProxyConfig,
            Topic::TlsProxyConfig,
            Topic::TcpProxyConfig
        ]
    );
}

#[test]
fn http_configuration_default_values() {
    let c = HttpProxyConfiguration::default();
    assert_eq!(c.front, "127.0.0.1:8080");
    assert_eq!(c.front_timeout, 5000);
    assert_eq!(c.back_timeout, 5000);
    assert_eq!(c.max_connections, 1000);
    assert_eq!(c.buffer_size, 16384);
    assert!(c.public_address.is_none());
    assert!(c.answer_404.starts_with("HTTP/1.1 404"));
    assert!(c.answer_503.starts_with("HTTP/1.1 503"));
}

#[test]
fn tls_configuration_default_values() {
    let c = TlsProxyConfiguration::default();
    assert_eq!(c.front, "127.0.0.1:8443");
    assert_eq!(c.default_name, Some(String::from("lolcatho.st")));
    assert!(c.cipher_list.starts_with("ECDHE-ECDSA-CHACHA20-POLY1305"));
    // server preference on, compression, tickets and the dead protocol
    // versions off
    assert!(c.options & 0x0040_0000 != 0);
    assert!(c.options & 0x0002_0000 != 0);
    assert!(c.options & 0x0000_4000 != 0);
    assert!(c.options & 0x0100_0000 != 0);
    assert!(c.options & 0x0200_0000 != 0);
    assert!(c.options & 0x0400_0000 != 0);
}
