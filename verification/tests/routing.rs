use revproxy::messages::{CertificateAndKey, HttpFront, TlsFront};
use revproxy::routing::{normalize_host, HttpRouteTable, TlsRouteTable};

fn http_front(app: &str, host: &str, path: &str) -> HttpFront {
    HttpFront {
        app_id: String::from(app),
        hostname: String::from(host),
        path_begin: String::from(path),
    }
}

#[test]
fn longest_path_prefix_wins() {
    let mut table = HttpRouteTable::new();
    table.add_front(&http_front("root", "x", "/"));
    table.add_front(&http_front("api", "x", "/api"));
    assert_eq!(table.lookup("x", "/api/v1"), Some(String::from("api")));
    assert_eq!(table.lookup("x", "/other"), Some(String::from("root")));
    assert_eq!(table.lookup("x", "/api"), Some(String::from("api")));
}

#[test]
fn routing_by_host() {
    let mut table = HttpRouteTable::new();
    table.add_front(&http_front("app_a", "a.example", "/"));
    table.add_front(&http_front("app_b", "b.example", "/"));
    assert_eq!(table.lookup("b.example", "/"), Some(String::from("app_b")));
    assert_eq!(table.lookup("a.example", "/x"), Some(String::from("app_a")));
    assert_eq!(table.lookup("c.example", "/"), None);
}

#[test]
fn host_matching_is_case_insensitive_and_ignores_trailing_dot() {
    let mut table = HttpRouteTable::new();
    table.add_front(&http_front("app_a", "A.Example", "/"));
    assert_eq!(table.lookup("a.example", "/"), Some(String::from("app_a")));
    assert_eq!(table.lookup("A.EXAMPLE.", "/"), Some(String::from("app_a")));
    assert_eq!(normalize_host("Foo.Bar."), b"foo.bar".to_vec());
    assert_eq!(normalize_host(""), b"".to_vec());
}

#[test]
fn readding_a_front_replaces_the_binding() {
    let mut table = HttpRouteTable::new();
    table.add_front(&http_front("one", "x", "/api"));
    table.add_front(&http_front("two", "x", "/api"));
    assert_eq!(table.lookup("x", "/api/v2"), Some(String::from("two")));
}

#[test]
fn removing_a_front_unbinds_it() {
    let mut table = HttpRouteTable::new();
    table.add_front(&http_front("root", "x", "/"));
    table.add_front(&http_front("api", "x", "/api"));
    table.remove_front(&http_front("api", "x", "/api"));
    assert_eq!(table.lookup("x", "/api/v1"), Some(String::from("root")));
    table.remove_front(&http_front("root", "x", "/"));
    assert_eq!(table.lookup("x", "/anything"), None);
}

#[test]
fn no_match_without_prefix() {
    let mut table = HttpRouteTable::new();
    table.add_front(&http_front("api", "x", "/api"));
    assert_eq!(table.lookup("x", "/"), None);
    assert_eq!(table.lookup("x", "/ap"), None);
}

fn cert(tag: &str) -> CertificateAndKey {
    CertificateAndKey {
        certificate: format!("CERT {}", tag),
        certificate_chain: vec![],
        key: format!("KEY {}", tag),
    }
}

#[test]
fn sni_selects_the_matching_certificate() {
    let mut table = TlsRouteTable::new();
    table.add_certificate(vec![0xaa], cert("a"));
    table.add_certificate(vec![0xbb], cert("b"));
    let added_a = table.add_front(&TlsFront {
        app_id: String::from("app_a"),
        hostname: String::from("a.example"),
        path_begin: String::from("/"),
        fingerprint: vec![0xaa],
    });
    let added_b = table.add_front(&TlsFront {
        app_id: String::from("app_b"),
        hostname: String::from("b.example"),
        path_begin: String::from("/"),
        fingerprint: vec![0xbb],
    });
    assert!(added_a && added_b);
    let picked = table.select_certificate("b.example").expect("no certificate");
    assert_eq!(picked.certificate, "CERT b");
    assert_eq!(table.paths.lookup("b.example", "/"), Some(String::from("app_b")));
    assert_eq!(table.paths.lookup("a.example", "/"), Some(String::from("app_a")));
}

#[test]
fn tls_front_with_unknown_fingerprint_is_refused() {
    let mut table = TlsRouteTable::new();
    let added = table.add_front(&TlsFront {
        app_id: String::from("app_a"),
        hostname: String::from("a.example"),
        path_begin: String::from("/"),
        fingerprint: vec![0xee],
    });
    assert!(!added);
    assert!(table.select_certificate("a.example").is_none());
}

#[test]
fn removing_a_certificate_forgets_it() {
    let mut table = TlsRouteTable::new();
    table.add_certificate(vec![0xaa], cert("a"));
    table.add_front(&TlsFront {
        app_id: String::from("app_a"),
        hostname: String::from("a.example"),
        path_begin: String::from("/"),
        fingerprint: vec![0xaa],
    });
    table.remove_certificate(&vec![0xaa]);
    assert!(table.select_certificate("a.example").is_none());
}
