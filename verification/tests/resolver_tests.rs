use cdu::ip::Ipv4;
use cdu::resolver::{server_url, ResolveError, Resolver};

#[test]
fn default_endpoints_in_order() {
    let r = Resolver::new(None);
    let expected = vec![
        "icanhazip.com",
        "wtfismyip.com",
        "da.gd",
        "seeip.org",
        "ifconfig.co",
        "ipw.cn",
    ];
    let got: Vec<&str> = r.servers.iter().map(|s| s.as_str()).collect();
    assert_eq!(got, expected);
}

#[test]
fn preferred_endpoint_consulted_first() {
    let r = Resolver::new(Some(String::from("ip.example.net")));
    assert_eq!(r.servers.len(), 7);
    assert_eq!(r.current().unwrap().as_str(), "ip.example.net");
}

#[test]
fn short_circuits_on_first_valid_body() {
    let mut r = Resolver::new(None);
    assert_eq!(r.current().unwrap().as_str(), "icanhazip.com");

    // A transport error, then an unparseable body: keep going.
    assert_eq!(r.observe(None), None);
    assert_eq!(r.current().unwrap().as_str(), "wtfismyip.com");
    assert_eq!(r.observe(Some("<html>not an ip</html>")), None);
    assert_eq!(r.current().unwrap().as_str(), "da.gd");

    // A body with surrounding whitespace resolves, and the search stops.
    let ip = r.observe(Some("  93.184.216.34\n"));
    assert_eq!(ip, Some(Ipv4 { a: 93, b: 184, c: 216, d: 34 }));
    assert!(r.current().is_none());
    assert_eq!(r.result(), Ok(Ipv4 { a: 93, b: 184, c: 216, d: 34 }));
    // Exactly three endpoints were consulted.
    assert_eq!(r.idx, 3);
}

#[test]
fn exhaustion_consults_every_endpoint_once() {
    let mut r = Resolver::new(None);
    let mut consulted = 0;
    loop {
        if r.current().is_none() {
            break;
        }
        r.observe(Some("not an address"));
        consulted += 1;
    }
    assert_eq!(consulted, 6);
    assert_eq!(r.result(), Err(ResolveError::Exhausted));
}

#[test]
fn server_url_is_https() {
    assert_eq!(server_url("icanhazip.com"), "https://icanhazip.com");
}
