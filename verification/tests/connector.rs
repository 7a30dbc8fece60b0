use http::Uri;
use proxy_connect::{
    create_tcp_socket_for_ip, no_address_kind, no_address_message, Connector, DomainError,
    DomainStep, ErrorKind, Extensions, Family, IpAddr, IpCidr, Ipv4Cidr, Ipv6Cidr, SocketAddr,
    SocketAddrV4, SocketAddrV6, Step,
};
use tower_service::Service;

type TestStep = Step<u32, &'static str, &'static str>;
type TestDomainStep = DomainStep<u32, &'static str, &'static str>;

const SESSION: Extensions = Extensions::Session((7, 9));

fn v4_cidr() -> IpCidr {
    IpCidr::V4(Ipv4Cidr::new(0x7f00_0000, 8).unwrap())
}

fn v6_cidr() -> IpCidr {
    IpCidr::V6(Ipv6Cidr::new(0x2001_0db8_u128 << 96, 48).unwrap())
}

fn target(port: u16) -> SocketAddr {
    SocketAddr::new(IpAddr::V4(0x0808_0808), port)
}

/// How a connection to a host over HTTP goes, as far as the local address decides it: "bind" if
/// the socket cannot be bound to it, "family" if there is one of the other family only, and "free"
/// if neither is in the way.
fn local_address(connector: Connector, extention: Extensions, host: &str) -> &'static str {
    let runtime = tokio::runtime::Builder::new_current_thread().enable_all().build().unwrap();
    runtime.block_on(async {
        let uri: Uri = format!("http://{}:9/", host).parse().unwrap();
        let mut http = connector.new_http_connector(extention);
        match http.call(uri).await {
            Ok(_) => "free",
            Err(err) => {
                let text = format!("{:?}", err);
                if text.contains("tcp bind local error") {
                    "bind"
                } else if text.contains("NotConnected") {
                    "family"
                } else {
                    "free"
                }
            }
        }
    })
}

const V4_HOST: &str = "127.0.0.1";
const V6_HOST: &str = "[::1]";
const FALLBACK_V4: IpAddr = IpAddr::V4(0xc000_0209);
// No host has an address of the block for documentation, so no socket can be bound to it.
const FALLBACK_V6: IpAddr = IpAddr::V6((0x2001_0db8 << 96) + 9);

#[test]
fn http_from_an_ipv4_block() {
    let alone = Connector::new(Some(v4_cidr()), None);
    assert_ne!(local_address(alone, SESSION, V4_HOST), "family");
    assert_eq!(local_address(alone, SESSION, V6_HOST), "family");
    let beside = Connector::new(Some(v4_cidr()), Some(FALLBACK_V6));
    assert_ne!(local_address(beside, SESSION, V4_HOST), "family");
    assert_eq!(local_address(beside, SESSION, V6_HOST), "bind");
}

#[test]
fn http_from_an_ipv6_block() {
    let alone = Connector::new(Some(v6_cidr()), None);
    assert_eq!(local_address(alone, SESSION, V4_HOST), "family");
    assert_eq!(local_address(alone, SESSION, V6_HOST), "bind");
    assert_eq!(local_address(alone, Extensions::Absent, V6_HOST), "bind");
    let beside = Connector::new(Some(v6_cidr()), Some(FALLBACK_V4));
    assert_ne!(local_address(beside, SESSION, V4_HOST), "family");
    assert_eq!(local_address(beside, SESSION, V6_HOST), "bind");
}

#[test]
fn http_from_the_fallback() {
    let v4 = Connector::new(None, Some(FALLBACK_V4));
    assert_ne!(local_address(v4, SESSION, V4_HOST), "family");
    assert_eq!(local_address(v4, SESSION, V6_HOST), "family");
    let v6 = Connector::new(None, Some(FALLBACK_V6));
    assert_eq!(local_address(v6, SESSION, V4_HOST), "family");
    assert_eq!(local_address(v6, SESSION, V6_HOST), "bind");
}

#[test]
fn http_without_a_local_address() {
    let none = Connector::new(None, None);
    assert_eq!(local_address(none, SESSION, V4_HOST), "free");
    assert_eq!(local_address(none, SESSION, V6_HOST), "free");
    // A fallback of the family of the block switches both off.
    let v4 = Connector::new(Some(v4_cidr()), Some(FALLBACK_V4));
    assert_eq!(local_address(v4, SESSION, V4_HOST), "free");
    assert_eq!(local_address(v4, SESSION, V6_HOST), "free");
    let v6 = Connector::new(Some(v6_cidr()), Some(FALLBACK_V6));
    assert_eq!(local_address(v6, SESSION, V4_HOST), "free");
    assert_eq!(local_address(v6, SESSION, V6_HOST), "free");
}

#[test]
fn http_from_a_block_of_one_address() {
    let v4 = Connector::new(Some(IpCidr::V4(Ipv4Cidr::new(0x7f00_0001, 32).unwrap())), None);
    let v6 = Connector::new(Some(IpCidr::V6(Ipv6Cidr::new(1, 128).unwrap())), Some(FALLBACK_V4));
    for extention in [SESSION, Extensions::Absent] {
        assert_ne!(local_address(v4, extention, V4_HOST), "family");
        assert_eq!(local_address(v4, extention, V6_HOST), "family");
        assert_ne!(local_address(v6, extention, V4_HOST), "family");
        assert_ne!(local_address(v6, extention, V6_HOST), "family");
    }
}

#[test]
fn socket_family_of_an_address() {
    assert_eq!(create_tcp_socket_for_ip(&IpAddr::V4(1)), Family::V4);
    assert_eq!(create_tcp_socket_for_ip(&IpAddr::V6(1)), Family::V6);
}

#[test]
fn socket_address_has_no_flow_and_no_scope() {
    assert_eq!(SocketAddr::new(IpAddr::V4(5), 80), SocketAddr::V4(SocketAddrV4 { ip: 5, port: 80 }));
    assert_eq!(
        SocketAddr::new(IpAddr::V6(5), 80),
        SocketAddr::V6(SocketAddrV6 { ip: 5, port: 80, flowinfo: 0, scope_id: 0 }),
    );
}

/// Runs the steps, answering each with the next of the outcomes, and writes down what was done.
fn run(mut step: TestStep, outcomes: &[Result<(), &'static str>]) -> (Vec<String>, Result<&'static str, &'static str>) {
    let mut log = Vec::new();
    let mut outcomes = outcomes.iter().cloned();
    let mut sockets = 0;
    loop {
        step = match step {
            Step::Open(family, opening) => {
                sockets += 1;
                log.push(format!("open {:?} {}", family, sockets));
                opening.opened(outcomes.next().unwrap().map(|()| sockets))
            }
            Step::Bind(socket, local, binding) => {
                log.push(format!("bind {} {:?}", socket, local));
                binding.bound(outcomes.next().unwrap().map(|()| socket))
            }
            Step::Connect(socket, addr, connecting) => {
                log.push(format!("connect {} {:?}", socket, addr));
                connecting.connected(outcomes.next().unwrap().map(|()| "stream"))
            }
            Step::ConnectUnbound(addr, connecting) => {
                log.push(format!("connect {:?}", addr));
                connecting.connected(outcomes.next().unwrap().map(|()| "stream"))
            }
            Step::Done(result) => return (log, result),
        }
    }
}

#[test]
fn connects_directly_without_addresses() {
    let connector = Connector::new(None, None);
    let (log, result) = run(connector.try_connect(target(80), SESSION), &[Ok(())]);
    assert_eq!(log, vec![format!("connect {:?}", target(80))]);
    assert_eq!(result, Ok("stream"));
    let (_, result) = run(connector.try_connect(target(80), SESSION), &[Err("refused")]);
    assert_eq!(result, Err("refused"));
}

#[test]
fn connects_from_the_block() {
    let connector = Connector::new(Some(v4_cidr()), None);
    let (log, result) = run(connector.try_connect(target(80), SESSION), &[Ok(()), Ok(()), Ok(())]);
    let local = SocketAddr::new(IpAddr::V4(0x7f00_0007), 0);
    assert_eq!(
        log,
        vec![
            "open V4 1".to_string(),
            format!("bind 1 {:?}", local),
            format!("connect 1 {:?}", target(80)),
        ],
    );
    assert_eq!(result, Ok("stream"));
    let outcomes = [Ok(()), Ok(()), Err("refused")];
    let (log, result) = run(connector.try_connect(target(80), SESSION), &outcomes);
    assert_eq!(log.len(), 3);
    assert_eq!(result, Err("refused"));
}

#[test]
fn connects_from_the_fallback() {
    let fallback = IpAddr::V6(1);
    let connector = Connector::new(None, Some(fallback));
    let (log, result) = run(connector.try_connect(target(80), SESSION), &[Ok(()), Ok(()), Ok(())]);
    assert_eq!(
        log,
        vec![
            "open V6 1".to_string(),
            format!("bind 1 {:?}", SocketAddr::new(fallback, 0)),
            format!("connect 1 {:?}", target(80)),
        ],
    );
    assert_eq!(result, Ok("stream"));
}

#[test]
fn falls_back_when_the_connection_fails() {
    let fallback = IpAddr::V4(0x7f00_0009);
    let connector = Connector::new(Some(v6_cidr()), Some(fallback));
    let outcomes = [Ok(()), Ok(()), Err("unreachable"), Ok(()), Ok(()), Ok(())];
    let (log, result) = run(connector.try_connect(target(443), SESSION), &outcomes);
    let host = (7u128 << 64) + 9;
    let local = SocketAddr::new(IpAddr::V6((0x2001_0db8_u128 << 96) + host), 0);
    assert_eq!(
        log,
        vec![
            "open V6 1".to_string(),
            format!("bind 1 {:?}", local),
            format!("connect 1 {:?}", target(443)),
            "open V4 2".to_string(),
            format!("bind 2 {:?}", SocketAddr::new(fallback, 0)),
            format!("connect 2 {:?}", target(443)),
        ],
    );
    assert_eq!(result, Ok("stream"));
    let outcomes = [Ok(()), Ok(()), Err("unreachable"), Ok(()), Ok(()), Err("refused")];
    let (_, result) = run(connector.try_connect(target(443), SESSION), &outcomes);
    assert_eq!(result, Err("refused"));
}

#[test]
fn does_not_fall_back_when_the_socket_fails() {
    let connector = Connector::new(Some(v4_cidr()), Some(IpAddr::V4(0x7f00_0009)));
    let (log, result) = run(connector.try_connect(target(80), SESSION), &[Err("no socket")]);
    assert_eq!((log.len(), result), (1, Err("no socket")));
    let (log, result) = run(connector.try_connect(target(80), SESSION), &[Ok(()), Err("in use")]);
    assert_eq!((log.len(), result), (2, Err("in use")));
}

#[test]
fn connects_from_a_block_of_one_address() {
    let block = IpCidr::V4(Ipv4Cidr::new(0x7f00_0005, 32).unwrap());
    let connector = Connector::new(Some(block), None);
    for extention in [SESSION, Extensions::Absent] {
        let first = connector.try_connect(target(80), extention);
        let (log, result) = run(first, &[Ok(()), Ok(()), Ok(())]);
        let local = SocketAddr::new(IpAddr::V4(0x7f00_0005), 0);
        assert_eq!(log[1], format!("bind 1 {:?}", local));
        assert_eq!(result, Ok("stream"));
    }
}

/// Tries the addresses, answering each with the next of the outcomes.
fn run_domain(
    mut step: TestDomainStep,
    outcomes: &[Result<&'static str, &'static str>],
) -> (Vec<SocketAddr>, Result<&'static str, DomainError<&'static str>>) {
    let mut tried = Vec::new();
    let mut outcomes = outcomes.iter().cloned();
    loop {
        step = match step {
            DomainStep::Try(target, first, attempt) => {
                tried.push(target);
                let (log, _) = run(first, &[Ok(())]);
                assert_eq!(log, vec![format!("connect {:?}", target)]);
                attempt.tried(outcomes.next().unwrap())
            }
            DomainStep::Done(result) => return (tried, result),
        }
    }
}

#[test]
fn domain_stops_at_the_first_connection() {
    let connector = Connector::new(None, None);
    let targets = vec![target(1), target(2), target(3)];
    let step = connector.try_connect_for_domain(Ok(targets), SESSION);
    let (tried, result) = run_domain(step, &[Err("first"), Ok("stream")]);
    assert_eq!(tried, vec![target(1), target(2)]);
    assert!(matches!(result, Ok("stream")));
}

#[test]
fn domain_returns_the_last_error() {
    let connector = Connector::new(None, None);
    let step = connector.try_connect_for_domain(Ok(vec![target(1), target(2)]), SESSION);
    let (tried, result) = run_domain(step, &[Err("first"), Err("second")]);
    assert_eq!(tried, vec![target(1), target(2)]);
    assert!(matches!(result, Err(DomainError::Failed("second"))));
}

#[test]
fn domain_without_addresses() {
    let connector = Connector::new(None, None);
    let (tried, result) = run_domain(connector.try_connect_for_domain(Ok(Vec::new()), SESSION), &[]);
    assert!(tried.is_empty());
    assert!(matches!(result, Err(DomainError::NoAddress)));
    assert_eq!(no_address_kind(), ErrorKind::ConnectionAborted);
    assert_eq!(no_address_message(), "Failed to connect to any resolved address");
}

#[test]
fn domain_that_cannot_be_looked_up() {
    let connector = Connector::new(None, None);
    let (tried, result) = run_domain(connector.try_connect_for_domain(Err("no name"), SESSION), &[]);
    assert!(tried.is_empty());
    assert!(matches!(result, Err(DomainError::Failed("no name"))));
}
