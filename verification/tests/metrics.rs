use vanguard::metrics::metrics_response;

#[test]
fn metrics_response_matches_the_prometheus_text() {
    let (conns, bytes, reqs) = (3usize, 1048576usize, 0usize);
    let expected = format!(
        "HTTP/1.1 200 OK\r\n\
        Content-Type: text/plain; version=0.0.4\r\n\
        Connection: close\r\n\r\n\
        # HELP aegis_active_connections Numero de conexiones activas\n\
        # TYPE aegis_active_connections gauge\n\
        aegis_active_connections {}\n\
        # HELP aegis_total_bytes Total de bytes\n\
        # TYPE aegis_total_bytes counter\n\
        aegis_total_bytes {}\n\
        # HELP aegis_total_requests Total de peticiones completadas\n\
        # TYPE aegis_total_requests counter\n\
        aegis_total_requests {}\n",
        conns, bytes, reqs
    );
    assert_eq!(metrics_response(conns, bytes, reqs), expected);
}

#[test]
fn metrics_decimal_of_large_counters() {
    let s = metrics_response(usize::MAX, 10, 9);
    assert!(s.contains(&format!("aegis_active_connections {}\n", usize::MAX)));
    assert!(s.contains("aegis_total_bytes 10\n"));
    assert!(s.contains("aegis_total_requests 9\n"));
}
