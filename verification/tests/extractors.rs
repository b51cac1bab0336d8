use boar::error::BoarError;
use boar::stats::delivery_rate::DeliveryRate;
use boar::stats::download_duration::DownloadDuration;
use boar::stats::startup_exit::StartupExit;

#[test]
fn delivery_rate() {
    let logs = "[2025-12-15T04:12:15.895071000Z INFO  quiche_apps::client] connecting to 127.0.0.1:9999 from 0.0.0.0:52522 with scid eff94d1df3d374a001a807c4c5b7b44fca82e6aa \
         [2025-12-15T04:12:15.914151000Z INFO  quiche_apps::common] 1/1 response(s) received in 18.767083ms, closing... \
         [2025-12-15T04:12:15.914211000Z INFO  quiche_apps::client] connection closed, recv=794 sent=291 lost=0 retrans=0 sent_bytes=15318 recv_bytes=1038727 lost_bytes=0 [local_addr=0.0.0.0:52522 peer_addr=127.0.0.1:9999 validation_state=Validated active=true recv=794 sent=291 lost=0 retrans=0 rtt=923.083µs min_rtt=Some(144.738µs) rttvar=937.037µs cwnd=13500 sent_bytes=15318 recv_bytes=1038727 lost_bytes=0 stream_retrans_bytes=0 pmtu=1350 delivery_rate=1997003]";

    let metric = DeliveryRate::new_from_logs(logs).unwrap();
    assert_eq!(metric.rate, 1997003);
}

#[test]
fn download_duration_ms() {
    let logs = "[2025-12-15T04:12:15.895071000Z INFO  quiche_apps::client] connecting to 127.0.0.1:9999 from 0.0.0.0:52522 with scid eff94d1df3d374a001a807c4c5b7b44fca82e6aa \
         [2025-12-15T04:12:15.914151000Z INFO  quiche_apps::common] 1/1 response(s) received in 18.767083ms, closing... \
         [2025-12-15T04:12:15.914211000Z INFO  quiche_apps::client] connection closed, recv=794 sent=291 lost=0 retrans=0 sent_bytes=15318 recv_bytes=1038727 lost_bytes=0 [local_addr=0.0.0.0:52522 peer_addr=127.0.0.1:9999 validation_state=Validated active=true recv=794 sent=291 lost=0 retrans=0 rtt=923.083µs min_rtt=Some(144.738µs) rttvar=937.037µs cwnd=13500 sent_bytes=15318 recv_bytes=1038727 lost_bytes=0 stream_retrans_bytes=0 pmtu=1350 delivery_rate=1997003]";

    let metric = DownloadDuration::new_from_logs(logs).unwrap();
    assert_eq!(metric.duration_ms, 18);
}

#[test]
fn download_duration_s() {
    let logs = "[2025-12-15T04:12:15.895071000Z INFO  quiche_apps::client] connecting to 127.0.0.1:9999 from 0.0.0.0:52522 with scid eff94d1df3d374a001a807c4c5b7b44fca82e6aa \
         [2025-12-15T04:12:15.914151000Z INFO  quiche_apps::common] 1/1 response(s) received in 1.335630013s, closing... \
         [2025-12-15T04:12:15.914211000Z INFO  quiche_apps::client] connection closed, recv=794 sent=291 lost=0 retrans=0 sent_bytes=15318 recv_bytes=1038727 lost_bytes=0 [local_addr=0.0.0.0:52522 peer_addr=127.0.0.1:9999 validation_state=Validated active=true recv=794 sent=291 lost=0 retrans=0 rtt=923.083µs min_rtt=Some(144.738µs) rttvar=937.037µs cwnd=13500 sent_bytes=15318 recv_bytes=1038727 lost_bytes=0 stream_retrans_bytes=0 pmtu=1350 delivery_rate=1997003]";

    let metric = DownloadDuration::new_from_logs(logs).unwrap();
    assert_eq!(metric.duration_ms, 1335);
}

#[test]
fn startup_exit_none() {
    let logs: Vec<String> = [
        "[2025-12-20T07:09:59.547130000Z INFO  async_http3_server] received new connection!",
        "[2025-12-20T07:09:59.551243000Z INFO  async_http3_server::server] received unhandled event: IncomingSettings { settings: [(553772674384608777, 2680223962524332553)] }",
        "[2025-12-20T07:09:59.551419000Z INFO  async_http3_server::server] received unhandled event: BodyBytesReceived { stream_id: 0, num_bytes: 0, fin: true }",
        "[2025-12-20T07:09:59.565448000Z INFO  async_http3_server::server] stream closed: Some(local_addr=0.0.0.0:9999 peer_addr=127.0.0.1:61757 validation_state=Validated active=true recv=274 sent=794 lost=0 retrans=0 rtt=251.283µs min_rtt=Some(100.291µs) rttvar=165.768µs cwnd=101824 sent_bytes=1038667 recv_bytes=14030 lost_bytes=0 stream_retrans_bytes=0 pmtu=1350 delivery_rate=110391822 max_bandwidth=Some(110391822) startup_exit=None )",
    ].into_iter().map(|v| v.to_string()).collect();

    let metric = StartupExit::new_from_logs(&logs);
    assert!(metric.is_empty());
}

#[test]
fn startup_exit_some() {
    let logs: Vec<String> = [
        "[2025-12-20T07:09:59.547130000Z INFO  async_http3_server] received new connection!",
        "[2025-12-20T07:09:59.551243000Z INFO  async_http3_server::server] received unhandled event: IncomingSettings { settings: [(553772674384608777, 2680223962524332553)] }",
        "[2025-12-20T07:09:59.551419000Z INFO  async_http3_server::server] received unhandled event: BodyBytesReceived { stream_id: 0, num_bytes: 0, fin: true }",
        "[2025-12-20T07:09:59.565448000Z INFO  async_http3_server::server] stream closed: Some(local_addr=0.0.0.0:9999 peer_addr=127.0.0.1:61757 validation_state=Validated active=true recv=274 sent=794 lost=0 retrans=0 rtt=251.283µs min_rtt=Some(100.291µs) rttvar=165.768µs cwnd=101824 sent_bytes=1038667 recv_bytes=14030 lost_bytes=0 stream_retrans_bytes=0 pmtu=1350 delivery_rate=110391822 max_bandwidth=Some(110391822) startup_exit=Some(StartupExit { cwnd: 28079, bandwidth: Some(12345), reason: BandwidthPlateau }) )",
    ].into_iter().map(|v| v.to_string()).collect();

    let metric = StartupExit::new_from_logs(&logs);
    assert_eq!(metric[0].bandwidth, 12345);
}

#[test]
fn startup_exit_multiple_stats() {
    let logs: Vec<String> = [
        "[2025-12-20T07:09:59.547130000Z INFO  async_http3_server] received new connection!",
        "[2025-12-20T07:09:59.551243000Z INFO  async_http3_server::server] received unhandled event: IncomingSettings { settings: [(553772674384608777, 2680223962524332553)] }",
        "[2025-12-20T07:09:59.551419000Z INFO  async_http3_server::server] received unhandled event: BodyBytesReceived { stream_id: 0, num_bytes: 0, fin: true }",
        // Some(54321)
        "[2025-12-20T07:09:59.565448000Z INFO  async_http3_server::server] stream closed: Some(local_addr=0.0.0.0:9999 peer_addr=127.0.0.1:61757 validation_state=Validated active=true recv=274 sent=794 lost=0 retrans=0 rtt=251.283µs min_rtt=Some(100.291µs) rttvar=165.768µs cwnd=101824 sent_bytes=1038667 recv_bytes=14030 lost_bytes=0 stream_retrans_bytes=0 pmtu=1350 delivery_rate=110391822 max_bandwidth=Some(110391822) startup_exit=Some(StartupExit { cwnd: 28079, bandwidth: Some(54321), reason: BandwidthPlateau }) )",
        // None
        "[2025-12-20T07:09:59.565448000Z INFO  async_http3_server::server] stream closed: Some(local_addr=0.0.0.0:9999 peer_addr=127.0.0.1:61757 validation_state=Validated active=true recv=274 sent=794 lost=0 retrans=0 rtt=251.283µs min_rtt=Some(100.291µs) rttvar=165.768µs cwnd=101824 sent_bytes=1038667 recv_bytes=14030 lost_bytes=0 stream_retrans_bytes=0 pmtu=1350 delivery_rate=110391822 max_bandwidth=Some(110391822) startup_exit=Some(StartupExit { cwnd: 28079, bandwidth: None, reason: BandwidthPlateau }) )",
        // Some(12345)
        "[2025-12-20T07:09:59.565448000Z INFO  async_http3_server::server] stream closed: Some(local_addr=0.0.0.0:9999 peer_addr=127.0.0.1:61757 validation_state=Validated active=true recv=274 sent=794 lost=0 retrans=0 rtt=251.283µs min_rtt=Some(100.291µs) rttvar=165.768µs cwnd=101824 sent_bytes=1038667 recv_bytes=14030 lost_bytes=0 stream_retrans_bytes=0 pmtu=1350 delivery_rate=110391822 max_bandwidth=Some(110391822) startup_exit=Some(StartupExit { cwnd: 28079, bandwidth: Some(12345), reason: BandwidthPlateau }) )",
    ].into_iter().map(|v| v.to_string()).collect();

    let metric = StartupExit::new_from_logs(&logs);
    assert_eq!(metric.len(), 2);
    assert_eq!(metric[1].bandwidth, 12345);
    assert_eq!(metric[0].bandwidth, 54321);
}

#[test]
fn delivery_rate_absent_is_extraction_error() {
    let logs = "connection closed without any rate report";
    assert_eq!(
        DeliveryRate::new_from_logs(logs).unwrap_err(),
        BoarError::ExtractionError
    );
}

#[test]
fn delivery_rate_first_occurrence_wins() {
    let logs = "delivery_rate=111 retry noise delivery_rate=222";
    let metric = DeliveryRate::new_from_logs(logs).unwrap();
    assert_eq!(metric.rate, 111);
}

#[test]
fn download_duration_absent_is_extraction_error() {
    let logs = "the transfer never completed";
    assert_eq!(
        DownloadDuration::new_from_logs(logs).unwrap_err(),
        BoarError::ExtractionError
    );
}

#[test]
fn download_duration_first_occurrence_wins() {
    let logs = "received in 2s and later received in 7ms";
    let metric = DownloadDuration::new_from_logs(logs).unwrap();
    assert_eq!(metric.duration_ms, 2000);
}

#[test]
fn download_duration_skips_partial_phrase() {
    // A phrase without a well-formed number is retried-connection noise;
    // the first well-formed report is authoritative.
    let logs = "received in the middle of the night, then received in 42ms";
    let metric = DownloadDuration::new_from_logs(logs).unwrap();
    assert_eq!(metric.duration_ms, 42);
}

#[test]
fn download_duration_whole_seconds() {
    let logs = "response received in 3s";
    let metric = DownloadDuration::new_from_logs(logs).unwrap();
    assert_eq!(metric.duration_ms, 3000);
}

#[test]
fn startup_exit_empty_log() {
    let logs: Vec<String> = Vec::new();
    assert!(StartupExit::new_from_logs(&logs).is_empty());
}
