use transportbench::fixed_rate::{FixedRate, RateStep, TaskStep};
use transportbench::h3::{
    is_success, request_headers, response_headers, status_from_headers, H3Completion, H3Requests,
    H3Responses, RESPONSE_STATUS,
};
use transportbench::mode::OverloadMode;
use transportbench::overload_client::{
    after_send, classify_raw_response, request_chunk, Chunk, LoadStep, OverloadLoad,
    RawClientCompletion, RawClientOutcome, RawRequests, RawWriteProgress, SendResult,
};
use transportbench::overload_server::{
    refusal, simulate_request_processing, Arrival, OverloadServer, RawResponse, Refusal,
    SIMULATED_PROCESSING_DELAY,
};
use transportbench::percent::Percent;
use transportbench::plan::OverloadScenario;
use transportbench::quic::{
    accept_packet, h3_server_timeout, handshake_timed_out, overload_server_timeout, packet_use,
    quic_settings, stream_limit, PacketUse,
};
use transportbench::serial::{message_count, SerialUsers, TaskTotals, UserTask, UsersStep};

const SECOND: u128 = 1_000_000_000;
const MILLISECOND: u128 = 1_000_000;

#[test]
fn requests_are_paced() {
    let mut rate = FixedRate::start(2, 2, SECOND / 2, 10, 100).unwrap();
    assert_eq!(rate.step(100, 0), RateStep::Send(0));
    rate.on_sent(100);
    assert_eq!(rate.step(101, 1), RateStep::Poll(SECOND / 2 - 1));
    rate.on_answer(150, Some(50), true);
    assert_eq!(rate.step(160, 0), RateStep::Poll(SECOND / 2 - 60));
    assert_eq!(rate.step(100 + SECOND / 2, 0), RateStep::Send(1));
    rate.on_send_failed(100 + SECOND / 2);
    assert_eq!(rate.step(100 + SECOND, 0), RateStep::Send(2));
    rate.on_blocked();
    assert_eq!(rate.step(100 + SECOND, 0), RateStep::Poll(0));
    assert_eq!(rate.step(100 + SECOND, 0), RateStep::Send(2));
    rate.on_sent(100 + SECOND);
    assert_eq!(rate.step(100 + 3 * SECOND, 1), RateStep::Send(3));
    rate.on_sent(100 + 3 * SECOND);
    assert_eq!(rate.step(100 + 3 * SECOND, 2), RateStep::Poll(MILLISECOND));
    rate.on_answer(100 + 3 * SECOND, Some(7), false);
    rate.on_answer(100 + 3 * SECOND, Some(8), true);
    assert_eq!(rate.step(100 + 3 * SECOND, 0), RateStep::Stop);
    let counts = rate.finish();
    assert_eq!((counts.scheduled_requests, counts.sent_requests), (4, 4));
    assert_eq!((counts.completed_requests, counts.successes, counts.errors), (3, 2, 2));
    assert_eq!(counts.latencies, vec![50, 7, 8]);
}

#[test]
fn no_more_requests_are_unanswered_than_may_be() {
    let mut rate = FixedRate::start(1000, 1, 0, 2, 0).unwrap();
    assert_eq!(rate.step(0, 0), RateStep::Send(0));
    rate.on_sent(0);
    assert_eq!(rate.step(0, 1), RateStep::Send(1));
    rate.on_sent(0);
    assert_eq!(rate.step(0, 2), RateStep::Poll(MILLISECOND));
    assert_eq!(rate.step(31 * SECOND, 2), RateStep::GiveUp);
    let counts = rate.give_up();
    assert_eq!((counts.sent_requests, counts.completed_requests, counts.errors), (2, 0, 1000));
}

#[test]
fn a_stall_is_longer_than_thirty_seconds() {
    let mut rate = FixedRate::start(1, 60, SECOND, 1, 0).unwrap();
    assert_eq!(rate.step(0, 0), RateStep::Send(0));
    rate.on_sent(0);
    assert_eq!(rate.step(1, 1), RateStep::Poll(MILLISECOND));
    assert_eq!(rate.step(30 * SECOND, 1), RateStep::Poll(MILLISECOND));
    assert_eq!(rate.step(30 * SECOND + 1, 1), RateStep::GiveUp);
}

#[test]
fn tasks_wait_for_answers_or_for_their_time() {
    let mut rate = FixedRate::start(2, 1, SECOND / 2, 1, 0).unwrap();
    assert_eq!(rate.task_step(0, 0), TaskStep::Send);
    rate.on_sent(0);
    assert_eq!(rate.task_step(5, 1), TaskStep::AnswerUntil(5 + MILLISECOND));
    rate.on_answer(9, None, false);
    assert_eq!(rate.task_step(10, 0), TaskStep::Until(SECOND / 2));
    assert_eq!(rate.task_step(SECOND / 2, 0), TaskStep::Send);
    rate.on_sent(SECOND / 2);
    assert_eq!(rate.task_step(SECOND / 2, 1), TaskStep::Answer);
    rate.on_answer(SECOND, Some(3), true);
    assert_eq!(rate.task_step(SECOND, 0), TaskStep::Finished);
    let counts = rate.finish();
    assert_eq!((counts.successes, counts.errors), (1, 1));
    assert_eq!(counts.latencies, vec![3]);
    let mut wide = FixedRate::start(2, 1, SECOND / 2, 9, 0).unwrap();
    wide.on_sent(0);
    assert_eq!(wide.task_step(5, 1), TaskStep::AnswerUntil(SECOND / 2));
    assert!(FixedRate::start(usize::MAX, 2, 0, 1, 0).is_none());
}

#[test]
fn users_send_one_message_at_a_time() {
    let mut users = SerialUsers::start(2, 2, 0).unwrap();
    assert_eq!(users.step(0), UsersStep::Send(0, 0));
    users.on_sent(0, 1);
    assert_eq!(users.step(1), UsersStep::Send(1, 0));
    users.on_blocked();
    assert_eq!(users.step(2), UsersStep::Drive);
    users.on_answer(0, 40, true, 3);
    assert_eq!(users.step(3), UsersStep::Send(0, 1));
    users.on_sent(0, 3);
    assert_eq!(users.step(3), UsersStep::Send(1, 0));
    assert!(users.is_ready(1) && !users.is_ready(0) && !users.is_ready(2));
    users.on_send_failed(1);
    assert_eq!(users.step(4), UsersStep::Drive);
    assert_eq!(users.progress(), (3, 4));
    users.on_answer(0, 41, false, 5);
    assert_eq!(users.step(5), UsersStep::Stop);
    assert_eq!(users.finish(), (vec![40], 3));
}

#[test]
fn messages_that_are_given_up_are_errors() {
    let mut users = SerialUsers::start(1, 5, 0).unwrap();
    assert!(users.has_room());
    assert_eq!(users.step(0), UsersStep::Send(0, 0));
    users.on_sent(0, 0);
    assert_eq!(users.step(0), UsersStep::Drive);
    users.on_answer(usize::MAX, 1, true, 0);
    assert_eq!(users.progress(), (1, 5));
    assert_eq!(users.step(30 * SECOND), UsersStep::Drive);
    assert_eq!(users.step(30 * SECOND + 1), UsersStep::GiveUp);
    assert_eq!(users.give_up(), (vec![1], 4));
    assert_eq!(message_count(3, 4), Some(12));
    assert_eq!(message_count(usize::MAX, 2), None);
}

#[test]
fn a_task_stops_at_its_first_failure() {
    let mut task = UserTask::start(3);
    assert_eq!(task.next_message(), Some(0));
    task.on_answer(5, true);
    assert_eq!(task.next_message(), Some(1));
    task.on_answer(6, false);
    assert_eq!(task.next_message(), None);
    let failed = task.finish();
    assert_eq!(failed, (vec![5, 6], 2));
    let mut whole = UserTask::start(1);
    whole.on_answer(9, true);
    assert_eq!(whole.next_message(), None);
    let mut totals = TaskTotals::start();
    totals.join(failed);
    totals.join(whole.finish());
    assert_eq!(totals.latencies, vec![5, 6, 9]);
    assert_eq!(totals.errors, 2);
}

#[test]
fn statuses_are_read_from_headers() {
    let header = |name: &str, value: &[u8]| (name.as_bytes().to_vec(), value.to_vec());
    assert_eq!(status_from_headers(&vec![]), None);
    assert_eq!(
        status_from_headers(&vec![header("x", b"1"), header(":status", b"204"), header(":status", b"500")]),
        Some(204)
    );
    assert_eq!(status_from_headers(&vec![header(":status", b"2x")]), None);
    assert_eq!(status_from_headers(&vec![header(":status", &[0x32, 0xff])]), None);
    assert_eq!(status_from_headers(&vec![header(":status", b"65536")]), None);
    assert_eq!(status_from_headers(&vec![header(":statu", b"200")]), None);
    assert!(is_success(200) && is_success(299));
    assert!(!is_success(199) && !is_success(300));
}

#[test]
fn requests_have_six_headers() {
    let headers = request_headers("localhost:1", "/x", 34);
    let all: Vec<String> = headers.iter().map(|(n, v)| format!("{n}={v}")).collect();
    assert_eq!(
        all.join(" "),
        ":method=POST :scheme=https :authority=localhost:1 :path=/x content-type=application/json content-length=34"
    );
}

#[test]
fn responses_complete_requests_once() {
    let mut requests: H3Requests<&str> = H3Requests::start();
    requests.on_opened(4, 7, 100);
    requests.on_opened(8, 9, 100);
    assert_eq!(requests.inflight(), 2);
    requests.on_status(4, Some(204));
    assert_eq!(
        requests.on_finished(4, 130),
        Some(H3Completion { user: 7, latency: 30, ok: true })
    );
    assert_eq!(requests.on_finished(4, 140), None);
    requests.on_status(8, None);
    assert_eq!(
        requests.on_finished(8, 90),
        Some(H3Completion { user: 9, latency: 0, ok: false })
    );
    assert_eq!(requests.inflight(), 0);
}

#[test]
fn blocked_bodies_go_on_where_they_stopped() {
    let mut requests: H3Requests<Vec<u8>> = H3Requests::start();
    requests.on_body(0, vec![1; 5], 5, Some(5));
    assert!(requests.blocked_streams().is_empty());
    requests.on_body(4, vec![2; 5], 5, Some(2));
    requests.on_body(8, vec![3; 6], 6, None);
    let mut blocked = requests.blocked_streams();
    blocked.sort_unstable();
    assert_eq!(blocked, vec![4, 8]);
    assert_eq!(requests.unsent_from(4), Some(2));
    assert_eq!(requests.unsent_from(8), Some(0));
    assert_eq!(requests.unsent_from(0), None);
    assert_eq!(requests.body(4), Some(&vec![2; 5]));
    assert_eq!(requests.body(0), None);
    requests.on_body_progress(4, 1);
    requests.on_body_settled(4);
    assert_eq!(requests.unsent_from(4), Some(3));
    requests.on_body_progress(4, 2);
    assert_eq!(requests.unsent_from(4), None);
    requests.on_body_settled(4);
    assert_eq!(requests.blocked_streams(), vec![8]);
}

#[test]
fn a_server_answers_each_stream_once() {
    let mut responses = H3Responses::start();
    assert!(responses.on_finished(4));
    assert!(!responses.on_finished(4));
    assert!(!responses.is_pending(4));
    responses.on_blocked(4);
    assert!(responses.is_pending(4));
    responses.on_sent(4);
    assert!(!responses.is_pending(4));
}

#[test]
fn connections_have_fixed_settings() {
    let settings = quic_settings(true, 33);
    assert!(settings.trusts_any_peer && settings.disable_active_migration);
    assert_eq!(settings.initial_max_streams, 33);
    assert_eq!(settings.max_idle_timeout_ms, 5000);
    assert_eq!(settings.initial_max_data, 64_000_000);
    assert_eq!(settings.initial_max_stream_data, 4_000_000);
    assert_eq!(settings.max_udp_payload_size, 1350);
    assert!(!quic_settings(false, 1).trusts_any_peer);
    assert_eq!(stream_limit(5), 133);
    assert!(!handshake_timed_out(1, 1 + 5 * SECOND));
    assert!(handshake_timed_out(1, 2 + 5 * SECOND));
    assert_eq!(h3_server_timeout(None), 10 * MILLISECOND);
    assert_eq!(h3_server_timeout(Some(3)), 3);
    assert_eq!(overload_server_timeout(None, false), 10 * MILLISECOND);
    assert_eq!(overload_server_timeout(None, true), MILLISECOND);
    assert_eq!(overload_server_timeout(Some(SECOND), true), MILLISECOND);
    assert_eq!(overload_server_timeout(Some(SECOND), false), SECOND);
    assert_eq!(overload_server_timeout(Some(3), true), 3);
    assert_eq!(accept_packet(false, vec![1], 9), None);
    assert_eq!(accept_packet(true, vec![1, 2], 9), Some(vec![1, 2]));
    assert_eq!(accept_packet(true, vec![], 9), Some(vec![9; 16]));
}

fn scenario(mode: OverloadMode, threshold: usize, percent: f64) -> OverloadScenario {
    OverloadScenario {
        mode,
        total_requests: 10,
        concurrency: 4,
        payload_size: 100,
        threshold,
        reject_percent: Percent::from_bits(percent.to_bits()).unwrap(),
    }
}

#[test]
fn a_server_keeps_its_threshold() {
    let mut server = OverloadServer::start(&scenario(OverloadMode::Reset, 2, 0.0));
    assert!(server.can_count());
    assert_eq!(server.on_readable(0, 10), Arrival::Read);
    assert_eq!(server.on_readable(4, 11), Arrival::Read);
    assert_eq!(server.on_readable(8, 12), Arrival::Reject(OverloadMode::Reset));
    assert!(server.can_spend(5));
    server.on_rejected(5);
    assert_eq!(server.on_readable(8, 13), Arrival::Skip);
    assert!(server.reads(0) && !server.reads(8));
    assert!(server.can_receive(60));
    server.on_received(0, 60, false, 20);
    assert!(!server.busy());
    server.on_received(0, 40, true, 20);
    assert!(server.busy() && !server.reads(0));
    assert_eq!(server.on_readable(0, 21), Arrival::Skip);
    assert!(server.due(20 + SIMULATED_PROCESSING_DELAY - 1).is_empty());
    let done = 20 + SIMULATED_PROCESSING_DELAY;
    assert_eq!(server.due(done), vec![0]);
    assert_eq!(server.processed(0, done), Some((100, done - 10)));
    assert_eq!(server.processed(4, done), None);
    server.on_processed(0, done);
    assert_eq!(server.on_readable(12, done), Arrival::Read);
    server.on_abandoned(4);
    assert_eq!(server.on_readable(16, done), Arrival::Read);
    let stats = server.stats();
    assert_eq!(stats.bytes_read, 100);
    assert_eq!(stats.handling_time, 5 + done - 10);
    assert_eq!(
        (stats.accepted_requests, stats.successful_requests, stats.app_rejections),
        (4, 1, 0)
    );
    assert_eq!((stats.reset_rejections, stats.peak_inflight), (1, 2));
}

#[test]
fn a_server_keeps_its_percentage() {
    let mut server = OverloadServer::start(&scenario(OverloadMode::App503, 1, 25.0));
    let rejected: Vec<u64> = (0..12u64)
        .filter(|n| {
            server.on_readable(n * 4, 0) == Arrival::Reject(OverloadMode::App503)
        })
        .collect();
    assert_eq!(rejected, vec![3, 7, 11]);
    let stats = server.stats();
    assert_eq!((stats.accepted_requests, stats.app_rejections, stats.peak_inflight), (9, 3, 9));
}

#[test]
fn blocked_responses_are_sent_again() {
    let mut server = OverloadServer::start(&scenario(OverloadMode::App503, 1, 0.0));
    assert_eq!(RawResponse::Done.to_bytes(), b"200 ok");
    assert_eq!(RawResponse::Overloaded.to_bytes(), b"503 overloaded");
    let done = SIMULATED_PROCESSING_DELAY;
    for stream in [0, 8] {
        assert_eq!(server.on_readable(stream, 0), Arrival::Read);
        assert_eq!(server.owed(stream), None);
        server.on_received(stream, 5, true, 0);
        if stream == 0 {
            assert_eq!(server.on_readable(4, 0), Arrival::Reject(OverloadMode::App503));
        }
        server.on_processed(stream, done);
        assert_eq!(server.owed(stream), Some(RawResponse::Done));
    }
    server.on_response(0, Some(6));
    assert_eq!((server.owed(0), server.unsent(0)), (None, None));
    assert_eq!(server.owed(4), Some(RawResponse::Overloaded));
    server.on_response(4, Some(3));
    assert_eq!((server.owed(4), server.unsent(4)), (None, Some((RawResponse::Overloaded, 3))));
    assert_eq!(RawResponse::Overloaded.rest(3), (b" overloaded".to_vec(), true));
    server.on_response(8, None);
    assert_eq!(server.unsent(8), Some((RawResponse::Done, 0)));
    assert_eq!(RawResponse::Done.rest(0), (b"200 ok".to_vec(), true));
    assert_eq!(RawResponse::Done.rest(6), (vec![], true));
    server.on_response_progress(4, 11);
    assert_eq!(server.unsent(4), None);
    server.on_response_settled(4);
    server.on_response_settled(8);
    assert_eq!(server.unsent(8), Some((RawResponse::Done, 0)));
}

#[test]
fn a_refusal_is_an_answer_or_a_reset() {
    assert_eq!(
        refusal(OverloadMode::App503),
        Refusal {
            close_read: true,
            close_write: false,
            code: 0x503,
            response: Some(RawResponse::Overloaded)
        }
    );
    assert_eq!(
        refusal(OverloadMode::Reset),
        Refusal { close_read: true, close_write: true, code: 0x503, response: None }
    );
    for mode in [OverloadMode::App503, OverloadMode::Reset] {
        let mut server = OverloadServer::start(&scenario(mode, 1, 0.0));
        let mut client: RawRequests<&str> = RawRequests::start();
        client.on_opened("taken", 5, 5, 10);
        client.on_opened("refused", 7, 7, 11);
        assert_eq!(server.on_readable(0, 20), Arrival::Read);
        assert_eq!(server.on_readable(4, 21), Arrival::Reject(mode));
        assert_eq!(server.owed(4), refusal(mode).response);
        let completion = match server.owed(4) {
            Some(response) => {
                let (bytes, fin) = response.rest(0);
                server.on_response(4, Some(bytes.len()));
                client.on_data(4, bytes, fin, 31)
            }
            None => client.on_reset(4, 31),
        };
        let outcome = match mode {
            OverloadMode::App503 => RawClientOutcome::AppRejected,
            OverloadMode::Reset => RawClientOutcome::Reset,
        };
        assert_eq!(completion, Some(RawClientCompletion { latency: 20, outcome }));
        assert_eq!((server.owed(4), server.unsent(4)), (None, None));
        server.on_received(0, 5, true, 30);
        server.on_processed(0, 30 + SIMULATED_PROCESSING_DELAY);
        let (bytes, fin) = server.owed(0).unwrap().rest(0);
        assert_eq!(
            client.on_data(0, bytes, fin, 40).unwrap().outcome,
            RawClientOutcome::Success
        );
        assert_eq!(server.stats().bytes_read, 5);
    }
}

#[test]
fn a_server_takes_one_connection() {
    let mut connected = false;
    let mut uses = Vec::new();
    for (header_read, initial) in
        [(false, false), (true, false), (true, true), (true, true), (true, false), (false, false)]
    {
        let usage = packet_use(connected, header_read, initial);
        connected = connected || usage == PacketUse::Accept;
        uses.push(usage);
    }
    assert_eq!(
        uses,
        vec![
            PacketUse::Drop,
            PacketUse::Drop,
            PacketUse::Accept,
            PacketUse::Feed,
            PacketUse::Feed,
            PacketUse::Feed
        ]
    );
}

#[test]
fn the_client_takes_every_response_for_a_success() {
    let headers = response_headers();
    assert_eq!(headers, vec![(b":status".to_vec(), b"204".to_vec())]);
    assert_eq!(status_from_headers(&headers), Some(RESPONSE_STATUS));
    let mut requests: H3Requests<()> = H3Requests::start();
    requests.on_opened(0, 3, 10);
    requests.on_status(0, status_from_headers(&headers));
    assert_eq!(
        requests.on_finished(0, 15),
        Some(H3Completion { user: 3, latency: 5, ok: true })
    );
}

#[test]
fn answers_are_to_users_that_wait() {
    let mut users = SerialUsers::start(3, 2, 0).unwrap();
    let mut requests: H3Requests<()> = H3Requests::start();
    let mut stream = 0;
    let mut open: Vec<(u64, usize)> = Vec::new();
    let mut sent = [0usize; 3];
    loop {
        match users.step(0) {
            UsersStep::Send(user, message) => {
                assert_eq!(message, sent[user]);
                assert!(open.iter().all(|(_, other)| *other != user));
                requests.on_opened(stream, user, 0);
                users.on_sent(user, 0);
                open.push((stream, user));
                stream += 4;
            }
            UsersStep::Drive => {
                let (stream, user) = open.remove(open.len() / 2);
                let answer = requests.on_finished(stream, 7).unwrap();
                assert_eq!((answer.user, answer.latency), (user, 7));
                assert!(!users.is_ready(user));
                users.on_answer(answer.user, answer.latency, true, 0);
                sent[user] += 1;
            }
            UsersStep::Stop => break,
            UsersStep::GiveUp => unreachable!(),
        }
    }
    assert_eq!((sent, requests.inflight()), ([2, 2, 2], 0));
    assert_eq!(users.finish(), (vec![7; 6], 0));
}

#[test]
fn work_depends_on_the_size() {
    for bytes in [0usize, 1, 127, 128, 1024, 65536] {
        let mut acc = bytes as u64 ^ 0x9e37_79b9;
        let rounds = (bytes / 128).max(1) + 128;
        for i in 0..rounds {
            acc = acc.wrapping_mul(1_664_525).wrapping_add(i as u64 ^ 1_013_904_223);
        }
        assert_eq!(simulate_request_processing(bytes), acc);
    }
}

#[test]
fn responses_are_classified() {
    let classify = |text: &str| classify_raw_response(&text.as_bytes().to_vec());
    assert_eq!(classify("200 ok"), RawClientOutcome::Success);
    assert_eq!(classify("200"), RawClientOutcome::Success);
    assert_eq!(classify("503 overloaded"), RawClientOutcome::AppRejected);
    assert_eq!(classify("429"), RawClientOutcome::AppRejected);
    assert_eq!(classify("20"), RawClientOutcome::Error);
    assert_eq!(classify(""), RawClientOutcome::Error);
    assert_eq!(classify("500"), RawClientOutcome::Error);
    assert_eq!(
        classify_raw_response(&RawResponse::Done.to_bytes()),
        RawClientOutcome::Success
    );
    assert_eq!(
        classify_raw_response(&RawResponse::Overloaded.to_bytes()),
        RawClientOutcome::AppRejected
    );
}

#[test]
fn requests_are_written_in_chunks() {
    assert_eq!(request_chunk(0, 10), Some(Chunk { from: 0, to: 10, fin: true }));
    assert_eq!(request_chunk(0, 4096), Some(Chunk { from: 0, to: 4096, fin: true }));
    assert_eq!(request_chunk(0, 4097), Some(Chunk { from: 0, to: 4096, fin: false }));
    assert_eq!(request_chunk(4096, 4097), Some(Chunk { from: 4096, to: 4097, fin: true }));
    assert_eq!(request_chunk(10, 10), None);
    assert_eq!(after_send(5, SendResult::Took(0)), Some(RawWriteProgress::Blocked));
    assert_eq!(after_send(5, SendResult::Took(3)), Some(RawWriteProgress::Written(8)));
    assert_eq!(after_send(5, SendResult::Blocked), Some(RawWriteProgress::Blocked));
    assert_eq!(after_send(5, SendResult::Stopped), Some(RawWriteProgress::Reset));
    assert_eq!(after_send(5, SendResult::Failed), None);
}

#[test]
fn raw_requests_are_followed_to_their_end() {
    let mut requests: RawRequests<Vec<u8>> = RawRequests::start();
    assert_eq!(requests.next_stream(), 0);
    requests.on_opened(vec![0x42; 5000], 5000, 4096, 10);
    requests.on_opened(vec![0x42; 10], 10, 10, 11);
    requests.on_opened(vec![0x42; 9], 9, 3, 12);
    assert_eq!((requests.next_stream(), requests.inflight()), (12, 3));
    let mut streams = requests.streams();
    streams.sort_unstable();
    assert_eq!(streams, vec![0, 4, 8]);
    assert_eq!(requests.unsent(0), Some(Chunk { from: 4096, to: 5000, fin: true }));
    assert_eq!(requests.unsent(4), None);
    assert_eq!(requests.payload(4), Some(&vec![0x42; 10]));
    assert_eq!(requests.on_flush(0, SendResult::Took(4), 20), None);
    assert_eq!(requests.unsent(0), Some(Chunk { from: 4100, to: 5000, fin: true }));
    assert_eq!(requests.on_flush(0, SendResult::Blocked, 20), None);
    assert_eq!(requests.on_flush(0, SendResult::Stopped, 20), None);
    assert_eq!(requests.unsent(0), None);
    assert_eq!(
        requests.on_flush(8, SendResult::Failed, 22),
        Some(RawClientCompletion { latency: 10, outcome: RawClientOutcome::Error })
    );
    assert_eq!(requests.on_data(4, b"503 over".to_vec(), false, 30), None);
    assert_eq!(
        requests.on_data(4, b"loaded".to_vec(), true, 31),
        Some(RawClientCompletion { latency: 20, outcome: RawClientOutcome::AppRejected })
    );
    assert_eq!(requests.on_data(4, b"200".to_vec(), true, 31), None);
    assert_eq!(
        requests.on_reset(0, 50),
        Some(RawClientCompletion { latency: 40, outcome: RawClientOutcome::Reset })
    );
    assert_eq!(requests.on_reset(0, 50), None);
    assert_eq!(requests.inflight(), 0);
}

#[test]
fn an_overload_run_accounts_for_its_requests() {
    let mut load = OverloadLoad::start(6, 3, 0).unwrap();
    assert_eq!(load.step(0, 0), LoadStep::Open);
    load.on_opened(1);
    assert_eq!(load.step(1, 1), LoadStep::Open);
    load.on_open_failed(1);
    assert_eq!(load.step(1, 1), LoadStep::Open);
    load.on_blocked();
    assert_eq!(load.step(1, 1), LoadStep::Drive);
    load.on_driven(false, 0);
    assert!(load.can_count() && load.unopened());
    load.on_completion(RawClientCompletion { latency: 5, outcome: RawClientOutcome::Success }, 2);
    assert_eq!(load.step(2, 0), LoadStep::Open);
    load.on_opened(2);
    load.on_opened(2);
    load.on_opened(2);
    assert_eq!(load.step(2, 3), LoadStep::Drive);
    load.on_driven(false, 1);
    load.on_completion(RawClientCompletion { latency: 6, outcome: RawClientOutcome::AppRejected }, 3);
    load.on_completion(RawClientCompletion { latency: 7, outcome: RawClientOutcome::Reset }, 3);
    assert_eq!(load.step(30 * SECOND + 3, 1), LoadStep::Open);
    load.on_blocked();
    assert_eq!(load.step(30 * SECOND + 3, 1), LoadStep::Drive);
    assert_eq!(load.step(30 * SECOND + 4, 1), LoadStep::GiveUp);
    assert!(load.can_give_up());
    let counts = load.give_up();
    assert_eq!((counts.completed, counts.successes, counts.rejected), (4, 1, 1));
    assert_eq!((counts.reset_streams, counts.errors), (1, 3));
    assert_eq!(counts.latencies, vec![5, 6, 7]);
    assert_eq!(counts.rejection_latencies, vec![6, 7]);
}

#[test]
fn an_overload_run_stops_when_nothing_can_happen() {
    let mut load = OverloadLoad::start(1, 1, 0).unwrap();
    assert_eq!(load.step(0, 0), LoadStep::Open);
    load.on_opened(0);
    assert_eq!(load.step(0, 0), LoadStep::Drive);
    load.on_driven(true, 0);
    assert_eq!(load.step(0, 0), LoadStep::Stop);
    let mut done = OverloadLoad::start(1, 1, 0).unwrap();
    done.on_opened(0);
    done.on_completion(RawClientCompletion { latency: 1, outcome: RawClientOutcome::Error }, 1);
    assert_eq!(done.step(1, 0), LoadStep::Stop);
    let counts = done.finish();
    assert_eq!((counts.completed, counts.errors), (1, 1));
    assert!(OverloadLoad::start(usize::MAX, 1, 0).is_none());
}
