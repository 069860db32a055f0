use std::sync::mpsc;

use casket::encoder::ResponseEncoder;
use casket::errors::{fatal_io_error, RuntimeError};
use casket::events::{Event, Timeout};
use casket::shutdown::{server_step, worker_should_exit, ServerPhase, ServerStep};
use casket::http::{parse_context, Context, HttpError, HttpResponseHeader};
use casket::msgs::{ServerMsgBuffer, WorkerMsgBuffer};
use casket::request::{parse_usize, Reader, State};
use casket::server::{
    next_keep_alive_token, registration, Registration, ServerConns, StreamInterest, UnixStream,
    UnixStreams,
};
use casket::timersq::TimersQ;
use casket::worker::{
    event_casket_response_write, new_408_timeout, new_503_service_busy, new_504_gateway_timeout,
    Action, Connections,
};
use casket::workq;
use casket::writer::{State as WriteState, Writer};

fn read_all(bytes: &[u8]) -> Result<State, HttpError> {
    Reader::new().read_tcp_stream(bytes)
}

fn complete(bytes: &[u8]) -> casket::http::HttpRequest {
    match read_all(bytes) {
        Ok(State::Complete(req)) => *req,
        _ => panic!("request not complete"),
    }
}

fn text(b: &[u8]) -> String {
    String::from_utf8(b.to_vec()).unwrap()
}

#[test]
fn dispatch_frame_round_trip() {
    let mut server = ServerMsgBuffer::new();
    server.req_tcp_stream_fd(0x0100_0000, 17);
    assert_eq!(server.next_fd_to_send(), Some(17));
    server.fd_sent();
    let bytes = server.unsent().to_vec();
    assert_eq!(bytes.len(), 13);
    assert_eq!(bytes[0], 12);
    server.write_unix_stream(bytes.len());
    assert!(!server.has_data_to_send());

    let mut worker = WorkerMsgBuffer::new();
    worker.read_unix_stream(&bytes[..5]).unwrap();
    assert_eq!(worker.next_stream_fd(), None);
    worker.read_unix_stream(&bytes[5..]).unwrap();
    worker.receive_fd(42);
    assert_eq!(worker.next_stream_fd(), Some((0x0100_0000, 42)));
    assert!(worker.owns_token(0x0100_0000));
}

#[test]
fn complete_frame_round_trip() {
    let mut server = ServerMsgBuffer::new();
    let mut worker = WorkerMsgBuffer::new();
    server.req_tcp_stream_fd(1 << 24, 9);
    server.req_tcp_stream_fd(2 << 24, 10);
    server.fd_sent();
    server.fd_sent();
    worker.read_unix_stream(server.unsent()).unwrap();
    worker.receive_fd(3);
    worker.receive_fd(4);
    assert_eq!(worker.next_stream_fd(), Some((1 << 24, 3)));
    assert_eq!(worker.next_stream_fd(), Some((2 << 24, 4)));

    worker.resp_stream_done_ok(1 << 24, true);
    worker.resp_bad_client(2 << 24);
    assert!(!worker.owns_token(1 << 24));
    let bytes = worker.unsent().to_vec();
    // 4-byte length, then token, fd, keep-alive and the error tag.
    assert_eq!(&bytes[..4], &[0, 0, 0, 14]);

    server.read_unix_stream(&bytes).unwrap();
    assert_eq!(server.next_stream_tk(), Some(1 << 24));
    assert_eq!(server.next_stream_tk(), None);
    assert_eq!(server.next_stream_close_tk(), Some(2 << 24));
    assert_eq!(server.next_stream_close_tk(), None);
}

#[test]
fn complete_frame_with_io_error_closes() {
    let mut server = ServerMsgBuffer::new();
    let mut worker = WorkerMsgBuffer::new();
    server.req_tcp_stream_fd(5 << 24, 1);
    server.fd_sent();
    worker.read_unix_stream(server.unsent()).unwrap();
    worker.receive_fd(8);
    assert_eq!(worker.next_stream_fd(), Some((5 << 24, 8)));
    worker.resp_io_error(5 << 24, "broken pipe");
    let bytes = worker.unsent().to_vec();
    let body_len = u32::from_be_bytes([bytes[0], bytes[1], bytes[2], bytes[3]]) as usize;
    assert_eq!(bytes.len(), 4 + body_len);
    let err = text(&bytes[4 + 22..]);
    assert_eq!(err, "i/o error with stream-broken pipe");
    server.read_unix_stream(&bytes).unwrap();
    assert_eq!(server.next_stream_close_tk(), Some(5 << 24));
}

#[test]
fn corrupt_frame_is_refused() {
    let mut worker = WorkerMsgBuffer::new();
    assert!(worker.read_unix_stream(&[3, 1, 2, 3]).is_err());
    let mut server = ServerMsgBuffer::new();
    // A body with a keep-alive byte of 7.
    let mut frame = vec![0, 0, 0, 14];
    frame.extend_from_slice(&[0; 12]);
    frame.extend_from_slice(&[7, 0]);
    assert!(server.read_unix_stream(&frame).is_err());
}

#[test]
fn traceparent_is_parsed() {
    let ctx =
        parse_context("00-0af7651916cd43dd8448eb211c80319c-b7ad6b7169203331-01").ok().unwrap();
    assert_eq!(ctx.trace_id, "0af7651916cd43dd8448eb211c80319c");
    assert_eq!(ctx.parent_id_as_ref(), Some("b7ad6b7169203331"));
    assert_eq!(ctx.span_id.len(), 16);
    assert!(ctx.span_id.chars().all(|c| c.is_ascii_hexdigit()));
}

#[test]
fn malformed_traceparent_is_refused() {
    assert!(parse_context("01-0af7651916cd43dd8448eb211c80319c-b7ad6b7169203331-01").is_err());
    assert!(parse_context("00-0af7651916cd43dd8448eb211c80319c-b7ad6b7169203331-01-x").is_err());
    assert!(parse_context("00-0AF7651916CD43DD8448EB211C80319C-b7ad6b7169203331-01").is_err());
    assert!(parse_context("00-0af7651916cd43dd8448eb211c8031-b7ad6b7169203331-01").is_err());
    assert!(parse_context("").is_err());
    assert!(parse_context("00-0af7651916cd43dd8448eb211c80319c-b7ad6b7169203331").is_err());
    assert!(parse_context("00-0af7651916cd43dd8448eb211c80319c-b7ad6b7169203331-0g").is_err());
    assert!(parse_context("00-0af7651916cd43dd8448eb211c80319c-b7ad6b7169203331-011").is_err());
}

#[test]
fn fresh_context_is_hex() {
    let ctx = Context::new();
    assert_eq!(ctx.trace_id.len(), 32);
    assert_eq!(ctx.span_id.len(), 16);
    assert!(ctx.parent_id.is_none());
    assert!(ctx.trace_id.chars().all(|c| matches!(c, '0'..='9' | 'a'..='f')));
}

#[test]
fn response_encoder_writes_head() {
    let mut enc = ResponseEncoder::new(200, "OK");
    enc.write_header("Content-Type", "text/plain");
    let buf = enc.into_buffer();
    assert_eq!(text(&buf), "HTTP/1.1 200 OK\r\nContent-Type: text/plain\r\n\r\n");
    let enc = ResponseEncoder::new(7, "X");
    assert_eq!(text(&enc.into_buffer()), "HTTP/1.1 7 X\r\n\r\n");
}

#[test]
fn single_get_keep_alive() {
    let req = complete(b"GET /a HTTP/1.1\r\nHost: h\r\n\r\n");
    assert!(req.keep_alive);
    assert_eq!(req.url.as_str(), "http://h/a");
    assert_eq!(req.url_text, "http://h/a");
    assert_eq!(req.content_length, 0);
    assert_eq!(req.body, Some(vec![]));
    assert_eq!(req.context.trace_id.len(), 32);

    let (tx, rx) = mpsc::channel();
    drop(tx);
    let header = HttpResponseHeader { code: 200, reason: "OK".to_string(), headers: vec![] };
    let trace = req.context.trace_id.clone();
    let resp = req.into_http_response(header, rx);
    let mut buf = vec![];
    resp.write_header(&mut buf);
    let head = text(&buf);
    assert!(head.starts_with("HTTP/1.1 200 OK\r\n"));
    assert!(head.contains("Connection: Keep-Alive\r\n"));
    assert!(head.contains(&format!("X-TraceId: {}\r\n", trace)));
    assert!(head.contains("Server: Casket\r\n"));
    assert!(head.ends_with("\r\n\r\n"));

    let round1 = 3u64 << 24;
    assert_eq!(next_keep_alive_token(round1), Some(round1 + 128));
}

#[test]
fn content_length_body() {
    let req = complete(b"POST /e HTTP/1.1\r\nHost: h\r\nContent-Length: 5\r\n\r\nhello");
    assert_eq!(req.content_length, 5);
    assert_eq!(req.body, Some(b"hello".to_vec()));
    assert_eq!(req.url.as_str(), "http://h/e");

    let (tx, rx) = mpsc::channel();
    let header = HttpResponseHeader {
        code: 200,
        reason: "OK".to_string(),
        headers: vec![("Content-Length".to_string(), "3".to_string())],
    };
    let trace = req.context.trace_id.clone();
    let resp = req.into_http_response(header, rx);
    assert_eq!(resp.resp_content_length, Some(3));
    tx.send(b"A".to_vec()).unwrap();
    tx.send(b"BC".to_vec()).unwrap();
    drop(tx);

    let mut writer = Writer::new(Box::new(resp), vec![]);
    let mut wire = vec![];
    let done = loop {
        writer.poll_body();
        let out = writer.unsent().to_vec();
        wire.extend_from_slice(&out);
        match writer.write_tcp_stream(out.len()) {
            WriteState::Partial(w) => writer = w,
            WriteState::Done(resp) => break resp,
        }
    };
    assert_eq!(done.resp_content_length, Some(3));
    let wire = text(&wire);
    assert!(wire.contains(&format!("X-TraceId: {}\r\n", trace)));
    assert!(wire.ends_with("\r\n\r\nABC"));
}

#[test]
fn body_arrives_in_parts() {
    let r = match read_all(b"POST /e HTTP/1.1\r\nHost: h\r\nContent-Length: 5\r\n\r\nhe") {
        Ok(State::Partial(r)) => r,
        _ => panic!("expected partial"),
    };
    assert_eq!(r.read_limit(), 3);
    match r.read_tcp_stream(b"llo") {
        Ok(State::Complete(req)) => assert_eq!(req.body, Some(b"hello".to_vec())),
        _ => panic!("expected complete"),
    }
}

#[test]
fn body_longer_than_content_length_fails() {
    match read_all(b"POST /e HTTP/1.1\r\nHost: h\r\nContent-Length: 2\r\n\r\nhello") {
        Err(HttpError::BadValue(m)) => assert_eq!(m, "content-length too large"),
        _ => panic!("expected an error"),
    }
}

#[test]
fn eof_mid_body_fails() {
    let r = match read_all(b"POST /e HTTP/1.1\r\nHost: h\r\nContent-Length: 5\r\n\r\nhe") {
        Ok(State::Partial(r)) => r,
        _ => panic!("expected partial"),
    };
    match r.read_tcp_stream(b"") {
        Err(HttpError::BadValue(m)) => assert_eq!(m, "stream EOF without complete body"),
        _ => panic!("expected an error"),
    }
}

#[test]
fn eof_before_head_is_clean() {
    assert!(matches!(read_all(b""), Ok(State::StreamEOF)));
}

#[test]
fn malformed_request() {
    assert!(matches!(read_all(b"NOTHTTP\r\n\r\n"), Err(_)));

    let mut worker = WorkerMsgBuffer::new();
    let mut server = ServerMsgBuffer::new();
    server.req_tcp_stream_fd(1 << 24, 5);
    server.fd_sent();
    worker.read_unix_stream(server.unsent()).unwrap();
    worker.receive_fd(6);
    worker.next_stream_fd().unwrap();
    worker.resp_bad_client(1 << 24);
    let bytes = worker.unsent().to_vec();
    assert!(text(&bytes[4 + 22..]).contains("badly formed"));
    assert_eq!(bytes[4 + 12], 0);
    server.read_unix_stream(&bytes).unwrap();
    assert_eq!(server.next_stream_close_tk(), Some(1 << 24));
}

#[test]
fn request_faults() {
    let cases: [(&[u8], &str); 5] = [
        (b"GET /a HTTP/1.1\r\n\r\n", "http request missing host header"),
        (b"GET /a HTTP/1.1\r\nHost: h\r\nContent-Length: x\r\n\r\n", "Content-Length not uint"),
        (b"FROB /a HTTP/1.1\r\nHost: h\r\n\r\n", "http request with unrecognised method"),
        (b"GET a HTTP/1.1\r\nHost: h\r\n\r\n", "invalid path in http header"),
        (b"GET /a HTTP/1.1\r\nHost: h\r\nX: \xff\r\n\r\n", "header value not utf8"),
    ];
    for (bytes, msg) in cases.iter() {
        match read_all(bytes) {
            Err(HttpError::BadValue(m)) => assert_eq!(m, *msg),
            _ => panic!("expected {}", msg),
        }
    }
}

#[test]
fn absolute_target_and_connection_close() {
    let req = complete(b"GET http://other/x?q=1 HTTP/1.1\r\nHost: h\r\nconnection: CLOSE\r\n\r\n");
    assert_eq!(req.url.as_str(), "http://other/x?q=1");
    assert!(!req.keep_alive);
    assert_eq!(req.headers[1], ("connection".to_string(), "CLOSE".to_string()));
}

#[test]
fn partial_head_waits() {
    match read_all(b"GET / HTTP/1.1\r\n") {
        Ok(State::Partial(r)) => assert_eq!(r.read_limit(), 4096),
        _ => panic!("expected partial"),
    }
}

#[test]
fn read_timeout_response() {
    let c = new_408_timeout();
    assert_eq!(c.code, 408);
    let t = text(&c.response);
    assert!(t.starts_with("HTTP/1.1 408 Request Timeout\r\n"));
    assert!(t.contains("Connection: Close\r\n"));
    assert!(t.contains("Content-Length: 20\r\n"));
    assert!(t.ends_with("\r\n\r\nrequest read timeout"));
    assert!(text(&new_504_gateway_timeout().response).ends_with("gateway timeout"));

    let n = c.response.len();
    match event_casket_response_write(7, (), c, 10) {
        Action::ServerCasketResponseContinue((7, (), c)) => {
            assert_eq!(c.unsent().len(), n - 10);
            match event_casket_response_write(7, (), c, n - 10) {
                Action::ServerCasketResponseDone((7, (), c)) => assert_eq!(c.bytes_sent, n),
                _ => panic!("expected done"),
            }
        }
        _ => panic!("expected continue"),
    }
}

#[test]
fn admission_503() {
    let mut conns: Connections<u32> = Connections::new(1);
    assert!(conns.admits(false));
    assert!(conns.insert_reading(1 << 24, 10, Reader::new()).is_ok());
    // Sockets still being read do not count against the handlers' bound.
    assert!(conns.admits(false));
    let (s, _) = conns.take_reading(1 << 24).unwrap();
    assert_eq!(s, 10);
    assert!(conns.insert_pending(1 << 24, s).is_ok());
    assert!(!conns.admits(false));
    assert!(conns.insert_reading(2 << 24, 11, Reader::new()).is_ok());
    let (s, _) = conns.take_reading(2 << 24).unwrap();
    assert_eq!(conns.insert_pending(2 << 24, s), Err(11));
    let busy = new_503_service_busy();
    assert!(text(&busy.response).ends_with("service busy"));
    assert!(conns.insert_casket(2 << 24, 11, busy).is_ok());
    assert!(conns.insert_casket(2 << 24, 12, new_503_service_busy()).is_err());
    assert!(conns.contains(2 << 24));
    assert!(conns.take_pending(1 << 24).is_some());
    assert!(conns.take_casket(2 << 24).is_some());
    assert!(conns.is_idle());
}

#[test]
fn timers_end_only_waiting_sockets() {
    let mut conns: Connections<u32> = Connections::new(2);
    conns.insert_reading(1 << 24, 1, Reader::new()).ok().unwrap();
    conns.insert_pending(2 << 24, 2).ok().unwrap();
    assert!(conns.on_timeout(1 << 24, Timeout::PythonCode).is_none());
    assert!(conns.on_timeout(2 << 24, Timeout::RequestRead).is_none());
    let (s, c) = conns.on_timeout(1 << 24, Timeout::RequestRead).unwrap();
    assert_eq!((s, c.code), (1, 408));
    let (s, c) = conns.on_timeout(2 << 24, Timeout::PythonCode).unwrap();
    assert_eq!((s, c.code), (2, 504));
    assert!(conns.is_idle());
    assert!(conns.on_timeout(2 << 24, Timeout::PythonCode).is_none());
}

#[test]
fn graceful_shutdown_steps() {
    let run = ServerPhase::Running;
    assert_eq!(server_step(run, true, false, false, 100, 10_000, 1), ServerStep::Continue(run));
    let drain = ServerPhase::Draining { since_ms: 100 };
    assert_eq!(server_step(run, false, false, false, 100, 10_000, 1), ServerStep::StartDrain(drain));
    assert_eq!(server_step(run, true, true, false, 100, 10_000, 1), ServerStep::StartDrain(drain));
    assert_eq!(server_step(drain, false, false, false, 5_000, 10_000, 1), ServerStep::Continue(drain));
    assert_eq!(server_step(drain, false, false, false, 5_000, 10_000, 0), ServerStep::Exit);
    assert_eq!(server_step(drain, false, false, false, 10_100, 10_000, 1), ServerStep::ForceCloseAndExit);
    assert_eq!(server_step(drain, false, false, true, 200, 10_000, 1), ServerStep::Exit);
    assert_eq!(server_step(run, true, false, true, 200, 10_000, 1), ServerStep::Exit);

    assert!(!worker_should_exit(false, false, false, false, 0, false, false));
    assert!(worker_should_exit(true, false, false, false, 0, false, false));
    assert!(!worker_should_exit(true, false, false, true, 0, false, false));
    assert!(!worker_should_exit(true, false, false, false, 1, false, false));
    assert!(worker_should_exit(true, false, true, true, 1, true, true));
    assert!(worker_should_exit(false, true, false, true, 1, true, true));
}

#[test]
fn closing_worker_refuses_reads() {
    let conns: Connections<u32> = Connections::new(4);
    assert!(conns.admits(false));
    assert!(!conns.admits(true));
}

#[test]
fn traceparent_propagation() {
    let req = complete(
        b"GET / HTTP/1.1\r\nHost: h\r\ntraceparent: 00-0af7651916cd43dd8448eb211c80319c-b7ad6b7169203331-01\r\n\r\n",
    );
    assert_eq!(req.context.trace_id, "0af7651916cd43dd8448eb211c80319c");
    assert_eq!(req.context.parent_id_as_ref(), Some("b7ad6b7169203331"));
    assert_ne!(req.context.span_id, "b7ad6b7169203331");
    let (_tx, rx) = mpsc::channel();
    let header = HttpResponseHeader { code: 204, reason: "No Content".to_string(), headers: vec![] };
    let resp = req.into_http_response(header, rx);
    let mut buf = vec![];
    resp.write_header(&mut buf);
    assert!(text(&buf).contains("X-TraceId: 0af7651916cd43dd8448eb211c80319c\r\n"));
}

#[test]
fn malformed_traceparent_gets_fresh_context() {
    let req = complete(b"GET / HTTP/1.1\r\nHost: h\r\ntraceparent: 00-zz-yy-01\r\n\r\n");
    assert!(req.context.parent_id.is_none());
    assert_eq!(req.context.trace_id.len(), 32);
}

#[test]
fn keep_alive_tokens_run_out() {
    let mut tk = 9u64 << 24;
    let mut rounds = 0;
    while let Some(next) = next_keep_alive_token(tk) {
        assert!(next > tk);
        assert_eq!(next >> 24, 9);
        tk = next;
        rounds += 1;
    }
    assert_eq!(rounds, 127);
}

#[test]
fn server_connection_bound() {
    let mut conns: ServerConns<u8> = ServerConns::new(2);
    let a = conns.accept(1).ok().unwrap();
    let b = conns.accept(2).ok().unwrap();
    assert_eq!(a, 1 << 24);
    assert_eq!(b, 2 << 24);
    assert!(conns.accept(3).is_err());
    assert_eq!(conns.take_reading(a), Some(1));
    assert!(conns.insert_processing(a, 1).is_ok());
    assert_eq!(conns.len(), 2);
    assert_eq!(conns.take_processing(a), Some(1));
    assert!(conns.insert_reading(a + 128, 1).is_ok());
    assert!(conns.insert_reading(99 << 24, 5).is_err());
    assert_eq!(conns.take_reading(b), Some(2));
    assert!(conns.insert_processing(b, 2).is_ok());
    let idle = conns.drain_reading();
    assert_eq!(idle, vec![1]);
    let busy = conns.drain_processing();
    assert_eq!(busy, vec![2]);
    assert_eq!(conns.len(), 0);
}

#[test]
fn stream_interest_changes() {
    assert!(matches!(StreamInterest::from_rw(true, true), StreamInterest::ReadWrite));
    assert!(matches!(StreamInterest::from_rw(false, true), StreamInterest::Write));
    assert!(matches!(
        registration(StreamInterest::Not, StreamInterest::Read),
        Registration::Register(StreamInterest::Read)
    ));
    assert!(matches!(registration(StreamInterest::Read, StreamInterest::Not), Registration::Deregister));
    assert!(matches!(registration(StreamInterest::Write, StreamInterest::Write), Registration::Keep));
    assert!(matches!(
        registration(StreamInterest::Read, StreamInterest::ReadWrite),
        Registration::Reregister(StreamInterest::ReadWrite)
    ));
}

#[test]
fn least_loaded_worker_is_chosen() {
    let mut streams = UnixStreams::new(vec![UnixStream::new(1, ()), UnixStream::new(2, ()), UnixStream::new(3, ())]);
    assert_eq!(streams.msg_send_tcp_stream(1 << 24, 10), 0);
    assert_eq!(streams.msg_send_tcp_stream(2 << 24, 11), 1);
    assert_eq!(streams.msg_send_tcp_stream(3 << 24, 12), 2);
    assert_eq!(streams.msg_send_tcp_stream(4 << 24, 13), 0);
    assert_eq!(streams.position(2), Some(1));
    assert_eq!(streams.position(9), None);
    let (plan, wanted) = streams.streams[0].reregister_plan();
    assert!(matches!(wanted, StreamInterest::ReadWrite));
    assert!(matches!(plan, Registration::Register(StreamInterest::ReadWrite)));
    streams.streams[0].set_interest(wanted);

    // The first worker gives one socket back open and closes the other.
    let s = &mut streams.streams[0];
    while let Some(_) = s.next_fd_to_send() {
        s.fd_sent();
    }
    let mut worker = WorkerMsgBuffer::new();
    worker.read_unix_stream(s.unsent()).unwrap();
    worker.receive_fd(20);
    worker.receive_fd(21);
    worker.next_stream_fd().unwrap();
    worker.next_stream_fd().unwrap();
    worker.resp_stream_done_ok(1 << 24, true);
    worker.resp_stream_done_ok(4 << 24, false);
    s.read_stream(worker.unsent()).unwrap();
    assert_eq!(streams.next_stream_tks(), vec![1 << 24]);
    assert_eq!(streams.next_stream_close_tks(), vec![4 << 24]);
    assert_eq!(streams.streams[0].get_num_reqs(), 0);
}

#[test]
fn work_queue_round_robin() {
    let mut tx = workq::new();
    assert!(matches!(tx.send(0u32), Err(_)));
    let r0 = tx.new_recv().into_inner();
    let r1 = tx.new_recv().into_inner();
    tx.send(1u32).unwrap();
    tx.send(2u32).unwrap();
    tx.send(3u32).unwrap();
    assert_eq!(r1.try_recv(), Ok(1));
    assert_eq!(r0.try_recv(), Ok(2));
    assert_eq!(r1.try_recv(), Ok(3));
    drop(r1);
    tx.send(4u32).unwrap();
    tx.send(5u32).unwrap();
    assert_eq!(r0.try_recv(), Ok(4));
    assert_eq!(r0.try_recv(), Ok(5));
    drop(r0);
    assert_eq!(tx.send(6u32).err().map(|e| e.0), Some(6));
}

#[test]
fn timers_fire_earliest_first() {
    let mut q = TimersQ::new();
    q.push_back(1, 50, Event::RequestReadTimeout);
    q.push_back(2, 30, Event::RequestReadTimeout);
    q.push_back(1, 20, Event::PythonCodeTimeout);
    assert_eq!(q.peek(), Some((1, 20, Event::PythonCodeTimeout)));
    assert_eq!(q.next_timeout(10), None);
    assert_eq!(q.next_timeout(25), Some((1, Event::PythonCodeTimeout)));
    assert_eq!(q.next_timeout(25), None);
    q.cancel(2);
    assert_eq!(q.next_timeout(100), None);
}

#[test]
fn usize_text_parsing() {
    assert_eq!(parse_usize(b"0"), Some(0));
    assert_eq!(parse_usize(b"+42"), Some(42));
    assert_eq!(parse_usize(b"18446744073709551615"), Some(usize::MAX));
    assert_eq!(parse_usize(b"18446744073709551616"), None);
    assert_eq!(parse_usize(b""), None);
    assert_eq!(parse_usize(b"+"), None);
    assert_eq!(parse_usize(b"-1"), None);
    assert_eq!(parse_usize(b"1x"), None);
}

#[test]
fn runtime_error_reasons() {
    assert_eq!(RuntimeError::ForkFailed.reason(), "fork failed");
    assert_eq!(RuntimeError::UnknownToken.reason(), "unknown token");
    assert_eq!(RuntimeError::PythonThreadsDied.reason(), "python worker threads stopped");
    let e = fatal_io_error("bind", std::io::Error::new(std::io::ErrorKind::Other, "boom"));
    assert_eq!(e.reason(), "bind - boom");
}

#[test]
fn status_strings_are_read() {
    let (code, reason) = casket::request::parse_status("200 OK").unwrap();
    assert_eq!(code, 200);
    assert_eq!(reason, "OK");
    let (code, reason) = casket::request::parse_status("404 Not Found").unwrap();
    assert_eq!((code, reason.as_str()), (404, "Not Found"));
    assert!(casket::request::parse_status("OK").is_err());
}

#[test]
fn application_error_response() {
    let err = casket::http::ExecError { traceback: "Traceback: boom".to_string(), value: "boom".to_string() };
    let (header, body) = casket::http::handle_wsgi_exec_err(true, err);
    assert_eq!(header.code, 500);
    assert_eq!(header.reason, "Internal Server Error");
    assert_eq!(header.headers[0], ("Content-Length".to_string(), "15".to_string()));
    assert_eq!(header.headers[2], ("X-Error".to_string(), "boom".to_string()));
    assert_eq!(body, b"Traceback: boom".to_vec());

    let err = casket::http::ExecError { traceback: "t".to_string(), value: "v".to_string() };
    let (header, body) = casket::http::handle_wsgi_exec_err(false, err);
    assert_eq!(header.headers, vec![("Content-Length".to_string(), "0".to_string())]);
    assert!(body.is_empty());
    assert_eq!(casket::http::decimal_string(0), "0");
    assert_eq!(casket::http::decimal_string(1234567), "1234567");
}

#[test]
fn input_reads_lines_and_bytes() {
    let mut input = casket::input::WsgiInput::new(b"ab\ncd\nef".to_vec());
    assert_eq!(input.readline(), b"ab\n".to_vec());
    assert_eq!(input.read(Some(1)), b"c".to_vec());
    assert_eq!(input.readline(), b"d\n".to_vec());
    assert_eq!(input.next_byte(), Some(b'e'));
    assert_eq!(input.read(None), b"f".to_vec());
    assert_eq!(input.read(Some(5)), Vec::<u8>::new());
    assert_eq!(input.readline(), Vec::<u8>::new());
    assert_eq!(input.next_byte(), None);
}
