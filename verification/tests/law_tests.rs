//! What holds of the library as a whole, on examples.

use bstk::codec::ServerCodec;
use bstk::latency::{Op, Recorder};
use bstk::load::{
    bench_tube, body_len, check_args, consumer_step, finish_body, inserted, leftover_jobs,
    own_jobs, own_tube, producers, queue, queue_auth, queue_put, read_line, reserved, role, set_up,
    setup, BadArgs, ConsumerStep, Role, Scenario,
};
use bstk::parse::parse_line;
use bstk::proto::{Command, Frame, PutRejection, Response, TubeName};
use bstk::reply::{parse_reply_line, stats_str, stats_u64, Reply};
use bytes::{Bytes, BytesMut};

fn tube(s: &str) -> TubeName {
    TubeName::new(s).unwrap()
}

/// One of each command that a client can send.
fn commands() -> Vec<Command> {
    vec![
        Command::Put { pri: u32::MAX, delay: 0, ttr: 60, body: Bytes::from_static(b"a\r\nb\0c") },
        Command::Put { pri: 0, delay: 1, ttr: 2, body: Bytes::new() },
        Command::Use(tube("foo")),
        Command::Reserve,
        Command::ReserveWithTimeout(i32::MAX as u32),
        Command::ReserveJob(u64::MAX),
        Command::Delete(1),
        Command::Release { id: 2, pri: 3, delay: 4 },
        Command::Bury { id: 5, pri: 6 },
        Command::Touch(7),
        Command::Watch(tube(&"w".repeat(200))),
        Command::Ignore(tube("a-b+c/d;e.f$g_h(i)")),
        Command::Peek(8),
        Command::PeekReady,
        Command::PeekDelayed,
        Command::PeekBuried,
        Command::Kick(u32::MAX),
        Command::KickJob(9),
        Command::StatsJob(10),
        Command::StatsTube(tube("foo")),
        Command::Stats,
        Command::ListTubes,
        Command::ListTubeUsed,
        Command::ListTubesWatched,
        Command::Quit,
        Command::PauseTube { tube: tube(&"p".repeat(200)), delay: u32::MAX },
    ]
}

#[test]
fn sent_commands_come_back() {
    for cmd in commands() {
        let mut sent: Vec<u8> = Vec::new();
        queue(&mut sent, &cmd);
        let mut codec = ServerCodec::new(1 << 20);
        let mut buf = BytesMut::from(&sent[..]);
        assert_eq!(codec.decode(&mut buf), Some(Frame::Command(cmd)));
        assert_eq!(buf.len(), 0);
        assert_eq!(codec.decode(&mut buf), None);
    }
}

#[test]
fn sent_commands_come_back_byte_by_byte() {
    for cmd in commands() {
        let mut sent: Vec<u8> = Vec::new();
        queue(&mut sent, &cmd);
        let mut codec = ServerCodec::new(1 << 20);
        let mut buf = BytesMut::new();
        let mut frames: Vec<Frame> = Vec::new();
        for &b in &sent {
            buf.extend_from_slice(&[b]);
            while let Some(f) = codec.decode(&mut buf) {
                frames.push(f);
            }
        }
        assert_eq!(frames, vec![Frame::Command(cmd)]);
    }
}

#[test]
fn chunking_changes_nothing() {
    let mut stream: Vec<u8> = Vec::new();
    for cmd in commands() {
        queue(&mut stream, &cmd);
    }
    stream.extend_from_slice(b"put 0 0 1 9\r\ntoo large\r\nput 1 2 3 2 x\r\nput 1 2 3 2\r\nabcd");
    stream.extend_from_slice(&[b'z'; 500]);
    stream.extend_from_slice(b"\r\nauth token\r\nnonsense\r\nquit\r\nres");
    let run = |size: usize| {
        let mut codec = ServerCodec::new(8).emit_put_started().recognize_auth();
        let mut buf = BytesMut::new();
        let mut frames: Vec<Frame> = Vec::new();
        for piece in stream.chunks(size) {
            buf.extend_from_slice(piece);
            while let Some(f) = codec.decode(&mut buf) {
                frames.push(f);
            }
        }
        (frames, buf.to_vec())
    };
    let whole = run(stream.len());
    assert_eq!(whole.1, b"res".to_vec());
    assert!(whole.0.contains(&Frame::PutRejected(PutRejection::JobTooBig)));
    assert!(whole.0.contains(&Frame::PutRejected(PutRejection::TrailingGarbage)));
    assert!(whole.0.contains(&Frame::PutRejected(PutRejection::ExpectedCrlf)));
    assert!(whole.0.contains(&Frame::Error(Response::BadFormat)));
    assert!(whole.0.contains(&Frame::Auth(Bytes::from_static(b"token"))));
    for size in [1, 2, 3, 7, 100, 224, 225] {
        assert_eq!(run(size), whole);
    }
}

#[test]
fn rejected_put_is_answered_where_puts_are_not_announced() {
    let mut codec = ServerCodec::new(4);
    let mut buf = BytesMut::from(&b"put 0 0 1 1\r\nabc"[..]);
    assert_eq!(codec.decode(&mut buf), Some(Frame::Error(Response::ExpectedCrlf)));
    assert_eq!(buf.len(), 0);
}

#[test]
fn auth_is_unknown_unless_asked_for() {
    let mut buf = BytesMut::from(&b"auth x\r\n"[..]);
    assert_eq!(
        ServerCodec::new(4).decode(&mut buf),
        Some(Frame::Error(Response::UnknownCommand))
    );
}

#[test]
fn kick_reads_its_number_loosely() {
    assert_eq!(parse_line(b"kick \t\x0b\x0c 12abc"), Ok(Command::Kick(12)));
    assert_eq!(parse_line(b"kick +3"), Ok(Command::Kick(3)));
    assert_eq!(parse_line(b"kick -1"), Ok(Command::Kick(u32::MAX)));
    assert_eq!(parse_line(b"kick 4294967297"), Ok(Command::Kick(1)));
    assert_eq!(parse_line(b"kick -4294967296"), Ok(Command::Kick(0)));
    assert_eq!(parse_line(b"kick 18446744073709551615"), Ok(Command::Kick(u32::MAX)));
    assert_eq!(parse_line(b"kick 18446744073709551616"), Err(Response::BadFormat));
    assert_eq!(parse_line(b"kick - 1"), Err(Response::BadFormat));
}

#[test]
fn names_must_be_text() {
    assert_eq!(parse_line(b"use \xff\xfe"), Err(Response::BadFormat));
    assert_eq!(parse_line("use \u{e9}".as_bytes()), Err(Response::BadFormat));
    assert_eq!(parse_line(b"use abc"), Ok(Command::Use(tube("abc"))));
}

#[test]
fn other_replies_keep_their_text() {
    assert_eq!(parse_reply_line(b"NOT_FOUND"), Reply::Other("NOT_FOUND".to_string()));
    assert_eq!(parse_reply_line(b"INSERTED 1\xff"), Reply::Other("INSERTED 1\u{fffd}".to_string()));
    assert_eq!(parse_reply_line(b"USING \xff"), Reply::Using);
    assert_eq!(parse_reply_line(b"INSERTED +7"), Reply::Inserted(7));
    assert_eq!(parse_reply_line(b"INSERTED  7"), Reply::Other("INSERTED  7".to_string()));
    assert_eq!(
        parse_reply_line(b"WATCHING 4294967296"),
        Reply::Other("WATCHING 4294967296".to_string())
    );
}

#[test]
fn values_are_trimmed() {
    let yaml = "---\na: \u{3000} 5 \r\nb: x: y\nc:\nd: -1\n";
    assert_eq!(stats_str(yaml, "a"), Some("5"));
    assert_eq!(stats_u64(yaml, "a"), Some(5));
    assert_eq!(stats_str(yaml, "b"), Some("x: y"));
    assert_eq!(stats_str(yaml, "c"), None);
    assert_eq!(stats_u64(yaml, "d"), None);
}

#[test]
fn summary_sorts_and_ranks() {
    let mut r = Recorder::default();
    for n in [50u128, 10, 40, 20, 30] {
        r.record(Op::Reserve, n);
    }
    r.record(Op::Delete, u128::MAX);
    let s = r.summary(Op::Reserve).unwrap();
    assert_eq!((s.count, s.p50, s.p99, s.p999, s.max), (5, 30, 50, 50, 50));
    assert_eq!(r.summary(Op::Delete).unwrap().max, u64::MAX);
    assert_eq!(r.count(Op::Put), 0);
    assert_eq!(Op::ALL.map(|op| op.name()), ["put", "reserve", "delete"]);
}

#[test]
fn what_the_client_queues() {
    let mut v: Vec<u8> = Vec::new();
    queue_put(&mut v, 1, 2, 3, b"hello");
    assert_eq!(v, b"put 1 2 3 5\r\nhello\r\n");
    v.clear();
    queue_auth(&mut v, b"secret");
    assert_eq!(v, b"auth secret\r\n");
    v.clear();
    queue(&mut v, &Command::PauseTube { tube: tube("t"), delay: 9 });
    assert_eq!(v, b"pause-tube t 9\r\n");
    assert_eq!(bench_tube(12, Some(3)).as_str(), "bench-12-3");
    assert_eq!(bench_tube(12, None).as_str(), "bench-12-shared");
    assert_eq!(own_tube(Scenario::PutReserveDelete, 3), Some(3));
    assert_eq!(own_tube(Scenario::PutOnly, 3), None);
}

#[test]
fn what_the_client_reads() {
    assert_eq!(read_line(b"DELETED\r\n"), Some(Reply::Deleted));
    assert_eq!(read_line(b"DELETED\n"), None);
    assert_eq!(body_len(&Reply::OkBody(4)), Some(4));
    assert_eq!(body_len(&Reply::Reserved { id: 1, body_len: 2 }), Some(2));
    assert_eq!(body_len(&Reply::Deleted), None);
    let mut body = b"abc\r\n".to_vec();
    assert!(finish_body(&mut body));
    assert_eq!(body, b"abc");
    assert!(!finish_body(&mut body));
    assert_eq!(body, b"abc");
}

#[test]
fn what_the_client_expects() {
    assert_eq!(inserted(Reply::Inserted(4)).unwrap(), 4);
    let e = inserted(Reply::TimedOut).unwrap_err();
    assert_eq!((e.op, e.reply), ("put", Reply::TimedOut));
    assert_eq!(reserved(Reply::Reserved { id: 4, body_len: 2 }, 2).unwrap(), 4);
    assert!(reserved(Reply::Reserved { id: 4, body_len: 2 }, 3).is_err());
    assert_eq!(
        consumer_step(Reply::Reserved { id: 4, body_len: 2 }, true).unwrap(),
        ConsumerStep::Delete(4)
    );
    assert_eq!(consumer_step(Reply::TimedOut, true).unwrap(), ConsumerStep::Stop);
    assert_eq!(consumer_step(Reply::TimedOut, false).unwrap(), ConsumerStep::Retry);
    assert!(consumer_step(Reply::Deleted, false).is_err());
    let mut got = vec![3, 1, 2];
    assert!(own_jobs(&mut got, &[1, 2, 3]));
    assert_eq!(got, vec![1, 2, 3]);
    assert!(!own_jobs(&mut got, &[1, 2]));
    assert!(!own_jobs(&mut got, &[1, 2, 4]));
}

#[test]
fn what_a_run_needs_and_leaves() {
    assert_eq!(check_args(Scenario::PutOnly, 1, 1, 1), Ok(()));
    assert_eq!(check_args(Scenario::PutOnly, 0, 1, 1), Err(BadArgs::Zero));
    assert_eq!(check_args(Scenario::ProducersConsumers, 1, 1, 1), Err(BadArgs::TooFewConns));
    let yaml = "---\ncurrent-jobs-ready: 0\ncurrent-jobs-reserved: 2\ncurrent-jobs-delayed: 0\n";
    let left: Vec<(&str, Option<u64>)> =
        leftover_jobs(yaml).iter().map(|l| (l.key, l.count)).collect();
    assert_eq!(left, vec![("current-jobs-reserved", Some(2)), ("current-jobs-buried", None)]);
}

#[test]
fn what_the_server_writes_is_read() {
    let replies = vec![
        (Response::Inserted(u64::MAX), Reply::Inserted(u64::MAX)),
        (
            Response::Reserved { id: 7, body: Bytes::from_static(b"a\r\nb") },
            Reply::Reserved { id: 7, body_len: 4 },
        ),
        (Response::Using(tube("foo")), Reply::Using),
        (Response::Watching(3), Reply::Watching(3)),
        (Response::OkBody(Bytes::from_static(b"---\n")), Reply::OkBody(4)),
        (Response::Deleted, Reply::Deleted),
        (Response::TimedOut, Reply::TimedOut),
        (Response::Authenticated, Reply::Authenticated),
        (Response::BuriedId(5), Reply::Other("BURIED 5".to_string())),
        (Response::DeadlineSoon, Reply::Other("DEADLINE_SOON".to_string())),
        (
            Response::Found { id: 1, body: Bytes::new() },
            Reply::Other("FOUND 1 0".to_string()),
        ),
    ];
    for (response, reply) in replies {
        let mut out = BytesMut::new();
        response.encode(&mut out);
        let end = out.iter().position(|b| *b == b'\n').unwrap() + 1;
        assert_eq!(read_line(&out[..end]), Some(reply));
        let body: &[u8] = match &response {
            Response::Reserved { body, .. } | Response::Found { body, .. } => body,
            Response::OkBody(body) => body,
            _ => continue,
        };
        let mut rest = out[end..].to_vec();
        assert!(finish_body(&mut rest));
        assert_eq!(rest, body);
    }
}

#[test]
fn who_does_what_in_a_run() {
    for i in 0..4 {
        assert_eq!(role(Scenario::PutReserveDelete, 4, i), Role::Cycle);
        assert_eq!(role(Scenario::PutOnly, 4, i), Role::Produce);
    }
    let roles: Vec<Role> = (0..5).map(|i| role(Scenario::ProducersConsumers, 5, i)).collect();
    assert_eq!(
        roles,
        vec![Role::Produce, Role::Produce, Role::Consume, Role::Consume, Role::Consume]
    );
    assert_eq!(producers(Scenario::ProducersConsumers, 5), 2);
    assert_eq!(producers(Scenario::PutOnly, 5), 5);
    assert_eq!(producers(Scenario::PutReserveDelete, 5), 0);
    let default = TubeName::default_tube();
    assert_eq!(
        setup(&default),
        vec![Command::Use(default.clone()), Command::Watch(default.clone())]
    );
    assert_eq!(
        setup(&tube("a")),
        vec![Command::Use(tube("a")), Command::Watch(tube("a")), Command::Ignore(default.clone())]
    );
    assert!(set_up(&Command::Use(tube("a")), Reply::Using).is_ok());
    assert_eq!(set_up(&Command::Use(tube("a")), Reply::Deleted).unwrap_err().op, "use");
    assert!(set_up(&Command::Watch(tube("a")), Reply::Watching(2)).is_ok());
    assert!(set_up(&Command::Ignore(default.clone()), Reply::Watching(1)).is_ok());
    assert_eq!(set_up(&Command::Ignore(default), Reply::Watching(2)).unwrap_err().op, "ignore");
}
