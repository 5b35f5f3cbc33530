//! Parsing command lines.

use bstk::parse::parse_line;
use bstk::proto::{Command, JobId, Response, TubeName};
use bstk::stats::{StatsJob, StatsTube};
use bytes::Bytes;

fn tube(s: &str) -> TubeName {
    TubeName::new(s).expect("valid tube name in test fixture")
}

#[test]
fn put_valid() {
    assert_eq!(
        parse_line(b"put 1 2 3 5"),
        Ok(Command::Put {
            pri: 1,
            delay: 2,
            ttr: 3,
            body: Bytes::new(),
        })
    );
}

#[test]
fn put_missing_args() {
    assert_eq!(parse_line(b"put 1 2 3"), Err(Response::BadFormat));
    assert_eq!(parse_line(b"put"), Err(Response::UnknownCommand));
    assert_eq!(parse_line(b"put "), Err(Response::BadFormat));
}

#[test]
fn put_non_numeric() {
    assert_eq!(parse_line(b"put x 2 3 5"), Err(Response::BadFormat));
}

#[test]
fn put_negative() {
    assert_eq!(parse_line(b"put -1 2 3 5"), Err(Response::BadFormat));
}

#[test]
fn put_pri_u32_overflow() {
    assert_eq!(
        parse_line(b"put 4294967296 0 0 5"),
        Err(Response::BadFormat)
    );
}

#[test]
fn put_pri_u32_max_ok() {
    assert_eq!(
        parse_line(b"put 4294967295 0 0 5"),
        Ok(Command::Put {
            pri: u32::MAX,
            delay: 0,
            ttr: 0,
            body: Bytes::new(),
        })
    );
}

#[test]
fn put_extra_whitespace_between_fields_ok() {
    assert_eq!(
        parse_line(b"put 1   2  3   5"),
        Ok(Command::Put {
            pri: 1,
            delay: 2,
            ttr: 3,
            body: Bytes::new(),
        })
    );
}

#[test]
fn put_trailing_garbage_accepted_by_bare_parse_line() {
    assert_eq!(
        parse_line(b"put 0 0 0 5 extra"),
        Ok(Command::Put {
            pri: 0,
            delay: 0,
            ttr: 0,
            body: Bytes::new(),
        })
    );
}

#[test]
fn use_valid() {
    assert_eq!(parse_line(b"use foo"), Ok(Command::Use(tube("foo"))));
}

#[test]
fn use_missing_name() {
    assert_eq!(parse_line(b"use "), Err(Response::BadFormat));
    assert_eq!(parse_line(b"use"), Err(Response::UnknownCommand));
}

#[test]
fn use_trailing_garbage() {
    assert_eq!(parse_line(b"use foo bar"), Err(Response::BadFormat));
    assert_eq!(parse_line(b"use foo "), Err(Response::BadFormat));
}

#[test]
fn use_leading_extra_space() {
    assert_eq!(parse_line(b"use  foo"), Err(Response::BadFormat));
}

#[test]
fn use_invalid_chars() {
    assert_eq!(parse_line(b"use fo o"), Err(Response::BadFormat));
    assert_eq!(parse_line(b"use fo!o"), Err(Response::BadFormat));
}

#[test]
fn use_starts_with_dash() {
    assert_eq!(parse_line(b"use -foo"), Err(Response::BadFormat));
}

#[test]
fn use_len_200_ok() {
    let name = "a".repeat(200);
    assert_eq!(
        parse_line(format!("use {name}").as_bytes()),
        Ok(Command::Use(tube(&name)))
    );
}

#[test]
fn use_len_201_bad_format() {
    let name = "a".repeat(201);
    assert_eq!(
        parse_line(format!("use {name}").as_bytes()),
        Err(Response::BadFormat)
    );
}

#[test]
fn reserve_valid() {
    assert_eq!(parse_line(b"reserve"), Ok(Command::Reserve));
}

#[test]
fn reserve_trailing_garbage() {
    assert_eq!(parse_line(b"reserve x"), Err(Response::BadFormat));
    assert_eq!(parse_line(b"reserve "), Err(Response::BadFormat));
}

#[test]
fn reserve_with_timeout_valid() {
    assert_eq!(
        parse_line(b"reserve-with-timeout 5"),
        Ok(Command::ReserveWithTimeout(5))
    );
}

#[test]
fn reserve_with_timeout_zero_ok() {
    assert_eq!(
        parse_line(b"reserve-with-timeout 0"),
        Ok(Command::ReserveWithTimeout(0))
    );
}

#[test]
fn reserve_with_timeout_int_max_ok() {
    assert_eq!(
        parse_line(b"reserve-with-timeout 2147483647"),
        Ok(Command::ReserveWithTimeout(2147483647))
    );
}

#[test]
fn reserve_with_timeout_over_int_max() {
    assert_eq!(
        parse_line(b"reserve-with-timeout 2147483648"),
        Err(Response::BadFormat)
    );
}

#[test]
fn reserve_with_timeout_non_numeric() {
    assert_eq!(
        parse_line(b"reserve-with-timeout x"),
        Err(Response::BadFormat)
    );
}

#[test]
fn reserve_with_timeout_negative() {
    assert_eq!(
        parse_line(b"reserve-with-timeout -1"),
        Err(Response::BadFormat)
    );
}

#[test]
fn reserve_with_timeout_trailing_garbage_ignored() {
    assert_eq!(
        parse_line(b"reserve-with-timeout 5 garbage"),
        Ok(Command::ReserveWithTimeout(5))
    );
}

#[test]
fn reserve_job_valid() {
    assert_eq!(parse_line(b"reserve-job 42"), Ok(Command::ReserveJob(42)));
}

#[test]
fn reserve_job_missing_id() {
    assert_eq!(parse_line(b"reserve-job "), Err(Response::BadFormat));
}

#[test]
fn reserve_job_trailing_garbage() {
    assert_eq!(parse_line(b"reserve-job 42 x"), Err(Response::BadFormat));
}

#[test]
fn delete_valid() {
    assert_eq!(parse_line(b"delete 42"), Ok(Command::Delete(42)));
}

#[test]
fn delete_non_numeric() {
    assert_eq!(parse_line(b"delete x"), Err(Response::BadFormat));
}

#[test]
fn delete_negative() {
    assert_eq!(parse_line(b"delete -1"), Err(Response::BadFormat));
}

#[test]
fn delete_trailing_space() {
    assert_eq!(parse_line(b"delete 1 "), Err(Response::BadFormat));
}

#[test]
fn delete_leading_space_ok() {
    assert_eq!(parse_line(b"delete  1"), Ok(Command::Delete(1)));
}

#[test]
fn delete_u64_overflow() {
    assert_eq!(
        parse_line(b"delete 99999999999999999999999999"),
        Err(Response::BadFormat)
    );
}

#[test]
fn delete_u64_max_ok() {
    let id: JobId = u64::MAX;
    assert_eq!(
        parse_line(format!("delete {id}").as_bytes()),
        Ok(Command::Delete(id))
    );
}

#[test]
fn delete_missing_arg() {
    assert_eq!(parse_line(b"delete "), Err(Response::BadFormat));
}

#[test]
fn release_valid() {
    assert_eq!(
        parse_line(b"release 1 2 3"),
        Ok(Command::Release {
            id: 1,
            pri: 2,
            delay: 3
        })
    );
}

#[test]
fn release_extra_spaces_ok() {
    assert_eq!(
        parse_line(b"release 1   2   3"),
        Ok(Command::Release {
            id: 1,
            pri: 2,
            delay: 3
        })
    );
}

#[test]
fn release_wrong_arg_count() {
    assert_eq!(parse_line(b"release 1 2"), Err(Response::BadFormat));
}

#[test]
fn release_negative_pri() {
    assert_eq!(parse_line(b"release 1 -2 3"), Err(Response::BadFormat));
}

#[test]
fn release_pri_u32_overflow() {
    assert_eq!(
        parse_line(b"release 1 4294967296 3"),
        Err(Response::BadFormat)
    );
}

#[test]
fn release_trailing_garbage() {
    assert_eq!(parse_line(b"release 1 2 3 x"), Err(Response::BadFormat));
}

#[test]
fn bury_valid() {
    assert_eq!(parse_line(b"bury 1 2"), Ok(Command::Bury { id: 1, pri: 2 }));
}

#[test]
fn bury_wrong_arg_count() {
    assert_eq!(parse_line(b"bury 1"), Err(Response::BadFormat));
}

#[test]
fn bury_negative_pri() {
    assert_eq!(parse_line(b"bury 1 -2"), Err(Response::BadFormat));
}

#[test]
fn bury_trailing_garbage() {
    assert_eq!(parse_line(b"bury 1 2 3"), Err(Response::BadFormat));
}

#[test]
fn touch_valid() {
    assert_eq!(parse_line(b"touch 1"), Ok(Command::Touch(1)));
}

#[test]
fn touch_non_numeric() {
    assert_eq!(parse_line(b"touch x"), Err(Response::BadFormat));
}

#[test]
fn watch_valid() {
    assert_eq!(parse_line(b"watch foo"), Ok(Command::Watch(tube("foo"))));
}

#[test]
fn watch_invalid_tube() {
    assert_eq!(parse_line(b"watch -foo"), Err(Response::BadFormat));
}

#[test]
fn ignore_valid() {
    assert_eq!(parse_line(b"ignore foo"), Ok(Command::Ignore(tube("foo"))));
}

#[test]
fn ignore_len_201_bad_format() {
    let name = "a".repeat(201);
    assert_eq!(
        parse_line(format!("ignore {name}").as_bytes()),
        Err(Response::BadFormat)
    );
}

#[test]
fn peek_valid() {
    assert_eq!(parse_line(b"peek 1"), Ok(Command::Peek(1)));
}

#[test]
fn peek_non_numeric() {
    assert_eq!(parse_line(b"peek x"), Err(Response::BadFormat));
}

#[test]
fn peek_ready_valid() {
    assert_eq!(parse_line(b"peek-ready"), Ok(Command::PeekReady));
}

#[test]
fn peek_ready_trailing_garbage() {
    assert_eq!(parse_line(b"peek-readyx"), Err(Response::BadFormat));
    assert_eq!(parse_line(b"peek-ready x"), Err(Response::BadFormat));
}

#[test]
fn peek_delayed_valid() {
    assert_eq!(parse_line(b"peek-delayed"), Ok(Command::PeekDelayed));
}

#[test]
fn peek_buried_valid() {
    assert_eq!(parse_line(b"peek-buried"), Ok(Command::PeekBuried));
}

#[test]
fn kick_valid() {
    assert_eq!(parse_line(b"kick 5"), Ok(Command::Kick(5)));
}

#[test]
fn kick_no_digits() {
    assert_eq!(parse_line(b"kick "), Err(Response::BadFormat));
    assert_eq!(parse_line(b"kick"), Err(Response::UnknownCommand));
}

#[test]
fn kick_trailing_garbage_ignored() {
    assert_eq!(parse_line(b"kick 5 foobar"), Ok(Command::Kick(5)));
}

#[test]
fn kick_negative_wraps() {
    assert_eq!(parse_line(b"kick -1"), Ok(Command::Kick(u32::MAX)));
}

#[test]
fn kick_plus_sign_ok() {
    assert_eq!(parse_line(b"kick +5"), Ok(Command::Kick(5)));
}

#[test]
fn kick_leading_tab_ok() {
    assert_eq!(parse_line(b"kick \t5"), Ok(Command::Kick(5)));
}

#[test]
fn kick_u32_boundary_truncates() {
    assert_eq!(parse_line(b"kick 4294967298"), Ok(Command::Kick(2)));
}

#[test]
fn kick_u64_max_ok_no_overflow() {
    assert_eq!(
        parse_line(b"kick 18446744073709551615"),
        Ok(Command::Kick(u32::MAX))
    );
}

#[test]
fn kick_u64_overflow_bad_format() {
    assert_eq!(
        parse_line(b"kick 18446744073709551616"),
        Err(Response::BadFormat)
    );
}

#[test]
fn kick_job_valid() {
    assert_eq!(parse_line(b"kick-job 5"), Ok(Command::KickJob(5)));
}

#[test]
fn kick_job_non_numeric() {
    assert_eq!(parse_line(b"kick-job x"), Err(Response::BadFormat));
}

#[test]
fn stats_valid() {
    assert_eq!(parse_line(b"stats"), Ok(Command::Stats));
}

#[test]
fn stats_trailing_garbage() {
    assert_eq!(parse_line(b"statsx"), Err(Response::BadFormat));
}

#[test]
fn stats_job_valid() {
    assert_eq!(parse_line(b"stats-job 1"), Ok(Command::StatsJob(1)));
}

#[test]
fn stats_job_non_numeric() {
    assert_eq!(parse_line(b"stats-job x"), Err(Response::BadFormat));
}

#[test]
fn stats_tube_valid() {
    assert_eq!(
        parse_line(b"stats-tube foo"),
        Ok(Command::StatsTube(tube("foo")))
    );
}

#[test]
fn stats_tube_missing_name() {
    assert_eq!(parse_line(b"stats-tube "), Err(Response::BadFormat));
    assert_eq!(parse_line(b"stats-tube"), Err(Response::BadFormat));
}

#[test]
fn stats_tube_trailing_space() {
    assert_eq!(parse_line(b"stats-tube foo "), Err(Response::BadFormat));
}

#[test]
fn list_tubes_valid() {
    assert_eq!(parse_line(b"list-tubes"), Ok(Command::ListTubes));
}

#[test]
fn list_tubes_trailing_garbage() {
    assert_eq!(parse_line(b"list-tubesx"), Err(Response::BadFormat));
}

#[test]
fn list_tube_used_valid() {
    assert_eq!(parse_line(b"list-tube-used"), Ok(Command::ListTubeUsed));
}

#[test]
fn list_tubes_watched_valid() {
    assert_eq!(
        parse_line(b"list-tubes-watched"),
        Ok(Command::ListTubesWatched)
    );
}

#[test]
fn quit_valid() {
    assert_eq!(parse_line(b"quit"), Ok(Command::Quit));
}

#[test]
fn quit_trailing_garbage_ignored() {
    assert_eq!(parse_line(b"quit garbage"), Ok(Command::Quit));
}

#[test]
fn pause_tube_valid() {
    assert_eq!(
        parse_line(b"pause-tube foo 5"),
        Ok(Command::PauseTube {
            tube: tube("foo"),
            delay: 5
        })
    );
}

#[test]
fn pause_tube_no_space_after_command_name() {
    assert_eq!(
        parse_line(b"pause-tubefoo 5"),
        Ok(Command::PauseTube {
            tube: tube("foo"),
            delay: 5
        })
    );
}

#[test]
fn pause_tube_extra_leading_spaces_before_name_ok() {
    assert_eq!(
        parse_line(b"pause-tube  foo 5"),
        Ok(Command::PauseTube {
            tube: tube("foo"),
            delay: 5
        })
    );
}

#[test]
fn pause_tube_extra_spaces_before_delay_ok() {
    assert_eq!(
        parse_line(b"pause-tube foo   5"),
        Ok(Command::PauseTube {
            tube: tube("foo"),
            delay: 5
        })
    );
}

#[test]
fn pause_tube_invalid_name_is_a_counted_command() {
    assert_eq!(
        parse_line(b"pause-tube -foo 5"),
        Ok(Command::PauseTubeBadName)
    );
    let long = format!("pause-tube {} 5", "a".repeat(201));
    assert_eq!(parse_line(long.as_bytes()), Ok(Command::PauseTubeBadName));
    let ok = format!("pause-tube {} 5", "a".repeat(200));
    assert!(matches!(
        parse_line(ok.as_bytes()),
        Ok(Command::PauseTube { delay: 5, .. })
    ));
    assert_eq!(parse_line(b"pause-tube -foo x"), Err(Response::BadFormat));
    assert_eq!(parse_line(b"pause-tube *foo 5"), Err(Response::BadFormat));
}

#[test]
fn pause_tube_missing_delay() {
    assert_eq!(parse_line(b"pause-tube foo"), Err(Response::BadFormat));
}

#[test]
fn pause_tube_trailing_space_after_delay() {
    assert_eq!(parse_line(b"pause-tube foo 5 "), Err(Response::BadFormat));
}

#[test]
fn pause_tube_tab_before_name_invalid() {
    assert_eq!(parse_line(b"pause-tube\tfoo 5"), Err(Response::BadFormat));
}

#[test]
fn pause_tube_no_separator_swallows_digits() {
    assert_eq!(parse_line(b"pause-tube foo5"), Err(Response::BadFormat));
}

#[test]
fn parse_tests_unknown_command() {
    assert_eq!(parse_line(b"frobnicate"), Err(Response::UnknownCommand));
}

#[test]
fn empty_line_is_unknown() {
    assert_eq!(parse_line(b""), Err(Response::UnknownCommand));
}

#[test]
fn wrong_case_is_unknown() {
    assert_eq!(parse_line(b"USE foo"), Err(Response::UnknownCommand));
    assert_eq!(parse_line(b"Quit"), Err(Response::UnknownCommand));
}

#[test]
fn embedded_nul_is_bad_format() {
    assert_eq!(parse_line(b"use fo\0o"), Err(Response::BadFormat));
    assert_eq!(parse_line(b"quit\0"), Err(Response::BadFormat));
}
