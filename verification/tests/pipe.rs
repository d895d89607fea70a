use wmux::pipe::{
    client_access, could_not_create_message, could_not_open_message, descriptor_for_user,
    open_mode, pipe_mode, read_bytes, stayed_busy_message, wait_for_connection, write_chunk,
    Accepted, Accepting, Answer, Connecting, OpenStep, Outgoing, Progress, WriteZero,
    CONNECT_ATTEMPTS, ERROR_BROKEN_PIPE, ERROR_IO_PENDING, ERROR_MORE_DATA, ERROR_PIPE_BUSY,
    ERROR_PIPE_CONNECTED, ERROR_PIPE_NOT_CONNECTED,
};
use wmux::wide::to_wide;

#[test]
fn wide_strings_are_nul_terminated() {
    let w = to_wide("ab");
    assert_eq!(w, vec![b'a' as u16, b'b' as u16, 0]);
}

fn done(transferred: u32) -> Answer {
    Answer { ok: true, code: 0, transferred }
}

fn failed(code: u32, transferred: u32) -> Answer {
    Answer { ok: false, code, transferred }
}

#[test]
fn the_descriptor_names_system_administrators_and_the_user() {
    assert_eq!(
        descriptor_for_user("S-1-5-18"),
        "D:P(A;;GA;;;SY)(A;;GA;;;BA)(A;;GA;;;S-1-5-18)"
    );
}

#[test]
fn only_the_first_instance_insists_on_a_free_name() {
    assert_eq!(open_mode(true), 0x4008_0003);
    assert_eq!(open_mode(false), 0x4000_0003);
    assert_eq!(pipe_mode(), 8);
    assert_eq!(client_access(), (0xc000_0000, 0x4011_0000));
}

#[test]
fn a_peer_that_is_gone_is_the_end_of_the_stream() {
    for awaited in [false, true] {
        assert_eq!(read_bytes(done(7), awaited), Progress::Done(7));
        assert_eq!(read_bytes(failed(ERROR_BROKEN_PIPE, 7), awaited), Progress::Done(0));
        assert_eq!(read_bytes(failed(ERROR_PIPE_NOT_CONNECTED, 7), awaited), Progress::Done(0));
        assert_eq!(read_bytes(failed(5, 7), awaited), Progress::Failed);
    }
    assert_eq!(read_bytes(failed(ERROR_IO_PENDING, 0), false), Progress::Await);
    assert_eq!(read_bytes(failed(ERROR_IO_PENDING, 0), true), Progress::Failed);
    assert_eq!(read_bytes(failed(ERROR_MORE_DATA, 9), false), Progress::Done(9));
    assert_eq!(read_bytes(failed(ERROR_MORE_DATA, 9), true), Progress::Failed);
}

#[test]
fn a_write_to_a_peer_that_is_gone_is_an_error() {
    for awaited in [false, true] {
        assert_eq!(write_chunk(done(7), awaited), Progress::Done(7));
        assert_eq!(write_chunk(failed(ERROR_BROKEN_PIPE, 0), awaited), Progress::Failed);
    }
    assert_eq!(write_chunk(failed(ERROR_IO_PENDING, 0), false), Progress::Await);
    assert_eq!(write_chunk(failed(ERROR_IO_PENDING, 0), true), Progress::Failed);
}

#[test]
fn a_client_may_be_faster_than_the_wait_for_it() {
    assert_eq!(wait_for_connection(done(0), false), Progress::Done(0));
    assert_eq!(wait_for_connection(failed(ERROR_PIPE_CONNECTED, 0), false), Progress::Done(0));
    assert_eq!(wait_for_connection(failed(ERROR_IO_PENDING, 0), false), Progress::Await);
    assert_eq!(wait_for_connection(failed(232, 0), false), Progress::Failed);
    assert_eq!(wait_for_connection(done(0), true), Progress::Done(0));
    assert_eq!(wait_for_connection(failed(ERROR_PIPE_CONNECTED, 0), true), Progress::Failed);
}

#[test]
fn partial_writes_go_on_where_they_stopped() {
    let mut outgoing = Outgoing::new(b"hello".to_vec());
    assert_eq!(outgoing.chunk(), Some(&b"hello"[..]));
    assert_eq!(outgoing.sent(2), Ok(()));
    assert_eq!(outgoing.chunk(), Some(&b"llo"[..]));
    assert_eq!(outgoing.sent(0), Err(WriteZero));
    assert_eq!(WriteZero.message(), "named pipe accepted zero bytes");
    assert_eq!(outgoing.sent(3), Ok(()));
    assert_eq!(outgoing.chunk(), None);
    assert_eq!(Outgoing::new(Vec::new()).chunk(), None);
}

#[test]
fn a_busy_pipe_is_tried_fifty_times() {
    let mut connecting = Connecting::connect();
    for _ in 1..CONNECT_ATTEMPTS {
        assert_eq!(connecting.refused(ERROR_PIPE_BUSY), OpenStep::WaitAndRetry);
    }
    assert_eq!(connecting.refused(ERROR_PIPE_BUSY), OpenStep::WaitAndGiveUp);
    assert_eq!(Connecting::connect().refused(2), OpenStep::Fail);
    assert_eq!(could_not_open_message("p"), "could not open session pipe p");
    assert_eq!(stayed_busy_message("p"), "session pipe p stayed busy; giving up");
    assert_eq!(could_not_create_message("p"), "could not create session pipe p");
}

#[test]
fn a_poisoned_instance_is_replaced() {
    let stage = Accepting::accept();
    let poisoned = stage.answered(false);
    assert_eq!(poisoned, Accepting::ClosePoisoned);
    let replace = poisoned.answered(true);
    assert_eq!(replace, Accepting::ReplacePoisoned);
    assert_eq!(replace.answered(true), Accepting::End(Accepted::WaitFailed));
    assert_eq!(replace.answered(false), Accepting::End(Accepted::NotReplaced));

    let next = stage.answered(true);
    assert_eq!(next, Accepting::CreateNext);
    assert_eq!(next.answered(false), Accepting::End(Accepted::NoNext));
    let wrap = next.answered(true);
    assert_eq!(wrap.answered(true), Accepting::End(Accepted::Connection));
    assert_eq!(wrap.answered(false).answered(true), Accepting::End(Accepted::NotWrapped));
}
