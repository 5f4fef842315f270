use aruntime::error::IoError;
use aruntime::fs::{File, FileRead, FileWrite};
use aruntime::io::{AsyncReader, AsyncWriter, OpState, Operation, Step};
use aruntime::net::tcp::BACKLOG;
use aruntime::net::{TcpAccpeter, TcpListener, TcpSteam, TcpStreamReader, TcpStreamWriter};
use aruntime::reactor::{Opcode, Reactor, Submission};
use aruntime::slots::Completion;
use std::sync::atomic::{AtomicUsize, Ordering};
use std::sync::Arc;
use std::task::{Wake, Waker};

struct Chime {
    struck: AtomicUsize,
}

impl Wake for Chime {
    fn wake(self: Arc<Self>) {
        self.struck.fetch_add(1, Ordering::SeqCst);
    }
}

fn chime() -> (Arc<Chime>, Waker) {
    let chime = Arc::new(Chime { struck: AtomicUsize::new(0) });
    (chime.clone(), Waker::from(chime))
}

fn struck(chime: &Arc<Chime>) -> usize {
    chime.struck.load(Ordering::SeqCst)
}

fn deliver(reactor: &mut Reactor, token: u64, result: i32) -> usize {
    let wakers = reactor.wait(&[Completion { token, result }]);
    let count = wakers.len();
    for waker in wakers {
        waker.wake();
    }
    count
}

#[test]
fn first_poll_submits_and_later_polls_wait() {
    let mut reactor = Reactor::new();
    let (c, w) = chime();
    let mut read = AsyncReader::new(3, 64);
    assert_eq!(read.state(), OpState::Unsubmitted);
    assert_eq!(
        read.poll(&mut reactor, w.clone()),
        Step::Submitted(Submission { opcode: Opcode::Read, fd: 3, len: 64, token: 0 })
    );
    assert_eq!(read.state(), OpState::Awaiting(0));
    assert_eq!(reactor.tokens_issued(), 1);
    assert_eq!(read.poll(&mut reactor, w.clone()), Step::Pending);
    assert_eq!(read.poll(&mut reactor, w), Step::Pending);
    assert_eq!(read.state(), OpState::Awaiting(0));
    assert_eq!(reactor.tokens_issued(), 1);
    assert_eq!(struck(&c), 0);
}

#[test]
fn read_yields_the_byte_count_once_the_completion_is_in() {
    let mut reactor = Reactor::new();
    let (c, w) = chime();
    let mut read = AsyncReader::new(3, 64);
    read.poll(&mut reactor, w.clone());
    assert_eq!(deliver(&mut reactor, 0, 12), 1);
    assert_eq!(struck(&c), 1);
    assert_eq!(read.poll(&mut reactor, w.clone()), Step::Ready(Ok(12)));
    assert_eq!(read.state(), OpState::Done);
    assert_eq!(read.poll(&mut reactor, w), Step::Pending);
    assert_eq!(read.state(), OpState::Done);
    assert_eq!(reactor.tokens_issued(), 1);
}

#[test]
fn the_waker_of_the_first_poll_is_the_one_that_is_woken() {
    let mut reactor = Reactor::new();
    let (first, w1) = chime();
    let (second, w2) = chime();
    let mut read = AsyncReader::new(3, 64);
    read.poll(&mut reactor, w1);
    read.poll(&mut reactor, w2);
    deliver(&mut reactor, 0, 1);
    assert_eq!((struck(&first), struck(&second)), (1, 0));
}

#[test]
fn write_yields_the_byte_count() {
    let mut reactor = Reactor::new();
    let (_, w) = chime();
    let mut write = AsyncWriter::new(4, 5);
    assert_eq!(
        write.poll(&mut reactor, w.clone()),
        Step::Submitted(Submission { opcode: Opcode::Write, fd: 4, len: 5, token: 0 })
    );
    assert_eq!(write.state(), OpState::Awaiting(0));
    deliver(&mut reactor, 0, 5);
    assert_eq!(write.poll(&mut reactor, w), Step::Ready(Ok(5)));
    assert_eq!(write.state(), OpState::Done);
}

#[test]
fn eagain_is_would_block_and_other_errors_carry_errno() {
    let mut reactor = Reactor::new();
    let (_, w) = chime();
    let mut blocked = AsyncReader::new(3, 64);
    let mut broken = AsyncWriter::new(3, 64);
    blocked.poll(&mut reactor, w.clone());
    broken.poll(&mut reactor, w.clone());
    deliver(&mut reactor, 0, -11);
    deliver(&mut reactor, 1, -32);
    assert_eq!(blocked.poll(&mut reactor, w.clone()), Step::Ready(Err(IoError::WouldBlock)));
    assert_eq!(broken.poll(&mut reactor, w), Step::Ready(Err(IoError::Os(32))));
    assert_eq!(blocked.state(), OpState::Done);
    assert_eq!(broken.state(), OpState::Done);
}

#[test]
fn operation_on_a_negative_descriptor_fails_as_the_kernel_says() {
    let mut reactor = Reactor::new();
    let (_, w) = chime();
    let file = File::from_fd(-1);
    let mut read = file.read(64);
    assert_eq!(
        read.poll(&mut reactor, w.clone()),
        Step::Submitted(Submission { opcode: Opcode::Read, fd: -1, len: 64, token: 0 })
    );
    deliver(&mut reactor, 0, -9);
    assert_eq!(read.poll(&mut reactor, w), Step::Ready(Err(IoError::Os(9))));
}

#[test]
fn operations_share_the_reactor_and_keep_their_tokens_apart() {
    let mut reactor = Reactor::new();
    let (_, w) = chime();
    let mut a = AsyncReader::new(3, 8);
    let mut b = AsyncReader::new(3, 8);
    a.poll(&mut reactor, w.clone());
    b.poll(&mut reactor, w.clone());
    assert_eq!(a.state(), OpState::Awaiting(0));
    assert_eq!(b.state(), OpState::Awaiting(1));
    deliver(&mut reactor, 1, 2);
    assert_eq!(a.poll(&mut reactor, w.clone()), Step::Pending);
    assert_eq!(b.poll(&mut reactor, w.clone()), Step::Ready(Ok(2)));
    deliver(&mut reactor, 0, 1);
    assert_eq!(a.poll(&mut reactor, w), Step::Ready(Ok(1)));
}

#[test]
fn operation_record_runs_any_opcode() {
    let mut reactor = Reactor::new();
    let (_, w) = chime();
    let mut sync = Operation::new(Opcode::Fsync, 3, 77);
    assert_eq!(sync, Operation { opcode: Opcode::Fsync, fd: 3, len: 77, state: OpState::Unsubmitted });
    assert_eq!(
        sync.poll(&mut reactor, w.clone()),
        Step::Submitted(Submission { opcode: Opcode::Fsync, fd: 3, len: 0, token: 0 })
    );
    let mut gather = Operation::new(Opcode::Writev, 3, 2);
    assert_eq!(
        gather.submit(&mut reactor, w.clone()),
        Submission { opcode: Opcode::Writev, fd: 3, len: 2, token: 1 }
    );
    let mut scatter = Operation::new(Opcode::Readv, 3, 4);
    assert_eq!(
        scatter.submit(&mut reactor, w.clone()),
        Submission { opcode: Opcode::Readv, fd: 3, len: 4, token: 2 }
    );
    deliver(&mut reactor, 0, 0);
    assert_eq!(sync.poll(&mut reactor, w), Step::Ready(Ok(0)));
    assert_eq!(sync.state, OpState::Done);
    assert_eq!(gather.state, OpState::Awaiting(1));
}

#[test]
fn file_read_scenario() {
    let mut reactor = Reactor::new();
    let (c, w) = chime();
    let file = File::from_fd(5);
    assert_eq!(file.as_raw_fd(), 5);
    let mut read = file.read(64);
    assert_eq!(
        read.poll(&mut reactor, w.clone()),
        Step::Submitted(Submission { opcode: Opcode::Read, fd: 5, len: 64, token: 0 })
    );
    assert_eq!(read.poll(&mut reactor, w.clone()), Step::Pending);
    assert_eq!(deliver(&mut reactor, 0, 9), 1);
    assert_eq!(struck(&c), 1);
    match read.poll(&mut reactor, w) {
        Step::Ready(Ok(n)) => {
            assert!(n > 0);
            assert_eq!(n, 9);
        }
        other => panic!("unexpected step {:?}", other),
    }
}

#[test]
fn file_write_scenario() {
    let mut reactor = Reactor::new();
    let (_, w) = chime();
    let file = File::from_fd(6);
    let text = b"Hello, world!\n";
    let mut write = file.write(text.len());
    assert_eq!(
        write.poll(&mut reactor, w.clone()),
        Step::Submitted(Submission { opcode: Opcode::Write, fd: 6, len: 14, token: 0 })
    );
    deliver(&mut reactor, 0, 14);
    assert_eq!(write.poll(&mut reactor, w), Step::Ready(Ok(14)));
}

#[test]
fn file_operations_made_directly() {
    let mut reactor = Reactor::new();
    let (_, w) = chime();
    let file = File::from_fd(6);
    let mut read = FileRead::new(&file, 10);
    let mut write = FileWrite::new(&file, 20);
    assert_eq!(read.state(), OpState::Unsubmitted);
    assert_eq!(write.state(), OpState::Unsubmitted);
    assert_eq!(
        write.poll(&mut reactor, w.clone()),
        Step::Submitted(Submission { opcode: Opcode::Write, fd: 6, len: 20, token: 0 })
    );
    assert_eq!(
        read.poll(&mut reactor, w.clone()),
        Step::Submitted(Submission { opcode: Opcode::Read, fd: 6, len: 10, token: 1 })
    );
    deliver(&mut reactor, 1, 10);
    deliver(&mut reactor, 0, -28);
    assert_eq!(read.poll(&mut reactor, w.clone()), Step::Ready(Ok(10)));
    assert_eq!(write.poll(&mut reactor, w), Step::Ready(Err(IoError::Os(28))));
    assert_eq!(read.state(), OpState::Done);
    assert_eq!(write.state(), OpState::Done);
}

#[test]
fn closing_a_file_silences_its_pending_operations() {
    let mut reactor = Reactor::new();
    let (c, w) = chime();
    let file = File::from_fd(6);
    let mut read = file.read(10);
    read.poll(&mut reactor, w.clone());
    let fd = file.close(&mut reactor);
    assert_eq!(fd, 6);
    assert!(reactor.is_idle());
    assert_eq!(deliver(&mut reactor, 0, 10), 0);
    assert_eq!(struck(&c), 0);
    assert_eq!(read.poll(&mut reactor, w), Step::Pending);
    assert_eq!(read.state(), OpState::Awaiting(0));
}

#[test]
fn echo_scenario() {
    let mut reactor = Reactor::new();
    let (_, w) = chime();
    let listener = TcpListener::from_fd(3);
    assert_eq!(listener.as_raw_fd(), 3);
    let mut accept = listener.accept();
    assert_eq!(
        accept.poll(&mut reactor, w.clone()),
        Step::Submitted(Submission { opcode: Opcode::Accept, fd: 3, len: 0, token: 0 })
    );
    assert_eq!(accept.poll(&mut reactor, w.clone()), Step::Pending);
    deliver(&mut reactor, 0, 8);
    let stream = match accept.poll(&mut reactor, w.clone()) {
        Step::Ready(Ok(stream)) => stream,
        other => panic!("unexpected step {:?}", other),
    };
    assert_eq!(stream, TcpSteam::new(8));
    assert_eq!(stream.as_raw_fd(), 8);
    assert_eq!(accept.state(), OpState::Done);

    let mut read = stream.read(1024);
    assert_eq!(
        read.poll(&mut reactor, w.clone()),
        Step::Submitted(Submission { opcode: Opcode::Read, fd: 8, len: 1024, token: 1 })
    );
    deliver(&mut reactor, 1, 4);
    assert_eq!(read.poll(&mut reactor, w.clone()), Step::Ready(Ok(4)));

    let mut write = stream.write(4);
    assert_eq!(
        write.poll(&mut reactor, w.clone()),
        Step::Submitted(Submission { opcode: Opcode::Write, fd: 8, len: 4, token: 2 })
    );
    deliver(&mut reactor, 2, 4);
    assert_eq!(write.poll(&mut reactor, w), Step::Ready(Ok(4)));
}

#[test]
fn eof_is_surfaced_as_an_error() {
    let mut reactor = Reactor::new();
    let (_, w) = chime();
    let stream = TcpSteam::new(8);
    let mut read = stream.read(1024);
    read.poll(&mut reactor, w.clone());
    deliver(&mut reactor, 0, 0);
    assert_eq!(read.poll(&mut reactor, w), Step::Ready(Err(IoError::UnexpectedEof)));
    assert_eq!(read.state(), OpState::Done);
}

#[test]
fn file_read_of_no_bytes_is_not_an_error() {
    let mut reactor = Reactor::new();
    let (_, w) = chime();
    let file = File::from_fd(5);
    let mut read = file.read(64);
    read.poll(&mut reactor, w.clone());
    deliver(&mut reactor, 0, 0);
    assert_eq!(read.poll(&mut reactor, w), Step::Ready(Ok(0)));
}

#[test]
fn stream_write_of_no_bytes_is_not_an_error() {
    let mut reactor = Reactor::new();
    let (_, w) = chime();
    let stream = TcpSteam::new(8);
    let mut write = TcpStreamWriter::new(&stream, 0);
    write.poll(&mut reactor, w.clone());
    deliver(&mut reactor, 0, 0);
    assert_eq!(write.poll(&mut reactor, w), Step::Ready(Ok(0)));
    assert_eq!(write.state(), OpState::Done);
}

#[test]
fn stream_read_passes_errors_and_counts_through() {
    let mut reactor = Reactor::new();
    let (_, w) = chime();
    let stream = TcpSteam::new(8);
    let mut first = TcpStreamReader::new(&stream, 16);
    let mut second = TcpStreamReader::new(&stream, 16);
    let mut third = TcpStreamReader::new(&stream, 16);
    assert_eq!(first.state(), OpState::Unsubmitted);
    first.poll(&mut reactor, w.clone());
    second.poll(&mut reactor, w.clone());
    third.poll(&mut reactor, w.clone());
    assert_eq!(third.poll(&mut reactor, w.clone()), Step::Pending);
    deliver(&mut reactor, 0, 16);
    deliver(&mut reactor, 1, -11);
    deliver(&mut reactor, 2, -104);
    assert_eq!(first.poll(&mut reactor, w.clone()), Step::Ready(Ok(16)));
    assert_eq!(second.poll(&mut reactor, w.clone()), Step::Ready(Err(IoError::WouldBlock)));
    assert_eq!(third.poll(&mut reactor, w), Step::Ready(Err(IoError::Os(104))));
}

#[test]
fn spurious_accept_is_submitted_again() {
    let mut reactor = Reactor::new();
    let (first, w1) = chime();
    let (second, w2) = chime();
    let mut accept = TcpAccpeter::new(3);
    accept.poll(&mut reactor, w1);
    deliver(&mut reactor, 0, 0);
    assert_eq!(struck(&first), 1);
    assert_eq!(
        accept.poll(&mut reactor, w2.clone()),
        Step::Submitted(Submission { opcode: Opcode::Accept, fd: 3, len: 0, token: 1 })
    );
    assert_eq!(accept.state(), OpState::Awaiting(1));
    assert_eq!(reactor.tokens_issued(), 2);
    assert_eq!(accept.poll(&mut reactor, w2.clone()), Step::Pending);
    deliver(&mut reactor, 1, 1);
    assert_eq!(struck(&second), 1);
    assert_eq!(accept.poll(&mut reactor, w2), Step::Ready(Ok(TcpSteam::new(1))));
    assert_eq!(accept.state(), OpState::Done);
}

#[test]
fn accept_error_keeps_eagain_and_errno() {
    let mut reactor = Reactor::new();
    let (_, w) = chime();
    let mut blocked = TcpAccpeter::new(3);
    let mut refused = TcpAccpeter::new(3);
    blocked.poll(&mut reactor, w.clone());
    refused.poll(&mut reactor, w.clone());
    deliver(&mut reactor, 0, -11);
    deliver(&mut reactor, 1, -24);
    assert_eq!(blocked.poll(&mut reactor, w.clone()), Step::Ready(Err(IoError::WouldBlock)));
    assert_eq!(refused.poll(&mut reactor, w.clone()), Step::Ready(Err(IoError::Os(24))));
    assert_eq!(blocked.poll(&mut reactor, w), Step::Pending);
}

#[test]
fn closing_a_stream_silences_its_pending_operations() {
    let mut reactor = Reactor::new();
    let (c, w) = chime();
    let (other, w_other) = chime();
    let stream = TcpSteam::new(8);
    let kept = TcpSteam::new(9);
    let mut read = stream.read(16);
    let mut write = stream.write(16);
    let mut kept_read = kept.read(16);
    read.poll(&mut reactor, w.clone());
    write.poll(&mut reactor, w.clone());
    kept_read.poll(&mut reactor, w_other.clone());
    assert_eq!(stream.close(&mut reactor), 8);
    assert_eq!(deliver(&mut reactor, 0, 16), 0);
    assert_eq!(deliver(&mut reactor, 1, 16), 0);
    assert_eq!(deliver(&mut reactor, 2, 16), 1);
    assert_eq!((struck(&c), struck(&other)), (0, 1));
    assert_eq!(read.poll(&mut reactor, w.clone()), Step::Pending);
    assert_eq!(write.poll(&mut reactor, w), Step::Pending);
    assert_eq!(kept_read.poll(&mut reactor, w_other), Step::Ready(Ok(16)));
}

#[test]
fn listener_asks_for_a_backlog_of_1024() {
    assert_eq!(BACKLOG, 1024);
}
