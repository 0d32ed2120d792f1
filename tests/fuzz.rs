use unicorn::error::{AflRet, Error};
use unicorn::fuzz::{FuzzSession, Phase};

#[test]
fn three_persistent_iterations_then_finished() {
    let mut s = FuzzSession::new(vec![0x1010], false, 3);
    assert_eq!(s.forkserver_start(true), AflRet::Child);
    assert_eq!(s.handshake(true), AflRet::Child);
    let mut placed = 0;
    let mut iterations = 0;
    loop {
        match s.next() {
            AflRet::Child => {
                placed += 1;
                let run: Result<(), Error> = Ok(());
                let crashed = if s.needs_validation(run) { false } else { run.is_err() };
                assert_eq!(s.end_iteration(crashed), Ok(()));
                iterations += 1;
            }
            other => {
                assert_eq!(other, AflRet::Finished);
                break;
            }
        }
    }
    assert_eq!(iterations, 3);
    assert_eq!(placed, 3);
    assert_eq!(s.state().phase, Phase::Done);
    assert_eq!(s.state().crashes, 0);
}

#[test]
fn forkserver_without_fuzzer_and_twice() {
    let mut s = FuzzSession::new(vec![], true, 0);
    assert_eq!(s.forkserver_start(false), AflRet::NoAfl);
    assert_eq!(s.forkserver_start(true), AflRet::Child);
    assert_eq!(s.forkserver_start(true), AflRet::CalledTwice);
    assert_eq!(s.handshake(false), AflRet::Error);
    assert_eq!(s.next(), AflRet::Error);
}

#[test]
fn crashes_are_counted_and_validation_policy() {
    let mut s = FuzzSession::new(vec![0x40, 0x80], false, 0);
    assert!(s.is_exit(0x80));
    assert!(!s.is_exit(0x60));
    assert!(!s.needs_validation(Ok(())));
    assert!(s.needs_validation(Err(Error::FetchUnmapped)));
    assert_eq!(s.end_iteration(false), Err(Error::Arg));
    assert_eq!(s.forkserver_start(true), AflRet::Child);
    assert_eq!(s.handshake(true), AflRet::Child);
    assert_eq!(s.next(), AflRet::Child);
    assert_eq!(s.next(), AflRet::Error);
    assert_eq!(s.end_iteration(true), Ok(()));
    assert_eq!(s.state().crashes, 1);
    assert_eq!(s.state().done, 1);
    assert_eq!(s.next(), AflRet::Child);
}

#[test]
fn refused_input_and_exhausted_inputs() {
    let mut s = FuzzSession::new(vec![], false, 0);
    assert_eq!(s.input_exhausted(), AflRet::Error);
    assert_eq!(s.forkserver_start(true), AflRet::Child);
    assert_eq!(s.handshake(true), AflRet::Child);
    assert_eq!(s.next(), AflRet::Child);
    assert_eq!(s.input_refused(), Ok(()));
    assert_eq!(s.state().done, 1);
    assert_eq!(s.state().crashes, 0);
    assert_eq!(s.next(), AflRet::Child);
    assert_eq!(s.input_exhausted(), AflRet::Finished);
    assert_eq!(s.state().phase, Phase::Done);
    assert!(!s.state().in_iteration);
    assert_eq!(s.next(), AflRet::Error);
}
