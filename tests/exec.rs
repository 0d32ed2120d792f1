use unicorn::error::Error;
use unicorn::exec::{Controller, Outcome, Step};
use unicorn::hooks::{HookRegistry, HookType};

#[test]
fn code_hook_fires_and_run_completes_at_until() {
    let mut hooks = HookRegistry::new();
    let id = hooks.add(HookType::Code, 0x1000, 0x1010).unwrap();
    let mut c = Controller::new();
    assert_eq!(c.start(0x1000, 0x1010, 0, 0), Ok(()));
    let mut fired = 0;
    let outcome = loop {
        match c.next_step(0) {
            Step::Execute(pc) => {
                fired += hooks.dispatch(HookType::Code, pc).iter().filter(|h| **h == id).count();
                c.retire(pc + 4);
            }
            Step::Finish(o) => break o,
        }
    };
    assert!(fired >= 1);
    assert_eq!(outcome, Outcome::Completed);
    assert_eq!(outcome.status(), Ok(()));
    assert_eq!(c.pc(), 0x1010);
    assert_eq!(c.executed(), 4);
    assert!(!c.is_running());
}

#[test]
fn stop_from_a_hook_ends_the_run_at_the_next_boundary() {
    let mut c = Controller::new();
    assert_eq!(c.start(0x1000, 0x9000, 0, 0), Ok(()));
    let mut steps = 0;
    let outcome = loop {
        match c.next_step(0) {
            Step::Execute(pc) => {
                steps += 1;
                if steps == 2 {
                    assert_eq!(c.stop(), Ok(()));
                }
                c.retire(pc + 2);
            }
            Step::Finish(o) => break o,
        }
    };
    assert_eq!(outcome, Outcome::Stopped);
    assert_eq!(steps, 2);
}

#[test]
fn instruction_budget_and_timeout() {
    let mut c = Controller::new();
    assert_eq!(c.start(0, 0x100, 0, 3), Ok(()));
    let mut n = 0;
    let outcome = loop {
        match c.next_step(0) {
            Step::Execute(pc) => {
                n += 1;
                c.retire(pc + 1);
            }
            Step::Finish(o) => break o,
        }
    };
    assert_eq!(outcome, Outcome::BudgetExhausted);
    assert_eq!(n, 3);

    assert_eq!(c.start(0, 0x100, 10, 0), Ok(()));
    assert_eq!(c.next_step(3), Step::Execute(0));
    assert_eq!(c.next_step(10), Step::Finish(Outcome::TimedOut));
}

#[test]
fn start_is_not_reentrant_and_fault_reports_error() {
    let mut c = Controller::new();
    assert_eq!(c.start(0, 8, 0, 0), Ok(()));
    assert_eq!(c.start(0, 8, 0, 0), Err(Error::Arg));
    let o = c.fault(Error::InsnInvalid);
    assert_eq!(o.status(), Err(Error::InsnInvalid));
    assert!(!c.is_running());
    assert_eq!(c.start(0, 8, 0, 0), Ok(()));
}
