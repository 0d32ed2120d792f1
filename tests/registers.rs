use unicorn::error::Error;
use unicorn::registers::{Context, Registers};

#[test]
fn context_restore_undoes_writes() {
    let mut regs = Registers::new(16);
    assert_eq!(regs.write(3, 0x1234), Ok(()));
    let mut ctx = Context::new();
    regs.save(&mut ctx);
    assert_eq!(regs.write(3, 0xdead_beef), Ok(()));
    assert_eq!(regs.read(3), Ok(0xdead_beef));
    assert_eq!(regs.restore(&ctx), Ok(()));
    assert_eq!(regs.read(3), Ok(0x1234));
}

#[test]
fn invalid_register_id_is_refused() {
    let mut regs = Registers::new(4);
    assert_eq!(regs.read(4), Err(Error::Arg));
    assert_eq!(regs.write(9, 1), Err(Error::Arg));
    assert_eq!(regs.count(), 4);
}

#[test]
fn context_of_other_shape_is_refused() {
    let small = Registers::new(2);
    let mut big = Registers::new(8);
    let mut ctx = Context::new();
    small.save(&mut ctx);
    assert_eq!(big.write(1, 5), Ok(()));
    assert_eq!(big.restore(&ctx), Err(Error::Arg));
    assert_eq!(big.read(1), Ok(5));
}

#[test]
fn context_is_reusable() {
    let mut regs = Registers::new(4);
    let mut ctx = Context::new();
    for round in 0..3u64 {
        assert_eq!(regs.write(0, round), Ok(()));
        regs.save(&mut ctx);
        assert_eq!(regs.write(0, 100 + round), Ok(()));
        assert_eq!(regs.restore(&ctx), Ok(()));
        assert_eq!(regs.read(0), Ok(round));
    }
}
