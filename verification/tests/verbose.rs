use resh::verbose::{enabled, log_line, Verbosity};

#[test]
fn verbosity_is_switched_on_and_off() {
    let mut verbosity = Verbosity { on: false };
    assert!(!enabled(&verbosity));
    resh::verbose::set(&mut verbosity, true);
    assert!(enabled(&verbosity));
    resh::verbose::set(&mut verbosity, false);
    assert!(!enabled(&verbosity));
}

#[test]
fn a_log_line_has_the_moment_and_the_process() {
    assert_eq!(log_line(Some((1779472980, 7)), 42, "first"), "1779472980.007 [42] first\n");
    assert_eq!(log_line(Some((0, 999)), u32::MAX, ""), "0.999 [4294967295] \n");
    assert_eq!(log_line(None, 0, "second"), "? [0] second\n");
}
