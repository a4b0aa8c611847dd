use uart_samsung::registers::reg;
use uart_samsung::{
    EnableIrqProgress, InitEarlyProgress, InitFullProgress, Request, SerialPort, Step, Variant,
};

const BASE: usize = 0x1382_0000;

fn port(variant: Variant, clock_rate: Option<u32>, skip_init: bool) -> SerialPort {
    SerialPort::new(BASE, 115_200, clock_rate, variant, skip_init)
}

fn read(register: usize) -> Request {
    Request::Read32 { address: BASE + register }
}

fn write(register: usize, data: u32) -> Request {
    Request::Write32 { address: BASE + register, data }
}

/// Takes an operation through the requests of a script, giving it the
/// replies, and expects it to finish with the result.
fn follow<R: std::fmt::Debug + PartialEq>(
    script: &[(Request, u32)],
    result: R,
    mut step: impl FnMut(u32) -> Step<R>,
) {
    let mut reply = u32::MAX;
    for (request, answer) in script {
        assert_eq!(step(reply), Step::Perform(*request));
        reply = *answer;
    }
    assert_eq!(step(reply), Step::Finished(result));
}

fn init_full(port: &mut SerialPort, script: &[(Request, u32)], result: Result<(), ()>) {
    let mut progress = InitFullProgress::Start;
    follow(script, result, |reply| port.init_full(&mut progress, reply));
    // A finished operation stays finished.
    assert_eq!(port.init_full(&mut progress, 0), Step::Finished(result));
}

fn enable_irq(port: &mut SerialPort, script: &[(Request, u32)]) {
    let mut progress = EnableIrqProgress::Start;
    follow(script, (), |reply| port.enable_irq(&mut progress, reply));
    assert_eq!(port.enable_irq(&mut progress, 0), Step::Finished(()));
}

fn init_early(port: &mut SerialPort, script: &[(Request, u32)]) {
    let mut progress = InitEarlyProgress::Start;
    follow(script, (), |reply| port.init_early(&mut progress, reply));
    assert_eq!(port.init_early(&mut progress, 0), Step::Finished(()));
}

/// Full initialization of an Exynos UART up to the line configuration.
fn exynos_defaults() -> Vec<(Request, u32)> {
    vec![
        (read(reg::UTRSTAT), 0x4),
        (read(reg::UCON), 0),
        (write(reg::UCON, 0xf3c5), 0),
        (write(reg::UINTM, 0xf), 0),
        (write(reg::UINTP, 0xf), 0),
        (write(reg::UINTSP, 0xf), 0),
        (write(reg::UFCON, 0x117), 0),
        (read(reg::UFCON), 0x111),
        (write(reg::UFCON, 0x111), 0),
        (read(reg::UMCON), 0),
        (write(reg::UMCON, 0), 0),
    ]
}

#[test]
fn init_early_selects_a_transmit_mode() {
    let mut port = port(Variant::exynos(), None, false);
    init_early(
        &mut port,
        &[(read(reg::UCON), 0xabcd_fff2), (write(reg::UCON, 0xabcd_fff6), 0)],
    );
}

#[test]
fn init_early_keeps_a_selected_transmit_mode() {
    let mut port = port(Variant::exynos(), None, true);
    for ucon in [0x4, 0x8, 0xc, 0x3c5] {
        init_early(&mut port, &[(read(reg::UCON), ucon)]);
    }
}

#[test]
fn skipped_initialization_makes_no_request() {
    for variant in [Variant::s3c6400(), Variant::apple_s5l()] {
        init_full(&mut port(variant, Some(0), true), &[], Ok(()));
        init_full(&mut port(variant, None, true), &[], Ok(()));
    }
}

#[test]
fn init_full_programs_a_fractional_divisor() {
    let script = [
        // The transmitter is busy at first.
        (read(reg::UTRSTAT), 0xffff_fffb),
        (Request::Pause, 0x4),
        (read(reg::UTRSTAT), 0x4),
        // Nothing of UCON is preserved.
        (read(reg::UCON), 0xffff_ffff),
        (write(reg::UCON, 0xf3c5), 0),
        (write(reg::UINTM, 0xf), 0),
        (write(reg::UINTP, 0xf), 0),
        (write(reg::UINTSP, 0xf), 0),
        // The FIFOs take their time.
        (write(reg::UFCON, 0x117), 0),
        (read(reg::UFCON), 0x117),
        (Request::Pause, 0),
        (read(reg::UFCON), 0x113),
        (Request::Pause, 0),
        (read(reg::UFCON), 0x111),
        (write(reg::UFCON, 0x111), 0),
        (read(reg::UMCON), 0xffff_ffff),
        (write(reg::UMCON, 0xffff_ffef), 0),
        (write(reg::ULCON, 0x3), 0),
        (write(reg::UBRDIV, 53), 0),
        (write(reg::UFRACVAL, 4), 0),
    ];
    init_full(&mut port(Variant::exynos(), Some(100_000_000), false), &script, Ok(()));
    init_full(&mut port(Variant::gs101(), Some(100_000_000), false), &script, Ok(()));
}

#[test]
fn init_full_programs_a_slot_pattern() {
    let script = [
        (read(reg::UTRSTAT), 0x6),
        // The clock select is preserved.
        (read(reg::UCON), 0xffff_ffff),
        (write(reg::UCON, 0xff85), 0),
        (write(reg::UINTM, 0xf), 0),
        (write(reg::UINTP, 0xf), 0),
        (write(reg::UINTSP, 0xf), 0),
        (write(reg::UFCON, 0x17), 0),
        (read(reg::UFCON), 0),
        (write(reg::UFCON, 0x11), 0),
        (read(reg::UMCON), 0x11),
        (write(reg::UMCON, 0x1), 0),
        (write(reg::ULCON, 0x3), 0),
        (write(reg::UBRDIV, 53), 0),
        (write(reg::UFRACVAL, 0x2222), 0),
    ];
    init_full(&mut port(Variant::s3c6400(), Some(100_000_000), false), &script, Ok(()));
}

#[test]
fn init_full_programs_an_integer_divisor() {
    let script = [
        (read(reg::UTRSTAT), 0x4),
        // The interrupt enables are cleared.
        (read(reg::UCON), 0xffff_ffff),
        (write(reg::UCON, 0x85), 0),
        (write(reg::UTRSTAT, 0x3f8), 0),
        (write(reg::UFCON, 0x17), 0),
        (read(reg::UFCON), 0x11),
        (write(reg::UFCON, 0x11), 0),
        (read(reg::UMCON), 0x10),
        (write(reg::UMCON, 0), 0),
        (write(reg::ULCON, 0x3), 0),
        (write(reg::UBRDIV, 12), 0),
    ];
    init_full(&mut port(Variant::apple_s5l(), Some(24_000_000), false), &script, Ok(()));
}

#[test]
fn clock_select_is_preserved() {
    for clock_select in [0, 0x400] {
        let script = [
            (read(reg::UTRSTAT), 0x4),
            (read(reg::UCON), clock_select | 0xfbff),
            (write(reg::UCON, clock_select | 0xf3c5), 0),
        ];
        let mut port = port(Variant::s5pv210(), None, false);
        let mut progress = InitFullProgress::Start;
        let mut reply = 0;
        for (request, answer) in script {
            assert_eq!(port.init_full(&mut progress, reply), Step::Perform(request));
            reply = answer;
        }
    }
}

#[test]
fn unknown_clock_keeps_the_line_configuration() {
    init_full(&mut port(Variant::exynos(), None, false), &exynos_defaults(), Ok(()));
}

#[test]
fn impossible_baud_rate_is_an_error() {
    init_full(
        &mut port(Variant::exynos(), Some(100_000), false),
        &exynos_defaults(),
        Err(()),
    );
    let mut port = SerialPort::new(BASE, 0, Some(100_000_000), Variant::exynos(), false);
    init_full(&mut port, &exynos_defaults(), Err(()));
}

#[test]
fn busy_transmitter_is_an_error() {
    let mut port = port(Variant::exynos(), Some(100_000_000), false);
    let mut progress = InitFullProgress::Start;
    for _ in 0..1_000_000 {
        // What a pause replies is of no account.
        assert_eq!(port.init_full(&mut progress, 0x4), Step::Perform(read(reg::UTRSTAT)));
        assert_eq!(port.init_full(&mut progress, 0x3), Step::Perform(Request::Pause));
    }
    assert_eq!(port.init_full(&mut progress, 0x4), Step::Finished(Err(())));
}

#[test]
fn last_poll_may_find_the_transmitter_idle() {
    let mut port = port(Variant::exynos(), None, false);
    let mut progress = InitFullProgress::Start;
    for _ in 0..999_999 {
        assert_eq!(port.init_full(&mut progress, 0), Step::Perform(read(reg::UTRSTAT)));
        assert_eq!(port.init_full(&mut progress, 0), Step::Perform(Request::Pause));
    }
    let mut reply = 0;
    for (request, answer) in exynos_defaults() {
        assert_eq!(port.init_full(&mut progress, reply), Step::Perform(request));
        reply = answer;
    }
    assert_eq!(port.init_full(&mut progress, reply), Step::Finished(Ok(())));
}

#[test]
fn endless_fifo_reset_is_given_up() {
    let mut port = port(Variant::apple_s5l(), None, false);
    let mut progress = InitFullProgress::Start;
    let mut reply = 0;
    for (request, answer) in [
        (read(reg::UTRSTAT), 0x4),
        (read(reg::UCON), 0),
        (write(reg::UCON, 0x85), 0),
        (write(reg::UTRSTAT, 0x3f8), 0),
        (write(reg::UFCON, 0x17), 0),
    ] {
        assert_eq!(port.init_full(&mut progress, reply), Step::Perform(request));
        reply = answer;
    }
    for _ in 0..10_000 {
        assert_eq!(port.init_full(&mut progress, reply), Step::Perform(read(reg::UFCON)));
        assert_eq!(port.init_full(&mut progress, 0x2), Step::Perform(Request::Pause));
    }
    for (request, answer) in [
        (write(reg::UFCON, 0x11), 0),
        (read(reg::UMCON), 0x1),
        (write(reg::UMCON, 0x1), 0),
    ] {
        assert_eq!(port.init_full(&mut progress, reply), Step::Perform(request));
        reply = answer;
    }
    assert_eq!(port.init_full(&mut progress, reply), Step::Finished(Ok(())));
}

#[test]
fn interrupt_setup_unmasks_the_receiver() {
    let script = [
        (read(reg::UFCON), 0x101),
        (write(reg::UFCON, 0x123), 0),
        (read(reg::UCON), 0xffff_ffff),
        (write(reg::UCON, 0xffff_f3fd), 0),
        (write(reg::UINTP, 0xf), 0),
        (write(reg::UINTM, 0xe), 0),
    ];
    enable_irq(&mut port(Variant::exynos(), None, false), &script);
    // Initialization has no part in it.
    enable_irq(&mut port(Variant::exynos(), None, true), &script);
}

#[test]
fn interrupt_setup_turns_the_receive_timeout_on() {
    let script = [
        (read(reg::UFCON), 0),
        (write(reg::UFCON, 0x22), 0),
        (read(reg::UCON), 0),
        (write(reg::UCON, 0xf081), 0),
        (write(reg::UINTP, 0xf), 0),
        (write(reg::UINTM, 0xe), 0),
    ];
    enable_irq(&mut port(Variant::s3c6400(), None, false), &script);
}

#[test]
fn interrupt_setup_preserves_the_clock_select() {
    for (variant, present, expected) in [
        // Bits 10 and 11 are the clock select.
        (Variant::s3c6400(), 0xffff_ffff, 0xffff_fffd),
        (Variant::s3c6400(), 0xff85, 0xff85),
        (Variant::s3c6400(), 0x400, 0xf481),
        (Variant::s3c6400(), 0x800, 0xf881),
        (Variant::s3c6400(), 0xc00, 0xfc81),
        // Bit 10 is the clock select, bit 11 the empty interrupt.
        (Variant::s5pv210(), 0xffff_ffff, 0xffff_f7fd),
        (Variant::s5pv210(), 0x400, 0xf481),
        (Variant::s5pv210(), 0x800, 0xf081),
        // There is none.
        (Variant::exynos(), 0xc00, 0xf081),
    ] {
        let script = [
            (read(reg::UFCON), 0),
            (write(reg::UFCON, 0x22), 0),
            (read(reg::UCON), present),
            (write(reg::UCON, expected), 0),
            (write(reg::UINTP, 0xf), 0),
            (write(reg::UINTM, 0xe), 0),
        ];
        enable_irq(&mut port(variant, None, false), &script);
        enable_irq(&mut port(variant, Some(100_000_000), true), &script);
    }
}

#[test]
fn apple_interrupt_setup_keeps_the_rest_of_the_configuration() {
    let script = [
        (read(reg::UFCON), 0),
        (write(reg::UFCON, 0x22), 0),
        (read(reg::UCON), 0xffff_e5fe),
        (write(reg::UTRSTAT, 0x3f8), 0),
        (write(reg::UCON, 0xffff_fffd), 0),
    ];
    enable_irq(&mut port(Variant::apple_s5l(), None, false), &script);
}

#[test]
fn apple_interrupts_are_acknowledged_before_they_are_enabled() {
    let script = [
        (read(reg::UFCON), 0x11),
        (write(reg::UFCON, 0x33), 0),
        (read(reg::UCON), 0x86),
        (write(reg::UTRSTAT, 0x3f8), 0),
        (write(reg::UCON, 0x1a85), 0),
    ];
    enable_irq(&mut port(Variant::apple_s5l(), None, false), &script);
    enable_irq(&mut port(Variant::apple_s5l(), None, true), &script);
}

#[test]
fn registers_follow_the_base_address() {
    let last = usize::MAX - 0x3b;
    for base in [0, 4, last] {
        let mut port = SerialPort::new(base, 115_200, None, Variant::exynos(), false);
        let mut progress = EnableIrqProgress::Start;
        let mut addresses = Vec::new();
        while let Step::Perform(request) = port.enable_irq(&mut progress, 0) {
            match request {
                Request::Read32 { address } | Request::Write32 { address, .. } => {
                    addresses.push(address - base)
                }
                _ => unreachable!(),
            }
        }
        assert_eq!(
            addresses,
            [reg::UFCON, reg::UFCON, reg::UCON, reg::UCON, reg::UINTP, reg::UINTM]
        );
    }
}
