use uart_samsung::registers::reg;
use uart_samsung::{ReceiveProgress, Request, SerialPort, Step, Variant};

const BASE: usize = 0x2_3520_0000;

fn port(variant: Variant) -> SerialPort {
    SerialPort::new(BASE, 115_200, None, variant, true)
}

fn read(register: usize) -> Request {
    Request::Read32 { address: BASE + register }
}

fn write(register: usize, data: u32) -> Request {
    Request::Write32 { address: BASE + register, data }
}

fn read_byte() -> Request {
    Request::Read8 { address: BASE + reg::URXH }
}

fn input(byte: u8) -> Request {
    Request::Input { byte }
}

/// Takes receiving through the requests of a script, giving it the replies,
/// and expects it to finish.
fn receive(port: &mut SerialPort, script: &[(Request, u32)]) {
    let mut progress = ReceiveProgress::Start;
    let mut reply = u32::MAX;
    for (request, answer) in script {
        assert_eq!(port.receive(&mut progress, reply), Step::Perform(*request));
        reply = *answer;
    }
    assert_eq!(port.receive(&mut progress, reply), Step::Finished(()));
    // A finished operation stays finished.
    assert_eq!(port.receive(&mut progress, 0), Step::Finished(()));
}

/// The characters handed to the console when every poll finds one, and the
/// number of requests.
fn receive_without_end(port: &mut SerialPort, character: u32) -> (Vec<u8>, usize) {
    let mut progress = ReceiveProgress::Start;
    let mut characters = Vec::new();
    let mut requests = 0;
    let mut reply = 0;
    loop {
        match port.receive(&mut progress, reply) {
            Step::Finished(()) => return (characters, requests),
            Step::Perform(request) => {
                requests += 1;
                reply = 0;
                match request {
                    Request::Input { byte } => characters.push(byte),
                    Request::Read8 { .. } => reply = character,
                    Request::Read32 { address } if address == BASE + reg::URXH => {
                        reply = character
                    }
                    Request::Read32 { address } if address != BASE + reg::UERSTAT => reply = 1,
                    _ => {}
                }
            }
        }
    }
}

#[test]
fn received_characters_reach_the_console() {
    receive(
        &mut port(Variant::exynos()),
        &[
            (read(reg::UFCON), 0x111),
            (read(reg::UFSTAT), 0x2),
            (read(reg::UERSTAT), 0),
            (read_byte(), 0x61),
            (input(0x61), 0),
            // A full FIFO, whose count has wrapped to zero.
            (read(reg::UFSTAT), 0x100),
            (read(reg::UERSTAT), 0xffff_fff0),
            (read_byte(), 0xff),
            (input(0xff), 0),
            // Only the transmit FIFO holds data.
            (read(reg::UFSTAT), 0x1ff_0000),
            (write(reg::UINTP, 0x1), 0),
            (Request::Notify, 0),
        ],
    );
}

#[test]
fn console_is_not_told_about_nothing() {
    receive(
        &mut port(Variant::s5pv210()),
        &[
            (read(reg::UFCON), 0x1),
            (read(reg::UFSTAT), 0),
            (write(reg::UINTP, 0x1), 0),
        ],
    );
    receive(
        &mut port(Variant::apple_s5l()),
        &[
            (read(reg::UFCON), 0x1),
            (write(reg::UTRSTAT, 0x218), 0),
            (read(reg::UFSTAT), 0xfffe_fef0),
        ],
    );
}

#[test]
fn faulty_characters_are_dropped() {
    for errors in [0x1, 0x2, 0x4, 0x8, 0xf, 0xffff_ffff] {
        receive(
            &mut port(Variant::s3c6400()),
            &[
                (read(reg::UFCON), 0x11),
                (read(reg::UFSTAT), 0x1),
                (read(reg::UERSTAT), errors),
                (read_byte(), 0x61),
                (read(reg::UFSTAT), 0),
                (write(reg::UINTP, 0x1), 0),
            ],
        );
    }
}

#[test]
fn nul_characters_are_dropped() {
    receive(
        &mut port(Variant::s3c6400()),
        &[
            (read(reg::UFCON), 0x11),
            (read(reg::UFSTAT), 0x3),
            (read(reg::UERSTAT), 0),
            (read_byte(), 0),
            (read(reg::UFSTAT), 0x2),
            (read(reg::UERSTAT), 0),
            (read_byte(), 0x62),
            (input(0x62), 0),
            (read(reg::UFSTAT), 0x1),
            (read(reg::UERSTAT), 0),
            (read_byte(), 0),
            (read(reg::UFSTAT), 0),
            (write(reg::UINTP, 0x1), 0),
            // The one character in between counts.
            (Request::Notify, 0),
        ],
    );
}

#[test]
fn apple_flags_are_acknowledged_before_draining() {
    receive(
        &mut port(Variant::apple_s5l()),
        &[
            (read(reg::UFCON), 0x11),
            (write(reg::UTRSTAT, 0x218), 0),
            (read(reg::UFSTAT), 0x100),
            (read(reg::UERSTAT), 0),
            (read(reg::URXH), 0x61),
            (input(0x61), 0),
            (read(reg::UFSTAT), 0x200),
            (Request::Notify, 0),
        ],
    );
}

#[test]
fn wide_reads_hold_a_character_in_their_low_byte() {
    receive(
        &mut port(Variant::gs101()),
        &[
            (read(reg::UFCON), 0x111),
            (read(reg::UFSTAT), 0x1),
            (read(reg::UERSTAT), 0),
            (read(reg::URXH), 0xabcd_ef41),
            (input(0x41), 0),
            (read(reg::UFSTAT), 0x1),
            (read(reg::UERSTAT), 0),
            // A NUL character, whatever the other bits.
            (read(reg::URXH), 0xffff_ff00),
            (read(reg::UFSTAT), 0),
            (write(reg::UINTP, 0x1), 0),
            (Request::Notify, 0),
        ],
    );
}

#[test]
fn receiver_without_fifo_is_polled_by_its_ready_bit() {
    receive(
        &mut port(Variant::exynos()),
        &[
            (read(reg::UFCON), 0xffff_fffe),
            (read(reg::UTRSTAT), 0x1),
            (read(reg::UERSTAT), 0),
            (read_byte(), 0x0d),
            (input(0x0d), 0),
            (read(reg::UTRSTAT), 0xffff_fffe),
            (write(reg::UINTP, 0x1), 0),
            (Request::Notify, 0),
        ],
    );
}

#[test]
fn drain_is_limited() {
    // UFCON, four requests for each character, UINTP and the notification.
    assert_eq!(
        receive_without_end(&mut port(Variant::exynos()), 0x78),
        (vec![0x78; 256], 4 * 256 + 3)
    );
    assert_eq!(
        receive_without_end(&mut port(Variant::apple_s5l()), 0x78),
        (vec![0x78; 256], 4 * 256 + 3)
    );
    // Dropped characters count as well.
    assert_eq!(
        receive_without_end(&mut port(Variant::exynos()), 0),
        (vec![], 3 * 256 + 2)
    );
}
