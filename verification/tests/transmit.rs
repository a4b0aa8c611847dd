use uart_samsung::registers::reg;
use uart_samsung::{Request, SendProgress, SerialPort, Step, Variant, WriteProgress};

const BASE: usize = 0x7f00_5000;

fn port(variant: Variant) -> SerialPort {
    SerialPort::new(BASE, 115_200, None, variant, true)
}

fn read(register: usize) -> Request {
    Request::Read32 { address: BASE + register }
}

fn write_byte(byte: u8) -> Request {
    Request::Write8 { address: BASE + reg::UTXH, byte }
}

fn write_wide(data: u32) -> Request {
    Request::Write32 { address: BASE + reg::UTXH, data }
}

fn send(port: &mut SerialPort, byte: u8, script: &[(Request, u32)]) {
    let mut progress = SendProgress::Start;
    let mut reply = u32::MAX;
    for (request, answer) in script {
        assert_eq!(port.send(byte, &mut progress, reply), Step::Perform(*request));
        reply = *answer;
    }
    assert_eq!(port.send(byte, &mut progress, reply), Step::Finished(()));
    // A finished operation stays finished.
    assert_eq!(port.send(byte, &mut progress, 0), Step::Finished(()));
}

fn write_output(port: &mut SerialPort, output: &[u8], script: &[(Request, u32)]) {
    let mut progress = WriteProgress::Start;
    let mut reply = u32::MAX;
    for (request, answer) in script {
        assert_eq!(port.write(output, &mut progress, reply), Step::Perform(*request));
        reply = *answer;
    }
    assert_eq!(port.write(output, &mut progress, reply), Step::Finished(()));
    assert_eq!(port.write(output, &mut progress, 0), Step::Finished(()));
}

/// The requests that send a byte through an empty FIFO.
fn sent(byte: u8) -> [(Request, u32); 3] {
    [(read(reg::UFCON), 0x1), (read(reg::UFSTAT), 0), (write_byte(byte), 0)]
}

/// The bytes that a configured port sends for some output. Its transmit FIFO
/// is full at every other poll.
fn bytes_for(output: &[u8]) -> Vec<u8> {
    let mut port = port(Variant::exynos());
    let mut progress = WriteProgress::Start;
    let mut bytes = Vec::new();
    let mut full = false;
    let mut reply = 0;
    loop {
        match port.write(output, &mut progress, reply) {
            Step::Finished(()) => return bytes,
            Step::Perform(request) => {
                reply = 0;
                if request == read(reg::UCON) || request == read(reg::UFCON) {
                    reply = 0x5;
                } else if request == read(reg::UFSTAT) {
                    full = !full;
                    if full {
                        reply = 0x100_0000;
                    }
                } else if let Request::Write8 { address, byte } = request {
                    assert_eq!(address, BASE + reg::UTXH);
                    assert!(!full);
                    bytes.push(byte);
                } else {
                    unreachable!();
                }
            }
        }
    }
}

#[test]
fn send_waits_for_room_in_the_fifo() {
    for (variant, full) in [
        (Variant::s3c6400(), 0x4000),
        (Variant::s5pv210(), 0x100_0000),
        (Variant::exynos(), 0x100_0000),
    ] {
        send(
            &mut port(variant),
            0x41,
            &[
                (read(reg::UFCON), 0x1),
                (read(reg::UFSTAT), full),
                (read(reg::UFSTAT), 0xffff_ffff),
                (read(reg::UFSTAT), full),
                // Everything but the flag of a full FIFO.
                (read(reg::UFSTAT), !full),
                (write_byte(0x41), 0),
            ],
        );
    }
}

#[test]
fn send_without_fifo_waits_for_an_empty_transmitter() {
    send(
        &mut port(Variant::exynos()),
        0,
        &[
            (read(reg::UFCON), 0xffff_fffe),
            (read(reg::UTRSTAT), 0),
            (read(reg::UTRSTAT), 0xffff_fffb),
            (read(reg::UTRSTAT), 0x4),
            (write_byte(0), 0),
        ],
    );
}

#[test]
fn wide_variants_send_words() {
    send(
        &mut port(Variant::gs101()),
        0xff,
        &[(read(reg::UFCON), 0x1), (read(reg::UFSTAT), 0), (write_wide(0xff), 0)],
    );
    send(
        &mut port(Variant::apple_s5l()),
        0x41,
        &[
            (read(reg::UFCON), 0x11),
            (read(reg::UFSTAT), 0x200),
            (read(reg::UFSTAT), 0),
            (write_wide(0x41), 0),
        ],
    );
    send(
        &mut port(Variant::apple_s5l().with_reg_io_width(Some(1))),
        0x41,
        &[(read(reg::UFCON), 0x1), (read(reg::UFSTAT), 0), (write_byte(0x41), 0)],
    );
}

#[test]
fn unconfigured_port_gets_no_output() {
    for ucon in [0, 0xffff_fff0] {
        write_output(&mut port(Variant::exynos()), b"lost\n", &[(read(reg::UCON), ucon)]);
    }
}

#[test]
fn either_mode_configures_a_port() {
    for ucon in [0x1, 0x2, 0x4, 0x8] {
        let mut script = vec![(read(reg::UCON), ucon)];
        script.extend(sent(0x61));
        write_output(&mut port(Variant::exynos()), b"a", &script);
    }
}

#[test]
fn empty_output_sends_nothing() {
    write_output(&mut port(Variant::exynos()), b"", &[(read(reg::UCON), 0x5)]);
}

#[test]
fn every_byte_of_the_output_is_sent() {
    let mut script = vec![(read(reg::UCON), 0x3c5)];
    for byte in [0x61, 0x0d, 0x0a, 0x08, 0x20, 0x08, 0x00] {
        script.extend(sent(byte));
    }
    write_output(&mut port(Variant::exynos()), b"a\n\x08\0", &script);
}

#[test]
fn fifo_mode_is_looked_up_for_every_byte() {
    write_output(
        &mut port(Variant::exynos()),
        b"ab",
        &[
            (read(reg::UCON), 0x5),
            (read(reg::UFCON), 0x1),
            (read(reg::UFSTAT), 0x100_0000),
            (read(reg::UFSTAT), 0),
            (write_byte(0x61), 0),
            (read(reg::UFCON), 0),
            (read(reg::UTRSTAT), 0),
            (read(reg::UTRSTAT), 0x4),
            (write_byte(0x62), 0),
        ],
    );
}

#[test]
fn newlines_return_the_carriage() {
    assert_eq!(bytes_for(b"\n"), b"\r\n");
    assert_eq!(bytes_for(b"one\ntwo\r\n"), b"one\r\ntwo\r\r\n");
}

#[test]
fn backspace_and_delete_wipe_out_a_character() {
    assert_eq!(bytes_for(b"\x08"), b"\x08 \x08");
    assert_eq!(bytes_for(b"\x7f"), b"\x08 \x08");
    assert_eq!(bytes_for(b"ab\x7f\x08"), b"ab\x08 \x08\x08 \x08");
}

#[test]
fn plain_output_is_sent_unchanged() {
    let plain: Vec<u8> = (0..=255).filter(|b| ![8, 0x0a, 0x7f].contains(b)).collect();
    assert_eq!(bytes_for(&plain), plain);
}

#[test]
fn output_may_be_split() {
    let output = b"a\n\x08\x7fz\n\n";
    for middle in 0..=output.len() {
        let (first, second) = output.split_at(middle);
        let mut bytes = bytes_for(first);
        bytes.extend(bytes_for(second));
        assert_eq!(bytes, bytes_for(output));
    }
}

#[test]
fn output_suits_a_terminal() {
    let output: Vec<u8> = (0..=255).collect();
    let bytes = bytes_for(&output);
    assert!(!bytes.contains(&0x7f));
    for (i, byte) in bytes.iter().enumerate() {
        if *byte == 0x0a {
            assert_eq!(bytes[i - 1], 0x0d);
        }
    }
}
