use std::collections::BTreeMap;

use uart_samsung::registers::reg;
use uart_samsung::{
    EnableIrqProgress, InitEarlyProgress, InitFullProgress, ReceiveProgress, Request, SerialPort,
    Step, Variant, WriteProgress,
};

const BASE: usize = 0x1000_0000;

/// A UART that is always ready, with its console.
struct Device {
    wide_data: bool,
    registers: BTreeMap<usize, u32>,
    incoming: Vec<u8>,
    outgoing: Vec<u8>,
    console: Vec<u8>,
    notified: usize,
}

impl Device {
    fn new(variant: Variant) -> Device {
        Device {
            wide_data: variant.wide_data,
            registers: BTreeMap::new(),
            incoming: Vec::new(),
            outgoing: Vec::new(),
            console: Vec::new(),
            notified: 0,
        }
    }

    fn register(&self, register: usize) -> u32 {
        self.registers.get(&register).copied().unwrap_or(0)
    }

    fn read(&mut self, register: usize) -> u32 {
        match register {
            reg::UTRSTAT => 0x4 | u32::from(!self.incoming.is_empty()),
            reg::UFSTAT => self.incoming.len().min(0xf) as u32,
            reg::URXH => u32::from(self.incoming.remove(0)),
            reg::UTXH => panic!("UTXH cannot be read"),
            _ => self.register(register),
        }
    }

    fn write(&mut self, register: usize, data: u32) {
        match register {
            reg::UTXH => self.outgoing.push(data as u8),
            reg::URXH => panic!("URXH cannot be written"),
            // The reset bits clear themselves.
            reg::UFCON => {
                self.registers.insert(register, data & !0x6);
            }
            _ => {
                self.registers.insert(register, data);
            }
        }
    }

    /// Performs a request. Every access must be within the register block,
    /// aligned and as wide as the register asks for.
    fn perform(&mut self, request: Request) -> u32 {
        match request {
            Request::Read32 { address } | Request::Write32 { address, .. } => {
                assert_eq!(address % 4, 0);
                assert!((BASE..BASE + 0x3c).contains(&address));
                let register = address - BASE;
                assert!(self.wide_data || (register != reg::UTXH && register != reg::URXH));
            }
            Request::Read8 { address } => {
                assert!(!self.wide_data);
                assert_eq!(address, BASE + reg::URXH);
            }
            Request::Write8 { address, .. } => {
                assert!(!self.wide_data);
                assert_eq!(address, BASE + reg::UTXH);
            }
            Request::Pause | Request::Input { .. } | Request::Notify => {}
        }
        match request {
            Request::Read32 { address } | Request::Read8 { address } => self.read(address - BASE),
            Request::Write32 { address, data } => {
                self.write(address - BASE, data);
                0
            }
            Request::Write8 { address, byte } => {
                self.write(address - BASE, u32::from(byte));
                0
            }
            Request::Pause => 0,
            Request::Input { byte } => {
                self.console.push(byte);
                0
            }
            Request::Notify => {
                self.notified += 1;
                0
            }
        }
    }

    fn run<R>(&mut self, mut step: impl FnMut(u32) -> Step<R>) -> R {
        let mut reply = 0;
        loop {
            match step(reply) {
                Step::Perform(request) => reply = self.perform(request),
                Step::Finished(result) => return result,
            }
        }
    }

    fn init_early(&mut self, port: &mut SerialPort) {
        let mut progress = InitEarlyProgress::Start;
        self.run(|reply| port.init_early(&mut progress, reply))
    }

    fn init_full(&mut self, port: &mut SerialPort) -> Result<(), ()> {
        let mut progress = InitFullProgress::Start;
        self.run(|reply| port.init_full(&mut progress, reply))
    }

    fn enable_irq(&mut self, port: &mut SerialPort) {
        let mut progress = EnableIrqProgress::Start;
        self.run(|reply| port.enable_irq(&mut progress, reply))
    }

    fn receive(&mut self, port: &mut SerialPort) {
        let mut progress = ReceiveProgress::Start;
        self.run(|reply| port.receive(&mut progress, reply))
    }

    fn write_output(&mut self, port: &mut SerialPort, output: &[u8]) {
        let mut progress = WriteProgress::Start;
        self.run(|reply| port.write(output, &mut progress, reply))
    }
}

fn variants() -> Vec<Variant> {
    let mut variants = Vec::new();
    for variant in [
        Variant::s3c6400(),
        Variant::s5pv210(),
        Variant::exynos(),
        Variant::gs101(),
        Variant::apple_s5l(),
    ] {
        variants.push(variant.with_reg_io_width(Some(1)));
        variants.push(variant.with_reg_io_width(Some(4)));
    }
    variants
}

#[test]
fn every_variant_makes_a_working_console() {
    for variant in variants() {
        let mut device = Device::new(variant);
        let mut port = SerialPort::new(BASE, 115_200, Some(100_000_000), variant, false);
        device.init_early(&mut port);
        assert_eq!(device.register(reg::UCON), 0x4);
        device.write_output(&mut port, b"early\n");
        assert_eq!(device.outgoing, b"early\r\n");

        assert_eq!(device.init_full(&mut port), Ok(()));
        device.enable_irq(&mut port);
        device.write_output(&mut port, b"full");
        assert_eq!(device.outgoing, b"early\r\nfull");

        device.incoming = b"in\0put".to_vec();
        device.receive(&mut port);
        assert_eq!(device.console, b"input");
        assert_eq!(device.notified, 1);
        device.receive(&mut port);
        assert_eq!(device.notified, 1);
    }
}

#[test]
fn init_full_sets_the_port_up() {
    for variant in variants() {
        let mut device = Device::new(variant);
        device.registers.insert(reg::UMCON, 0xff);
        let mut port = SerialPort::new(BASE, 115_200, Some(100_000_000), variant, false);
        assert_eq!(device.init_full(&mut port), Ok(()));
        let ucon = device.register(reg::UCON);
        assert_eq!(ucon & variant.ucon_default, variant.ucon_default);
        assert_eq!(ucon & 0xf, 0x5);
        assert_eq!(device.register(reg::UFCON), variant.ufcon_default);
        assert_eq!(device.register(reg::UMCON), 0xef);
        assert_eq!(device.register(reg::ULCON), 0x3);
        assert_eq!(device.register(reg::UBRDIV), 53);
    }
}

#[test]
fn firmware_line_configuration_is_kept() {
    for variant in variants() {
        for (clock_rate, skip_init) in [(None, false), (None, true), (Some(100_000_000), true)] {
            let mut device = Device::new(variant);
            for register in [reg::ULCON, reg::UBRDIV, reg::UFRACVAL] {
                device.registers.insert(register, 0x5a);
            }
            let mut port = SerialPort::new(BASE, 115_200, clock_rate, variant, skip_init);
            device.init_early(&mut port);
            assert_eq!(device.init_full(&mut port), Ok(()));
            device.enable_irq(&mut port);
            device.incoming = b"x".to_vec();
            device.receive(&mut port);
            device.write_output(&mut port, b"y");
            for register in [reg::ULCON, reg::UBRDIV, reg::UFRACVAL] {
                assert_eq!(device.register(register), 0x5a);
            }
        }
    }
}

#[test]
fn set_up_ports_are_configured() {
    for variant in variants() {
        let mut port = SerialPort::new(BASE, 115_200, None, variant, false);

        let mut device = Device::new(variant);
        device.init_early(&mut port);
        device.write_output(&mut port, b"a");
        assert_eq!(device.outgoing, b"a");

        let mut device = Device::new(variant);
        assert_eq!(device.init_full(&mut port), Ok(()));
        device.write_output(&mut port, b"b");
        assert_eq!(device.outgoing, b"b");

        let mut device = Device::new(variant);
        device.enable_irq(&mut port);
        device.write_output(&mut port, b"c");
        assert_eq!(device.outgoing, b"c");

        let mut device = Device::new(variant);
        device.write_output(&mut port, b"d");
        assert_eq!(device.outgoing, b"");
    }
}

#[test]
fn clock_select_survives_every_operation() {
    for variant in variants() {
        for clock_select in [0, 0x400, 0x800, 0xc00] {
            let selected = clock_select & variant.ucon_preserve;
            let mut device = Device::new(variant);
            device.registers.insert(reg::UCON, clock_select);
            let mut port = SerialPort::new(BASE, 115_200, Some(100_000_000), variant, false);
            device.init_early(&mut port);
            assert_eq!(device.register(reg::UCON) & variant.ucon_preserve, selected);
            assert_eq!(device.init_full(&mut port), Ok(()));
            assert_eq!(device.register(reg::UCON) & variant.ucon_preserve, selected);
            device.enable_irq(&mut port);
            assert_eq!(device.register(reg::UCON) & variant.ucon_preserve, selected);
            device.incoming = b"x".to_vec();
            device.receive(&mut port);
            device.write_output(&mut port, b"y");
            assert_eq!(device.register(reg::UCON) & variant.ucon_preserve, selected);
        }
    }
}
