use std::collections::VecDeque;

use digitemp::adapter::{OneWireAdapter, Step};
use digitemp::crc::calculate_crc8;
use digitemp::protocol::Outcome;
use digitemp::temperature::Temperature;
use digitemp::transport::{Action, OneWireError, PresenceCheck, Reply};

/// What a simulated device is doing between two bit slots.
#[derive(Debug, Clone, Copy, PartialEq, Eq)]
enum Mode {
    /// Deselected until the next reset.
    Silent,
    /// Collecting a ROM command.
    RomCommand { got: u8, count: u8 },
    /// In a search: `part` 0 sends the bit, 1 its complement, 2 reads the choice.
    Search { index: u8, part: u8 },
    /// Comparing the code that the master sends.
    Match { index: u8 },
    /// Selected: collecting a function command.
    Function { got: u8, count: u8 },
    /// Sending the scratchpad.
    Scratchpad { index: u8 },
}

#[derive(Debug, Clone)]
struct Device {
    rom: [u8; 8],
    scratchpad: [u8; 9],
    mode: Mode,
    converted: bool,
}

fn bit_of(bytes: &[u8], index: u8) -> bool {
    (bytes[(index / 8) as usize] >> (index % 8)) & 1 == 1
}

impl Device {
    /// The level the device lets the line take in the coming slot.
    fn output(&self) -> bool {
        match self.mode {
            Mode::Search { index, part: 0 } => bit_of(&self.rom, index),
            Mode::Search { index, part: 1 } => !bit_of(&self.rom, index),
            Mode::Scratchpad { index } if index < 72 => bit_of(&self.scratchpad, index),
            _ => true,
        }
    }

    /// The device takes note of the level the line had in the slot.
    fn observe(&mut self, level: bool) {
        self.mode = match self.mode {
            Mode::Silent => Mode::Silent,
            Mode::RomCommand { got, count } => {
                let got = got | ((level as u8) << count);
                if count < 7 {
                    Mode::RomCommand { got, count: count + 1 }
                } else {
                    match got {
                        0xF0 => Mode::Search { index: 0, part: 0 },
                        0x55 => Mode::Match { index: 0 },
                        0xCC => Mode::Function { got: 0, count: 0 },
                        _ => Mode::Silent,
                    }
                }
            }
            Mode::Search { index, part } if part < 2 => Mode::Search { index, part: part + 1 },
            Mode::Search { index, .. } => {
                if level != bit_of(&self.rom, index) {
                    Mode::Silent
                } else if index == 63 {
                    Mode::Function { got: 0, count: 0 }
                } else {
                    Mode::Search { index: index + 1, part: 0 }
                }
            }
            Mode::Match { index } => {
                if level != bit_of(&self.rom, index) {
                    Mode::Silent
                } else if index == 63 {
                    Mode::Function { got: 0, count: 0 }
                } else {
                    Mode::Match { index: index + 1 }
                }
            }
            Mode::Function { got, count } => {
                let got = got | ((level as u8) << count);
                if count < 7 {
                    Mode::Function { got, count: count + 1 }
                } else {
                    match got {
                        0x44 => {
                            self.converted = true;
                            Mode::Silent
                        }
                        0xBE => Mode::Scratchpad { index: 0 },
                        _ => Mode::Silent,
                    }
                }
            }
            Mode::Scratchpad { index } => Mode::Scratchpad { index: index.saturating_add(1) },
        };
    }
}

/// A deterministic 1-Wire bus behind a simulated UART.
struct SimBus {
    devices: Vec<Device>,
    baud: u32,
    inbox: VecDeque<u8>,
    resets: usize,
    /// Devices vanish once this many resets have been seen.
    unplug_after_resets: Option<usize>,
    /// The action with this number (from 0) fails with an I/O error.
    fail_action: Option<usize>,
    actions: Vec<Action>,
}

impl SimBus {
    fn new(devices: Vec<Device>) -> SimBus {
        SimBus {
            devices,
            baud: 115200,
            inbox: VecDeque::new(),
            resets: 0,
            unplug_after_resets: None,
            fail_action: None,
            actions: Vec::new(),
        }
    }

    fn slot(&mut self, sent: u8) -> u8 {
        let mut level = sent & 1 == 1;
        for device in &self.devices {
            level = level && device.output();
        }
        for device in &mut self.devices {
            device.observe(level);
        }
        if level {
            0xFF
        } else {
            0x00
        }
    }

    fn perform(&mut self, action: Action) -> Reply {
        let number = self.actions.len();
        let reply = if self.fail_action == Some(number) {
            Reply::IoError(String::from("simulated failure"))
        } else {
            match &action {
                Action::ClearBuffers => {
                    self.inbox.clear();
                    Reply::Done
                }
                Action::SetBaudRate(baud) => {
                    self.baud = *baud;
                    Reply::Done
                }
                Action::Sleep(_) => Reply::Done,
                Action::Write(bytes) => {
                    for &byte in bytes {
                        if self.baud == 9600 {
                            self.resets += 1;
                            if self.unplug_after_resets.map_or(false, |n| self.resets > n) {
                                self.devices.clear();
                            }
                            for device in &mut self.devices {
                                device.mode = Mode::RomCommand { got: 0, count: 0 };
                            }
                            let echo = if self.devices.is_empty() { byte } else { 0xE0 };
                            self.inbox.push_back(echo);
                        } else {
                            let echo = self.slot(byte);
                            self.inbox.push_back(echo);
                        }
                    }
                    Reply::Done
                }
                Action::ReadExact(count) => {
                    if self.inbox.len() < *count {
                        Reply::IoError(String::from("timed out"))
                    } else {
                        Reply::Data(self.inbox.drain(..*count).collect())
                    }
                }
            }
        };
        self.actions.push(action);
        reply
    }
}

fn drive(adapter: &mut OneWireAdapter, bus: &mut SimBus, first: Step) -> Result<Outcome, OneWireError> {
    let mut step = first;
    loop {
        match step {
            Step::Perform(action) => {
                let reply = bus.perform(action);
                step = adapter.resume(reply);
            }
            Step::Finished(result) => return result,
        }
    }
}

fn rom_with_serial(serial: [u8; 6]) -> [u8; 8] {
    let mut rom = [0x28, serial[0], serial[1], serial[2], serial[3], serial[4], serial[5], 0];
    rom[7] = calculate_crc8(&rom[..7]);
    rom
}

/// A valid ROM code whose first byte is `first`: the search branches on
/// the low bits of that byte.
fn rom_starting(first: u8, tag: u8) -> [u8; 8] {
    let mut rom = [first, tag, 0x11, 0x22, 0x33, 0x44, 0x55, 0];
    rom[7] = calculate_crc8(&rom[..7]);
    rom
}

fn scratchpad_with_raw(raw: u16) -> [u8; 9] {
    let mut pad = [(raw & 0xFF) as u8, (raw >> 8) as u8, 0x4B, 0x46, 0x7F, 0xFF, 0x0C, 0x10, 0];
    pad[8] = calculate_crc8(&pad[..8]);
    pad
}

fn device(rom: [u8; 8]) -> Device {
    Device { rom, scratchpad: scratchpad_with_raw(0x0191), mode: Mode::Silent, converted: false }
}

fn device_reading(rom: [u8; 8], raw: u16) -> Device {
    Device { rom, scratchpad: scratchpad_with_raw(raw), mode: Mode::Silent, converted: false }
}

fn discover(devices: Vec<Device>) -> (Vec<[u8; 8]>, usize) {
    let mut bus = SimBus::new(devices);
    let mut adapter = OneWireAdapter::new();
    let first = adapter.discover_sensors();
    match drive(&mut adapter, &mut bus, first) {
        Ok(Outcome::Sensors(found)) => (found, bus.resets),
        other => panic!("search ended with {:?}", other),
    }
}

fn read(bus: &mut SimBus, rom: &[u8; 8]) -> Result<Outcome, OneWireError> {
    let mut adapter = OneWireAdapter::new();
    let first = adapter.read_temperature(rom);
    let result = drive(&mut adapter, bus, first);
    assert!(adapter.is_idle());
    result
}

#[test]
fn new_adapter_is_idle_with_default_burst() {
    let adapter = OneWireAdapter::new();
    assert!(adapter.is_idle());
    assert_eq!(adapter.chunk_size(), 16);
}

#[test]
fn zero_chunk_size_is_refused() {
    assert!(OneWireAdapter::with_chunk_size(0).is_none());
    assert_eq!(OneWireAdapter::with_chunk_size(3).unwrap().chunk_size(), 3);
}

#[test]
fn reset_runs_its_six_actions_in_order() {
    let mut bus = SimBus::new(vec![device(rom_with_serial([1, 2, 3, 4, 5, 6]))]);
    let mut adapter = OneWireAdapter::new();
    let first = adapter.reset();
    assert!(!adapter.is_idle());
    let result = drive(&mut adapter, &mut bus, first);
    assert_eq!(result, Ok(Outcome::Presence(true)));
    assert_eq!(
        bus.actions,
        vec![
            Action::ClearBuffers,
            Action::SetBaudRate(9600),
            Action::Write(vec![0xF0]),
            Action::Sleep(5),
            Action::ReadExact(1),
            Action::SetBaudRate(115200),
        ]
    );
    assert!(adapter.is_idle());
}

#[test]
fn reset_without_device_returns_false_without_error() {
    let mut bus = SimBus::new(vec![]);
    let mut adapter = OneWireAdapter::new();
    let first = adapter.reset();
    assert_eq!(drive(&mut adapter, &mut bus, first), Ok(Outcome::Presence(false)));
    assert_eq!(bus.baud, 115200);
}

#[test]
fn reset_echo_of_zero_is_no_presence() {
    let mut adapter = OneWireAdapter::new();
    let mut step = adapter.reset();
    for reply in [Reply::Done, Reply::Done, Reply::Done, Reply::Done, Reply::Data(vec![0x00])] {
        assert!(matches!(step, Step::Perform(_)));
        step = adapter.resume(reply);
    }
    assert_eq!(step, Step::Perform(Action::SetBaudRate(115200)));
    assert_eq!(adapter.resume(Reply::Done), Step::Finished(Ok(Outcome::Presence(false))));
}

#[test]
fn reset_read_timeout_is_an_error_after_the_rate_is_restored() {
    let mut bus = SimBus::new(vec![device(rom_with_serial([1, 2, 3, 4, 5, 6]))]);
    bus.fail_action = Some(4);
    let mut adapter = OneWireAdapter::new();
    let first = adapter.reset();
    let result = drive(&mut adapter, &mut bus, first);
    assert_eq!(result, Err(OneWireError::IoError(String::from("simulated failure"))));
    assert_eq!(bus.actions.last(), Some(&Action::SetBaudRate(115200)));
    assert_eq!(bus.baud, 115200);
    assert!(result.unwrap_err().is_transport_error());
}

#[test]
fn reset_failure_before_the_rate_changes_ends_at_once() {
    let mut adapter = OneWireAdapter::new();
    let first = adapter.reset();
    assert_eq!(first, Step::Perform(Action::ClearBuffers));
    let step = adapter.resume(Reply::SerialError(String::from("gone")));
    assert_eq!(step, Step::Finished(Err(OneWireError::SerialError(String::from("gone")))));
    assert!(adapter.is_idle());
}

#[test]
fn reset_failure_of_the_write_restores_the_rate_and_keeps_the_first_error() {
    let mut adapter = OneWireAdapter::new();
    let _ = adapter.reset();
    assert_eq!(adapter.resume(Reply::Done), Step::Perform(Action::SetBaudRate(9600)));
    assert_eq!(adapter.resume(Reply::Done), Step::Perform(Action::Write(vec![0xF0])));
    let step = adapter.resume(Reply::IoError(String::from("first")));
    assert_eq!(step, Step::Perform(Action::SetBaudRate(115200)));
    let step = adapter.resume(Reply::SerialError(String::from("second")));
    assert_eq!(step, Step::Finished(Err(OneWireError::IoError(String::from("first")))));
}

#[test]
fn reset_short_read_is_a_transport_error() {
    let mut adapter = OneWireAdapter::new();
    let mut step = adapter.reset();
    for reply in [Reply::Done, Reply::Done, Reply::Done, Reply::Done, Reply::Data(vec![])] {
        assert!(matches!(step, Step::Perform(_)));
        step = adapter.resume(reply);
    }
    assert_eq!(step, Step::Perform(Action::SetBaudRate(115200)));
    assert_eq!(adapter.resume(Reply::Done), Step::Finished(Err(OneWireError::ShortRead)));
}

#[test]
fn reply_to_an_idle_adapter_is_a_short_read() {
    let mut adapter = OneWireAdapter::new();
    assert_eq!(adapter.resume(Reply::Done), Step::Finished(Err(OneWireError::ShortRead)));
    assert!(adapter.is_idle());
}

/// Exchanges `bits` in bursts of `chunk` over a line on which a device pulls
/// every third slot low, and returns the levels and the writes made.
fn touch_with_chunk(bits: &[u8], chunk: usize) -> (Vec<u8>, Vec<Vec<u8>>) {
    let mut adapter = OneWireAdapter::with_chunk_size(chunk).unwrap();
    let mut step = adapter.touch_bits(bits);
    let mut writes: Vec<Vec<u8>> = Vec::new();
    let mut pending: Vec<u8> = Vec::new();
    let mut slot = 0usize;
    loop {
        match step {
            Step::Perform(Action::Write(bytes)) => {
                for &byte in &bytes {
                    pending.push(if slot % 3 == 2 { 0x00 } else { byte });
                    slot += 1;
                }
                writes.push(bytes);
                step = adapter.resume(Reply::Done);
            }
            Step::Perform(Action::ReadExact(count)) => {
                assert_eq!(count, pending.len());
                step = adapter.resume(Reply::Data(std::mem::take(&mut pending)));
            }
            Step::Finished(Ok(Outcome::Bits(levels))) => return (levels, writes),
            other => panic!("unexpected step {:?}", other),
        }
    }
}

#[test]
fn touch_bits_of_seventy_bits_is_the_same_for_every_chunk_size() {
    let bits: Vec<u8> = (0..70u32).map(|i| ((i * 7 + 3) % 5 < 3) as u8).collect();
    let expected: Vec<u8> =
        (0..70usize).map(|i| if i % 3 == 2 { 0 } else { bits[i] }).collect();
    let (reference, writes) = touch_with_chunk(&bits, 16);
    assert_eq!(reference, expected);
    assert_eq!(writes.iter().map(|w| w.len()).collect::<Vec<_>>(), vec![16, 16, 16, 16, 6]);
    for chunk in 1..=70usize {
        let (levels, writes) = touch_with_chunk(&bits, chunk);
        assert_eq!(levels, reference, "chunk size {}", chunk);
        let sent: Vec<u8> = writes.concat();
        let wire: Vec<u8> = bits.iter().map(|&b| if b != 0 { 0xFF } else { 0x00 }).collect();
        assert_eq!(sent, wire);
        assert!(writes.iter().all(|w| w.len() <= chunk && !w.is_empty()));
    }
}

#[test]
fn touch_bits_of_nothing_ends_at_once() {
    let mut adapter = OneWireAdapter::new();
    assert_eq!(adapter.touch_bits(&[]), Step::Finished(Ok(Outcome::Bits(vec![]))));
    assert!(adapter.is_idle());
}

#[test]
fn touch_bits_samples_the_low_bit_of_each_echo() {
    let mut adapter = OneWireAdapter::new();
    let step = adapter.touch_bits(&[1, 0, 5]);
    assert_eq!(step, Step::Perform(Action::Write(vec![0xFF, 0x00, 0xFF])));
    assert_eq!(adapter.resume(Reply::Done), Step::Perform(Action::ReadExact(3)));
    let step = adapter.resume(Reply::Data(vec![0xFE, 0x01, 0x7F]));
    assert_eq!(step, Step::Finished(Ok(Outcome::Bits(vec![0, 1, 1]))));
}

#[test]
fn touch_bits_write_failure_ends_the_exchange() {
    let mut adapter = OneWireAdapter::new();
    let _ = adapter.touch_bits(&[1, 1]);
    let step = adapter.resume(Reply::IoError(String::from("broken pipe")));
    assert_eq!(step, Step::Finished(Err(OneWireError::IoError(String::from("broken pipe")))));
}

#[test]
fn write_byte_sends_least_significant_bit_first() {
    let mut adapter = OneWireAdapter::new();
    let step = adapter.write_byte(0x55);
    assert_eq!(
        step,
        Step::Perform(Action::Write(vec![0xFF, 0x00, 0xFF, 0x00, 0xFF, 0x00, 0xFF, 0x00]))
    );
    assert_eq!(adapter.resume(Reply::Done), Step::Perform(Action::ReadExact(8)));
    assert_eq!(adapter.resume(Reply::Data(vec![0; 8])), Step::Finished(Ok(Outcome::Written)));
}

#[test]
fn read_byte_reassembles_least_significant_bit_first() {
    let mut adapter = OneWireAdapter::new();
    let step = adapter.read_byte();
    assert_eq!(step, Step::Perform(Action::Write(vec![0xFF; 8])));
    assert_eq!(adapter.resume(Reply::Done), Step::Perform(Action::ReadExact(8)));
    // 0xA6 = 1010_0110: bits 1, 2, 5 and 7 are set.
    let echoes = vec![0x00, 0xFF, 0xFF, 0x00, 0x00, 0xFF, 0x00, 0xFF];
    assert_eq!(adapter.resume(Reply::Data(echoes)), Step::Finished(Ok(Outcome::Byte(0xA6))));
}

#[test]
fn select_device_writes_the_command_and_the_code() {
    let rom = rom_with_serial([9, 8, 7, 6, 5, 4]);
    let mut bus = SimBus::new(vec![device(rom), device(rom_with_serial([1, 1, 1, 1, 1, 1]))]);
    let mut adapter = OneWireAdapter::new();
    let first = adapter.reset();
    assert_eq!(drive(&mut adapter, &mut bus, first), Ok(Outcome::Presence(true)));
    let first = adapter.select_device(&rom);
    assert_eq!(drive(&mut adapter, &mut bus, first), Ok(Outcome::Selected));
    assert_eq!(bus.devices[0].mode, Mode::Function { got: 0, count: 0 });
    assert_eq!(bus.devices[1].mode, Mode::Silent);
    let written: usize = bus
        .actions
        .iter()
        .map(|a| if let Action::Write(bytes) = a { bytes.len() } else { 0 })
        .sum();
    assert_eq!(written, 1 + 72);
}

#[test]
fn discovery_on_an_empty_bus_finds_nothing() {
    let (found, resets) = discover(vec![]);
    assert!(found.is_empty());
    assert_eq!(resets, 1);
}

#[test]
fn discovery_of_a_single_device_takes_one_round() {
    let rom = rom_with_serial([0xDE, 0xAD, 0xBE, 0xEF, 0x00, 0x01]);
    let (found, resets) = discover(vec![device(rom)]);
    assert_eq!(found, vec![rom]);
    assert_eq!(resets, 1);
}

#[test]
fn discovery_of_two_devices_that_differ_in_the_first_bit() {
    let even = rom_starting(0x28, 1);
    let odd = rom_starting(0x29, 2);
    let (found, resets) = discover(vec![device(odd), device(even)]);
    assert_eq!(found, vec![even, odd]);
    assert_eq!(resets, 2);
}

#[test]
fn discovery_does_not_depend_on_the_order_of_the_devices() {
    // First bytes ...0, ...01, ...011, ...111: each code leaves the others at
    // a later bit than the one before.
    let roms = [
        rom_starting(0b0000, 1),
        rom_starting(0b0001, 2),
        rom_starting(0b0011, 3),
        rom_starting(0b0111, 4),
        rom_starting(0b1111, 5),
    ];
    let orders: [[usize; 5]; 4] =
        [[0, 1, 2, 3, 4], [4, 3, 2, 1, 0], [2, 0, 4, 1, 3], [1, 4, 0, 3, 2]];
    for order in orders {
        let devices = order.iter().map(|&i| device(roms[i])).collect();
        let (found, resets) = discover(devices);
        assert_eq!(found, roms.to_vec());
        assert_eq!(resets, 5);
    }
}

#[test]
fn discovery_finds_devices_that_differ_only_in_the_serial_number() {
    let first = rom_with_serial([0x00, 0x00, 0x00, 0x00, 0x00, 0x01]);
    let second = rom_with_serial([0x00, 0x00, 0x00, 0x00, 0x00, 0x02]);
    let (found, resets) = discover(vec![device(second), device(first)]);
    assert_eq!(found.len(), 2);
    assert!(found.contains(&first) && found.contains(&second));
    assert_ne!(found[0], found[1]);
    assert_eq!(resets, 2);
}

#[test]
fn discovery_turns_only_at_the_branch_opened_last() {
    // Two codes share the "0" side of the first bit and part at the second:
    // the round after them has no branch left on record, so the "1" side of
    // the first bit is never walked.
    let a = rom_starting(0b00, 1);
    let b = rom_starting(0b10, 2);
    let c = rom_starting(0b01, 3);
    let (found, resets) = discover(vec![device(a), device(b), device(c)]);
    assert_eq!(found, vec![a, b]);
    assert_eq!(resets, 2);
}

#[test]
fn discovery_drops_a_code_whose_crc_fails() {
    let good = rom_starting(0x28, 1);
    let mut bad = rom_starting(0x29, 2);
    bad[7] ^= 0x40;
    let (found, resets) = discover(vec![device(good), device(bad)]);
    assert_eq!(found, vec![good]);
    assert_eq!(resets, 2);
}

#[test]
fn discovery_ends_when_the_devices_fall_silent_in_a_round() {
    let mut adapter = OneWireAdapter::new();
    let mut step = adapter.discover_sensors();
    let mut pending = 0usize;
    let mut low = false;
    let mut resets = 0;
    let result = loop {
        match step {
            Step::Perform(Action::SetBaudRate(baud)) => {
                low = baud == 9600;
                step = adapter.resume(Reply::Done);
            }
            Step::Perform(Action::Write(bytes)) => {
                pending = bytes.len();
                if low {
                    resets += 1;
                }
                step = adapter.resume(Reply::Done);
            }
            Step::Perform(Action::ReadExact(count)) => {
                assert_eq!(count, pending);
                // Presence at the reset, then a line that nobody pulls low.
                let echo = if low { 0xE0 } else { 0xFF };
                step = adapter.resume(Reply::Data(vec![echo; count]));
            }
            Step::Perform(_) => step = adapter.resume(Reply::Done),
            Step::Finished(result) => break result,
        }
    };
    assert_eq!(result, Ok(Outcome::Sensors(vec![])));
    assert_eq!(resets, 1);
}

#[test]
fn discovery_passes_a_transport_error_on() {
    let mut bus = SimBus::new(vec![device(rom_with_serial([1, 2, 3, 4, 5, 6]))]);
    bus.fail_action = Some(20);
    let mut adapter = OneWireAdapter::new();
    let first = adapter.discover_sensors();
    let result = drive(&mut adapter, &mut bus, first);
    assert_eq!(result, Err(OneWireError::IoError(String::from("simulated failure"))));
    assert!(adapter.is_idle());
}

#[test]
fn read_temperature_decodes_the_register() {
    let rom = rom_with_serial([1, 2, 3, 4, 5, 6]);
    for (raw, celsius) in [(0x0191u16, 25.0625f32), (0xFFFF, -0.0625), (0x0000, 0.0), (0xFC90, -55.0)] {
        let mut bus = SimBus::new(vec![device_reading(rom, raw)]);
        match read(&mut bus, &rom) {
            Ok(Outcome::Temperature(temperature)) => {
                assert_eq!(temperature, Temperature { raw: raw as i16 });
                assert_eq!(temperature.sixteenths() as f32 * 0.0625, celsius);
            }
            other => panic!("read ended with {:?}", other),
        }
        assert!(bus.devices[0].converted);
        assert_eq!(bus.resets, 2);
        assert_eq!(bus.baud, 115200);
    }
}

#[test]
fn read_temperature_addresses_one_device_among_several() {
    let near = rom_with_serial([1, 2, 3, 4, 5, 6]);
    let far = rom_with_serial([1, 2, 3, 4, 5, 7]);
    let mut bus = SimBus::new(vec![device_reading(near, 0x0150), device_reading(far, 0x0191)]);
    assert_eq!(read(&mut bus, &far), Ok(Outcome::Temperature(Temperature { raw: 0x0191 })));
    assert!(bus.devices[1].converted);
    assert!(!bus.devices[0].converted);
}

#[test]
fn read_temperature_waits_for_the_conversion_between_the_two_resets() {
    let rom = rom_with_serial([1, 2, 3, 4, 5, 6]);
    let mut bus = SimBus::new(vec![device(rom)]);
    assert!(read(&mut bus, &rom).is_ok());
    let sleeps: Vec<(usize, u64)> = bus
        .actions
        .iter()
        .enumerate()
        .filter_map(|(i, a)| if let Action::Sleep(ms) = a { Some((i, *ms)) } else { None })
        .collect();
    assert_eq!(sleeps.iter().map(|s| s.1).collect::<Vec<_>>(), vec![5, 750, 5]);
    let clears: Vec<usize> = bus
        .actions
        .iter()
        .enumerate()
        .filter_map(|(i, a)| if *a == Action::ClearBuffers { Some(i) } else { None })
        .collect();
    assert_eq!(clears.len(), 2);
    assert!(clears[0] < sleeps[1].0 && sleeps[1].0 < clears[1]);
    // Reset, ten byte writes, the wait, reset, ten byte writes, nine byte reads.
    assert_eq!(bus.actions.len(), 6 + 10 * 2 + 1 + 6 + 10 * 2 + 9 * 2);
}

#[test]
fn read_temperature_without_device_is_device_not_present() {
    let rom = rom_with_serial([1, 2, 3, 4, 5, 6]);
    let mut bus = SimBus::new(vec![]);
    let result = read(&mut bus, &rom);
    assert_eq!(result, Err(OneWireError::DeviceNotPresent(PresenceCheck::BeforeConversion)));
    assert!(!result.unwrap_err().is_transport_error());
    assert_eq!(bus.actions.len(), 6);
}

#[test]
fn read_temperature_of_a_device_lost_during_conversion_is_device_not_present() {
    let rom = rom_with_serial([1, 2, 3, 4, 5, 6]);
    let mut bus = SimBus::new(vec![device(rom)]);
    bus.unplug_after_resets = Some(1);
    let result = read(&mut bus, &rom);
    assert_eq!(result, Err(OneWireError::DeviceNotPresent(PresenceCheck::AfterConversion)));
    assert_eq!(bus.resets, 2);
}

#[test]
fn read_temperature_with_a_corrupted_crc_is_an_integrity_error() {
    let rom = rom_with_serial([1, 2, 3, 4, 5, 6]);
    let mut corrupted = device(rom);
    corrupted.scratchpad[8] ^= 0x01;
    let mut bus = SimBus::new(vec![corrupted]);
    assert_eq!(read(&mut bus, &rom), Err(OneWireError::IntegrityError));
}

#[test]
fn read_temperature_of_an_absent_code_is_an_integrity_error() {
    // Another device answers the reset, none the selection: the scratchpad
    // reads as all ones, and its CRC fails.
    let rom = rom_with_serial([1, 2, 3, 4, 5, 6]);
    let mut bus = SimBus::new(vec![device(rom_with_serial([6, 5, 4, 3, 2, 1]))]);
    assert_eq!(read(&mut bus, &rom), Err(OneWireError::IntegrityError));
}

#[test]
fn read_temperature_passes_a_transport_error_on_and_the_next_read_works() {
    let rom = rom_with_serial([1, 2, 3, 4, 5, 6]);
    let mut bus = SimBus::new(vec![device(rom)]);
    bus.fail_action = Some(9);
    let result = read(&mut bus, &rom);
    assert_eq!(result, Err(OneWireError::IoError(String::from("simulated failure"))));
    bus.fail_action = None;
    assert_eq!(read(&mut bus, &rom), Ok(Outcome::Temperature(Temperature { raw: 0x0191 })));
}

#[test]
fn discovery_takes_one_round_of_actions_for_each_device() {
    // A round: the six actions of the reset, a write and a read for the
    // command byte, and for each of the 64 bits a write and a read for the
    // two read slots and for the slot driven back.
    let round = 6 + 2 + 64 * (2 + 2);
    for count in 0..4usize {
        let firsts = [0b000u8, 0b001, 0b011, 0b111];
        let devices: Vec<Device> =
            firsts[..count].iter().map(|&f| device(rom_starting(f, f + 1))).collect();
        let mut bus = SimBus::new(devices);
        let mut adapter = OneWireAdapter::new();
        let first = adapter.discover_sensors();
        let found = match drive(&mut adapter, &mut bus, first) {
            Ok(Outcome::Sensors(found)) => found,
            other => panic!("search ended with {:?}", other),
        };
        assert_eq!(found.len(), count);
        assert_eq!(bus.actions.len(), if count == 0 { 6 } else { count * round });
    }
}

#[test]
fn discovery_is_the_same_for_every_chunk_size() {
    let roms = [rom_starting(0b00, 1), rom_starting(0b01, 2), rom_starting(0b11, 3)];
    for chunk in [1usize, 2, 3, 8, 16, 64] {
        let mut bus = SimBus::new(roms.iter().rev().map(|&r| device(r)).collect());
        let mut adapter = OneWireAdapter::with_chunk_size(chunk).unwrap();
        let first = adapter.discover_sensors();
        assert_eq!(drive(&mut adapter, &mut bus, first), Ok(Outcome::Sensors(roms.to_vec())));
    }
}

#[test]
fn read_temperature_is_the_same_for_every_chunk_size() {
    let rom = rom_with_serial([1, 2, 3, 4, 5, 6]);
    for chunk in [1usize, 3, 8, 9, 16] {
        let mut bus = SimBus::new(vec![device_reading(rom, 0xFF5E)]);
        let mut adapter = OneWireAdapter::with_chunk_size(chunk).unwrap();
        let first = adapter.read_temperature(&rom);
        assert_eq!(
            drive(&mut adapter, &mut bus, first),
            Ok(Outcome::Temperature(Temperature { raw: -162 }))
        );
    }
}
