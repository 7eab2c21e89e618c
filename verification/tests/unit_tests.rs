use digitemp::bits::{bits_to_byte, byte_to_bits, decode_bits, encode_bits};
use digitemp::crc::{calculate_crc8, validate_crc, CRC_TABLE};
use digitemp::link::{ResetOp, ResetStage, ResetStep, TouchOp, TouchStep};
use digitemp::protocol::{
    read_primitive, temperature_step, write_primitive, Job, JobStep, Outcome, Primitive, Response,
    SearchPhase,
};
use digitemp::search::{DiscoveryState, SearchRound};
use digitemp::temperature::{decode_register, decode_scratchpad, Temperature};
use digitemp::timestamp::format_timestamp;
use digitemp::transport::{
    expect_data, expect_done, port_settings, Action, OneWireError, Parity, PortSettings,
    PresenceCheck, Reply,
};

fn touch_result(step: TouchStep) -> Option<Result<Vec<u8>, OneWireError>> {
    match step {
        TouchStep::Complete(result) => Some(result),
        TouchStep::Perform(..) => None,
    }
}

fn job_result(step: JobStep) -> Option<Result<Outcome, OneWireError>> {
    match step {
        JobStep::Finish(result) => Some(result),
        JobStep::Issue(..) => None,
    }
}

fn shift_register(data: &[u8]) -> u8 {
    let mut crc = 0u8;
    for &byte in data {
        crc ^= byte;
        for _ in 0..8 {
            crc = if crc & 1 == 1 { (crc >> 1) ^ 0x8C } else { crc >> 1 };
        }
    }
    crc
}

#[test]
fn crc_table_is_the_shift_register() {
    for value in 0..=255u8 {
        assert_eq!(CRC_TABLE[value as usize], shift_register(&[value]));
        assert_eq!(calculate_crc8(&[value]), CRC_TABLE[value as usize]);
    }
}

#[test]
fn crc_of_a_known_sequence() {
    // The example ROM code of the Maxim application note on the CRC.
    assert_eq!(calculate_crc8(&[0x02, 0x1C, 0xB8, 0x01, 0x00, 0x00, 0x00]), 0xA2);
    assert!(validate_crc(&[0x02, 0x1C, 0xB8, 0x01, 0x00, 0x00, 0x00, 0xA2]));
    assert_eq!(calculate_crc8(b"123456789"), 0xA1);
}

#[test]
fn crc_round_trip_for_rom_and_scratchpad_payloads() {
    for seed in 0..200u32 {
        for len in [7usize, 8] {
            let mut data: Vec<u8> =
                (0..len as u32).map(|i| (seed.wrapping_mul(2654435761).rotate_left(i) >> 5) as u8).collect();
            let crc = calculate_crc8(&data);
            assert_eq!(crc, shift_register(&data));
            data.push(crc);
            assert_eq!(calculate_crc8(&data), 0);
            assert!(validate_crc(&data));
        }
    }
}

#[test]
fn crc_detects_every_change_of_a_single_byte() {
    let mut data = vec![0x28u8, 0x4B, 0x46, 0x7F, 0xFF, 0x0C, 0x10, 0x91];
    data.push(calculate_crc8(&data));
    for index in 0..data.len() {
        for value in 0..=255u8 {
            if value != data[index] {
                let mut altered = data.clone();
                altered[index] = value;
                assert!(!validate_crc(&altered));
            }
        }
    }
}

#[test]
fn crc_of_all_zeros_validates() {
    assert!(validate_crc(&[0u8; 8]));
    assert!(!validate_crc(&[0xFFu8; 9]));
}

#[test]
fn bits_encode_as_whole_bytes() {
    assert_eq!(encode_bits(&[1, 0, 0, 7, 0], 1, 4), vec![0x00, 0x00, 0xFF]);
    assert_eq!(encode_bits(&[1, 0], 2, 2), Vec::<u8>::new());
}

#[test]
fn bits_decode_from_the_low_bit() {
    let mut bits = vec![9u8];
    decode_bits(&[0xFF, 0x00, 0xFE, 0x01], &mut bits);
    assert_eq!(bits, vec![9, 1, 0, 0, 1]);
}

#[test]
fn bytes_split_and_reassemble() {
    assert_eq!(byte_to_bits(0xF0), vec![0, 0, 0, 0, 1, 1, 1, 1]);
    assert_eq!(byte_to_bits(0x01), vec![1, 0, 0, 0, 0, 0, 0, 0]);
    assert_eq!(bits_to_byte(&[0, 0, 0, 0, 0, 0, 0, 1]), 0x80);
    assert_eq!(bits_to_byte(&[1, 0, 0, 0, 0, 0, 0, 0]), 0x01);
    for byte in 0..=255u8 {
        assert_eq!(bits_to_byte(&byte_to_bits(byte)), byte);
    }
}

#[test]
fn temperature_register_decodes_as_twos_complement() {
    assert_eq!(decode_register(0x91, 0x01), 401);
    assert_eq!(decode_register(0xFF, 0xFF), -1);
    assert_eq!(decode_register(0x00, 0x00), 0);
    assert_eq!(decode_register(0x00, 0x80), i16::MIN);
    assert_eq!(decode_register(0xFF, 0x7F), i16::MAX);
    for (low, high) in [(0x12u8, 0x34u8), (0xFE, 0xDC), (0x00, 0x80), (0xFF, 0x7F)] {
        assert_eq!(decode_register(low, high), i16::from_le_bytes([low, high]));
    }
}

#[test]
fn temperature_scales_by_a_sixteenth() {
    assert_eq!(Temperature { raw: 401 }.sixteenths() as f32 * 0.0625, 25.0625);
    assert_eq!(Temperature { raw: -1 }.sixteenths() as f32 * 0.0625, -0.0625);
    assert_eq!(Temperature { raw: 0 }.sixteenths() as f32 * 0.0625, 0.0);
    assert_eq!(Temperature { raw: 401 }.ten_thousandths(), 250_625);
    assert_eq!(Temperature { raw: -1 }.ten_thousandths(), -625);
    assert_eq!(Temperature { raw: i16::MIN }.ten_thousandths(), -20_480_000);
}

#[test]
fn scratchpad_decodes_only_when_its_crc_checks() {
    let mut pad = [0x91u8, 0x01, 0x4B, 0x46, 0x7F, 0xFF, 0x0F, 0x10, 0];
    pad[8] = calculate_crc8(&pad[..8]);
    assert_eq!(decode_scratchpad(&pad), Ok(Temperature { raw: 401 }));
    pad[3] ^= 0x10;
    assert_eq!(decode_scratchpad(&pad), Err(OneWireError::IntegrityError));
}

#[test]
fn timestamp_shows_the_time_of_day() {
    assert_eq!(format_timestamp(0), "Oct 23 00:00:00");
    assert_eq!(format_timestamp(86_399), "Oct 23 23:59:59");
    assert_eq!(format_timestamp(1_700_000_000), "Oct 23 22:13:20");
    assert_eq!(format_timestamp(3_661), "Oct 23 01:01:01");
    assert_eq!(format_timestamp(u64::MAX), "Oct 23 07:00:15");
}

#[test]
fn replies_are_read_against_what_was_asked() {
    assert_eq!(expect_done(Reply::Done), Ok(()));
    assert_eq!(expect_done(Reply::Data(vec![1])), Err(OneWireError::ShortRead));
    assert_eq!(
        expect_done(Reply::SerialError(String::from("a"))),
        Err(OneWireError::SerialError(String::from("a")))
    );
    assert_eq!(expect_data(Reply::Data(vec![1, 2]), 2), Ok(vec![1, 2]));
    assert_eq!(expect_data(Reply::Data(vec![1, 2]), 3), Err(OneWireError::ShortRead));
    assert_eq!(expect_data(Reply::Done, 0), Err(OneWireError::ShortRead));
    assert_eq!(
        expect_data(Reply::IoError(String::from("b")), 1),
        Err(OneWireError::IoError(String::from("b")))
    );
}

#[test]
fn reset_machine_reports_presence_from_the_echo() {
    for (echo, present) in [(0xE0u8, true), (0xF0, false), (0x00, false), (0x10, true), (0xFF, true)] {
        let (mut op, first) = ResetOp::begin();
        assert_eq!(first, Action::ClearBuffers);
        assert_eq!(op.stage, ResetStage::Clearing);
        let mut seen = Vec::new();
        let replies = vec![Reply::Done, Reply::Done, Reply::Done, Reply::Done, Reply::Data(vec![echo]), Reply::Done];
        let mut result = None;
        for reply in replies {
            match op.feed(reply) {
                ResetStep::Perform(next, action) => {
                    seen.push(next.stage);
                    assert!(!matches!(action, Action::ClearBuffers));
                    op = next;
                }
                ResetStep::Complete(outcome) => {
                    result = Some(outcome);
                    break;
                }
            }
        }
        assert_eq!(
            seen,
            vec![
                ResetStage::Lowering,
                ResetStage::Pulsing,
                ResetStage::Settling,
                ResetStage::Sampling,
                ResetStage::Restoring
            ]
        );
        assert_eq!(result, Some(Ok(present)));
    }
}

#[test]
fn touch_machine_splits_into_bursts() {
    let bits = vec![1u8, 0, 1, 1, 0];
    let mut step = TouchOp::begin(bits, 2);
    let mut writes = Vec::new();
    let result = loop {
        match step {
            TouchStep::Perform(op, Action::Write(bytes)) => {
                writes.push(bytes);
                step = op.feed(Reply::Done);
            }
            TouchStep::Perform(op, Action::ReadExact(count)) => {
                step = op.feed(Reply::Data(vec![0x01; count]));
            }
            TouchStep::Perform(_, other) => panic!("unexpected action {:?}", other),
            TouchStep::Complete(result) => break result,
        }
    };
    assert_eq!(writes, vec![vec![0xFF, 0x00], vec![0xFF, 0xFF], vec![0x00]]);
    assert_eq!(result, Ok(vec![1, 1, 1, 1, 1]));
}

#[test]
fn touch_machine_refuses_a_short_burst() {
    match TouchOp::begin(vec![1, 1, 1], 16) {
        TouchStep::Perform(op, _) => match op.feed(Reply::Done) {
            TouchStep::Perform(op, Action::ReadExact(3)) => {
                assert_eq!(
                    touch_result(op.feed(Reply::Data(vec![0xFF, 0xFF]))),
                    Some(Err(OneWireError::ShortRead))
                );
            }
            other => panic!("unexpected step {:?}", touch_result(other)),
        },
        TouchStep::Complete(_) => panic!("nothing exchanged"),
    }
}

#[test]
fn search_round_follows_the_bus_or_the_path_before() {
    let last_rom = [0b0000_0101u8, 0, 0, 0, 0, 0, 0, 0];
    let mut round = SearchRound::new();
    // Bit 0: all devices agree on "1".
    assert_eq!(round.decide(1, 0, 3, &last_rom), Some(1));
    // Bit 1: a disagreement below the branch to turn at: the old path, "0".
    assert_eq!(round.decide(0, 0, 3, &last_rom), Some(0));
    // Bit 2: the branch to turn at: "1".
    assert_eq!(round.decide(0, 0, 3, &last_rom), Some(1));
    // Bit 3: a disagreement further up: "0", and the branch goes on record.
    assert_eq!(round.decide(0, 0, 3, &last_rom), Some(0));
    // Bit 4: all devices agree on "0".
    assert_eq!(round.decide(0, 1, 3, &last_rom), Some(0));
    assert_eq!(round, SearchRound { decided: 5, rom: [0b0000_0101, 0, 0, 0, 0, 0, 0, 0], marker: 4 });
    // Bit 5: nobody answers.
    assert_eq!(round.decide(1, 1, 3, &last_rom), None);
    assert_eq!(round.decided, 5);
}

#[test]
fn search_round_sets_bits_across_bytes() {
    let last_rom = [0u8; 8];
    let mut round = SearchRound::new();
    for index in 0..64u32 {
        let bit = (index % 3 == 0) as u8;
        assert_eq!(round.decide(bit, 1 - bit, 0, &last_rom), Some(bit));
    }
    assert_eq!(round.decided, 64);
    assert_eq!(round.marker, 0);
    let mut expected = [0u8; 8];
    for index in (0..64usize).step_by(3) {
        expected[index / 8] |= 1 << (index % 8);
    }
    assert_eq!(round.rom, expected);
}

#[test]
fn discovery_state_keeps_only_complete_checked_codes() {
    let mut rom = [0x28u8, 1, 2, 3, 4, 5, 6, 0];
    rom[7] = calculate_crc8(&rom[..7]);
    let mut state = DiscoveryState::new();
    assert!(state.finish_round(SearchRound { decided: 64, rom, marker: 9 }));
    assert_eq!(state.sensors, vec![rom]);
    assert_eq!(state.last_rom, rom);
    assert_eq!(state.last_discrepancy, 9);
    let mut bad = rom;
    bad[2] ^= 1;
    assert!(state.finish_round(SearchRound { decided: 64, rom: bad, marker: 12 }));
    assert_eq!(state.sensors, vec![rom]);
    assert_eq!(state.last_rom, rom);
    // An abandoned round holds no code, even where its bits would check.
    assert!(!state.finish_round(SearchRound { decided: 3, rom: [0; 8], marker: 0 }));
    assert_eq!(state.sensors, vec![rom]);
    assert_eq!(state.last_discrepancy, 0);
}

#[test]
fn temperature_sequence_is_reset_select_convert_wait_reset_select_read() {
    let rom = [0x28u8, 1, 2, 3, 4, 5, 6, 7];
    assert_eq!(temperature_step(&rom, 0), Primitive::Reset);
    assert_eq!(temperature_step(&rom, 1), write_primitive(0x55));
    for i in 0..8u8 {
        assert_eq!(temperature_step(&rom, 2 + i), write_primitive(rom[i as usize]));
        assert_eq!(temperature_step(&rom, 14 + i), write_primitive(rom[i as usize]));
    }
    assert_eq!(temperature_step(&rom, 10), write_primitive(0x44));
    assert_eq!(temperature_step(&rom, 11), Primitive::Delay(750));
    assert_eq!(temperature_step(&rom, 12), Primitive::Reset);
    assert_eq!(temperature_step(&rom, 13), write_primitive(0x55));
    assert_eq!(temperature_step(&rom, 22), write_primitive(0xBE));
    for index in 23..=31u8 {
        assert_eq!(temperature_step(&rom, index), read_primitive());
    }
    assert_eq!(read_primitive(), Primitive::Touch(vec![1; 8]));
}

#[test]
fn job_ends_on_a_response_of_the_wrong_kind() {
    assert_eq!(job_result(Job::Reset.advance(Ok(Response::Elapsed))), Some(Err(OneWireError::ShortRead)));
    assert_eq!(job_result(Job::ReadByte.advance(Ok(Response::Bits(vec![1; 7])))), Some(Err(OneWireError::ShortRead)));
    assert_eq!(job_result(Job::ReadByte.advance(Ok(Response::Bits(vec![1; 8])))), Some(Ok(Outcome::Byte(0xFF))));
    let search = Job::Search {
        state: DiscoveryState::new(),
        round: SearchRound::new(),
        phase: SearchPhase::Reading,
    };
    assert_eq!(job_result(search.advance(Ok(Response::Bits(vec![1])))), Some(Err(OneWireError::ShortRead)));
    assert_eq!(
        job_result(Job::WriteByte.advance(Err(OneWireError::IntegrityError))),
        Some(Err(OneWireError::IntegrityError))
    );
}

#[test]
fn select_job_writes_nine_bytes() {
    let rom = [9u8, 8, 7, 6, 5, 4, 3, 2];
    let mut job = Job::Select { rom, index: 0 };
    for i in 0..8usize {
        match job.advance(Ok(Response::Bits(vec![0; 8]))) {
            JobStep::Issue(next, primitive) => {
                assert_eq!(primitive, write_primitive(rom[i]));
                job = next;
            }
            JobStep::Finish(result) => panic!("ended early with {:?}", result),
        }
    }
    assert_eq!(job_result(job.advance(Ok(Response::Bits(vec![0; 8])))), Some(Ok(Outcome::Selected)));
}

#[test]
fn port_is_opened_at_the_data_rate_with_eight_data_bits() {
    assert_eq!(
        port_settings(),
        PortSettings {
            baud_rate: 115200,
            data_bits: 8,
            parity: Parity::Off,
            stop_bits: 1,
            timeout_secs: 5,
        }
    );
}

#[test]
fn errors_describe_themselves() {
    assert_eq!(OneWireError::SerialError(String::from("no such port")).message(), "Serial error: no such port");
    assert_eq!(OneWireError::IoError(String::from("timed out")).message(), "IO error: timed out");
    assert_eq!(OneWireError::ShortRead.message(), "IO error: short read");
    assert_eq!(
        OneWireError::DeviceNotPresent(PresenceCheck::BeforeConversion).message(),
        "No device present on bus"
    );
    assert_eq!(
        OneWireError::DeviceNotPresent(PresenceCheck::AfterConversion).message(),
        "Device lost during conversion"
    );
    assert_eq!(OneWireError::IntegrityError.message(), "CRC validation failed");
    assert!(OneWireError::ShortRead.is_transport_error());
    assert!(!OneWireError::IntegrityError.is_transport_error());
}
