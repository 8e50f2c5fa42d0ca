use co2_sensor::s8::{
    parse_response, read_co2, response_expired, s8_read, s8_uart_init, ReadFailure, ReadStep,
    UartCall, UartSetup, S8_READ_CO2,
};

fn modbus_crc(bytes: &[u8]) -> [u8; 2] {
    let mut crc: u16 = 0xFFFF;
    for b in bytes {
        crc ^= *b as u16;
        for _ in 0..8 {
            crc = if crc & 1 == 1 { (crc >> 1) ^ 0xA001 } else { crc >> 1 };
        }
    }
    crc.to_le_bytes()
}

#[test]
fn request_is_a_modbus_frame_for_input_register_3() {
    assert_eq!(S8_READ_CO2, [0xFE, 0x04, 0x00, 0x03, 0x00, 0x01, 0xD5, 0xC5]);
    assert_eq!(modbus_crc(&S8_READ_CO2[..6]), S8_READ_CO2[6..]);
}

#[test]
fn uart_is_9600_8n1_on_gpio5_and_gpio4() {
    let mut setup = s8_uart_init();
    assert_eq!(
        setup.call(),
        Some(UartCall::ParamConfig {
            port: 1,
            baud_rate: 9600,
            data_bits: 8,
            parity: false,
            stop_bits: 1,
            flow_control: false
        })
    );
    setup.resume(0);
    assert_eq!(
        setup.call(),
        Some(UartCall::SetPin { port: 1, tx: 5, rx: 4, rts: -1, cts: -1 })
    );
    setup.resume(0);
    assert_eq!(
        setup.call(),
        Some(UartCall::DriverInstall { port: 1, rx_buffer: 256, tx_buffer: 0, queue_size: 0 })
    );
    setup.resume(0);
    assert_eq!(setup, UartSetup::Ready);
    assert_eq!(setup.call(), None);
}

#[test]
fn first_failure_ends_the_uart_setup() {
    for fails_at in 0..3 {
        let mut setup = s8_uart_init();
        let mut calls = 0;
        while setup.call().is_some() {
            setup.resume(if calls == fails_at { 0x103 } else { 0 });
            calls += 1;
        }
        assert_eq!(calls, fails_at + 1);
        assert_eq!(setup, UartSetup::Failed(0x103));
        setup.resume(0);
        assert_eq!(setup, UartSetup::Failed(0x103));
    }
}

#[test]
fn driver_errors_count_as_no_bytes() {
    assert_eq!(s8_read(-1), 0);
    assert_eq!(s8_read(0), 0);
    assert_eq!(s8_read(7), 7);
}

#[test]
fn response_is_big_endian_and_needs_its_header() {
    assert_eq!(parse_response(&[0xFE, 4, 2, 0x01, 0x90, 0xAC, 0xD8]), Ok(400));
    assert_eq!(parse_response(&[0xFE, 4, 2, 0xFF, 0xFF, 0, 0]), Ok(65535));
    for bad in [[0xFF, 4, 2], [0xFE, 0x84, 2], [0xFE, 4, 1]] {
        let resp = [bad[0], bad[1], bad[2], 1, 0x90, 0, 0];
        assert_eq!(parse_response(&resp), Err(ReadFailure::BadHeader));
    }
}

#[test]
fn short_write_fails_the_read() {
    assert!(matches!(read_co2(7), Err(ReadFailure::WriteFailed)));
    assert!(matches!(read_co2(-1), Err(ReadFailure::WriteFailed)));
    assert!(read_co2(8).is_ok());
}

#[test]
fn response_may_come_in_pieces() {
    let mut read = read_co2(8).unwrap();
    assert_eq!(read.next(0), ReadStep::Receive { max: 7, timeout_ms: 100 });
    read.receive(&[0xFE, 0x04]);
    assert_eq!(read.next(0), ReadStep::Receive { max: 5, timeout_ms: 100 });
    read.receive(&[]);
    read.receive(&[0x02, 0x03, 0xE8, 0x00]);
    assert_eq!(read.next(0), ReadStep::Receive { max: 1, timeout_ms: 100 });
    read.receive(&[0x00, 0x77, 0x77]);
    assert_eq!(read.next(5000), ReadStep::Finished(Ok(1000)));
}

#[test]
fn incomplete_response_times_out() {
    let mut read = read_co2(8).unwrap();
    read.receive(&[0xFE, 0x04, 0x02]);
    assert_eq!(read.next(1000), ReadStep::Receive { max: 4, timeout_ms: 100 });
    assert_eq!(
        read.next(1001),
        ReadStep::Finished(Err(ReadFailure::Timeout { received: 3 }))
    );
}

#[test]
fn response_has_a_second() {
    assert!(!response_expired(0));
    assert!(!response_expired(1000));
    assert!(response_expired(1001));
}

#[test]
fn foreign_response_is_rejected() {
    let mut read = read_co2(8).unwrap();
    read.receive(&[0; 7]);
    assert_eq!(read.next(0), ReadStep::Finished(Err(ReadFailure::BadHeader)));
}
