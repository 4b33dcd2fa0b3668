use lcd_i2c::BusEvent;
use lcd_i2c::LcdError;
use lcd_i2c::LcdI2c;
use lcd_i2c::MockHal;

/// The writes in a log, as (address, data, acked) triples.
fn writes(events: &[BusEvent]) -> Vec<(u8, u8, bool)> {
    let mut out = Vec::new();
    for e in events {
        if let BusEvent::Write { addr, data, acked } = e {
            out.push((*addr, *data, *acked));
        }
    }
    out
}

/// The data bytes of the writes in a log.
fn write_bytes(events: &[BusEvent]) -> Vec<u8> {
    writes(events).iter().map(|w| w.1).collect()
}

/// Total busy-wait time in a log, in microseconds.
fn delay_sum(events: &[BusEvent]) -> u64 {
    let mut total: u64 = 0;
    for e in events {
        if let BusEvent::Delay { micros } = e {
            total += micros;
        }
    }
    total
}

/// A driver wired straight to an always-acknowledging mock, skipping
/// construction, for unit tests of single operations.
fn bench_driver() -> LcdI2c<MockHal> {
    LcdI2c { hal: MockHal::new(vec![0x27], vec![]), address: 0x27, backlight_state: 0x08 }
}

#[test]
fn scan_returns_sole_responder_at_each_position() {
    for (pos, &sole) in [0x27u8, 0x3F, 0x20, 0x38].iter().enumerate() {
        let mut mock = MockHal::new(vec![sole], vec![]);
        let found = LcdI2c::<MockHal>::scan(&mut mock);
        assert_eq!(found, Ok(sole));
        // Short-circuit: probing stops at the first acknowledge.
        assert_eq!(mock.events.len(), pos + 1);
    }
}

#[test]
fn scan_prefers_earlier_candidate() {
    let mut mock = MockHal::new(vec![0x38, 0x3F], vec![]);
    assert_eq!(LcdI2c::<MockHal>::scan(&mut mock), Ok(0x3F));
}

#[test]
fn scan_probes_all_candidates_in_order_when_none_responds() {
    let mut mock = MockHal::new(vec![], vec![]);
    assert_eq!(LcdI2c::<MockHal>::scan(&mut mock), Err(LcdError::DeviceNotFound));
    assert_eq!(
        writes(&mock.events),
        vec![(0x27, 0x00, false), (0x3F, 0x00, false), (0x20, 0x00, false), (0x38, 0x00, false)]
    );
}

#[test]
fn construction_succeeds_for_each_sole_responder() {
    for &sole in &[0x27u8, 0x3F, 0x20, 0x38] {
        let mock = MockHal::new(vec![sole], vec![]);
        let lcd = LcdI2c::new(mock).ok().expect("construction should succeed");
        assert_eq!(lcd.get_address(), sole);
    }
}

#[test]
fn construction_without_device_sends_only_the_four_probes() {
    let mock = MockHal::new(vec![], vec![]);
    match LcdI2c::new(mock) {
        Err((e, h)) => {
            assert_eq!(e, LcdError::DeviceNotFound);
            assert_eq!(h.events.len(), 4);
            assert_eq!(
                writes(&h.events),
                vec![
                    (0x27, 0x00, false),
                    (0x3F, 0x00, false),
                    (0x20, 0x00, false),
                    (0x38, 0x00, false)
                ]
            );
        },
        Ok(_) => panic!("construction should fail"),
    }
}

#[test]
fn command_splits_into_nibbles_with_backlight() {
    let mut lcd = bench_driver();
    lcd.send_command(0x53).unwrap();
    let w = writes(&lcd.hal.events);
    assert_eq!(w.len(), 6);
    // High nibble first: data bits are the command's top four bits.
    assert_eq!(w[0].1 & 0xF0, 0x50);
    // Low nibble second: the command's bottom four bits, shifted up.
    assert_eq!(w[3].1 & 0xF0, 0x30);
    // The backlight bit rides along in every byte of both transactions.
    for &(_, data, acked) in &w {
        assert_eq!(data & 0x08, 0x08);
        assert!(acked);
    }
    // Exact framing: present, enable high, enable low, for each nibble.
    assert_eq!(write_bytes(&lcd.hal.events), vec![0x58, 0x5C, 0x58, 0x38, 0x3C, 0x38]);
}

#[test]
fn data_sets_register_select_in_both_nibbles() {
    let mut lcd = bench_driver();
    lcd.send_data(0x41).unwrap();
    let w = writes(&lcd.hal.events);
    assert_eq!(w.len(), 6);
    for &(_, data, _) in &w {
        assert_eq!(data & 0x01, 0x01, "register-select must be set on data transactions");
        assert_eq!(data & 0x08, 0x08);
    }
    assert_eq!(w[0].1 & 0xF0, 0x40);
    assert_eq!(w[3].1 & 0xF0, 0x10);
}

#[test]
fn pulse_frames_enable_high_then_low() {
    let mut lcd = bench_driver();
    lcd.pulse_enable_raw(0x30).unwrap();
    assert_eq!(
        lcd.hal.events,
        vec![
            BusEvent::Write { addr: 0x27, data: 0x34, acked: true },
            BusEvent::Delay { micros: 2 },
            BusEvent::Write { addr: 0x27, data: 0x30, acked: true },
            BusEvent::Delay { micros: 100 },
        ]
    );
}

#[test]
fn set_cursor_computes_ddram_address() {
    // (col, row) -> DDRAM address col + (row == 0 ? 0x00 : 0x40).
    for (col, row, pos) in [(0u8, 0u8, 0x00u8), (15, 0, 0x0F), (0, 1, 0x40), (5, 1, 0x45)] {
        let mut lcd = bench_driver();
        lcd.set_cursor(col, row).unwrap();
        let w = writes(&lcd.hal.events);
        assert_eq!(w.len(), 6);
        let cmd = 0x80 | pos;
        assert_eq!(w[0].1, (cmd & 0xF0) | 0x08);
        assert_eq!(w[3].1, ((cmd << 4) & 0xF0) | 0x08);
    }
}

#[test]
fn set_cursor_out_of_range_is_a_silent_no_op() {
    let mut lcd = bench_driver();
    assert_eq!(lcd.set_cursor(16, 0), Ok(()));
    assert_eq!(lcd.set_cursor(0, 2), Ok(()));
    assert_eq!(lcd.set_cursor(255, 255), Ok(()));
    assert!(lcd.hal.events.is_empty(), "no bus transaction may be issued");
}

#[test]
fn clear_waits_at_least_ten_milliseconds() {
    let mut lcd = bench_driver();
    lcd.clear().unwrap();
    // Clear-display command followed by its slow trailing delay plus the
    // explicit extra settle delay.
    assert_eq!(write_bytes(&lcd.hal.events), vec![0x08, 0x0C, 0x08, 0x18, 0x1C, 0x18]);
    assert_eq!(delay_sum(&lcd.hal.events), 10204);
    assert!(delay_sum(&lcd.hal.events) >= 10000);
}

#[test]
fn construction_succeeds_when_confirm_fails_twice_then_succeeds() {
    // Probe is write 0. Preamble writes 1-2. First reset stage occupies
    // writes 3-15, so the first function-set write is 16; after that
    // aborted attempt the second reset stage is 17-29 and its
    // function-set write is 30. Failing exactly those two leaves the
    // third attempt to confirm.
    let mock = MockHal::new(vec![0x27], vec![16, 30]);
    let lcd = LcdI2c::new(mock).ok().expect("third confirmation attempt should succeed");
    assert_eq!(lcd.get_address(), 0x27);
}

#[test]
fn construction_fails_when_every_confirm_fails() {
    // Writes 16, 30 and 44 are the three function-set attempts of the
    // first initializer run; 45 and 46 are the first preamble writes of
    // the second and third runs, cutting them short immediately.
    let mock = MockHal::new(vec![0x27], vec![16, 30, 44, 45, 46]);
    match LcdI2c::new(mock) {
        Err((e, h)) => {
            assert_eq!(e, LcdError::InitializationFailed);
            assert_eq!(writes(&h.events).len(), 47);
        },
        Ok(_) => panic!("construction should fail"),
    }
}

#[test]
fn end_to_end_print_at_on_third_candidate() {
    // Only 0x20 acknowledges: the scan probes 0x27 and 0x3F first, then
    // settles on 0x20.
    let mock = MockHal::new(vec![0x20], vec![]);
    let mut lcd = LcdI2c::new(mock).ok().expect("construction should succeed");
    assert_eq!(lcd.get_address(), 0x20);
    lcd.hal.events.clear();
    lcd.print_at(0, 1, "OK").unwrap();
    // Set-DDRAM-address 0x40 (start of the second row), then the data
    // transactions for 'O' (0x4F) and 'K' (0x4B).
    assert_eq!(
        write_bytes(&lcd.hal.events),
        vec![
            0xC8, 0xCC, 0xC8, 0x08, 0x0C, 0x08, // command 0xC0: cursor to row 1, column 0
            0x49, 0x4D, 0x49, 0xF9, 0xFD, 0xF9, // data 0x4F: 'O'
            0x49, 0x4D, 0x49, 0xB9, 0xBD, 0xB9, // data 0x4B: 'K'
        ]
    );
    for (addr, _, acked) in writes(&lcd.hal.events) {
        assert_eq!(addr, 0x20);
        assert!(acked);
    }
}

#[test]
fn print_sends_one_data_transaction_per_byte() {
    let mut lcd = bench_driver();
    lcd.print("Hi").unwrap();
    let w = writes(&lcd.hal.events);
    assert_eq!(w.len(), 12);
    assert_eq!(w[0].1 & 0xF0, 0x40); // 'H' = 0x48, high nibble
    assert_eq!(w[3].1 & 0xF0, 0x80); // 'H' low nibble shifted up
    assert_eq!(w[6].1 & 0xF0, 0x60); // 'i' = 0x69, high nibble
    assert_eq!(w[9].1 & 0xF0, 0x90); // 'i' low nibble shifted up
}

#[test]
fn failed_write_surfaces_transfer_failed() {
    let mut lcd =
        LcdI2c { hal: MockHal::new(vec![], vec![]), address: 0x27, backlight_state: 0x08 };
    assert_eq!(lcd.send_data(0x41), Err(LcdError::TransferFailed));
    assert_eq!(lcd.print("x"), Err(LcdError::TransferFailed));
    assert_eq!(lcd.clear(), Err(LcdError::TransferFailed));
    // Each operation stopped at its first unacknowledged write.
    assert_eq!(writes(&lcd.hal.events).len(), 3);
    for (_, _, acked) in writes(&lcd.hal.events) {
        assert!(!acked);
    }
}

#[test]
fn test_display_runs_the_full_pattern() {
    let mut lcd = bench_driver();
    lcd.test_display().unwrap();
    // clear (12) + cursor (11) + 16 'A' (176) + cursor (11) + 16 'B'
    // (176) + hold (1) + clear (12) + two printed rows (11 + 176 each).
    assert_eq!(lcd.hal.events.len(), 773);
    let w = writes(&lcd.hal.events);
    // The first fill row presents 'A' (0x41): register-select set.
    assert_eq!(w[12].1, 0x49);
}

#[test]
fn get_address_reports_the_discovered_address() {
    let lcd = LcdI2c { hal: MockHal::new(vec![], vec![]), address: 0x3F, backlight_state: 0x08 };
    assert_eq!(lcd.get_address(), 0x3F);
}

#[test]
fn write_raw_sends_one_byte_to_the_device() {
    let mut lcd = bench_driver();
    lcd.write_raw(0xA5).unwrap();
    assert_eq!(lcd.hal.events, vec![BusEvent::Write { addr: 0x27, data: 0xA5, acked: true }]);
}

#[test]
fn backlight_test_toggles_the_backlight_bit() {
    let mut lcd = bench_driver();
    lcd.backlight_test().unwrap();
    assert_eq!(
        lcd.hal.events,
        vec![
            BusEvent::Write { addr: 0x27, data: 0x00, acked: true },
            BusEvent::Delay { micros: 100_000 },
            BusEvent::Write { addr: 0x27, data: 0x08, acked: true },
            BusEvent::Delay { micros: 100_000 },
        ]
    );
}
