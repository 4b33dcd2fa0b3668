//! The LCD driver proper: address discovery, the cold-start
//! initialization state machine, the nibble-splitting encoder with
//! enable-pulse framing, and the bounds-checked text API. Every
//! operation's contract gives the exact bus trace it appends.
use vstd::prelude::*;
use vstd::string::StringSliceAdditionalSpecFns;

use crate::hal::Hal;
use crate::hal::LcdError;
use crate::protocol::BusEvent;
use crate::protocol::EN;
use crate::protocol::EN_CLEAR;
use crate::protocol::RS;
use crate::protocol::BACKLIGHT;
use crate::protocol::LCD_CLEARDISPLAY;
use crate::protocol::LCD_DISPLAYCONTROL;
use crate::protocol::LCD_DISPLAYON;
use crate::protocol::LCD_DISPLAYOFF;
use crate::protocol::LCD_CURSOROFF;
use crate::protocol::LCD_BLINKOFF;
use crate::protocol::LCD_ENTRYMODESET;
use crate::protocol::LCD_ENTRYLEFT;
use crate::protocol::LCD_ENTRYSHIFTDECREMENT;
use crate::protocol::LCD_FUNCTIONSET;
use crate::protocol::LCD_4BITMODE;
use crate::protocol::LCD_2LINE;
use crate::protocol::LCD_5X8DOTS;
use crate::protocol::LCD_RETURNHOME;
use crate::protocol::delay_ev;
use crate::protocol::write_ev;
use crate::protocol::op_trace;
use crate::protocol::pulse_events;
use crate::protocol::nibble_events;
use crate::protocol::high_byte;
use crate::protocol::low_byte;
use crate::protocol::command_events;
use crate::protocol::command_trailing;
use crate::protocol::data_events;
use crate::protocol::set_cursor_events;
use crate::protocol::clear_events;
use crate::protocol::LCD_SETDDRAMADDR;
use crate::protocol::candidates;
use crate::protocol::failed_probes;
use crate::protocol::scan_trace;
use crate::protocol::backlight_events;
use crate::protocol::reset_nibble_events;
use crate::protocol::reset_stage_events;
use crate::protocol::function_set_cmd;
use crate::protocol::init_preamble;
use crate::protocol::init_tail_events;
use crate::protocol::failed_confirm_attempt;
use crate::protocol::failed_confirms;
use crate::protocol::init_trace;
use crate::protocol::init_success_trace;
use crate::protocol::init_fail_trace;
use crate::protocol::failed_init_attempt_block;
use crate::protocol::failed_init_attempts;
use crate::protocol::construct_ok_trace;
use crate::protocol::construct_fail_trace;
use crate::protocol::is_abort_of;
use crate::protocol::print_events;
use crate::protocol::print_at_events;
use crate::protocol::lemma_print_events_snoc;
use crate::protocol::lemma_print_events_append;
use crate::protocol::lemma_op_trace_step;
use crate::protocol::lemma_op_trace_abort_left;
use crate::protocol::lemma_push_is_trace;
use crate::protocol::lemma_failed_write_is_abort;

verus! {

/// Sixteen copies of one byte: a full row of a repeated character.
pub open spec fn row_fill_bytes(b: u8) -> Seq<u8> {
    Seq::new(16, |i: int| b)
}

/// The diagnostic pattern of `test_display`: clear, fill both rows with
/// repeated characters, hold the pattern, clear again, then print the
/// two fixed reference strings.
pub open spec fn test_pattern_events(addr: u8, bl: u8) -> Seq<BusEvent> {
    clear_events(addr, bl) + set_cursor_events(addr, bl, 0, 0) + print_events(
        addr,
        bl,
        row_fill_bytes(0x41),
    ) + set_cursor_events(addr, bl, 0, 1) + print_events(addr, bl, row_fill_bytes(0x42)) + seq![
        delay_ev(2000000),
    ] + clear_events(addr, bl) + print_at_events(
        addr,
        bl,
        0,
        0,
        "0123456789ABCDEF".spec_bytes(),
    ) + print_at_events(addr, bl, 0, 1, "Test Pattern OK!".spec_bytes())
}

/// A driver bound to one discovered expander address, owning its
/// transport for its whole lifetime.
pub struct LcdI2c<H: Hal> {
    /// The bus and timing source, exclusively owned.
    pub hal: H,
    /// The device address found by the scan; never changes afterwards.
    pub address: u8,
    /// The backlight control bit, OR-ed into every emitted byte.
    pub backlight_state: u8,
}

impl<H: Hal> LcdI2c<H> {
    /// The bus traffic this driver has produced.
    pub open spec fn log(&self) -> Seq<BusEvent> {
        self.hal.log()
    }

    /// The driver's configuration (address, backlight) is unchanged.
    pub open spec fn same_lcd(pre: Self, post: Self) -> bool {
        post.address == pre.address && post.backlight_state == pre.backlight_state
    }

    /// One operation ran between the two driver states: the
    /// configuration is unchanged and the log grew by `full`, or by its
    /// aborted prefix when the operation failed.
    pub open spec fn emits(pre: Self, post: Self, full: Seq<BusEvent>, ok: bool) -> bool {
        Self::same_lcd(pre, post) && op_trace(pre.log(), post.log(), full, ok)
    }

    /// Send one raw expander byte to the device address.
    pub fn write_raw(&mut self, data: u8) -> (r: Result<(), LcdError>)
        ensures
            Self::emits(*old(self), *final(self), seq![write_ev(old(self).address, data)], r is Ok),
            r is Err ==> r == Err::<(), LcdError>(LcdError::TransferFailed),
    {
        let acked = self.hal.bus_write(self.address, data);
        proof {
            if acked {
                lemma_push_is_trace(old(self).log(), write_ev(old(self).address, data));
            } else {
                lemma_failed_write_is_abort(old(self).log(), old(self).address, data);
            }
        }
        if acked {
            Ok(())
        } else {
            Err(LcdError::TransferFailed)
        }
    }

    /// Busy-wait for `micros` microseconds, through the timing source.
    fn delay_us(&mut self, micros: u64)
        ensures
            Self::emits(*old(self), *final(self), seq![delay_ev(micros)], true),
    {
        self.hal.delay_us(micros);
        proof {
            lemma_push_is_trace(old(self).log(), delay_ev(micros));
        }
    }

    /// Busy-wait for `ms` milliseconds.
    fn delay_ms(&mut self, ms: u64)
        requires
            ms <= 10_000_000,
        ensures
            Self::emits(*old(self), *final(self), seq![delay_ev((ms * 1000) as u64)], true),
    {
        self.delay_us(ms * 1000);
    }

    /// Latch the nibble currently presented in `data`: write it with the
    /// enable bit high, hold the minimum pulse width, write it with the
    /// enable bit low again, then let the controller settle.
    pub fn pulse_enable_raw(&mut self, data: u8) -> (r: Result<(), LcdError>)
        ensures
            Self::emits(*old(self), *final(self), pulse_events(old(self).address, data), r is Ok),
            r is Err ==> r == Err::<(), LcdError>(LcdError::TransferFailed),
    {
        let ghost pre = *old(self);
        let ghost a = pre.address;
        let ghost w1 = seq![write_ev(a, data | EN)];
        let ghost w2 = seq![write_ev(a, data & EN_CLEAR)];
        let ghost d1 = seq![delay_ev(2u64)];
        let ghost d2 = seq![delay_ev(100u64)];
        match self.write_raw(data | EN) {
            Ok(()) => {},
            Err(e) => {
                proof {
                    lemma_op_trace_abort_left(pre.log(), self.log(), w1, d1 + w2 + d2);
                    assert(w1 + (d1 + w2 + d2) =~= pulse_events(a, data));
                }
                return Err(e);
            },
        }
        let ghost l1 = self.log();
        self.delay_us(2);
        proof {
            lemma_op_trace_step(pre.log(), l1, self.log(), w1, d1, true);
        }
        let ghost l2 = self.log();
        match self.write_raw(data & EN_CLEAR) {
            Ok(()) => {
                proof {
                    lemma_op_trace_step(pre.log(), l2, self.log(), w1 + d1, w2, true);
                }
            },
            Err(e) => {
                proof {
                    lemma_op_trace_step(pre.log(), l2, self.log(), w1 + d1, w2, false);
                    lemma_op_trace_abort_left(pre.log(), self.log(), (w1 + d1) + w2, d2);
                    assert(((w1 + d1) + w2) + d2 =~= pulse_events(a, data));
                }
                return Err(e);
            },
        }
        let ghost l3 = self.log();
        self.delay_us(100);
        proof {
            lemma_op_trace_step(pre.log(), l3, self.log(), (w1 + d1) + w2, d2, true);
            assert(((w1 + d1) + w2) + d2 =~= pulse_events(a, data));
        }
        Ok(())
    }

    /// Split `b` into two nibble transactions, high nibble first, with
    /// the control `flags` OR-ed into both expander bytes.
    fn send_byte(&mut self, b: u8, flags: u8) -> (r: Result<(), LcdError>)
        ensures
            Self::emits(
                *old(self),
                *final(self),
                nibble_events(old(self).address, high_byte(b, flags))
                    + nibble_events(old(self).address, low_byte(b, flags)),
                r is Ok,
            ),
            r is Err ==> r == Err::<(), LcdError>(LcdError::TransferFailed),
    {
        let ghost pre = *old(self);
        let ghost a = pre.address;
        let ghost nh = nibble_events(a, high_byte(b, flags));
        let ghost nl = nibble_events(a, low_byte(b, flags));
        let high = (b & 0xF0) | flags;
        let ghost wh = seq![write_ev(a, high)];
        match self.write_raw(high) {
            Ok(()) => {},
            Err(e) => {
                proof {
                    lemma_op_trace_abort_left(pre.log(), self.log(), wh, pulse_events(a, high) + nl);
                    assert(wh + (pulse_events(a, high) + nl) =~= nh + nl);
                }
                return Err(e);
            },
        }
        let ghost l1 = self.log();
        match self.pulse_enable_raw(high) {
            Ok(()) => {
                proof {
                    lemma_op_trace_step(pre.log(), l1, self.log(), wh, pulse_events(a, high), true);
                }
            },
            Err(e) => {
                proof {
                    lemma_op_trace_step(pre.log(), l1, self.log(), wh, pulse_events(a, high), false);
                    lemma_op_trace_abort_left(pre.log(), self.log(), wh + pulse_events(a, high), nl);
                    assert((wh + pulse_events(a, high)) + nl =~= nh + nl);
                }
                return Err(e);
            },
        }
        let low = ((b << 4) & 0xF0) | flags;
        let ghost wl = seq![write_ev(a, low)];
        let ghost l2 = self.log();
        match self.write_raw(low) {
            Ok(()) => {
                proof {
                    lemma_op_trace_step(pre.log(), l2, self.log(), nh, wl, true);
                }
            },
            Err(e) => {
                proof {
                    lemma_op_trace_step(pre.log(), l2, self.log(), nh, wl, false);
                    lemma_op_trace_abort_left(pre.log(), self.log(), nh + wl, pulse_events(a, low));
                    assert((nh + wl) + pulse_events(a, low) =~= nh + nl);
                }
                return Err(e);
            },
        }
        let ghost l3 = self.log();
        match self.pulse_enable_raw(low) {
            Ok(()) => {
                proof {
                    lemma_op_trace_step(pre.log(), l3, self.log(), nh + wl, pulse_events(a, low), true);
                    assert((nh + wl) + pulse_events(a, low) =~= nh + nl);
                }
                Ok(())
            },
            Err(e) => {
                proof {
                    lemma_op_trace_step(pre.log(), l3, self.log(), nh + wl, pulse_events(a, low), false);
                    assert((nh + wl) + pulse_events(a, low) =~= nh + nl);
                }
                Err(e)
            },
        }
    }

    /// Send a command byte: both nibbles with the backlight bit, then the
    /// command's trailing execution delay (slow for clear-display and
    /// return-home, short for everything else).
    pub fn send_command(&mut self, cmd: u8) -> (r: Result<(), LcdError>)
        ensures
            Self::emits(
                *old(self),
                *final(self),
                command_events(old(self).address, old(self).backlight_state, cmd),
                r is Ok,
            ),
            r is Err ==> r == Err::<(), LcdError>(LcdError::TransferFailed),
    {
        let ghost pre = *old(self);
        let ghost a = pre.address;
        let ghost bl = pre.backlight_state;
        let ghost body = nibble_events(a, high_byte(cmd, bl)) + nibble_events(a, low_byte(cmd, bl));
        match self.send_byte(cmd, self.backlight_state) {
            Ok(()) => {},
            Err(e) => {
                proof {
                    lemma_op_trace_abort_left(
                        pre.log(),
                        self.log(),
                        body,
                        seq![delay_ev(command_trailing(cmd))],
                    );
                }
                return Err(e);
            },
        }
        let ghost l1 = self.log();
        if cmd == LCD_CLEARDISPLAY || cmd == LCD_RETURNHOME {
            self.delay_ms(5);
        } else {
            self.delay_us(200);
        }
        proof {
            lemma_op_trace_step(
                pre.log(),
                l1,
                self.log(),
                body,
                seq![delay_ev(command_trailing(cmd))],
                true,
            );
        }
        Ok(())
    }

    /// Send one character-data byte: both nibbles with the backlight and
    /// register-select bits, then the short settle delay.
    pub fn send_data(&mut self, data: u8) -> (r: Result<(), LcdError>)
        ensures
            Self::emits(
                *old(self),
                *final(self),
                data_events(old(self).address, old(self).backlight_state, data),
                r is Ok,
            ),
            r is Err ==> r == Err::<(), LcdError>(LcdError::TransferFailed),
    {
        let ghost pre = *old(self);
        let ghost a = pre.address;
        let ghost flags = pre.backlight_state | RS;
        let ghost body = nibble_events(a, high_byte(data, flags))
            + nibble_events(a, low_byte(data, flags));
        let fl = self.backlight_state | RS;
        match self.send_byte(data, fl) {
            Ok(()) => {},
            Err(e) => {
                proof {
                    lemma_op_trace_abort_left(pre.log(), self.log(), body, seq![delay_ev(200u64)]);
                }
                return Err(e);
            },
        }
        let ghost l1 = self.log();
        self.delay_us(200);
        proof {
            lemma_op_trace_step(pre.log(), l1, self.log(), body, seq![delay_ev(200u64)], true);
        }
        Ok(())
    }

    /// Clear the whole display. Beyond the command's own slow trailing
    /// delay this waits once more: a defensive margin kept on purpose.
    pub fn clear(&mut self) -> (r: Result<(), LcdError>)
        ensures
            Self::emits(
                *old(self),
                *final(self),
                clear_events(old(self).address, old(self).backlight_state),
                r is Ok,
            ),
            r is Err ==> r == Err::<(), LcdError>(LcdError::TransferFailed),
    {
        let ghost pre = *old(self);
        let ghost cmd = command_events(pre.address, pre.backlight_state, LCD_CLEARDISPLAY);
        match self.send_command(LCD_CLEARDISPLAY) {
            Ok(()) => {},
            Err(e) => {
                proof {
                    lemma_op_trace_abort_left(pre.log(), self.log(), cmd, seq![delay_ev(5000u64)]);
                }
                return Err(e);
            },
        }
        let ghost l1 = self.log();
        self.delay_ms(5);
        proof {
            lemma_op_trace_step(pre.log(), l1, self.log(), cmd, seq![delay_ev(5000u64)], true);
        }
        Ok(())
    }

    /// Move the cursor to `(col, row)`. Out-of-range positions are a
    /// silent no-op by design, not an error: callers may pass unchecked
    /// coordinates.
    pub fn set_cursor(&mut self, col: u8, row: u8) -> (r: Result<(), LcdError>)
        ensures
            col < 16 && row < 2 ==> Self::emits(
                *old(self),
                *final(self),
                set_cursor_events(old(self).address, old(self).backlight_state, col, row),
                r is Ok,
            ),
            !(col < 16 && row < 2) ==> *final(self) == *old(self) && r is Ok,
            r is Err ==> r == Err::<(), LcdError>(LcdError::TransferFailed),
    {
        if row < 2 && col < 16 {
            let row_offset: u8 = if row == 0 {
                0x00
            } else {
                0x40
            };
            let pos = col + row_offset;
            self.send_command(LCD_SETDDRAMADDR | pos)
        } else {
            Ok(())
        }
    }

    /// The candidate expander address at position `i` of the fixed
    /// probe order.
    fn candidate(i: usize) -> (r: u8)
        requires
            i < 4,
        ensures
            r == candidates()[i as int],
    {
        if i == 0 {
            0x27
        } else if i == 1 {
            0x3F
        } else if i == 2 {
            0x20
        } else {
            0x38
        }
    }

    /// Probe the four candidate addresses in order with a zero-effect
    /// write; the first one that acknowledges is the device.
    #[verifier::loop_isolation(false)]
    pub fn scan(hal: &mut H) -> (r: Result<u8, LcdError>)
        ensures
            exists|s: Seq<BusEvent>| final(hal).log() == old(hal).log() + s && scan_trace(s, r),
    {
        proof {
            assert(failed_probes(0) =~= Seq::<BusEvent>::empty());
            assert(hal.log() =~= hal.log() + failed_probes(0));
        }
        let mut i: usize = 0;
        while i < 4
            invariant
                i <= 4,
                hal.log() == old(hal).log() + failed_probes(i as int),
            decreases 4 - i,
        {
            let addr = Self::candidate(i);
            let acked = hal.bus_write(addr, 0x00);
            if acked {
                proof {
                    let s = failed_probes(i as int).push(
                        BusEvent::Write { addr: candidates()[i as int], data: 0x00, acked: true },
                    );
                    assert(hal.log() =~= old(hal).log() + s);
                    assert(scan_trace(s, Ok::<u8, LcdError>(addr)));
                }
                return Ok(addr);
            }
            proof {
                assert(failed_probes(i as int).push(
                    BusEvent::Write { addr: candidates()[i as int], data: 0x00, acked: false },
                ) =~= failed_probes(i as int + 1));
                assert(hal.log() =~= old(hal).log() + failed_probes(i as int + 1));
            }
            i += 1;
        }
        proof {
            assert(scan_trace(failed_probes(4), Err::<u8, LcdError>(LcdError::DeviceNotFound)));
        }
        Err(LcdError::DeviceNotFound)
    }

    /// The backlight liveness check: drop every control bit, settle,
    /// raise the backlight bit again, settle. A wiring check; transport
    /// errors are surfaced but nothing is read back.
    pub fn backlight_test(&mut self) -> (r: Result<(), LcdError>)
        ensures
            Self::emits(*old(self), *final(self), backlight_events(old(self).address), r is Ok),
            r is Err ==> r == Err::<(), LcdError>(LcdError::TransferFailed),
    {
        let ghost pre = *old(self);
        let ghost a = pre.address;
        let ghost w1 = seq![write_ev(a, 0x00u8)];
        let ghost w2 = seq![write_ev(a, BACKLIGHT)];
        let ghost d1 = seq![delay_ev(100000u64)];
        let ghost d2 = seq![delay_ev(100000u64)];
        match self.write_raw(0x00) {
            Ok(()) => {},
            Err(e) => {
                proof {
                    lemma_op_trace_abort_left(pre.log(), self.log(), w1, d1 + w2 + d2);
                    assert(w1 + (d1 + w2 + d2) =~= backlight_events(a));
                }
                return Err(e);
            },
        }
        let ghost l1 = self.log();
        self.delay_ms(100);
        proof {
            lemma_op_trace_step(pre.log(), l1, self.log(), w1, d1, true);
        }
        let ghost l2 = self.log();
        match self.write_raw(BACKLIGHT) {
            Ok(()) => {
                proof {
                    lemma_op_trace_step(pre.log(), l2, self.log(), w1 + d1, w2, true);
                }
            },
            Err(e) => {
                proof {
                    lemma_op_trace_step(pre.log(), l2, self.log(), w1 + d1, w2, false);
                    lemma_op_trace_abort_left(pre.log(), self.log(), (w1 + d1) + w2, d2);
                    assert(((w1 + d1) + w2) + d2 =~= backlight_events(a));
                }
                return Err(e);
            },
        }
        let ghost l3 = self.log();
        self.delay_ms(100);
        proof {
            lemma_op_trace_step(pre.log(), l3, self.log(), (w1 + d1) + w2, d2, true);
            assert(((w1 + d1) + w2) + d2 =~= backlight_events(a));
        }
        Ok(())
    }

    /// Present one reset nibble, latch it with an enable pulse, then
    /// hold the given settle time.
    fn reset_nibble(&mut self, nib: u8, ms: u64) -> (r: Result<(), LcdError>)
        requires
            ms <= 1000,
        ensures
            Self::emits(
                *old(self),
                *final(self),
                reset_nibble_events(old(self).address, nib, (ms * 1000) as u64),
                r is Ok,
            ),
            r is Err ==> r == Err::<(), LcdError>(LcdError::TransferFailed),
    {
        let ghost pre = *old(self);
        let ghost a = pre.address;
        let ghost w = seq![write_ev(a, nib)];
        let ghost d = seq![delay_ev((ms * 1000) as u64)];
        match self.write_raw(nib) {
            Ok(()) => {},
            Err(e) => {
                proof {
                    lemma_op_trace_abort_left(pre.log(), self.log(), w, pulse_events(a, nib) + d);
                    assert(w + (pulse_events(a, nib) + d) =~= reset_nibble_events(
                        a,
                        nib,
                        (ms * 1000) as u64,
                    ));
                }
                return Err(e);
            },
        }
        let ghost l1 = self.log();
        match self.pulse_enable_raw(nib) {
            Ok(()) => {
                proof {
                    lemma_op_trace_step(pre.log(), l1, self.log(), w, pulse_events(a, nib), true);
                }
            },
            Err(e) => {
                proof {
                    lemma_op_trace_step(pre.log(), l1, self.log(), w, pulse_events(a, nib), false);
                    lemma_op_trace_abort_left(pre.log(), self.log(), w + pulse_events(a, nib), d);
                }
                return Err(e);
            },
        }
        let ghost l2 = self.log();
        self.delay_ms(ms);
        proof {
            lemma_op_trace_step(pre.log(), l2, self.log(), w + pulse_events(a, nib), d, true);
        }
        Ok(())
    }

    /// One cold-reset stage: a zeroing write, three 8-bit-mode-select
    /// nibbles at decreasing delays (the controller's documented
    /// recovery handshake for an unknown power-on mode), then the
    /// 4-bit-mode-select nibble.
    fn reset_stage(&mut self) -> (r: Result<(), LcdError>)
        ensures
            Self::emits(*old(self), *final(self), reset_stage_events(old(self).address), r is Ok),
            r is Err ==> r == Err::<(), LcdError>(LcdError::TransferFailed),
    {
        let ghost pre = *old(self);
        let ghost a = pre.address;
        let ghost w0 = seq![write_ev(a, 0x00u8)];
        let ghost d0 = seq![delay_ev(10000u64)];
        let ghost r1 = reset_nibble_events(a, 0x30 | BACKLIGHT, 50000);
        let ghost r2 = reset_nibble_events(a, 0x30 | BACKLIGHT, 10000);
        let ghost r3 = reset_nibble_events(a, 0x30 | BACKLIGHT, 5000);
        let ghost r4 = reset_nibble_events(a, 0x20 | BACKLIGHT, 5000);
        match self.write_raw(0x00) {
            Ok(()) => {},
            Err(e) => {
                proof {
                    lemma_op_trace_abort_left(
                        pre.log(),
                        self.log(),
                        w0,
                        ((((d0 + r1) + r2) + r3) + r4),
                    );
                    assert(w0 + ((((d0 + r1) + r2) + r3) + r4) =~= reset_stage_events(a));
                }
                return Err(e);
            },
        }
        let ghost l1 = self.log();
        self.delay_ms(10);
        proof {
            lemma_op_trace_step(pre.log(), l1, self.log(), w0, d0, true);
        }
        let ghost l2 = self.log();
        match self.reset_nibble(0x30 | BACKLIGHT, 50) {
            Ok(()) => {
                proof {
                    lemma_op_trace_step(pre.log(), l2, self.log(), w0 + d0, r1, true);
                }
            },
            Err(e) => {
                proof {
                    lemma_op_trace_step(pre.log(), l2, self.log(), w0 + d0, r1, false);
                    lemma_op_trace_abort_left(
                        pre.log(),
                        self.log(),
                        (w0 + d0) + r1,
                        (r2 + r3) + r4,
                    );
                    assert(((w0 + d0) + r1) + ((r2 + r3) + r4) =~= reset_stage_events(a));
                }
                return Err(e);
            },
        }
        let ghost l3 = self.log();
        match self.reset_nibble(0x30 | BACKLIGHT, 10) {
            Ok(()) => {
                proof {
                    lemma_op_trace_step(pre.log(), l3, self.log(), (w0 + d0) + r1, r2, true);
                }
            },
            Err(e) => {
                proof {
                    lemma_op_trace_step(pre.log(), l3, self.log(), (w0 + d0) + r1, r2, false);
                    lemma_op_trace_abort_left(
                        pre.log(),
                        self.log(),
                        ((w0 + d0) + r1) + r2,
                        r3 + r4,
                    );
                    assert((((w0 + d0) + r1) + r2) + (r3 + r4) =~= reset_stage_events(a));
                }
                return Err(e);
            },
        }
        let ghost l4 = self.log();
        match self.reset_nibble(0x30 | BACKLIGHT, 5) {
            Ok(()) => {
                proof {
                    lemma_op_trace_step(pre.log(), l4, self.log(), ((w0 + d0) + r1) + r2, r3, true);
                }
            },
            Err(e) => {
                proof {
                    lemma_op_trace_step(
                        pre.log(),
                        l4,
                        self.log(),
                        ((w0 + d0) + r1) + r2,
                        r3,
                        false,
                    );
                    lemma_op_trace_abort_left(
                        pre.log(),
                        self.log(),
                        (((w0 + d0) + r1) + r2) + r3,
                        r4,
                    );
                    assert((((w0 + d0) + r1) + r2) + r3 + r4 =~= reset_stage_events(a));
                }
                return Err(e);
            },
        }
        let ghost l5 = self.log();
        match self.reset_nibble(0x20 | BACKLIGHT, 5) {
            Ok(()) => {
                proof {
                    lemma_op_trace_step(
                        pre.log(),
                        l5,
                        self.log(),
                        (((w0 + d0) + r1) + r2) + r3,
                        r4,
                        true,
                    );
                    assert((((w0 + d0) + r1) + r2) + r3 + r4 =~= reset_stage_events(a));
                }
                Ok(())
            },
            Err(e) => {
                proof {
                    lemma_op_trace_step(
                        pre.log(),
                        l5,
                        self.log(),
                        (((w0 + d0) + r1) + r2) + r3,
                        r4,
                        false,
                    );
                    assert((((w0 + d0) + r1) + r2) + r3 + r4 =~= reset_stage_events(a));
                }
                Err(e)
            },
        }
    }

    /// Bring the controller from its unknown power-on state into 4-bit,
    /// 2-line, known-font operating mode: settle, backlight check, then
    /// cold-reset stages until the function-set command confirms (at
    /// most three attempts, with growing backoff), then the mode
    /// commands. Raw write failures are surfaced at once; only the
    /// function-set confirmation is retried.
    #[verifier::loop_isolation(false)]
    #[verifier::rlimit(100)]
    #[verifier::spinoff_prover]
    pub fn init(&mut self) -> (r: Result<(), LcdError>)
        ensures
            Self::same_lcd(*old(self), *final(self)),
            exists|s: Seq<BusEvent>|
                final(self).log() == old(self).log() + s && init_trace(
                    s,
                    old(self).address,
                    old(self).backlight_state,
                    r is Ok,
                ),
            r is Err ==> r == Err::<(), LcdError>(LcdError::TransferFailed),
    {
        let ghost pre = *old(self);
        let ghost a = pre.address;
        let ghost bl = pre.backlight_state;
        self.delay_ms(200);
        let ghost l1 = self.log();
        match self.backlight_test() {
            Ok(()) => {
                proof {
                    lemma_op_trace_step(
                        pre.log(),
                        l1,
                        self.log(),
                        seq![delay_ev(200000u64)],
                        backlight_events(a),
                        true,
                    );
                }
            },
            Err(e) => {
                proof {
                    lemma_op_trace_step(
                        pre.log(),
                        l1,
                        self.log(),
                        seq![delay_ev(200000u64)],
                        backlight_events(a),
                        false,
                    );
                    let s = choose|s: Seq<BusEvent>|
                        is_abort_of(s, init_preamble(a)) && self.log() == pre.log() + s;
                    assert(init_fail_trace(s, a, bl));
                }
                return Err(e);
            },
        }
        proof {
            assert(self.log() =~= pre.log() + (init_preamble(a) + Seq::<BusEvent>::empty()));
        }
        let mut attempt: u64 = 1;
        let mut confirmed = false;
        let ghost mut f = Seq::<BusEvent>::empty();
        while !confirmed && attempt <= 3
            invariant
                1 <= attempt <= 4,
                Self::same_lcd(pre, *self),
                !confirmed ==> failed_confirms(f, a, bl, attempt as int - 1) && self.log()
                    == pre.log() + (init_preamble(a) + f),
                confirmed ==> (exists|n: int| 0 <= n <= 2 && failed_confirms(f, a, bl, n))
                    && self.log() == pre.log() + (((init_preamble(a) + f) + reset_stage_events(a))
                    + command_events(a, bl, function_set_cmd())),
            decreases 4 - attempt + (if confirmed {
                0int
            } else {
                1int
            }),
        {
            let ghost lb = self.log();
            match self.reset_stage() {
                Ok(()) => {},
                Err(e) => {
                    proof {
                        let t = choose|t: Seq<BusEvent>|
                            is_abort_of(t, reset_stage_events(a)) && self.log() == lb + t;
                        let s = (init_preamble(a) + f) + t;
                        assert(self.log() =~= pre.log() + s);
                        assert(init_fail_trace(s, a, bl));
                    }
                    return Err(e);
                },
            }
            let ghost lr = self.log();
            match self.send_command(LCD_FUNCTIONSET | LCD_4BITMODE | LCD_2LINE | LCD_5X8DOTS) {
                Ok(()) => {
                    proof {
                        assert(self.log() =~= pre.log() + (((init_preamble(a) + f)
                            + reset_stage_events(a)) + command_events(a, bl, function_set_cmd())));
                        assert(0 <= attempt as int - 1 <= 2 && failed_confirms(
                            f,
                            a,
                            bl,
                            attempt as int - 1,
                        ));
                    }
                    confirmed = true;
                },
                Err(_) => {
                    let ghost t = choose|t: Seq<BusEvent>|
                        is_abort_of(t, command_events(a, bl, function_set_cmd())) && self.log()
                            == lr + t;
                    self.delay_ms(100 * attempt);
                    proof {
                        let y = (reset_stage_events(a) + t) + seq![
                            delay_ev((100000 * attempt) as u64),
                        ];
                        assert((100 * attempt * 1000) as u64 == (100000 * attempt) as u64);
                        assert(failed_confirm_attempt(y, a, bl, attempt as int));
                        assert(self.log() =~= pre.log() + (init_preamble(a) + (f + y)));
                        let ghost fx = f;
                        f = f + y;
                        assert(f == fx + y && failed_confirms(fx, a, bl, attempt as int - 1));
                        assert(failed_confirms(f, a, bl, attempt as int));
                    }
                    attempt += 1;
                },
            }
        }
        if !confirmed {
            proof {
                assert(attempt == 4);
                assert(failed_confirms(f, a, bl, 3));
                let s = init_preamble(a) + f;
                assert(init_fail_trace(s, a, bl));
            }
            return Err(LcdError::TransferFailed);
        }
        let ghost n_conf = choose|n: int| 0 <= n <= 2 && failed_confirms(f, a, bl, n);
        let ghost base = ((init_preamble(a) + f) + reset_stage_events(a)) + command_events(
            a,
            bl,
            function_set_cmd(),
        );
        let ghost c1 = command_events(a, bl, LCD_DISPLAYCONTROL | LCD_DISPLAYOFF);
        let ghost c2 = command_events(a, bl, LCD_CLEARDISPLAY);
        let ghost dm = seq![delay_ev(10000u64)];
        let ghost c3 = command_events(a, bl, LCD_ENTRYMODESET | LCD_ENTRYLEFT
            | LCD_ENTRYSHIFTDECREMENT);
        let ghost c4 = command_events(a, bl, LCD_DISPLAYCONTROL | LCD_DISPLAYON | LCD_CURSOROFF
            | LCD_BLINKOFF);
        let ghost lt = self.log();
        match self.send_command(LCD_DISPLAYCONTROL | LCD_DISPLAYOFF) {
            Ok(()) => {},
            Err(e) => {
                proof {
                    lemma_op_trace_abort_left(lt, self.log(), c1, ((c2 + dm) + c3) + c4);
                    assert(c1 + (((c2 + dm) + c3) + c4) =~= init_tail_events(a, bl));
                    let t = choose|t: Seq<BusEvent>|
                        is_abort_of(t, init_tail_events(a, bl)) && self.log() == lt + t;
                    let s = base + t;
                    assert(self.log() =~= pre.log() + s);
                    assert(init_fail_trace(s, a, bl));
                }
                return Err(e);
            },
        }
        let ghost t1 = self.log();
        match self.send_command(LCD_CLEARDISPLAY) {
            Ok(()) => {
                proof {
                    lemma_op_trace_step(lt, t1, self.log(), c1, c2, true);
                }
            },
            Err(e) => {
                proof {
                    lemma_op_trace_step(lt, t1, self.log(), c1, c2, false);
                    lemma_op_trace_abort_left(lt, self.log(), c1 + c2, (dm + c3) + c4);
                    assert((c1 + c2) + ((dm + c3) + c4) =~= init_tail_events(a, bl));
                    let t = choose|t: Seq<BusEvent>|
                        is_abort_of(t, init_tail_events(a, bl)) && self.log() == lt + t;
                    let s = base + t;
                    assert(self.log() =~= pre.log() + s);
                    assert(init_fail_trace(s, a, bl));
                }
                return Err(e);
            },
        }
        let ghost t2 = self.log();
        self.delay_ms(10);
        proof {
            lemma_op_trace_step(lt, t2, self.log(), c1 + c2, dm, true);
        }
        let ghost t3 = self.log();
        match self.send_command(LCD_ENTRYMODESET | LCD_ENTRYLEFT | LCD_ENTRYSHIFTDECREMENT) {
            Ok(()) => {
                proof {
                    lemma_op_trace_step(lt, t3, self.log(), (c1 + c2) + dm, c3, true);
                }
            },
            Err(e) => {
                proof {
                    lemma_op_trace_step(lt, t3, self.log(), (c1 + c2) + dm, c3, false);
                    lemma_op_trace_abort_left(lt, self.log(), ((c1 + c2) + dm) + c3, c4);
                    let t = choose|t: Seq<BusEvent>|
                        is_abort_of(t, init_tail_events(a, bl)) && self.log() == lt + t;
                    let s = base + t;
                    assert(self.log() =~= pre.log() + s);
                    assert(init_fail_trace(s, a, bl));
                }
                return Err(e);
            },
        }
        let ghost t4 = self.log();
        match self.send_command(LCD_DISPLAYCONTROL | LCD_DISPLAYON | LCD_CURSOROFF | LCD_BLINKOFF) {
            Ok(()) => {
                proof {
                    lemma_op_trace_step(lt, t4, self.log(), ((c1 + c2) + dm) + c3, c4, true);
                    let s = base + init_tail_events(a, bl);
                    assert(self.log() =~= pre.log() + s);
                    assert(init_success_trace(s, a, bl));
                }
                Ok(())
            },
            Err(e) => {
                proof {
                    lemma_op_trace_step(lt, t4, self.log(), ((c1 + c2) + dm) + c3, c4, false);
                    let t = choose|t: Seq<BusEvent>|
                        is_abort_of(t, init_tail_events(a, bl)) && self.log() == lt + t;
                    let s = base + t;
                    assert(self.log() =~= pre.log() + s);
                    assert(init_fail_trace(s, a, bl));
                }
                Err(e)
            },
        }
    }

    /// Construct a driver: scan for the device, then run the
    /// initializer, retrying the whole sequence up to three times with a
    /// growing backoff. On failure the transport is handed back together
    /// with the error, so the caller can inspect or reuse it.
    #[verifier::loop_isolation(false)]
    pub fn new(hal: H) -> (r: Result<LcdI2c<H>, (LcdError, H)>)
        ensures
            ({
                match r {
                    Ok(lcd) => lcd.backlight_state == BACKLIGHT && exists|s: Seq<BusEvent>|
                        lcd.hal.log() == hal.log() + s && construct_ok_trace(s, lcd.address),
                    Err(pair) => (pair.0 == LcdError::DeviceNotFound || pair.0
                        == LcdError::InitializationFailed) && exists|s: Seq<BusEvent>|
                        pair.1.log() == hal.log() + s && construct_fail_trace(s, pair.0),
                }
            }),
    {
        let mut h = hal;
        let ghost pre_log = h.log();
        let found = Self::scan(&mut h);
        let address = match found {
            Ok(addr) => addr,
            Err(_) => {
                proof {
                    let s = choose|s: Seq<BusEvent>|
                        h.log() == pre_log + s && scan_trace(s, found);
                    assert(construct_fail_trace(s, LcdError::DeviceNotFound));
                }
                return Err((LcdError::DeviceNotFound, h));
            },
        };
        let ghost p = choose|s: Seq<BusEvent>| h.log() == pre_log + s && scan_trace(s, Ok(address));
        let mut lcd = LcdI2c { hal: h, address, backlight_state: BACKLIGHT };
        let ghost mut f = Seq::<BusEvent>::empty();
        let mut attempt: u64 = 1;
        proof {
            assert(lcd.log() =~= pre_log + (p + f));
        }
        while attempt <= 3
            invariant
                1 <= attempt <= 4,
                lcd.address == address,
                lcd.backlight_state == BACKLIGHT,
                failed_init_attempts(f, address, BACKLIGHT, attempt as int - 1),
                lcd.log() == pre_log + (p + f),
            decreases 4 - attempt,
        {
            let ghost lb = lcd.log();
            match lcd.init() {
                Ok(()) => {
                    proof {
                        let t = choose|t: Seq<BusEvent>|
                            lcd.log() == lb + t && init_trace(t, address, BACKLIGHT, true);
                        let s = (p + f) + t;
                        assert(lcd.log() =~= pre_log + s);
                        assert(construct_ok_trace(s, address));
                    }
                    return Ok(lcd);
                },
                Err(_) => {
                    let ghost t = choose|t: Seq<BusEvent>|
                        lcd.log() == lb + t && init_trace(t, address, BACKLIGHT, false);
                    lcd.delay_ms(100 * attempt);
                    proof {
                        let y = t + seq![delay_ev((100000 * attempt) as u64)];
                        assert((100 * attempt * 1000) as u64 == (100000 * attempt) as u64);
                        assert(failed_init_attempt_block(y, address, BACKLIGHT, attempt as int));
                        assert(lcd.log() =~= pre_log + (p + (f + y)));
                        let ghost fx = f;
                        f = f + y;
                        assert(f == fx + y && failed_init_attempts(
                            fx,
                            address,
                            BACKLIGHT,
                            attempt as int - 1,
                        ));
                        assert(failed_init_attempts(f, address, BACKLIGHT, attempt as int));
                    }
                    attempt += 1;
                },
            }
        }
        proof {
            let s = p + f;
            assert(failed_init_attempts(f, address, BACKLIGHT, 3));
            assert(construct_fail_trace(s, LcdError::InitializationFailed));
        }
        Err((LcdError::InitializationFailed, lcd.hal))
    }

    /// Send every byte of `text` as a data transaction, in order. No
    /// wrapping or truncation: writing past the end of a row is the
    /// controller's own overflow behaviour.
    #[verifier::loop_isolation(false)]
    pub fn print(&mut self, text: &str) -> (r: Result<(), LcdError>)
        ensures
            Self::emits(
                *old(self),
                *final(self),
                print_events(old(self).address, old(self).backlight_state, text.spec_bytes()),
                r is Ok,
            ),
            r is Err ==> r == Err::<(), LcdError>(LcdError::TransferFailed),
    {
        let ghost pre = *old(self);
        let ghost a = pre.address;
        let ghost bl = pre.backlight_state;
        let bytes = text.as_bytes();
        let ghost s = bytes@;
        let n = bytes.len();
        let mut i: usize = 0;
        while i < n
            invariant
                i <= n,
                n == s.len(),
                bytes@ == s,
                Self::same_lcd(pre, *self),
                op_trace(pre.log(), self.log(), print_events(a, bl, s.take(i as int)), true),
            decreases n - i,
        {
            let b = bytes[i];
            let ghost l1 = self.log();
            let ghost done = print_events(a, bl, s.take(i as int));
            match self.send_data(b) {
                Ok(()) => {
                    proof {
                        lemma_op_trace_step(
                            pre.log(),
                            l1,
                            self.log(),
                            done,
                            data_events(a, bl, b),
                            true,
                        );
                        assert(s.take(i as int).push(b) =~= s.take(i + 1));
                        lemma_print_events_snoc(a, bl, s.take(i as int), b);
                    }
                },
                Err(e) => {
                    proof {
                        lemma_op_trace_step(
                            pre.log(),
                            l1,
                            self.log(),
                            done,
                            data_events(a, bl, b),
                            false,
                        );
                        lemma_op_trace_abort_left(
                            pre.log(),
                            self.log(),
                            done + data_events(a, bl, b),
                            print_events(a, bl, s.skip(i + 1)),
                        );
                        assert(s =~= s.take(i as int).push(b) + s.skip(i + 1));
                        lemma_print_events_append(a, bl, s.take(i as int).push(b), s.skip(i + 1));
                        lemma_print_events_snoc(a, bl, s.take(i as int), b);
                    }
                    return Err(e);
                },
            }
            i += 1;
        }
        proof {
            assert(s.take(n as int) =~= s);
        }
        Ok(())
    }

    /// Position the cursor (silently ignoring invalid coordinates), then
    /// print the text there.
    pub fn print_at(&mut self, col: u8, row: u8, text: &str) -> (r: Result<(), LcdError>)
        ensures
            Self::emits(
                *old(self),
                *final(self),
                print_at_events(
                    old(self).address,
                    old(self).backlight_state,
                    col,
                    row,
                    text.spec_bytes(),
                ),
                r is Ok,
            ),
            r is Err ==> r == Err::<(), LcdError>(LcdError::TransferFailed),
    {
        let ghost pre = *old(self);
        let ghost a = pre.address;
        let ghost bl = pre.backlight_state;
        let ghost ptext = print_events(a, bl, text.spec_bytes());
        match self.set_cursor(col, row) {
            Ok(()) => {},
            Err(e) => {
                proof {
                    lemma_op_trace_abort_left(
                        pre.log(),
                        self.log(),
                        set_cursor_events(a, bl, col, row),
                        ptext,
                    );
                }
                return Err(e);
            },
        }
        let ghost l1 = self.log();
        let r = self.print(text);
        proof {
            if col < 16 && row < 2 {
                lemma_op_trace_step(
                    pre.log(),
                    l1,
                    self.log(),
                    set_cursor_events(a, bl, col, row),
                    ptext,
                    r is Ok,
                );
            } else {
                assert(Seq::<BusEvent>::empty() + ptext =~= ptext);
            }
        }
        r
    }

    /// Fill the current row with sixteen copies of one character.
    #[verifier::loop_isolation(false)]
    fn fill_row(&mut self, b: u8) -> (r: Result<(), LcdError>)
        ensures
            Self::emits(
                *old(self),
                *final(self),
                print_events(old(self).address, old(self).backlight_state, row_fill_bytes(b)),
                r is Ok,
            ),
            r is Err ==> r == Err::<(), LcdError>(LcdError::TransferFailed),
    {
        let ghost pre = *old(self);
        let ghost a = pre.address;
        let ghost bl = pre.backlight_state;
        let ghost s = row_fill_bytes(b);
        let mut i: usize = 0;
        while i < 16
            invariant
                i <= 16,
                Self::same_lcd(pre, *self),
                op_trace(pre.log(), self.log(), print_events(a, bl, s.take(i as int)), true),
            decreases 16 - i,
        {
            let ghost l1 = self.log();
            let ghost done = print_events(a, bl, s.take(i as int));
            match self.send_data(b) {
                Ok(()) => {
                    proof {
                        lemma_op_trace_step(
                            pre.log(),
                            l1,
                            self.log(),
                            done,
                            data_events(a, bl, b),
                            true,
                        );
                        assert(s.take(i as int).push(b) =~= s.take(i + 1));
                        lemma_print_events_snoc(a, bl, s.take(i as int), b);
                    }
                },
                Err(e) => {
                    proof {
                        lemma_op_trace_step(
                            pre.log(),
                            l1,
                            self.log(),
                            done,
                            data_events(a, bl, b),
                            false,
                        );
                        lemma_op_trace_abort_left(
                            pre.log(),
                            self.log(),
                            done + data_events(a, bl, b),
                            print_events(a, bl, s.skip(i + 1)),
                        );
                        assert(s =~= s.take(i as int).push(b) + s.skip(i + 1));
                        lemma_print_events_append(a, bl, s.take(i as int).push(b), s.skip(i + 1));
                        lemma_print_events_snoc(a, bl, s.take(i as int), b);
                    }
                    return Err(e);
                },
            }
            i += 1;
        }
        proof {
            assert(s.take(16int) =~= s);
        }
        Ok(())
    }

    /// Run a fixed diagnostic pattern: fill the first row with `A` and
    /// the second with `B`, hold it for two seconds, clear, then print
    /// two fixed reference strings.
    #[verifier::rlimit(100)]
    #[verifier::spinoff_prover]
    pub fn test_display(&mut self) -> (r: Result<(), LcdError>)
        ensures
            Self::emits(
                *old(self),
                *final(self),
                test_pattern_events(old(self).address, old(self).backlight_state),
                r is Ok,
            ),
            r is Err ==> r == Err::<(), LcdError>(LcdError::TransferFailed),
    {
        let ghost pre = *old(self);
        let ghost a = pre.address;
        let ghost bl = pre.backlight_state;
        let ghost g1 = clear_events(a, bl);
        let ghost g2 = set_cursor_events(a, bl, 0, 0);
        let ghost g3 = print_events(a, bl, row_fill_bytes(0x41));
        let ghost g4 = set_cursor_events(a, bl, 0, 1);
        let ghost g5 = print_events(a, bl, row_fill_bytes(0x42));
        let ghost g6 = seq![delay_ev(2000000u64)];
        let ghost g7 = clear_events(a, bl);
        let ghost g8 = print_at_events(a, bl, 0, 0, "0123456789ABCDEF".spec_bytes());
        let ghost g9 = print_at_events(a, bl, 0, 1, "Test Pattern OK!".spec_bytes());
        let ghost h2 = g1 + g2;
        let ghost h3 = h2 + g3;
        let ghost h4 = h3 + g4;
        let ghost h5 = h4 + g5;
        let ghost h6 = h5 + g6;
        let ghost h7 = h6 + g7;
        let ghost h8 = h7 + g8;
        let ghost h9 = h8 + g9;
        let ghost r9 = g9;
        let ghost r8 = g8 + r9;
        let ghost r7 = g7 + r8;
        let ghost r6 = g6 + r7;
        let ghost r5 = g5 + r6;
        let ghost r4 = g4 + r5;
        let ghost r3 = g3 + r4;
        let ghost r2 = g2 + r3;
        proof {
            assert(h9 =~= test_pattern_events(a, bl));
            assert(g1 + r2 =~= h9);
            assert(h2 + r3 =~= h9);
            assert(h3 + r4 =~= h9);
            assert(h4 + r5 =~= h9);
            assert(h5 + r6 =~= h9);
            assert(h7 + r8 =~= h9);
            assert(h8 + r9 =~= h9);
        }
        match self.clear() {
            Ok(()) => {},
            Err(e) => {
                proof {
                    lemma_op_trace_abort_left(pre.log(), self.log(), g1, r2);
                }
                return Err(e);
            },
        }
        let ghost l1 = self.log();
        match self.set_cursor(0, 0) {
            Ok(()) => {
                proof {
                    lemma_op_trace_step(pre.log(), l1, self.log(), g1, g2, true);
                }
            },
            Err(e) => {
                proof {
                    lemma_op_trace_step(pre.log(), l1, self.log(), g1, g2, false);
                    lemma_op_trace_abort_left(pre.log(), self.log(), h2, r3);
                }
                return Err(e);
            },
        }
        let ghost l2 = self.log();
        match self.fill_row(0x41) {
            Ok(()) => {
                proof {
                    lemma_op_trace_step(pre.log(), l2, self.log(), h2, g3, true);
                }
            },
            Err(e) => {
                proof {
                    lemma_op_trace_step(pre.log(), l2, self.log(), h2, g3, false);
                    lemma_op_trace_abort_left(pre.log(), self.log(), h3, r4);
                }
                return Err(e);
            },
        }
        let ghost l3 = self.log();
        match self.set_cursor(0, 1) {
            Ok(()) => {
                proof {
                    lemma_op_trace_step(pre.log(), l3, self.log(), h3, g4, true);
                }
            },
            Err(e) => {
                proof {
                    lemma_op_trace_step(pre.log(), l3, self.log(), h3, g4, false);
                    lemma_op_trace_abort_left(pre.log(), self.log(), h4, r5);
                }
                return Err(e);
            },
        }
        let ghost l4 = self.log();
        match self.fill_row(0x42) {
            Ok(()) => {
                proof {
                    lemma_op_trace_step(pre.log(), l4, self.log(), h4, g5, true);
                }
            },
            Err(e) => {
                proof {
                    lemma_op_trace_step(pre.log(), l4, self.log(), h4, g5, false);
                    lemma_op_trace_abort_left(pre.log(), self.log(), h5, r6);
                }
                return Err(e);
            },
        }
        let ghost l5 = self.log();
        self.delay_ms(2000);
        proof {
            lemma_op_trace_step(pre.log(), l5, self.log(), h5, g6, true);
        }
        let ghost l6 = self.log();
        match self.clear() {
            Ok(()) => {
                proof {
                    lemma_op_trace_step(pre.log(), l6, self.log(), h6, g7, true);
                }
            },
            Err(e) => {
                proof {
                    lemma_op_trace_step(pre.log(), l6, self.log(), h6, g7, false);
                    lemma_op_trace_abort_left(pre.log(), self.log(), h7, r8);
                }
                return Err(e);
            },
        }
        let ghost l7 = self.log();
        match self.print_at(0, 0, "0123456789ABCDEF") {
            Ok(()) => {
                proof {
                    lemma_op_trace_step(pre.log(), l7, self.log(), h7, g8, true);
                }
            },
            Err(e) => {
                proof {
                    lemma_op_trace_step(pre.log(), l7, self.log(), h7, g8, false);
                    lemma_op_trace_abort_left(pre.log(), self.log(), h8, r9);
                }
                return Err(e);
            },
        }
        let ghost l8 = self.log();
        let r = self.print_at(0, 1, "Test Pattern OK!");
        proof {
            lemma_op_trace_step(pre.log(), l8, self.log(), h8, g9, r is Ok);
        }
        r
    }


    /// The device address found by the scan; a diagnostic accessor with
    /// no side effect.
    pub fn get_address(&self) -> (r: u8)
        ensures
            r == self.address,
    {
        self.address
    }
}

} // verus!
