//! The properties the driver promises, stated once over the trace
//! model and proved for every transport.
use vstd::prelude::*;

use crate::hal::LcdError;
use crate::protocol::BusEvent;
use crate::protocol::BACKLIGHT;
use crate::protocol::EN;
use crate::protocol::EN_CLEAR;
use crate::protocol::LCD_CLEARDISPLAY;
use crate::protocol::LCD_SETDDRAMADDR;
use crate::protocol::candidates;
use crate::protocol::failed_probes;
use crate::protocol::scan_trace;
use crate::protocol::construct_fail_trace;
use crate::protocol::write_ev;
use crate::protocol::delay_ev;
use crate::protocol::unacked;
use crate::protocol::abort_at;
use crate::protocol::is_abort_of;
use crate::protocol::high_byte;
use crate::protocol::low_byte;
use crate::protocol::ddram_address;
use crate::protocol::pulse_events;
use crate::protocol::nibble_events;
use crate::protocol::command_events;
use crate::protocol::command_trailing;
use crate::protocol::clear_events;
use crate::protocol::total_delay;
use crate::protocol::failed_confirms;
use crate::protocol::failed_confirm_attempt;
use crate::protocol::function_set_cmd;
use crate::protocol::init_preamble;
use crate::protocol::init_tail_events;
use crate::protocol::reset_stage_events;
use crate::protocol::init_success_trace;
use crate::protocol::init_fail_trace;
use crate::protocol::failed_init_attempts;
use crate::protocol::failed_init_attempt_block;
use crate::protocol::construct_ok_trace;

verus! {

/// `e` is consistent with a bus on which exactly the device at `sole`
/// acknowledges: a recorded write was acknowledged if and only if it
/// went to `sole`.
pub open spec fn acked_only_by(e: BusEvent, sole: u8) -> bool {
    match e {
        BusEvent::Write { addr, data, acked } => acked <==> addr == sole,
        BusEvent::Delay { .. } => true,
    }
}

/// `e` is a write that got no acknowledge.
pub open spec fn is_failed_write(e: BusEvent) -> bool {
    match e {
        BusEvent::Write { acked, .. } => !acked,
        BusEvent::Delay { .. } => false,
    }
}

/// If exactly one candidate acknowledges, the scan returns that
/// candidate, whatever its position in the probe order.
pub proof fn scanner_returns_sole_responder(s: Seq<BusEvent>, r: Result<u8, LcdError>, i: int)
    requires
        scan_trace(s, r),
        0 <= i < 4,
        forall|k: int| 0 <= k < s.len() ==> acked_only_by(#[trigger] s[k], candidates()[i]),
    ensures
        r == Ok::<u8, LcdError>(candidates()[i]),
{
    assert(candidates()[0] == 0x27 && candidates()[1] == 0x3F && candidates()[2] == 0x20
        && candidates()[3] == 0x38);
    match r {
        Ok(addr) => {
            let j = choose|j: int|
                0 <= j < 4 && addr == candidates()[j] && s == failed_probes(j).push(
                    BusEvent::Write { addr: candidates()[j], data: 0x00, acked: true },
                );
            assert(s.len() == j + 1);
            assert(s[j] == BusEvent::Write { addr: candidates()[j], data: 0x00, acked: true });
            assert(acked_only_by(s[j], candidates()[i]));
            assert(candidates()[j] == candidates()[i]);
            assert(j == i);
        },
        Err(e) => {
            assert(s == failed_probes(4));
            assert(s[i] == BusEvent::Write { addr: candidates()[i], data: 0x00, acked: false });
            assert(acked_only_by(s[i], candidates()[i]));
            assert(false);
        },
    }
}

/// When no candidate acknowledges, construction fails having sent
/// exactly the four zero-effect probes: no delay, no initialization
/// traffic of any kind.
pub proof fn device_not_found_probes_only(s: Seq<BusEvent>)
    requires
        construct_fail_trace(s, LcdError::DeviceNotFound),
    ensures
        s.len() == 4,
        forall|k: int|
            0 <= k < 4 ==> s[k] == (BusEvent::Write {
                addr: candidates()[k],
                data: 0x00,
                acked: false,
            }),
{
    assert(s == failed_probes(4));
}

/// Nibble encoding: the high-nibble transaction carries the top four
/// bits of the logical byte, the low-nibble transaction carries the
/// bottom four bits shifted up, and the backlight bit is identical in
/// both expander bytes.
pub proof fn nibble_encoding(b: u8, flags: u8)
    requires
        flags & 0xF0 == 0,
    ensures
        high_byte(b, flags) & 0xF0 == b & 0xF0,
        low_byte(b, flags) & 0xF0 == ((b & 0x0F) << 4),
        high_byte(b, flags) & BACKLIGHT == flags & BACKLIGHT,
        low_byte(b, flags) & BACKLIGHT == flags & BACKLIGHT,
{
    assert(((b & 0xF0) | flags) & 0xF0 == b & 0xF0) by (bit_vector)
        requires
            flags & 0xF0 == 0,
    ;
    assert((((b << 4) & 0xF0) | flags) & 0xF0 == ((b & 0x0F) << 4)) by (bit_vector)
        requires
            flags & 0xF0 == 0,
    ;
    assert(((b & 0xF0) | flags) & 0x08 == flags & 0x08) by (bit_vector);
    assert((((b << 4) & 0xF0) | flags) & 0x08 == flags & 0x08) by (bit_vector);
}

/// Enable-pulse framing: the first write of a pulse has the enable bit
/// high, the second has it low, and the other seven bits are the same
/// in both.
pub proof fn enable_pulse_framing(addr: u8, data: u8)
    ensures
        pulse_events(addr, data)[0] == write_ev(addr, data | EN),
        pulse_events(addr, data)[2] == write_ev(addr, data & EN_CLEAR),
        (data | EN) & EN == EN,
        (data & EN_CLEAR) & EN == 0,
        (data | EN) & EN_CLEAR == data & EN_CLEAR,
        (data & EN_CLEAR) & EN_CLEAR == data & EN_CLEAR,
{
    assert((data | 0x04) & 0x04 == 0x04) by (bit_vector);
    assert((data & 0xFB) & 0x04 == 0) by (bit_vector);
    assert((data | 0x04) & 0xFB == data & 0xFB) by (bit_vector);
    assert((data & 0xFB) & 0xFB == data & 0xFB) by (bit_vector);
}

/// The cursor command: for a valid position, the display-data address
/// is the column plus the row's base offset, and OR-ing it into the
/// set-address command is plain addition.
pub proof fn ddram_formula(col: u8, row: u8)
    requires
        col < 16,
        row < 2,
    ensures
        ddram_address(col, row) == col + (if row == 0 {
            0x00int
        } else {
            0x40int
        }),
        LCD_SETDDRAMADDR | ddram_address(col, row) == 0x80 + ddram_address(col, row),
{
    let d = ddram_address(col, row);
    assert(d < 0x80);
    assert(0x80u8 | d == 0x80 + d) by (bit_vector)
        requires
            d < 0x80,
    ;
}

/// Summing delays distributes over concatenation.
pub proof fn lemma_total_delay_append(x: Seq<BusEvent>, y: Seq<BusEvent>)
    ensures
        total_delay(x + y) == total_delay(x) + total_delay(y),
    decreases x.len(),
{
    if x.len() == 0 {
        assert(x + y =~= y);
    } else {
        assert((x + y)[0] == x[0]);
        assert((x + y).drop_first() =~= x.drop_first() + y);
        lemma_total_delay_append(x.drop_first(), y);
    }
}

/// The delay held in a single-event trace.
pub proof fn lemma_total_delay_singleton(e: BusEvent)
    ensures
        total_delay(seq![e]) == (match e {
            BusEvent::Delay { micros } => micros as int,
            BusEvent::Write { .. } => 0,
        }),
{
    assert(seq![e].len() == 1);
    assert(seq![e][0] == e);
    assert(seq![e].drop_first() =~= Seq::<BusEvent>::empty());
    assert(total_delay(Seq::<BusEvent>::empty()) == 0);
}

/// An enable pulse busy-waits 102 microseconds in all.
pub proof fn lemma_total_delay_pulse(addr: u8, data: u8)
    ensures
        total_delay(pulse_events(addr, data)) == 102,
{
    let w1 = write_ev(addr, data | EN);
    let d1 = delay_ev(2);
    let w2 = write_ev(addr, data & EN_CLEAR);
    let d2 = delay_ev(100);
    assert(pulse_events(addr, data) =~= ((seq![w1] + seq![d1]) + seq![w2]) + seq![d2]);
    lemma_total_delay_append(seq![w1], seq![d1]);
    lemma_total_delay_append(seq![w1] + seq![d1], seq![w2]);
    lemma_total_delay_append((seq![w1] + seq![d1]) + seq![w2], seq![d2]);
    lemma_total_delay_singleton(w1);
    lemma_total_delay_singleton(d1);
    lemma_total_delay_singleton(w2);
    lemma_total_delay_singleton(d2);
}

/// One nibble transaction busy-waits 102 microseconds in all.
pub proof fn lemma_total_delay_nibble(addr: u8, nib: u8)
    ensures
        total_delay(nibble_events(addr, nib)) == 102,
{
    lemma_total_delay_append(seq![write_ev(addr, nib)], pulse_events(addr, nib));
    lemma_total_delay_singleton(write_ev(addr, nib));
    lemma_total_delay_pulse(addr, nib);
}

/// One command busy-waits 204 microseconds of pulse time plus its
/// trailing execution delay.
pub proof fn lemma_total_delay_command(addr: u8, bl: u8, cmd: u8)
    ensures
        total_delay(command_events(addr, bl, cmd)) == 204 + command_trailing(cmd),
{
    let nh = nibble_events(addr, high_byte(cmd, bl));
    let nl = nibble_events(addr, low_byte(cmd, bl));
    let d = seq![delay_ev(command_trailing(cmd))];
    lemma_total_delay_append(nh, nl);
    lemma_total_delay_append(nh + nl, d);
    lemma_total_delay_nibble(addr, high_byte(cmd, bl));
    lemma_total_delay_nibble(addr, low_byte(cmd, bl));
    lemma_total_delay_singleton(delay_ev(command_trailing(cmd)));
}

/// `clear` always waits at least 10 milliseconds before returning: the
/// command's own slow trailing delay plus the explicit extra settle
/// delay (10204 microseconds in all, pulses included).
pub proof fn clear_waits_at_least_ten_ms(addr: u8, bl: u8)
    ensures
        total_delay(clear_events(addr, bl)) == 10204,
        total_delay(clear_events(addr, bl)) >= 10000,
{
    lemma_total_delay_append(command_events(addr, bl, LCD_CLEARDISPLAY), seq![delay_ev(5000)]);
    lemma_total_delay_command(addr, bl, LCD_CLEARDISPLAY);
    lemma_total_delay_singleton(delay_ev(5000));
}

/// The last event of a concatenation comes from its non-empty tail.
pub proof fn lemma_concat_last(x: Seq<BusEvent>, y: Seq<BusEvent>)
    requires
        y.len() > 0,
    ensures
        (x + y).last() == y.last(),
{
}

/// A cut-short operation ends with the write that was not acknowledged.
pub proof fn lemma_abort_ends_unacked(s: Seq<BusEvent>, full: Seq<BusEvent>)
    requires
        is_abort_of(s, full),
    ensures
        s.len() > 0,
        is_failed_write(s.last()),
{
    let k = choose|k: int| 0 <= k < full.len() && (full[k] is Write) && s == abort_at(full, k);
    assert(s.last() == unacked(full[k]));
}

/// A command's trace is eleven events ending in its trailing delay.
pub proof fn lemma_command_events_last(addr: u8, bl: u8, cmd: u8)
    ensures
        command_events(addr, bl, cmd).len() == 11,
        command_events(addr, bl, cmd).last() == delay_ev(command_trailing(cmd)),
{
    let nh = nibble_events(addr, high_byte(cmd, bl));
    let nl = nibble_events(addr, low_byte(cmd, bl));
    lemma_concat_last(nh + nl, seq![delay_ev(command_trailing(cmd))]);
}

/// The tail command sequence ends with the display-on command's short
/// trailing delay.
pub proof fn lemma_init_tail_last(addr: u8, bl: u8)
    ensures
        init_tail_events(addr, bl).len() > 0,
        init_tail_events(addr, bl).last() == delay_ev(200),
{
    let c4 = command_events(
        addr,
        bl,
        crate::protocol::LCD_DISPLAYCONTROL | crate::protocol::LCD_DISPLAYON
            | crate::protocol::LCD_CURSOROFF | crate::protocol::LCD_BLINKOFF,
    );
    lemma_command_events_last(
        addr,
        bl,
        crate::protocol::LCD_DISPLAYCONTROL | crate::protocol::LCD_DISPLAYON
            | crate::protocol::LCD_CURSOROFF | crate::protocol::LCD_BLINKOFF,
    );
    assert((0x08u8 | 0x04u8 | 0x00u8 | 0x00u8) == 0x0Cu8) by (bit_vector);
    assert(command_trailing(
        crate::protocol::LCD_DISPLAYCONTROL | crate::protocol::LCD_DISPLAYON
            | crate::protocol::LCD_CURSOROFF | crate::protocol::LCD_BLINKOFF,
    ) == 200);
    let front = ((command_events(addr, bl, crate::protocol::LCD_DISPLAYCONTROL
        | crate::protocol::LCD_DISPLAYOFF) + command_events(addr, bl, LCD_CLEARDISPLAY)) + seq![
        delay_ev(10000),
    ]) + command_events(
        addr,
        bl,
        crate::protocol::LCD_ENTRYMODESET | crate::protocol::LCD_ENTRYLEFT
            | crate::protocol::LCD_ENTRYSHIFTDECREMENT,
    );
    lemma_concat_last(front, c4);
}

/// A non-empty run of failed confirmation attempts ends with the last
/// attempt's backoff delay.
pub proof fn lemma_failed_confirms_last(s: Seq<BusEvent>, addr: u8, bl: u8, n: int)
    requires
        n >= 1,
        failed_confirms(s, addr, bl, n),
    ensures
        s.len() > 0,
        s.last() == delay_ev((100000 * n) as u64),
{
    let (x, y) = choose|x: Seq<BusEvent>, y: Seq<BusEvent>|
        s == x + y && failed_confirms(x, addr, bl, n - 1) && failed_confirm_attempt(y, addr, bl, n);
    let t = choose|t: Seq<BusEvent>|
        is_abort_of(t, command_events(addr, bl, function_set_cmd())) && y == (reset_stage_events(
            addr,
        ) + t) + seq![delay_ev((100000 * n) as u64)];
    lemma_concat_last(reset_stage_events(addr) + t, seq![delay_ev((100000 * n) as u64)]);
    lemma_concat_last(x, y);
}

/// A successful initialization trace ends with the display-on command's
/// trailing delay.
pub proof fn lemma_success_trace_last(s: Seq<BusEvent>, addr: u8, bl: u8)
    requires
        init_success_trace(s, addr, bl),
    ensures
        s.len() > 0,
        s.last() == delay_ev(200),
{
    let (f, n) = choose|f: Seq<BusEvent>, n: int|
        0 <= n <= 2 && failed_confirms(f, addr, bl, n) && s == (((init_preamble(addr) + f)
            + reset_stage_events(addr)) + command_events(addr, bl, function_set_cmd()))
            + init_tail_events(addr, bl);
    lemma_init_tail_last(addr, bl);
    lemma_concat_last(
        ((init_preamble(addr) + f) + reset_stage_events(addr)) + command_events(
            addr,
            bl,
            function_set_cmd(),
        ),
        init_tail_events(addr, bl),
    );
}

/// A failed initialization trace ends either with an unacknowledged
/// write or with the third attempt's backoff delay.
pub proof fn lemma_fail_trace_last(s: Seq<BusEvent>, addr: u8, bl: u8)
    requires
        init_fail_trace(s, addr, bl),
    ensures
        s.len() > 0,
        is_failed_write(s.last()) || s.last() == delay_ev(300000),
{
    if exists|t: Seq<BusEvent>| is_abort_of(t, init_preamble(addr)) && s == t {
        let t = choose|t: Seq<BusEvent>| is_abort_of(t, init_preamble(addr)) && s == t;
        lemma_abort_ends_unacked(t, init_preamble(addr));
    } else if exists|f: Seq<BusEvent>, n: int, t: Seq<BusEvent>|
        0 <= n <= 2 && failed_confirms(f, addr, bl, n) && is_abort_of(t, reset_stage_events(addr))
            && s == (init_preamble(addr) + f) + t {
        let (f, n, t) = choose|f: Seq<BusEvent>, n: int, t: Seq<BusEvent>|
            0 <= n <= 2 && failed_confirms(f, addr, bl, n) && is_abort_of(
                t,
                reset_stage_events(addr),
            ) && s == (init_preamble(addr) + f) + t;
        lemma_abort_ends_unacked(t, reset_stage_events(addr));
        lemma_concat_last(init_preamble(addr) + f, t);
    } else if exists|f: Seq<BusEvent>| failed_confirms(f, addr, bl, 3) && s == init_preamble(addr)
        + f {
        let f = choose|f: Seq<BusEvent>|
            failed_confirms(f, addr, bl, 3) && s == init_preamble(addr) + f;
        lemma_failed_confirms_last(f, addr, bl, 3);
        lemma_concat_last(init_preamble(addr), f);
    } else {
        let (f, n, t) = choose|f: Seq<BusEvent>, n: int, t: Seq<BusEvent>|
            0 <= n <= 2 && failed_confirms(f, addr, bl, n) && is_abort_of(
                t,
                init_tail_events(addr, bl),
            ) && s == (((init_preamble(addr) + f) + reset_stage_events(addr)) + command_events(
                addr,
                bl,
                function_set_cmd(),
            )) + t;
        lemma_abort_ends_unacked(t, init_tail_events(addr, bl));
        lemma_concat_last(
            ((init_preamble(addr) + f) + reset_stage_events(addr)) + command_events(
                addr,
                bl,
                function_set_cmd(),
            ),
            t,
        );
    }
}

/// The trace decides the outcome: no bus log is at once a successful
/// and a failed initialization run.
pub proof fn init_outcome_exclusive(s: Seq<BusEvent>, addr: u8, bl: u8)
    requires
        init_success_trace(s, addr, bl),
    ensures
        !init_fail_trace(s, addr, bl),
{
    lemma_success_trace_last(s, addr, bl);
    if init_fail_trace(s, addr, bl) {
        lemma_fail_trace_last(s, addr, bl);
        assert(false);
    }
}

/// Retry tolerance: a run whose function-set confirmation failed on the
/// first two attempts and succeeded on the third is a successful
/// initialization, and is not a failed one — so by the initializer's
/// contract such a run returned success.
pub proof fn init_confirms_on_third_attempt(addr: u8, bl: u8, f: Seq<BusEvent>)
    ensures
        failed_confirms(f, addr, bl, 2) ==> ({
            let s = (((init_preamble(addr) + f) + reset_stage_events(addr)) + command_events(
                addr,
                bl,
                function_set_cmd(),
            )) + init_tail_events(addr, bl);
            init_success_trace(s, addr, bl) && !init_fail_trace(s, addr, bl)
        }),
{
    if failed_confirms(f, addr, bl, 2) {
        let s = (((init_preamble(addr) + f) + reset_stage_events(addr)) + command_events(
            addr,
            bl,
            function_set_cmd(),
        )) + init_tail_events(addr, bl);
        assert(init_success_trace(s, addr, bl));
        init_outcome_exclusive(s, addr, bl);
    }
}

/// Retry exhaustion: a run with three failed confirmation attempts is a
/// failed initialization and not a successful one, and the trace ends
/// right at the third backoff delay — no further bus traffic follows.
pub proof fn init_fails_after_three_confirm_failures(addr: u8, bl: u8, f: Seq<BusEvent>)
    ensures
        failed_confirms(f, addr, bl, 3) ==> ({
            let s = init_preamble(addr) + f;
            init_fail_trace(s, addr, bl) && !init_success_trace(s, addr, bl) && s.last()
                == delay_ev(300000)
        }),
{
    if failed_confirms(f, addr, bl, 3) {
        let s = init_preamble(addr) + f;
        assert(init_fail_trace(s, addr, bl));
        lemma_failed_confirms_last(f, addr, bl, 3);
        lemma_concat_last(init_preamble(addr), f);
        if init_success_trace(s, addr, bl) {
            lemma_success_trace_last(s, addr, bl);
            assert(false);
        }
    }
}

/// A non-empty run of failed construction-level initializer attempts
/// ends with the last attempt's backoff delay.
pub proof fn lemma_failed_init_attempts_last(s: Seq<BusEvent>, addr: u8, bl: u8, n: int)
    requires
        n >= 1,
        failed_init_attempts(s, addr, bl, n),
    ensures
        s.len() > 0,
        s.last() == delay_ev((100000 * n) as u64),
{
    let (x, y) = choose|x: Seq<BusEvent>, y: Seq<BusEvent>|
        s == x + y && failed_init_attempts(x, addr, bl, n - 1) && failed_init_attempt_block(
            y,
            addr,
            bl,
            n,
        );
    let t = choose|t: Seq<BusEvent>|
        init_fail_trace(t, addr, bl) && y == t + seq![delay_ev((100000 * n) as u64)];
    lemma_concat_last(t, seq![delay_ev((100000 * n) as u64)]);
    lemma_concat_last(x, y);
}

/// The trace decides the construction outcome too: a log that shows a
/// successful construction shows neither kind of failed one — so by the
/// constructor's contract such a run returned the driver.
pub proof fn construct_outcome_exclusive(s: Seq<BusEvent>, addr: u8, e: LcdError)
    requires
        construct_ok_trace(s, addr),
    ensures
        !construct_fail_trace(s, e),
{
    let (p, f, t, m) = choose|p: Seq<BusEvent>, f: Seq<BusEvent>, t: Seq<BusEvent>, m: int|
        0 <= m <= 2 && scan_trace(p, Ok(addr)) && failed_init_attempts(f, addr, BACKLIGHT, m)
            && init_success_trace(t, addr, BACKLIGHT) && s == (p + f) + t;
    lemma_success_trace_last(t, addr, BACKLIGHT);
    lemma_concat_last(p + f, t);
    assert(s.last() == delay_ev(200));
    if construct_fail_trace(s, e) {
        if e == LcdError::DeviceNotFound {
            assert(s == failed_probes(4));
            assert(s[3] == (BusEvent::Write { addr: candidates()[3], data: 0x00, acked: false }));
            assert(s.last() == (BusEvent::Write {
                addr: candidates()[3],
                data: 0x00,
                acked: false,
            }));
            assert(false);
        } else {
            let (p2, f2, a2) = choose|p2: Seq<BusEvent>, f2: Seq<BusEvent>, a2: u8|
                scan_trace(p2, Ok(a2)) && failed_init_attempts(f2, a2, BACKLIGHT, 3) && s == p2
                    + f2;
            lemma_failed_init_attempts_last(f2, a2, BACKLIGHT, 3);
            lemma_concat_last(p2, f2);
            assert(false);
        }
    }
}

} // verus!
