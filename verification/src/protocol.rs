//! Byte-level model of the traffic an HD44780 driver puts on the I2C
//! expander: every observable action is a `BusEvent`, and each driver
//! operation is specified by the exact event sequence it appends.
use vstd::prelude::*;

verus! {

/// Register-select bit: set for character data, clear for commands.
pub const RS: u8 = 0x01;
/// Read/write bit; this driver only ever writes, so it stays clear.
pub const RW: u8 = 0x02;
/// Enable bit: the controller latches a nibble on its high-to-low edge.
pub const EN: u8 = 0x04;
/// Backlight bit: must ride along in every byte or the light flickers.
pub const BACKLIGHT: u8 = 0x08;
/// Mask that clears the enable bit while leaving all other bits alone.
pub const EN_CLEAR: u8 = 0xFB;

pub const LCD_CLEARDISPLAY: u8 = 0x01;
pub const LCD_RETURNHOME: u8 = 0x02;
pub const LCD_ENTRYMODESET: u8 = 0x04;
pub const LCD_DISPLAYCONTROL: u8 = 0x08;
pub const LCD_FUNCTIONSET: u8 = 0x20;
pub const LCD_SETDDRAMADDR: u8 = 0x80;

pub const LCD_ENTRYLEFT: u8 = 0x02;
pub const LCD_ENTRYSHIFTDECREMENT: u8 = 0x00;
pub const LCD_DISPLAYON: u8 = 0x04;
pub const LCD_DISPLAYOFF: u8 = 0x00;
pub const LCD_CURSOROFF: u8 = 0x00;
pub const LCD_BLINKOFF: u8 = 0x00;
pub const LCD_4BITMODE: u8 = 0x00;
pub const LCD_2LINE: u8 = 0x08;
pub const LCD_5X8DOTS: u8 = 0x00;

/// One observable action at the bus boundary: a single-byte write to a
/// device address, recording whether the device acknowledged it, or a
/// busy-wait delay of a fixed number of microseconds.
#[derive(Clone, Copy, PartialEq, Eq, Structural, Debug)]
pub enum BusEvent {
    Write { addr: u8, data: u8, acked: bool },
    Delay { micros: u64 },
}

/// An acknowledged single-byte write.
pub open spec fn write_ev(addr: u8, data: u8) -> BusEvent {
    BusEvent::Write { addr, data, acked: true }
}

/// A busy-wait delay event.
pub open spec fn delay_ev(micros: u64) -> BusEvent {
    BusEvent::Delay { micros }
}

/// The same event with its acknowledge flag cleared; delays are unchanged.
pub open spec fn unacked(e: BusEvent) -> BusEvent {
    match e {
        BusEvent::Write { addr, data, acked } => BusEvent::Write { addr, data, acked: false },
        BusEvent::Delay { micros } => BusEvent::Delay { micros },
    }
}

/// The trace of an operation that was cut short because its `k`-th event,
/// a write, was not acknowledged: the events before `k` happened as
/// planned, the `k`-th went out but got no acknowledge, the rest never
/// happened.
pub open spec fn abort_at(full: Seq<BusEvent>, k: int) -> Seq<BusEvent> {
    full.take(k).push(unacked(full[k]))
}

/// `s` is `full` cut short at some unacknowledged write.
pub open spec fn is_abort_of(s: Seq<BusEvent>, full: Seq<BusEvent>) -> bool {
    exists|k: int| 0 <= k < full.len() && (full[k] is Write) && s == abort_at(full, k)
}

/// The bus log grew from `pre` to `post` by one driver operation whose
/// planned event sequence is `full`: completely when the operation
/// succeeded (`ok`), or cut short at a failed write when it did not.
pub open spec fn op_trace(pre: Seq<BusEvent>, post: Seq<BusEvent>, full: Seq<BusEvent>, ok: bool) -> bool {
    if ok {
        post == pre + full
    } else {
        exists|s: Seq<BusEvent>| is_abort_of(s, full) && post == pre + s
    }
}

/// Total busy-wait time, in microseconds, spent in a trace.
pub open spec fn total_delay(s: Seq<BusEvent>) -> int
    decreases s.len(),
{
    if s.len() == 0 {
        0
    } else {
        (match s[0] {
            BusEvent::Delay { micros } => micros as int,
            BusEvent::Write { .. } => 0,
        }) + total_delay(s.drop_first())
    }
}

/// Enable-pulse framing around an already presented byte: raise the
/// enable bit, hold the minimum pulse width, drop it again, then let the
/// controller settle.
pub open spec fn pulse_events(addr: u8, data: u8) -> Seq<BusEvent> {
    seq![
        write_ev(addr, data | EN),
        delay_ev(2),
        write_ev(addr, data & EN_CLEAR),
        delay_ev(100),
    ]
}

/// One nibble transaction: present the byte, then pulse enable to latch it.
pub open spec fn nibble_events(addr: u8, nib: u8) -> Seq<BusEvent> {
    seq![write_ev(addr, nib)] + pulse_events(addr, nib)
}

/// The expander byte carrying the high nibble of `b` plus control flags.
pub open spec fn high_byte(b: u8, flags: u8) -> u8 {
    (b & 0xF0) | flags
}

/// The expander byte carrying the low nibble of `b`, shifted up, plus flags.
pub open spec fn low_byte(b: u8, flags: u8) -> u8 {
    ((b << 4) & 0xF0) | flags
}

/// A full logical byte in 4-bit mode: high nibble first, then low nibble,
/// then a trailing execution delay.
pub open spec fn byte_events(addr: u8, b: u8, flags: u8, trailing: u64) -> Seq<BusEvent> {
    nibble_events(addr, high_byte(b, flags)) + nibble_events(addr, low_byte(b, flags))
        + seq![delay_ev(trailing)]
}

/// Clear-display and return-home need extra internal execution time; every
/// other command (and all data) settles in 200 microseconds.
pub open spec fn command_trailing(cmd: u8) -> u64 {
    if cmd == LCD_CLEARDISPLAY || cmd == LCD_RETURNHOME {
        5000
    } else {
        200
    }
}

/// The event sequence of one command byte.
pub open spec fn command_events(addr: u8, backlight: u8, cmd: u8) -> Seq<BusEvent> {
    byte_events(addr, cmd, backlight, command_trailing(cmd))
}

/// The event sequence of one data byte (register-select set).
pub open spec fn data_events(addr: u8, backlight: u8, b: u8) -> Seq<BusEvent> {
    byte_events(addr, b, backlight | RS, 200)
}

/// The event sequence of printing a byte string: one data transaction per
/// byte, in order.
pub open spec fn print_events(addr: u8, backlight: u8, bytes: Seq<u8>) -> Seq<BusEvent>
    decreases bytes.len(),
{
    if bytes.len() == 0 {
        Seq::<BusEvent>::empty()
    } else {
        data_events(addr, backlight, bytes[0]) + print_events(addr, backlight, bytes.drop_first())
    }
}

/// The display-data-memory address of a cursor position: the column plus
/// the fixed base offset of the row.
pub open spec fn ddram_address(col: u8, row: u8) -> u8 {
    (col + if row == 0 {
        0x00u8
    } else {
        0x40u8
    }) as u8
}

/// The event sequence of a valid cursor move.
pub open spec fn set_cursor_events(addr: u8, backlight: u8, col: u8, row: u8) -> Seq<BusEvent> {
    command_events(addr, backlight, LCD_SETDDRAMADDR | ddram_address(col, row))
}

/// The event sequence of `clear`: the clear-display command (with its own
/// slow trailing delay) plus a second, explicit settle delay.
pub open spec fn clear_events(addr: u8, backlight: u8) -> Seq<BusEvent> {
    command_events(addr, backlight, LCD_CLEARDISPLAY) + seq![delay_ev(5000)]
}

/// The event sequence of `print_at`: the cursor move when the position
/// is valid (a silent no-op otherwise), then the text.
pub open spec fn print_at_events(addr: u8, backlight: u8, col: u8, row: u8, bytes: Seq<u8>) -> Seq<BusEvent> {
    (if col < 16 && row < 2 {
        set_cursor_events(addr, backlight, col, row)
    } else {
        Seq::<BusEvent>::empty()
    }) + print_events(addr, backlight, bytes)
}

/// The fixed candidate expander addresses, in probe order.
pub open spec fn candidates() -> Seq<u8> {
    seq![0x27u8, 0x3Fu8, 0x20u8, 0x38u8]
}

/// The first `n` candidates probed with a zero-effect write, none
/// acknowledged.
pub open spec fn failed_probes(n: int) -> Seq<BusEvent> {
    Seq::new(n as nat, |i: int| BusEvent::Write { addr: candidates()[i], data: 0x00, acked: false })
}

/// The exact trace of the address scan: probes stop at the first
/// acknowledging candidate, which is returned; if none acknowledges, all
/// four probes are in the log and the scan reports no device.
pub open spec fn scan_trace(s: Seq<BusEvent>, r: Result<u8, crate::hal::LcdError>) -> bool {
    match r {
        Ok(addr) => exists|i: int|
            0 <= i < 4 && addr == candidates()[i] && s == failed_probes(i).push(
                BusEvent::Write { addr: candidates()[i], data: 0x00, acked: true },
            ),
        Err(e) => e == crate::hal::LcdError::DeviceNotFound && s == failed_probes(4),
    }
}

/// The backlight liveness check: all control bits low, settle, backlight
/// on again, settle.
pub open spec fn backlight_events(addr: u8) -> Seq<BusEvent> {
    seq![
        write_ev(addr, 0x00),
        delay_ev(100000),
        write_ev(addr, BACKLIGHT),
        delay_ev(100000),
    ]
}

/// One latched reset nibble followed by its settle delay.
pub open spec fn reset_nibble_events(addr: u8, nib: u8, micros: u64) -> Seq<BusEvent> {
    (seq![write_ev(addr, nib)] + pulse_events(addr, nib)) + seq![delay_ev(micros)]
}

/// The cold-reset stage: a zeroing write, then the documented recovery
/// handshake of three 8-bit-mode-select nibbles at decreasing delays,
/// then the single 4-bit-mode-select nibble.
pub open spec fn reset_stage_events(addr: u8) -> Seq<BusEvent> {
    ((((seq![write_ev(addr, 0x00)] + seq![delay_ev(10000)]) + reset_nibble_events(
        addr,
        0x30 | BACKLIGHT,
        50000,
    )) + reset_nibble_events(addr, 0x30 | BACKLIGHT, 10000)) + reset_nibble_events(
        addr,
        0x30 | BACKLIGHT,
        5000,
    )) + reset_nibble_events(addr, 0x20 | BACKLIGHT, 5000)
}

/// The function-set command that confirms 4-bit, 2-line, 5x8-font mode.
pub open spec fn function_set_cmd() -> u8 {
    LCD_FUNCTIONSET | LCD_4BITMODE | LCD_2LINE | LCD_5X8DOTS
}

/// What initialization does before its first reset attempt: a power-on
/// settle delay and the backlight liveness check.
pub open spec fn init_preamble(addr: u8) -> Seq<BusEvent> {
    seq![delay_ev(200000)] + backlight_events(addr)
}

/// The command sequence issued once the function set is confirmed:
/// display off, clear (plus settle), entry mode, display on.
pub open spec fn init_tail_events(addr: u8, bl: u8) -> Seq<BusEvent> {
    (((command_events(addr, bl, LCD_DISPLAYCONTROL | LCD_DISPLAYOFF) + command_events(
        addr,
        bl,
        LCD_CLEARDISPLAY,
    )) + seq![delay_ev(10000)]) + command_events(
        addr,
        bl,
        LCD_ENTRYMODESET | LCD_ENTRYLEFT | LCD_ENTRYSHIFTDECREMENT,
    )) + command_events(addr, bl, LCD_DISPLAYCONTROL | LCD_DISPLAYON | LCD_CURSOROFF | LCD_BLINKOFF)
}

/// Reset attempt number `n` (counted from 1) whose function-set
/// confirmation was cut short, followed by its growing backoff delay.
pub open spec fn failed_confirm_attempt(s: Seq<BusEvent>, addr: u8, bl: u8, n: int) -> bool {
    exists|t: Seq<BusEvent>|
        is_abort_of(t, command_events(addr, bl, function_set_cmd())) && s == (reset_stage_events(
            addr,
        ) + t) + seq![delay_ev((100000 * n) as u64)]
}

/// `n` failed confirmation attempts in a row.
pub open spec fn failed_confirms(s: Seq<BusEvent>, addr: u8, bl: u8, n: int) -> bool
    decreases n,
{
    if n <= 0 {
        s == Seq::<BusEvent>::empty()
    } else {
        exists|x: Seq<BusEvent>, y: Seq<BusEvent>|
            s == x + y && failed_confirms(x, addr, bl, n - 1) && failed_confirm_attempt(
                y,
                addr,
                bl,
                n,
            )
    }
}

/// A complete successful initialization: preamble, up to two failed
/// confirmation attempts, a reset stage whose function set confirmed,
/// then the tail command sequence.
pub open spec fn init_success_trace(s: Seq<BusEvent>, addr: u8, bl: u8) -> bool {
    exists|f: Seq<BusEvent>, n: int|
        0 <= n <= 2 && failed_confirms(f, addr, bl, n) && s == (((init_preamble(addr) + f)
            + reset_stage_events(addr)) + command_events(addr, bl, function_set_cmd()))
            + init_tail_events(addr, bl)
}

/// A failed initialization: cut short in the preamble, cut short in a
/// reset stage, three confirmation attempts exhausted, or cut short in
/// the tail sequence.
pub open spec fn init_fail_trace(s: Seq<BusEvent>, addr: u8, bl: u8) -> bool {
    (exists|t: Seq<BusEvent>| is_abort_of(t, init_preamble(addr)) && s == t) || (exists|
        f: Seq<BusEvent>,
        n: int,
        t: Seq<BusEvent>,
    |
        0 <= n <= 2 && failed_confirms(f, addr, bl, n) && is_abort_of(t, reset_stage_events(addr))
            && s == (init_preamble(addr) + f) + t) || (exists|f: Seq<BusEvent>|
        failed_confirms(f, addr, bl, 3) && s == init_preamble(addr) + f) || (exists|
        f: Seq<BusEvent>,
        n: int,
        t: Seq<BusEvent>,
    |
        0 <= n <= 2 && failed_confirms(f, addr, bl, n) && is_abort_of(t, init_tail_events(addr, bl))
            && s == (((init_preamble(addr) + f) + reset_stage_events(addr)) + command_events(
            addr,
            bl,
            function_set_cmd(),
        )) + t)
}

/// The trace of one initialization run, by outcome.
pub open spec fn init_trace(s: Seq<BusEvent>, addr: u8, bl: u8, ok: bool) -> bool {
    if ok {
        init_success_trace(s, addr, bl)
    } else {
        init_fail_trace(s, addr, bl)
    }
}

/// Construction-level failed initializer attempt number `n` (counted
/// from 1): a failed run followed by its backoff delay.
pub open spec fn failed_init_attempt_block(s: Seq<BusEvent>, addr: u8, bl: u8, n: int) -> bool {
    exists|t: Seq<BusEvent>|
        init_fail_trace(t, addr, bl) && s == t + seq![delay_ev((100000 * n) as u64)]
}

/// `n` failed construction-level initializer attempts in a row.
pub open spec fn failed_init_attempts(s: Seq<BusEvent>, addr: u8, bl: u8, n: int) -> bool
    decreases n,
{
    if n <= 0 {
        s == Seq::<BusEvent>::empty()
    } else {
        exists|x: Seq<BusEvent>, y: Seq<BusEvent>|
            s == x + y && failed_init_attempts(x, addr, bl, n - 1) && failed_init_attempt_block(
                y,
                addr,
                bl,
                n,
            )
    }
}

/// A successful construction: the scan found `addr`, at most two
/// initializer attempts failed, then one succeeded.
pub open spec fn construct_ok_trace(s: Seq<BusEvent>, addr: u8) -> bool {
    exists|p: Seq<BusEvent>, f: Seq<BusEvent>, t: Seq<BusEvent>, m: int|
        0 <= m <= 2 && scan_trace(p, Ok(addr)) && failed_init_attempts(f, addr, BACKLIGHT, m)
            && init_success_trace(t, addr, BACKLIGHT) && s == (p + f) + t
}

/// A failed construction: either no candidate acknowledged (and nothing
/// but the four probes was sent), or the scan found a device and all
/// three initializer attempts failed.
pub open spec fn construct_fail_trace(s: Seq<BusEvent>, e: crate::hal::LcdError) -> bool {
    if e == crate::hal::LcdError::DeviceNotFound {
        scan_trace(s, Err(crate::hal::LcdError::DeviceNotFound))
    } else if e == crate::hal::LcdError::InitializationFailed {
        exists|p: Seq<BusEvent>, f: Seq<BusEvent>, addr: u8|
            scan_trace(p, Ok(addr)) && failed_init_attempts(f, addr, BACKLIGHT, 3) && s == p + f
    } else {
        false
    }
}

/// Printing a concatenation is printing both parts in order.
pub proof fn lemma_print_events_append(addr: u8, backlight: u8, x: Seq<u8>, y: Seq<u8>)
    ensures
        print_events(addr, backlight, x + y) == print_events(addr, backlight, x) + print_events(
            addr,
            backlight,
            y,
        ),
    decreases x.len(),
{
    if x.len() == 0 {
        assert(x + y =~= y);
        assert(Seq::<BusEvent>::empty() + print_events(addr, backlight, y) =~= print_events(
            addr,
            backlight,
            y,
        ));
    } else {
        assert((x + y).drop_first() =~= x.drop_first() + y);
        assert((x + y)[0] == x[0]);
        lemma_print_events_append(addr, backlight, x.drop_first(), y);
        assert(data_events(addr, backlight, x[0]) + (print_events(addr, backlight, x.drop_first())
            + print_events(addr, backlight, y)) =~= (data_events(addr, backlight, x[0])
            + print_events(addr, backlight, x.drop_first())) + print_events(addr, backlight, y));
    }
}

/// Appending one byte to the text appends its data transaction.
pub proof fn lemma_print_events_snoc(addr: u8, backlight: u8, bytes: Seq<u8>, b: u8)
    ensures
        print_events(addr, backlight, bytes.push(b)) == print_events(addr, backlight, bytes)
            + data_events(addr, backlight, b),
{
    assert(bytes.push(b) =~= bytes + seq![b]);
    lemma_print_events_append(addr, backlight, bytes, seq![b]);
    assert(seq![b].drop_first() =~= Seq::<u8>::empty());
    assert(seq![b][0] == b);
    assert(print_events(addr, backlight, Seq::<u8>::empty()) == Seq::<BusEvent>::empty());
    assert(print_events(addr, backlight, seq![b]) == data_events(addr, backlight, b)
        + print_events(addr, backlight, seq![b].drop_first()));
    assert(data_events(addr, backlight, b) + Seq::<BusEvent>::empty() =~= data_events(
        addr,
        backlight,
        b,
    ));
    assert(print_events(addr, backlight, seq![b]) =~= data_events(addr, backlight, b));
}

/// Two operations in sequence, the first complete: their planned traces
/// concatenate, and the outcome is that of the second.
pub proof fn lemma_op_trace_step(
    pre: Seq<BusEvent>,
    mid: Seq<BusEvent>,
    post: Seq<BusEvent>,
    a: Seq<BusEvent>,
    b: Seq<BusEvent>,
    ok: bool,
)
    requires
        op_trace(pre, mid, a, true),
        op_trace(mid, post, b, ok),
    ensures
        op_trace(pre, post, a + b, ok),
{
    if ok {
        assert(post =~= pre + (a + b));
    } else {
        let s = choose|s: Seq<BusEvent>| is_abort_of(s, b) && post == mid + s;
        let k = choose|k: int| 0 <= k < b.len() && (b[k] is Write) && s == abort_at(b, k);
        assert((a + b).take(a.len() + k) =~= a + b.take(k));
        assert((a + b)[a.len() + k] == b[k]);
        assert(abort_at(a + b, a.len() + k) =~= a + abort_at(b, k));
        assert(post =~= pre + abort_at(a + b, a.len() + k));
    }
}

/// An operation that was cut short stays cut short when later events
/// that never happened are appended to its plan.
pub proof fn lemma_op_trace_abort_left(
    pre: Seq<BusEvent>,
    post: Seq<BusEvent>,
    a: Seq<BusEvent>,
    b: Seq<BusEvent>,
)
    requires
        op_trace(pre, post, a, false),
    ensures
        op_trace(pre, post, a + b, false),
{
    let s = choose|s: Seq<BusEvent>| is_abort_of(s, a) && post == pre + s;
    let k = choose|k: int| 0 <= k < a.len() && (a[k] is Write) && s == abort_at(a, k);
    assert((a + b).take(k) =~= a.take(k));
    assert((a + b)[k] == a[k]);
    assert(abort_at(a + b, k) =~= abort_at(a, k));
}

/// A single recorded event is a complete operation whose plan is that event.
pub proof fn lemma_push_is_trace(pre: Seq<BusEvent>, e: BusEvent)
    ensures
        op_trace(pre, pre.push(e), seq![e], true),
{
    assert(pre.push(e) =~= pre + seq![e]);
}

/// A single write that got no acknowledge is the aborted form of the
/// single-write plan.
pub proof fn lemma_failed_write_is_abort(pre: Seq<BusEvent>, addr: u8, data: u8)
    ensures
        op_trace(
            pre,
            pre.push(BusEvent::Write { addr, data, acked: false }),
            seq![write_ev(addr, data)],
            false,
        ),
{
    let full = seq![write_ev(addr, data)];
    assert(abort_at(full, 0) =~= seq![BusEvent::Write { addr, data, acked: false }]);
    assert(pre.push(BusEvent::Write { addr, data, acked: false }) =~= pre + abort_at(full, 0));
}

} // verus!
