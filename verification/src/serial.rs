//! The console of a Linux guest: the part of a PL011 UART that a Linux driver needs.

use crate::bytes::{
    answer_bytes, byte_limit, fill_u32, lemma_answer_has_the_bytes_of_the_value,
    lemma_le_value_bound, lemma_widen_then_bytes, widen, widened, ByteOrder,
};
use crate::text::{occurs_in, str_contains, string_push, text_of};
use std::collections::VecDeque;
use vstd::prelude::*;
use vstd::utf8::encode_utf8;

verus! {

/// The address of the UART.
pub const UART_BASE: u64 = 0xeffe_c000;

/// The size of the UART's registers.
pub const UART_SIZE: u64 = 0x1000;

/// The interrupt of the UART.
pub const UART_INTID: u32 = 33;

/// The receive interrupt and the receive timeout interrupt.
pub const PL011_INT_RX_RT: u32 = 0x50;

/// How long a line of output may become before it is broken, in bytes of UTF-8.
pub const LINE_LIMIT: usize = 4096;

/// The state of the console.
pub ghost struct SerialView {
    /// The line of output so far.
    pub line: Seq<char>,
    /// Input that the guest has not read yet.
    pub input: Seq<u8>,
    /// The interrupt mask register.
    pub interrupt_mask: u32,
    /// Whether the interrupt is asserted.
    pub interrupt_asserted: bool,
    /// The text in a line by which the guest passes.
    pub success_marker: Option<Seq<char>>,
    /// Whether the guest has passed.
    pub completed: bool,
    /// Whether output is passed through byte by byte.
    pub raw_output: bool,
    /// Whether output is passed on at once, because someone is typing.
    pub raw_interactive: bool,
    /// The byte order of the host.
    pub order: ByteOrder,
}

impl SerialView {
    /// Nothing has been typed or printed yet.
    pub open spec fn fresh(
        success_marker: Option<Seq<char>>,
        raw_output: bool,
        order: ByteOrder,
    ) -> SerialView {
        SerialView {
            line: Seq::empty(),
            input: Seq::empty(),
            interrupt_mask: 0,
            interrupt_asserted: false,
            success_marker,
            completed: false,
            raw_output,
            raw_interactive: false,
            order,
        }
    }

    /// There is input, and the guest wants to be told.
    pub open spec fn interrupt_level(self) -> bool {
        self.input.len() > 0 && self.interrupt_mask & PL011_INT_RX_RT != 0
    }

    /// The state with the interrupt as input and mask demand.
    pub open spec fn with_interrupt(self) -> SerialView {
        SerialView { interrupt_asserted: self.interrupt_level(), ..self }
    }

    /// How the interrupt changes when it follows input and mask.
    pub open spec fn interrupt_change(self) -> Option<bool> {
        if self.interrupt_level() == self.interrupt_asserted {
            None
        } else {
            Some(self.interrupt_level())
        }
    }

    /// The value of the register at `offset`.
    pub open spec fn register(self, offset: int) -> u32 {
        let pending = self.input.len() > 0;
        if offset == 0x00 {
            // The data register.
            if pending {
                self.input[0] as u32
            } else {
                0
            }
        } else if offset == 0x18 {
            // The flags: there is always room for output.
            if pending {
                0x80
            } else {
                0x90
            }
        } else if offset == 0x38 {
            // The interrupt mask.
            self.interrupt_mask
        } else if offset == 0x3c {
            // The raw interrupt status.
            if pending {
                PL011_INT_RX_RT
            } else {
                0
            }
        } else if offset == 0x40 {
            // The masked interrupt status.
            if pending {
                self.interrupt_mask & PL011_INT_RX_RT
            } else {
                0
            }
        } else {
            0
        }
    }

    /// What a read of `n` bytes of a register is answered with.
    pub open spec fn answer(self, offset: int, n: nat) -> Seq<u8> {
        answer_bytes(self.register(offset), self.order, n)
    }

    /// The state after input has come in, before the interrupt follows.
    pub open spec fn queued(self, input: Seq<u8>) -> SerialView {
        SerialView { input: self.input + input, raw_interactive: self.raw_output, ..self }
    }

    /// The state after a read, before the interrupt follows: a read of the data register takes a
    /// byte of input.
    pub open spec fn taken(self, offset: int) -> SerialView {
        if offset == 0x00 && self.input.len() > 0 {
            SerialView { input: self.input.drop_first(), ..self }
        } else {
            self
        }
    }

    /// The state after a new interrupt mask, before the interrupt follows.
    pub open spec fn masked(self, value: nat) -> SerialView {
        SerialView { interrupt_mask: (value % 0x1_0000_0000) as u32, ..self }
    }

    /// The byte joins the line.
    pub open spec fn extends_line(self, byte: u8) -> bool {
        byte != 10 && encode_utf8(self.line).len() < LINE_LIMIT
    }

    /// The line at its end shows that the guest has passed, and it is the first one to do so.
    pub open spec fn line_passes(self) -> bool {
        !self.completed && (self.success_marker matches Some(marker) && occurs_in(
            marker,
            self.line,
        ))
    }

    /// The state after a byte of output. A carriage return is ignored. A line ends at a line feed,
    /// and where it has reached its limit, at the byte that no longer fits, which is dropped.
    pub open spec fn printed(self, byte: u8) -> SerialView {
        if byte == 13 {
            self
        } else if self.extends_line(byte) {
            SerialView { line: self.line.push(byte as char), ..self }
        } else {
            SerialView {
                line: Seq::empty(),
                completed: self.completed || self.line_passes(),
                ..self
            }
        }
    }

    /// The byte that is passed through, and whether it is to be seen at once.
    pub open spec fn echoed(self, byte: u8) -> Option<(u8, bool)> {
        if byte != 13 && self.raw_output {
            Some((byte, self.raw_interactive || byte == 10))
        } else {
            None
        }
    }

    /// The line that a byte of output ends, where it is not passed through already.
    pub open spec fn logged(self, byte: u8) -> Option<Seq<char>> {
        if byte != 13 && !self.extends_line(byte) && self.line.len() > 0 && !self.raw_output {
            Some(self.line)
        } else {
            None
        }
    }

    /// The byte of output ends the line by which the guest passes.
    pub open spec fn completes(self, byte: u8) -> bool {
        byte != 13 && !self.extends_line(byte) && self.line_passes()
    }

    /// What a write asks for.
    pub open spec fn write_effect(self, offset: int, data: Seq<u8>) -> UartWriteView {
        if offset == 0x38 {
            UartWriteView {
                interrupt: self.masked(widened(data, self.order)).interrupt_change(),
                ..UartWriteView::nothing()
            }
        } else if offset == 0x44 {
            UartWriteView { interrupt: self.interrupt_change(), ..UartWriteView::nothing() }
        } else if offset != 0x00 || data.len() == 0 {
            UartWriteView::nothing()
        } else {
            UartWriteView {
                interrupt: None,
                echo: self.echoed(data[0]),
                log: self.logged(data[0]),
                complete: self.completes(data[0]),
            }
        }
    }

    /// The state after a write.
    pub open spec fn written(self, offset: int, data: Seq<u8>) -> SerialView {
        if offset == 0x38 {
            self.masked(widened(data, self.order)).with_interrupt()
        } else if offset == 0x44 {
            self.with_interrupt()
        } else if offset != 0x00 || data.len() == 0 {
            self
        } else {
            self.printed(data[0])
        }
    }
}

/// What a write to the UART asks for.
pub ghost struct UartWriteView {
    /// The new level of the interrupt.
    pub interrupt: Option<bool>,
    /// The byte to pass through, and whether it is to be seen at once.
    pub echo: Option<(u8, bool)>,
    /// The line to log.
    pub log: Option<Seq<char>>,
    /// Whether the guest has passed.
    pub complete: bool,
}

impl UartWriteView {
    /// Nothing is asked for.
    pub open spec fn nothing() -> UartWriteView {
        UartWriteView { interrupt: None, echo: None, log: None, complete: false }
    }
}

/// What a write to the UART asks for.
#[derive(Debug)]
pub struct UartWrite {
    /// The new level of the interrupt.
    pub interrupt: Option<bool>,
    /// The byte to pass through, and whether it is to be seen at once.
    pub echo: Option<(u8, bool)>,
    /// The line to log.
    pub log: Option<String>,
    /// Whether the guest has passed.
    pub complete: bool,
}

impl View for UartWrite {
    type V = UartWriteView;

    open spec fn view(&self) -> UartWriteView {
        UartWriteView {
            interrupt: self.interrupt,
            echo: self.echo,
            log: text_of(self.log),
            complete: self.complete,
        }
    }
}

impl UartWrite {
    fn nothing() -> (w: Self)
        ensures
            w@ == UartWriteView::nothing(),
    {
        UartWrite { interrupt: None, echo: None, log: None, complete: false }
    }
}

/// An address is one of the UART's.
pub open spec fn in_uart(address: u64) -> bool {
    UART_BASE <= address < UART_BASE + UART_SIZE
}

/// The console.
#[derive(Debug)]
pub struct SerialDevice {
    line: String,
    input: VecDeque<u8>,
    interrupt_mask: u32,
    interrupt_asserted: bool,
    success_marker: Option<String>,
    completed: bool,
    raw_output: bool,
    raw_interactive: bool,
    order: ByteOrder,
}

impl View for SerialDevice {
    type V = SerialView;

    closed spec fn view(&self) -> SerialView {
        SerialView {
            line: self.line@,
            input: self.input@,
            interrupt_mask: self.interrupt_mask,
            interrupt_asserted: self.interrupt_asserted,
            success_marker: text_of(self.success_marker),
            completed: self.completed,
            raw_output: self.raw_output,
            raw_interactive: self.raw_interactive,
            order: self.order,
        }
    }
}

impl SerialDevice {
    /// The interrupt follows input and mask, and the line keeps to its limit.
    pub open spec fn wf(&self) -> bool {
        &&& self@.interrupt_asserted == self@.interrupt_level()
        &&& encode_utf8(self@.line).len() <= LINE_LIMIT + 1
    }

    /// A console that nothing has been typed or printed on.
    pub fn new(success_marker: Option<String>, raw_output: bool, order: ByteOrder) -> (s: Self)
        ensures
            s.wf(),
            s@ == SerialView::fresh(text_of(success_marker), raw_output, order),
    {
        let s = SerialDevice {
            line: String::new(),
            input: VecDeque::new(),
            interrupt_mask: 0,
            interrupt_asserted: false,
            success_marker,
            completed: false,
            raw_output,
            raw_interactive: false,
            order,
        };
        proof {
            reveal_with_fuel(encode_utf8, 1);
        }
        s
    }

    /// Lets the interrupt follow input and mask, and returns its new level where it changes.
    fn update_interrupt(&mut self) -> (update: Option<bool>)
        ensures
            final(self)@ == old(self)@.with_interrupt(),
            update == old(self)@.interrupt_change(),
    {
        let asserted = self.input.len() != 0 && self.interrupt_mask & PL011_INT_RX_RT != 0;
        if asserted == self.interrupt_asserted {
            return None;
        }
        self.interrupt_asserted = asserted;
        Some(asserted)
    }

    /// Takes input for the guest, and returns the new level of the interrupt where it changes.
    pub fn queue_input(&mut self, input: &[u8]) -> (update: Option<bool>)
        requires
            old(self).wf(),
        ensures
            final(self).wf(),
            final(self)@ == old(self)@.queued(input@).with_interrupt(),
            update == old(self)@.queued(input@).interrupt_change(),
    {
        self.raw_interactive = self.raw_output;
        let ghost start = self@;
        let mut i: usize = 0;
        while i < input.len()
            invariant
                i <= input@.len(),
                self@ == (SerialView { input: start.input + input@.take(i as int), ..start }),
            decreases input@.len() - i,
        {
            self.input.push_back(input[i]);
            assert(input@.take(i + 1) =~= input@.take(i as int).push(input@[i as int]));
            i = i + 1;
            assert(self@.input =~= start.input + input@.take(i as int));
        }
        assert(input@.take(i as int) =~= input@);
        self.update_interrupt()
    }

    /// Answers a read, unless the address is not one of the UART's; and returns the new level of
    /// the interrupt where it changes.
    pub fn read_uart(&mut self, address: u64, data: &mut [u8]) -> (r: Option<Option<bool>>)
        requires
            old(self).wf(),
        ensures
            final(self).wf(),
            !in_uart(address) ==> r is None && *final(self) == *old(self) && final(data)@ == old(
                data,
            )@,
            in_uart(address) ==> {
                let offset = address - UART_BASE;
                &&& r == Some(old(self)@.taken(offset).interrupt_change())
                &&& final(self)@ == old(self)@.taken(offset).with_interrupt()
                &&& final(data)@ == old(self)@.answer(offset, old(data)@.len())
            },
    {
        let offset: u64 = match address.checked_sub(UART_BASE) {
            Some(offset) => offset,
            None => {
                return None;
            },
        };
        if offset >= UART_SIZE {
            return None;
        }
        let pending = self.input.len() != 0;
        let value: u32 = if offset == 0x00 {
            match self.input.pop_front() {
                Some(byte) => byte as u32,
                None => 0,
            }
        } else if offset == 0x18 {
            if pending {
                0x80
            } else {
                0x90
            }
        } else if offset == 0x38 {
            self.interrupt_mask
        } else if offset == 0x3c {
            if pending {
                PL011_INT_RX_RT
            } else {
                0
            }
        } else if offset == 0x40 {
            if pending {
                self.interrupt_mask & PL011_INT_RX_RT
            } else {
                0
            }
        } else {
            0
        };
        assert(self@ =~= old(self)@.taken(offset as int));
        let update = self.update_interrupt();
        fill_u32(data, value, self.order);
        Some(update)
    }

    /// Takes a write, unless the address is not one of the UART's.
    pub fn write_uart(&mut self, address: u64, data: &[u8]) -> (r: Option<UartWrite>)
        requires
            old(self).wf(),
            address == UART_BASE + 0x38 ==> data@.len() <= 8,
        ensures
            final(self).wf(),
            !in_uart(address) ==> r is None && *final(self) == *old(self),
            in_uart(address) ==> (r matches Some(w) && w@ == old(self)@.write_effect(
                address - UART_BASE,
                data@,
            ) && final(self)@ == old(self)@.written(address - UART_BASE, data@)),
    {
        let offset: u64 = match address.checked_sub(UART_BASE) {
            Some(offset) => offset,
            None => {
                return None;
            },
        };
        if offset >= UART_SIZE {
            return None;
        }
        if offset == 0x38 {
            self.interrupt_mask = (widen(data, self.order) % 0x1_0000_0000) as u32;
            let interrupt = self.update_interrupt();
            return Some(UartWrite { interrupt, echo: None, log: None, complete: false });
        }
        if offset == 0x44 {
            let interrupt = self.update_interrupt();
            return Some(UartWrite { interrupt, echo: None, log: None, complete: false });
        }
        if offset != 0x00 || data.len() == 0 {
            return Some(UartWrite::nothing());
        }
        Some(self.print(data[0]))
    }

    /// Prints a byte.
    fn print(&mut self, byte: u8) -> (w: UartWrite)
        requires
            old(self).wf(),
        ensures
            final(self).wf(),
            final(self)@ == old(self)@.printed(byte),
            w@ == (UartWriteView {
                interrupt: None,
                echo: old(self)@.echoed(byte),
                log: old(self)@.logged(byte),
                complete: old(self)@.completes(byte),
            }),
    {
        if byte == 13 {
            return UartWrite::nothing();
        }
        let echo = if self.raw_output {
            Some((byte, self.raw_interactive || byte == 10))
        } else {
            None
        };
        if byte != 10 && self.line.as_str().len() < LINE_LIMIT {
            proof {
                lemma_encode_push(self.line@, byte as char);
                lemma_byte_is_short(byte);
            }
            string_push(&mut self.line, byte as char);
            return UartWrite { interrupt: None, echo, log: None, complete: false };
        }
        let passes = match &self.success_marker {
            None => false,
            Some(marker) => !self.completed && str_contains(self.line.as_str(), marker.as_str()),
        };
        if passes {
            self.completed = true;
        }
        let mut line = String::new();
        core::mem::swap(&mut line, &mut self.line);
        let log = if !line.as_str().is_empty() && !self.raw_output {
            Some(line)
        } else {
            None
        };
        proof {
            reveal_with_fuel(encode_utf8, 1);
        }
        UartWrite { interrupt: None, echo, log, complete: passes }
    }
}

proof fn lemma_encode_push(s: Seq<char>, c: char)
    ensures
        encode_utf8(s.push(c)) == encode_utf8(s) + vstd::utf8::encode_scalar(c as u32),
    decreases s.len(),
{
    reveal_with_fuel(encode_utf8, 2);
    if s.len() == 0 {
        assert(s.push(c).drop_first() =~= Seq::empty());
        assert(encode_utf8(s.push(c)) =~= encode_utf8(s) + vstd::utf8::encode_scalar(c as u32));
    } else {
        assert(s.push(c).drop_first() =~= s.drop_first().push(c));
        lemma_encode_push(s.drop_first(), c);
        assert(encode_utf8(s.push(c)) =~= encode_utf8(s) + vstd::utf8::encode_scalar(c as u32));
    }
}

proof fn lemma_byte_is_short(byte: u8)
    ensures
        vstd::utf8::encode_scalar(byte as char as u32).len() <= 2,
{
}

/// The state after `n` reads of the data register.
pub open spec fn after_reads(state: SerialView, n: nat) -> SerialView
    decreases n,
{
    if n == 0 {
        state
    } else {
        after_reads(state, (n - 1) as nat).taken(0).with_interrupt()
    }
}

/// The state after some bytes of output.
pub open spec fn after_output(state: SerialView, bytes: Seq<u8>) -> SerialView
    decreases bytes.len(),
{
    if bytes.len() == 0 {
        state
    } else {
        after_output(state, bytes.drop_last()).printed(bytes.last())
    }
}

/// How often some bytes of output report that the guest has passed.
pub open spec fn completions(state: SerialView, bytes: Seq<u8>) -> nat
    decreases bytes.len(),
{
    if bytes.len() == 0 {
        0
    } else {
        completions(state, bytes.drop_last()) + if after_output(state, bytes.drop_last()).completes(
            bytes.last(),
        ) {
            1nat
        } else {
            0nat
        }
    }
}

/// The characters that output bytes stand for.
pub open spec fn characters(bytes: Seq<u8>) -> Seq<char> {
    bytes.map_values(|b: u8| b as char)
}

/// On a little-endian host, an interrupt mask that was written reads back as it was written.
pub proof fn lemma_mask_reads_back(state: SerialView, data: Seq<u8>)
    requires
        state.order == ByteOrder::Little,
        data.len() == 4,
    ensures
        state.written(0x38, data).answer(0x38, 4) == data,
{
    lemma_le_value_bound(data);
    reveal_with_fuel(byte_limit, 5);
    let answer = state.written(0x38, data).answer(0x38, 4);
    assert forall|i: int| 0 <= i < 4 implies answer[i] == data[i] by {
        lemma_widen_then_bytes(data, i as nat);
    }
    assert(answer =~= data);
}

/// Input is read in the order in which it came in, every byte once, and the interrupt is gone with
/// the last byte.
pub proof fn lemma_input_is_read_in_order(state: SerialView, n: nat)
    requires
        n <= state.input.len(),
    ensures
        after_reads(state, n).input == state.input.skip(n as int),
        n < state.input.len() ==> after_reads(state, n).register(0) == state.input[n as int],
        n == state.input.len() && n > 0 ==> !after_reads(state, n).interrupt_asserted,
    decreases n,
{
    if n > 0 {
        lemma_input_is_read_in_order(state, (n - 1) as nat);
        assert(state.input.skip(n - 1).drop_first() =~= state.input.skip(n as int));
    } else {
        assert(state.input.skip(0) =~= state.input);
    }
}

/// However much the guest prints, it passes at most once, and not again once it has passed.
pub proof fn lemma_guest_passes_once(state: SerialView, bytes: Seq<u8>)
    ensures
        completions(state, bytes) <= 1,
        state.completed ==> completions(state, bytes) == 0,
        after_output(state, bytes).completed <==> state.completed || completions(state, bytes) == 1,
    decreases bytes.len(),
{
    if bytes.len() > 0 {
        lemma_guest_passes_once(state, bytes.drop_last());
    }
}

/// A printed line that keeps to the limit is logged as it is at its line feed, and the guest passes
/// exactly if the line holds the marker and the guest has not passed before.
pub proof fn lemma_line_is_logged(state: SerialView, bytes: Seq<u8>)
    requires
        state.line.len() == 0,
        forall|i: int| 0 <= i < bytes.len() ==> bytes[i] != 10 && bytes[i] != 13,
        encode_utf8(characters(bytes)).len() <= LINE_LIMIT,
    ensures
        after_output(state, bytes) == (SerialView { line: characters(bytes), ..state }),
        !state.raw_output && bytes.len() > 0 ==> after_output(state, bytes).logged(10) == Some(
            characters(bytes),
        ),
        after_output(state, bytes).completes(10) <==> (!state.completed && (
        state.success_marker matches Some(marker) && occurs_in(marker, characters(bytes)))),
    decreases bytes.len(),
{
    if bytes.len() == 0 {
        assert(state.line =~= characters(bytes));
    } else {
        let front = bytes.drop_last();
        let last = bytes.last() as char;
        assert(characters(bytes) =~= characters(front).push(last));
        lemma_encode_push(characters(front), last);
        lemma_line_is_logged(state, front);
    }
}

/// The interrupt line to set for a change of the UART's interrupt.
pub fn spi_update(update: Option<bool>) -> (r: Option<(u32, bool)>)
    ensures
        r == match update {
            Some(asserted) => Some((UART_INTID, asserted)),
            None => None,
        },
{
    match update {
        Some(asserted) => Some((UART_INTID, asserted)),
        None => None,
    }
}

/// With input, the interrupt is wanted exactly if the receive bit or the receive timeout bit of the
/// mask is set, or both, which is when the masked status register is not zero; without input it is
/// not. Setting more bits of the mask never takes it away.
pub proof fn lemma_interrupt_follows_input_and_mask(state: SerialView, more: u32)
    ensures
        state.interrupt_level() <==> state.input.len() > 0 && (state.interrupt_mask & 0x10 != 0
            || state.interrupt_mask & 0x40 != 0),
        state.interrupt_level() <==> state.register(0x40) != 0,
        state.interrupt_level() ==> (SerialView {
            interrupt_mask: state.interrupt_mask | more,
            ..state
        }).interrupt_level(),
{
    let mask = state.interrupt_mask;
    assert(PL011_INT_RX_RT == 0x50u32);
    assert((mask & 0x50u32 != 0) <==> (mask & 0x10u32 != 0 || mask & 0x40u32 != 0))
        by (bit_vector);
    assert(mask & 0x50u32 != 0 ==> (mask | more) & 0x50u32 != 0) by (bit_vector);
}

/// The interrupt is raised when it becomes wanted and lowered when it stops being wanted, and
/// nothing is said of it in between: what is said is the new level, and it is said exactly if it
/// differs from the level before. Nothing else of the state changes with it.
pub proof fn lemma_interrupt_changes_are_told(state: SerialView)
    ensures
        state.with_interrupt().interrupt_asserted == state.interrupt_level(),
        state.with_interrupt() == (SerialView {
            interrupt_asserted: state.with_interrupt().interrupt_asserted,
            ..state
        }),
        match state.interrupt_change() {
            Some(level) => level != state.interrupt_asserted && level
                == state.with_interrupt().interrupt_asserted,
            None => state.with_interrupt().interrupt_asserted == state.interrupt_asserted,
        },
{
}

/// The registers of the console agree with each other: the masked status is the raw status under
/// the mask; the raw status has both receive bits exactly if there is input; the flags say that
/// output is always taken, and say that input is empty exactly if it is; the data register has the
/// oldest byte of input, or nothing; all others read as zero.
pub proof fn lemma_registers_agree(state: SerialView, offset: int)
    ensures
        state.register(0x38) == state.interrupt_mask,
        state.register(0x3c) == if state.input.len() > 0 {
            0x50u32
        } else {
            0u32
        },
        state.register(0x40) == state.register(0x3c) & state.register(0x38),
        state.register(0x18) == if state.input.len() > 0 {
            0x80u32
        } else {
            0x90u32
        },
        state.input.len() > 0 ==> state.register(0) == state.input[0],
        state.input.len() == 0 ==> state.register(0) == 0,
        offset != 0x00 && offset != 0x18 && offset != 0x38 && offset != 0x3c && offset != 0x40
            ==> state.register(offset) == 0,
{
    let mask = state.interrupt_mask;
    assert(PL011_INT_RX_RT == 0x50u32);
    assert(mask & 0x50u32 == 0x50u32 & mask) by (bit_vector);
    assert(0u32 & mask == 0u32) by (bit_vector);
}

/// A fresh console has no input, no output, no interrupt and has not passed; input goes behind the
/// input that is there and makes raw output immediate; a read of the data register takes the oldest
/// byte and a read of any other register takes nothing.
pub proof fn lemma_input_queues(
    state: SerialView,
    input: Seq<u8>,
    offset: int,
    marker: Option<Seq<char>>,
    raw: bool,
    order: ByteOrder,
)
    ensures
        ({
            let fresh = SerialView::fresh(marker, raw, order);
            &&& fresh.line.len() == 0 && fresh.input.len() == 0 && fresh.interrupt_mask == 0
            &&& !fresh.interrupt_asserted && !fresh.completed && !fresh.raw_interactive
            &&& fresh.success_marker == marker && fresh.raw_output == raw && fresh.order == order
        }),
        state.queued(input).input.len() == state.input.len() + input.len(),
        state.queued(input).input.take(state.input.len() as int) == state.input,
        state.queued(input).input.skip(state.input.len() as int) == input,
        state.queued(input) == (SerialView {
            input: state.queued(input).input,
            raw_interactive: state.raw_output,
            ..state
        }),
        state.taken(offset) == (SerialView { input: state.taken(offset).input, ..state }),
        offset == 0 && state.input.len() > 0 ==> state.taken(offset).input == state.input.skip(1),
        offset != 0 || state.input.len() == 0 ==> state.taken(offset) == state,
{
    assert(state.queued(input).input.take(state.input.len() as int) =~= state.input);
    assert(state.queued(input).input.skip(state.input.len() as int) =~= input);
    if state.input.len() > 0 {
        assert(state.input.drop_first() =~= state.input.skip(1));
    }
}

/// A write does one thing by its register: the mask register takes the low 32 bits of the value,
/// the data register prints the first byte of the data, and any other write, and one without data,
/// changes neither the state nor anything else; the clear register only lets the interrupt follow.
pub proof fn lemma_writes_do_one_thing(state: SerialView, offset: int, data: Seq<u8>)
    requires
        state.interrupt_asserted == state.interrupt_level(),
    ensures
        ({
            let after = state.written(offset, data);
            let effect = state.write_effect(offset, data);
            &&& offset == 0x38 ==> {
                &&& after.interrupt_mask == widened(data, state.order) % 0x1_0000_0000
                &&& after.interrupt_asserted == after.interrupt_level()
                &&& after == (SerialView {
                    interrupt_mask: after.interrupt_mask,
                    interrupt_asserted: after.interrupt_asserted,
                    ..state
                })
                &&& effect.interrupt == if after.interrupt_asserted == state.interrupt_asserted {
                    None
                } else {
                    Some(after.interrupt_asserted)
                }
                &&& effect.echo is None && effect.log is None && !effect.complete
            }
            &&& offset == 0 && data.len() > 0 ==> {
                &&& after == state.printed(data[0])
                &&& effect.interrupt is None
                &&& effect.echo == state.echoed(data[0])
                &&& effect.log == state.logged(data[0])
                &&& effect.complete == state.completes(data[0])
            }
            &&& offset != 0x38 && (offset != 0 || data.len() == 0) ==> {
                &&& after == state
                &&& effect.interrupt is None && effect.echo is None && effect.log is None
                &&& !effect.complete
            }
        }),
{
}

/// What happens to a byte of output. A carriage return is nothing. A line feed ends the line, and
/// so does any other byte that finds 4096 bytes of UTF-8 in it, and is dropped; every other byte
/// joins the line as the character of its number. At its end a line is logged, unless it is empty
/// or was passed through already; and the guest passes, unless it has before, if the marker stands
/// in the line. A byte that is passed through is the byte itself, and is seen at once at a line
/// feed or when someone is typing.
pub proof fn lemma_output_byte(state: SerialView, byte: u8)
    ensures
        ({
            let after = state.printed(byte);
            let full = encode_utf8(state.line).len() >= 4096;
            &&& byte == 13 ==> {
                &&& after == state
                &&& state.echoed(byte) is None && state.logged(byte) is None
                &&& !state.completes(byte)
            }
            &&& byte != 13 ==> state.echoed(byte) == if state.raw_output {
                Some((byte, byte == 10 || state.raw_interactive))
            } else {
                None
            }
            &&& byte != 13 && byte != 10 && !full ==> {
                &&& after == (SerialView { line: after.line, ..state })
                &&& after.line.len() == state.line.len() + 1
                &&& after.line.drop_last() == state.line
                &&& after.line.last() == byte as char
                &&& state.logged(byte) is None && !state.completes(byte)
            }
            &&& byte == 10 || (byte != 13 && full) ==> {
                &&& after.line.len() == 0
                &&& after == (SerialView { line: after.line, completed: after.completed, ..state })
                &&& state.logged(byte) == if state.line.len() > 0 && !state.raw_output {
                    Some(state.line)
                } else {
                    None
                }
                &&& state.completes(byte) <==> !state.completed && (
                state.success_marker matches Some(marker) && exists|i: int|
                    0 <= i && i + marker.len() <= state.line.len() && #[trigger] state.line.subrange(
                        i,
                        i + marker.len(),
                    ) == marker)
                &&& after.completed <==> state.completed || state.completes(byte)
            }
        }),
{
    if byte != 13 && state.extends_line(byte) {
        assert(state.printed(byte).line.drop_last() =~= state.line);
    }
}

/// The bytes that some output passes through.
pub open spec fn echoes(state: SerialView, bytes: Seq<u8>) -> Seq<u8>
    decreases bytes.len(),
{
    if bytes.len() == 0 {
        Seq::empty()
    } else {
        let front = echoes(state, bytes.drop_last());
        match after_output(state, bytes.drop_last()).echoed(bytes.last()) {
            Some((byte, _)) => front.push(byte),
            None => front,
        }
    }
}

/// Raw output passes through every byte of output but the carriage returns, in order; output that
/// is not raw passes through none. Output disturbs neither the input nor the interrupt, nor how the
/// console was set up.
pub proof fn lemma_raw_output_passes_through(state: SerialView, bytes: Seq<u8>)
    ensures
        echoes(state, bytes) == if state.raw_output {
            bytes.filter(|b: u8| b != 13)
        } else {
            Seq::<u8>::empty()
        },
        ({
            let after = after_output(state, bytes);
            after == (SerialView { line: after.line, completed: after.completed, ..state })
        }),
    decreases bytes.len(),
{
    reveal(Seq::filter);
    if bytes.len() > 0 {
        lemma_raw_output_passes_through(state, bytes.drop_last());
        let before = after_output(state, bytes.drop_last());
        assert(before.raw_output == state.raw_output);
    }
}

/// The console has the 4096 addresses from 0xeffec000 on.
pub proof fn lemma_console_has_its_addresses(address: u64)
    ensures
        in_uart(address) <==> exists|offset: int|
            0 <= offset < 4096 && address == #[trigger] (0xeffe_c000 + offset),
{
    if in_uart(address) {
        let offset = address - 0xeffe_c000;
        assert(address == 0xeffe_c000 + offset);
    }
}

/// A read of at least four bytes has the value of the register, in the order of the host; it is
/// answered in full.
pub proof fn lemma_read_has_the_register(state: SerialView, offset: int, n: nat)
    requires
        n >= 4,
    ensures
        state.answer(offset, n).len() == n,
        ({
            let d = state.answer(offset, n);
            let (first, second, third, fourth) = if state.order == ByteOrder::Little {
                (d[0], d[1], d[2], d[3])
            } else {
                (d[3], d[2], d[1], d[0])
            };
            state.register(offset) == first + 0x100 * second + 0x1_0000 * third + 0x100_0000
                * fourth
        }),
        forall|i: int| 4 <= i < n ==> #[trigger] state.answer(offset, n)[i] == 0,
{
    let value = state.register(offset);
    lemma_answer_has_the_bytes_of_the_value(value, state.order, n, 0);
    lemma_answer_has_the_bytes_of_the_value(value, state.order, n, 1);
    lemma_answer_has_the_bytes_of_the_value(value, state.order, n, 2);
    lemma_answer_has_the_bytes_of_the_value(value, state.order, n, 3);
    assert forall|i: int| 4 <= i < n implies #[trigger] state.answer(offset, n)[i] == 0 by {
        lemma_answer_has_the_bytes_of_the_value(value, state.order, n, i);
    }
}

} // verus!
