//! Accesses of the guest to what is not memory.

use crate::bytes::{fill_ones, widen, widened, ByteOrder};
use crate::gic::PlatformGic;
use crate::serial::{in_uart, SerialDevice, UartWrite, UART_BASE, UART_SIZE};
use vstd::prelude::*;

verus! {

/// A write to this address hands a command to the monitor.
pub const COMMAND_ADDRESS: u64 = 0xffff_0000;

/// The devices of a 64-bit Arm guest.
#[derive(Debug)]
pub struct Devices {
    /// The interrupt controller.
    pub gic: PlatformGic,
    /// The console.
    pub serial: SerialDevice,
}

/// What follows a read.
#[derive(Clone, Copy, Debug, PartialEq, Eq, Structural)]
pub enum ReadStep {
    /// The interrupt controller is asked first.
    AskGic,
    /// Nothing answers; the data is all ones.
    Unclaimed,
}

/// What follows a read once the interrupt controller has been asked.
#[derive(Clone, Copy, Debug, PartialEq, Eq, Structural)]
pub enum ReadOutcome {
    /// The interrupt controller has answered.
    Gic,
    /// The console has answered, and its interrupt may have changed.
    Uart { interrupt: Option<bool> },
    /// Nothing answers; the data is all ones.
    Unclaimed,
}

/// What follows a write.
#[derive(Clone, Copy, Debug, PartialEq, Eq, Structural)]
pub enum WriteStep {
    /// The command at this address is handled.
    Command { gpa: u64 },
    /// The interrupt controller is asked first.
    AskGic,
    /// Nothing takes the value.
    Unclaimed { value: u64 },
}

/// What follows a write once the interrupt controller has been asked.
#[derive(Debug)]
pub enum WriteOutcome {
    /// The interrupt controller has taken the write.
    Gic,
    /// The console has taken the write.
    Uart(UartWrite),
    /// Nothing takes the value.
    Unclaimed { value: u64 },
}

/// Why a processor stops.
#[derive(Clone, Copy, Debug, PartialEq, Eq, Structural)]
pub enum VpHaltReason {
    /// A fault that cannot be delivered, at this trust level.
    TripleFault { vtl: u8 },
}

/// Takes the accesses of a guest.
#[derive(Debug)]
pub struct IoHandler {
    /// The byte order of the host.
    pub order: ByteOrder,
    /// The devices; an x86 guest has none.
    pub devices: Option<Devices>,
}

impl IoHandler {
    /// The console is well-formed.
    pub open spec fn wf(&self) -> bool {
        self.devices matches Some(devices) ==> devices.serial.wf()
    }

    /// The address is not memory.
    pub open spec fn mmio(&self, address: u64) -> bool {
        ||| address == COMMAND_ADDRESS
        ||| self.devices matches Some(devices) && (devices.gic.holds(address) || in_uart(address))
    }

    /// Tells whether an address is not memory.
    pub fn is_mmio(&self, address: u64) -> (b: bool)
        ensures
            b == self.mmio(address),
    {
        if address == COMMAND_ADDRESS {
            return true;
        }
        match &self.devices {
            Some(devices) => devices.gic.contains(address) || (UART_BASE <= address && address
                < UART_BASE + UART_SIZE),
            None => false,
        }
    }

    /// There is no legacy interrupt controller to acknowledge an interrupt.
    pub fn acknowledge_pic_interrupt(&self) -> (r: Option<u8>)
        ensures
            r is None,
    {
        None
    }

    /// Starts a read.
    pub fn read_mmio(&self, data: &mut [u8]) -> (step: ReadStep)
        ensures
            match self.devices {
                Some(_) => step == ReadStep::AskGic && final(data)@ == old(data)@,
                None => step == ReadStep::Unclaimed && final(data)@ == Seq::new(
                    old(data)@.len(),
                    |i: int| 0xffu8,
                ),
            },
    {
        match &self.devices {
            Some(_) => ReadStep::AskGic,
            None => {
                fill_ones(data);
                ReadStep::Unclaimed
            },
        }
    }

    /// Finishes a read; `handled` tells whether the interrupt controller has answered it.
    pub fn read_mmio_after_gic(&mut self, handled: bool, address: u64, data: &mut [u8]) -> (r:
        ReadOutcome)
        requires
            old(self).wf(),
            old(self).devices is Some,
        ensures
            final(self).wf(),
            final(self).devices is Some,
            final(self).order == old(self).order,
            final(self).devices->0.gic == old(self).devices->0.gic,
            ({
                let before = old(self).devices->0.serial;
                let after = final(self).devices->0.serial;
                let offset = address - UART_BASE;
                if handled {
                    &&& r == ReadOutcome::Gic
                    &&& after == before
                    &&& final(data)@ == old(data)@
                } else if in_uart(address) {
                    &&& r == (ReadOutcome::Uart {
                        interrupt: before@.taken(offset).interrupt_change(),
                    })
                    &&& after@ == before@.taken(offset).with_interrupt()
                    &&& final(data)@ == before@.answer(offset, old(data)@.len())
                } else {
                    &&& r == ReadOutcome::Unclaimed
                    &&& after == before
                    &&& final(data)@ == Seq::new(old(data)@.len(), |i: int| 0xffu8)
                }
            }),
    {
        if handled {
            return ReadOutcome::Gic;
        }
        match &mut self.devices {
            Some(devices) => {
                if let Some(interrupt) = devices.serial.read_uart(address, data) {
                    return ReadOutcome::Uart { interrupt };
                }
            },
            None => {},
        }
        fill_ones(data);
        ReadOutcome::Unclaimed
    }

    /// Starts a write.
    pub fn write_mmio(&self, address: u64, data: &[u8]) -> (step: WriteStep)
        requires
            address == COMMAND_ADDRESS || self.devices is None ==> data@.len() <= 8,
        ensures
            step == if address == COMMAND_ADDRESS {
                WriteStep::Command { gpa: widened(data@, self.order) as u64 }
            } else if self.devices is Some {
                WriteStep::AskGic
            } else {
                WriteStep::Unclaimed { value: widened(data@, self.order) as u64 }
            },
    {
        if address == COMMAND_ADDRESS {
            return WriteStep::Command { gpa: widen(data, self.order) };
        }
        match &self.devices {
            Some(_) => WriteStep::AskGic,
            None => WriteStep::Unclaimed { value: widen(data, self.order) },
        }
    }

    /// Finishes a write; `handled` tells whether the interrupt controller has taken it.
    pub fn write_mmio_after_gic(&mut self, handled: bool, address: u64, data: &[u8]) -> (r:
        WriteOutcome)
        requires
            old(self).wf(),
            old(self).devices is Some,
            !handled && (!in_uart(address) || address == UART_BASE + 0x38) ==> data@.len() <= 8,
        ensures
            final(self).wf(),
            final(self).devices is Some,
            final(self).order == old(self).order,
            final(self).devices->0.gic == old(self).devices->0.gic,
            ({
                let before = old(self).devices->0.serial;
                let after = final(self).devices->0.serial;
                let offset = address - UART_BASE;
                if handled {
                    &&& r is Gic
                    &&& after == before
                } else if in_uart(address) {
                    &&& r matches WriteOutcome::Uart(w)
                    &&& w@ == before@.write_effect(offset, data@)
                    &&& after@ == before@.written(offset, data@)
                } else {
                    &&& r matches WriteOutcome::Unclaimed { value }
                    &&& value == widened(data@, old(self).order)
                    &&& after == before
                }
            }),
    {
        if handled {
            return WriteOutcome::Gic;
        }
        match &mut self.devices {
            Some(devices) => {
                if let Some(write) = devices.serial.write_uart(address, data) {
                    return WriteOutcome::Uart(write);
                }
            },
            None => {},
        }
        WriteOutcome::Unclaimed { value: widen(data, self.order) }
    }

    /// Answers a read of an I/O port, which nothing claims, with ones.
    pub fn read_io(&self, data: &mut [u8])
        ensures
            final(data)@ == Seq::new(old(data)@.len(), |i: int| 0xffu8),
    {
        fill_ones(data);
    }

    /// Returns the value of a write to an I/O port, which nothing claims.
    pub fn write_io(&self, data: &[u8]) -> (value: u64)
        requires
            data@.len() <= 8,
        ensures
            value == widened(data@, self.order),
    {
        widen(data, self.order)
    }

    /// A fatal error stops the processor as a triple fault of the lowest trust level does.
    pub fn fatal_error(&self) -> (reason: VpHaltReason)
        ensures
            reason == (VpHaltReason::TripleFault { vtl: 0 }),
    {
        VpHaltReason::TripleFault { vtl: 0 }
    }
}

/// What is not memory is the address of commands, and on a guest with devices theirs: the interrupt
/// controller and the console; nothing else.
pub proof fn lemma_what_is_not_memory(handler: IoHandler, address: u64)
    ensures
        handler.devices is None ==> (handler.mmio(address) <==> address == 0xffff_0000),
        handler.devices matches Some(devices) ==> (handler.mmio(address) <==> {
            ||| address == 0xffff_0000
            ||| 0xeffe_c000 <= address < 0xeffe_d000
            ||| devices.gic.distributor_range.start() <= address
                < devices.gic.distributor_range.end()
            ||| devices.gic.redistributor_range.start() <= address
                < devices.gic.redistributor_range.end()
        }),
{
}

} // verus!
