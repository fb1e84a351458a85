//! Where the parts of a guest go in its memory, and how its first processor starts.

use crate::device_tree::{
    build_linux_dt, calls, describable, lemma_tree_hands_over_the_initrd, linux_dt, DtEvent,
    DtProperty,
};
use crate::io::COMMAND_ADDRESS;
use crate::memory::MemoryRange;
use crate::options::GuestArch;
use crate::topology::{GicSizes, ProcessorTopology};
use vstd::prelude::*;

verus! {

/// Where a test microkernel is loaded unless there is an offset.
pub const DEFAULT_LOAD_ADDRESS: u64 = 0x20_0000;

/// How far behind the start of RAM the initial RAM file system goes.
pub const INITRD_OFFSET: u64 = 0x100_0000;

/// The alignment of a Linux image.
pub const KERNEL_ALIGNMENT: u64 = 0x20_0000;

/// Paging is on.
pub const X64_CR0_PG: u64 = 0x8000_0000;

/// Protection is on.
pub const X64_CR0_PE: u64 = 0x1;

/// Addresses are extended.
pub const X64_CR4_PAE: u64 = 0x20;

/// System calls are on.
pub const X64_EFER_SCE: u64 = 0x1;

/// Long mode is enabled.
pub const X64_EFER_LME: u64 = 0x100;

/// Long mode is active.
pub const X64_EFER_LMA: u64 = 0x400;

/// Pages can be non-executable.
pub const X64_EFER_NXE: u64 = 0x800;

/// What became of the executable file of a test microkernel.
#[derive(Clone, Copy, Debug, PartialEq, Eq, Structural)]
pub struct ElfLoadInfo {
    /// Where it starts.
    pub entrypoint: u64,
    /// The first address behind it.
    pub next_available_address: u64,
}

/// What a test microkernel gets to know.
#[derive(Clone, Copy, Debug, PartialEq, Eq, Structural)]
pub struct StartInput {
    /// The address that takes commands.
    pub command: u64,
    /// The test to run.
    pub test_index: u64,
}

/// Where a test microkernel starts, and with what.
#[derive(Clone, Copy, Debug, PartialEq, Eq, Structural)]
pub struct LoadInfo {
    /// Where it starts.
    pub entrypoint: u64,
    /// The address of what it gets to know.
    pub param: u64,
    /// The first address behind it all.
    pub next_available_address: u64,
}

/// A register of an x86 processor.
#[derive(Clone, Copy, Debug, PartialEq, Eq, Structural)]
pub enum X86Register {
    Cr0(u64),
    Cr3(u64),
    Cr4(u64),
    Efer(u64),
    Rip(u64),
    Rsi(u64),
}

/// A register of a 64-bit Arm processor.
#[derive(Clone, Copy, Debug, PartialEq, Eq, Structural)]
pub enum Aarch64Register {
    Pc(u64),
    X0(u64),
}

/// One action of a loader.
#[derive(Clone, Copy, Debug, PartialEq, Eq, Structural)]
pub enum LoadAction {
    /// Imports what a test microkernel gets to know.
    ImportStartInput { page: u64, count: u64, input: StartInput },
    /// Imports page tables.
    ImportPageTables { page: u64, count: u64 },
    /// Imports the default descriptor table.
    ImportGdt { page: u64 },
    /// Sets a register of an x86 processor.
    SetX86(X86Register),
    /// Sets a register of a 64-bit Arm processor.
    SetAarch64(Aarch64Register),
}

impl LoadAction {
    /// What is said of a failure, besides what the loader says.
    pub open spec fn text(self) -> Option<Seq<char>> {
        match self {
            LoadAction::ImportStartInput { .. } => None,
            LoadAction::ImportPageTables { .. } => Some("failed to import page tables"@),
            LoadAction::ImportGdt { .. } => Some("failed to import gdt"@),
            LoadAction::SetX86(_) => Some("failed to set register"@),
            LoadAction::SetAarch64(_) => Some("failed to set register"@),
        }
    }

    /// Returns what is said of a failure, besides what the loader says.
    pub fn failure(self) -> (s: Option<&'static str>)
        ensures
            match s {
                Some(t) => self.text() == Some(t@),
                None => self.text() is None,
            },
    {
        match self {
            LoadAction::ImportStartInput { .. } => None,
            LoadAction::ImportPageTables { .. } => Some("failed to import page tables"),
            LoadAction::ImportGdt { .. } => Some("failed to import gdt"),
            LoadAction::SetX86(_) => Some("failed to set register"),
            LoadAction::SetAarch64(_) => Some("failed to set register"),
        }
    }
}

/// Returns the number of the page of an address.
fn page_of(address: u64) -> (page: u64)
    ensures
        page == address / 4096,
{
    assert(address >> 12 == address / 4096) by (bit_vector);
    address >> 12
}

/// The address that the file of a test microkernel is loaded at. On Arm it is the start of RAM.
pub open spec fn tmk_address(arch: GuestArch, ram: Seq<MemoryRange>) -> u64 {
    match arch {
        GuestArch::X86_64 => DEFAULT_LOAD_ADDRESS,
        GuestArch::Aarch64 => ram[0].start(),
    }
}

/// Returns the address that the file of a test microkernel is loaded at.
pub fn load_address(arch: GuestArch, ram: &[MemoryRange]) -> (address: u64)
    requires
        arch == GuestArch::Aarch64 ==> ram@.len() > 0,
    ensures
        address == tmk_address(arch, ram@),
{
    let offset: Option<u64> = match arch {
        GuestArch::X86_64 => None,
        GuestArch::Aarch64 => Some(ram[0].get_start()),
    };
    match offset {
        Some(address) => address,
        None => DEFAULT_LOAD_ADDRESS,
    }
}

/// The page behind the file takes what the test microkernel gets to know.
pub open spec fn start_input_action(elf: ElfLoadInfo, test_index: u64) -> LoadAction {
    LoadAction::ImportStartInput {
        page: (elf.next_available_address / 4096) as u64,
        count: 1,
        input: StartInput { command: COMMAND_ADDRESS, test_index },
    }
}

/// Places what a test microkernel gets to know behind its file.
pub fn load_common(elf: ElfLoadInfo, test_index: u64) -> (r: (LoadAction, LoadInfo))
    requires
        elf.next_available_address + 0x1000 <= u64::MAX,
    ensures
        r.0 == start_input_action(elf, test_index),
        r.1 == (LoadInfo {
            entrypoint: elf.entrypoint,
            param: elf.next_available_address,
            next_available_address: (elf.next_available_address + 0x1000) as u64,
        }),
{
    let input = StartInput { command: COMMAND_ADDRESS, test_index };
    let start_input_addr: u64 = elf.next_available_address;
    let action = LoadAction::ImportStartInput { page: page_of(start_input_addr), count: 1, input };
    let info = LoadInfo {
        entrypoint: elf.entrypoint,
        param: start_input_addr,
        next_available_address: start_input_addr + 0x1000,
    };
    (action, info)
}

/// How an x86 processor starts: in long mode, with identity-mapped page tables behind the test
/// microkernel and the descriptor table behind those.
pub open spec fn x86_actions(info: LoadInfo, page_tables_len: u64) -> Seq<LoadAction> {
    let base = info.next_available_address;
    seq![
        LoadAction::ImportPageTables {
            page: (base / 4096) as u64,
            count: (page_tables_len / 4096) as u64,
        },
        LoadAction::ImportGdt { page: ((base + page_tables_len) / 4096) as u64 },
        LoadAction::SetX86(X86Register::Cr0(0x8000_0001)),
        LoadAction::SetX86(X86Register::Cr3(base)),
        LoadAction::SetX86(X86Register::Cr4(0x20)),
        LoadAction::SetX86(X86Register::Efer(0xd01)),
        LoadAction::SetX86(X86Register::Rip(info.entrypoint)),
        LoadAction::SetX86(X86Register::Rsi(info.param)),
    ]
}

/// Plans how an x86 processor starts a test microkernel; `page_tables_len` is the size of the page
/// tables that map memory from `info.next_available_address` on.
pub fn load_x86(info: &LoadInfo, page_tables_len: u64) -> (actions: Vec<LoadAction>)
    requires
        info.next_available_address + page_tables_len <= u64::MAX,
    ensures
        actions@ == x86_actions(*info, page_tables_len),
{
    let page_table_base: u64 = info.next_available_address;
    let gdt_base: u64 = page_table_base + page_tables_len;
    assert(0x8000_0000u64 | 0x1u64 == 0x8000_0001u64) by (bit_vector);
    assert(0x1u64 | 0x100u64 | 0x400u64 | 0x800u64 == 0xd01u64) by (bit_vector);
    let actions = vec![
        LoadAction::ImportPageTables {
            page: page_of(page_table_base),
            count: page_of(page_tables_len),
        },
        LoadAction::ImportGdt { page: page_of(gdt_base) },
        LoadAction::SetX86(X86Register::Cr0(X64_CR0_PG | X64_CR0_PE)),
        LoadAction::SetX86(X86Register::Cr3(page_table_base)),
        LoadAction::SetX86(X86Register::Cr4(X64_CR4_PAE)),
        LoadAction::SetX86(
            X86Register::Efer(X64_EFER_SCE | X64_EFER_LME | X64_EFER_LMA | X64_EFER_NXE),
        ),
        LoadAction::SetX86(X86Register::Rip(info.entrypoint)),
        LoadAction::SetX86(X86Register::Rsi(info.param)),
    ];
    assert(actions@ =~= x86_actions(*info, page_tables_len));
    actions
}

/// How a 64-bit Arm processor starts.
pub open spec fn aarch64_actions(info: LoadInfo) -> Seq<LoadAction> {
    seq![
        LoadAction::SetAarch64(Aarch64Register::Pc(info.entrypoint)),
        LoadAction::SetAarch64(Aarch64Register::X0(info.param)),
    ]
}

/// Plans how a 64-bit Arm processor starts a test microkernel.
pub fn load_aarch64(info: &LoadInfo) -> (actions: Vec<LoadAction>)
    ensures
        actions@ == aarch64_actions(*info),
{
    let actions = vec![
        LoadAction::SetAarch64(Aarch64Register::Pc(info.entrypoint)),
        LoadAction::SetAarch64(Aarch64Register::X0(info.param)),
    ];
    assert(actions@ =~= aarch64_actions(*info));
    actions
}

/// Why Linux cannot be booted.
#[derive(Clone, Copy, Debug, PartialEq, Eq, Structural)]
pub enum LinuxLoadError {
    /// There is no RAM.
    NoRam,
    /// The size of the initial RAM file system is not known.
    InspectInitrd,
    /// The address of the initial RAM file system does not fit 64 bits.
    InitrdAddressOverflow,
    /// The end of the initial RAM file system does not fit 64 bits.
    InitrdRangeOverflow,
    /// The address of the image does not fit 64 bits.
    KernelAddressOverflow,
}

impl LinuxLoadError {
    /// The error as a text.
    pub open spec fn text(self) -> Seq<char> {
        match self {
            LinuxLoadError::NoRam => "direct Linux boot requires RAM"@,
            LinuxLoadError::InspectInitrd => "failed to inspect Linux initramfs"@,
            LinuxLoadError::InitrdAddressOverflow => "Linux initramfs address overflowed"@,
            LinuxLoadError::InitrdRangeOverflow => "Linux initramfs range overflowed"@,
            LinuxLoadError::KernelAddressOverflow => "Linux kernel address overflowed"@,
        }
    }

    /// Returns the error as a text.
    pub fn message(self) -> (s: &'static str)
        ensures
            s@ == self.text(),
    {
        match self {
            LinuxLoadError::NoRam => "direct Linux boot requires RAM",
            LinuxLoadError::InspectInitrd => "failed to inspect Linux initramfs",
            LinuxLoadError::InitrdAddressOverflow => "Linux initramfs address overflowed",
            LinuxLoadError::InitrdRangeOverflow => "Linux initramfs range overflowed",
            LinuxLoadError::KernelAddressOverflow => "Linux kernel address overflowed",
        }
    }
}

/// Where the parts of a Linux guest go.
#[derive(Debug)]
pub struct LinuxPlan {
    /// The address of the initial RAM file system.
    pub initrd_start: u64,
    /// The size of the initial RAM file system.
    pub initrd_size: u64,
    /// The lowest address of the image.
    pub kernel_minimum_start_address: u64,
    /// The device tree.
    pub device_tree: Vec<DtEvent>,
}

impl LinuxPlan {
    /// The device tree ends with the command line, and with the addresses at which the initial RAM
    /// file system starts and ends in guest memory.
    pub open spec fn hands_over_the_initrd(self, cmdline: Seq<char>) -> bool {
        let n = self.device_tree@.len() as int;
        &&& n > 7
        &&& self.device_tree@[n - 6] matches DtEvent::Str(DtProperty::Bootargs, text)
        &&& text@ == cmdline
        &&& self.device_tree@[n - 4] matches DtEvent::U64(DtProperty::InitrdStart, start)
        &&& start == self.initrd_start
        &&& self.device_tree@[n - 3] matches DtEvent::U64(DtProperty::InitrdEnd, end)
        &&& end == self.initrd_start + self.initrd_size
    }
}

/// The next multiple of the alignment of an image, from an address on.
pub open spec fn kernel_aligned(address: int) -> int {
    (address + (KERNEL_ALIGNMENT - 1)) / KERNEL_ALIGNMENT as int * KERNEL_ALIGNMENT
}

/// The error that loading Linux gives, the first one of several.
pub open spec fn linux_error(ram: Seq<MemoryRange>, initrd_size: Option<u64>) -> Option<
    LinuxLoadError,
> {
    if ram.len() == 0 {
        Some(LinuxLoadError::NoRam)
    } else {
        match initrd_size {
            None => Some(LinuxLoadError::InspectInitrd),
            Some(size) => {
                let start = ram[0].start() + INITRD_OFFSET;
                if start > u64::MAX {
                    Some(LinuxLoadError::InitrdAddressOverflow)
                } else if start + size > u64::MAX {
                    Some(LinuxLoadError::InitrdRangeOverflow)
                } else if start + size + (KERNEL_ALIGNMENT - 1) > u64::MAX {
                    Some(LinuxLoadError::KernelAddressOverflow)
                } else {
                    None
                }
            },
        }
    }
}

/// Where Linux goes.
#[derive(Clone, Copy, Debug, PartialEq, Eq, Structural)]
pub struct LinuxAddresses {
    /// The address of the initial RAM file system.
    pub initrd_start: u64,
    /// The address behind the initial RAM file system.
    pub initrd_end: u64,
    /// The lowest address of the image.
    pub kernel_minimum_start_address: u64,
}

/// Decides where Linux goes; `initrd_size` is the size of the initial RAM file system, if it can be
/// found out.
pub fn place_linux(ram: &[MemoryRange], initrd_size: Option<u64>) -> (r: Result<
    LinuxAddresses,
    LinuxLoadError,
>)
    ensures
        match r {
            Err(e) => linux_error(ram@, initrd_size) == Some(e),
            Ok(a) => {
                &&& linux_error(ram@, initrd_size) is None
                &&& a.initrd_start == ram@[0].start() + INITRD_OFFSET
                &&& a.initrd_end == a.initrd_start + initrd_size->0
                &&& a.kernel_minimum_start_address == kernel_aligned(a.initrd_end as int)
            },
        },
{
    if ram.len() == 0 {
        return Err(LinuxLoadError::NoRam);
    }
    let memory_start: u64 = ram[0].get_start();
    let size: u64 = match initrd_size {
        Some(size) => size,
        None => {
            return Err(LinuxLoadError::InspectInitrd);
        },
    };
    let initrd_start: u64 = match memory_start.checked_add(INITRD_OFFSET) {
        Some(start) => start,
        None => {
            return Err(LinuxLoadError::InitrdAddressOverflow);
        },
    };
    let initrd_end: u64 = match initrd_start.checked_add(size) {
        Some(end) => end,
        None => {
            return Err(LinuxLoadError::InitrdRangeOverflow);
        },
    };
    let rounded: u64 = match initrd_end.checked_add(KERNEL_ALIGNMENT - 1) {
        Some(end) => end,
        None => {
            return Err(LinuxLoadError::KernelAddressOverflow);
        },
    };
    assert(rounded & !0x1f_ffffu64 == rounded / 0x20_0000 * 0x20_0000) by (bit_vector);
    let kernel_minimum_start_address: u64 = rounded & !0x1f_ffffu64;
    Ok(LinuxAddresses { initrd_start, initrd_end, kernel_minimum_start_address })
}

/// Plans how Linux is loaded.
pub fn load_linux_aarch64(
    ram: &[MemoryRange],
    topology: &ProcessorTopology,
    sizes: GicSizes,
    initrd_size: Option<u64>,
    cmdline: &str,
) -> (r: Result<LinuxPlan, LinuxLoadError>)
    requires
        forall|i: int| 0 <= i < ram@.len() ==> (#[trigger] ram@[i]).wf(),
        linux_error(ram@, initrd_size) is None ==> describable(*topology, sizes),
    ensures
        match r {
            Err(e) => linux_error(ram@, initrd_size) == Some(e),
            Ok(plan) => {
                let end = plan.initrd_start + plan.initrd_size;
                &&& linux_error(ram@, initrd_size) is None
                &&& plan.initrd_start == ram@[0].start() + INITRD_OFFSET
                &&& initrd_size == Some(plan.initrd_size)
                &&& plan.kernel_minimum_start_address == kernel_aligned(end)
                &&& calls(plan.device_tree@) == linux_dt(
                    ram@,
                    *topology,
                    sizes,
                    cmdline@,
                    plan.initrd_start,
                    end as u64,
                )
                &&& plan.hands_over_the_initrd(cmdline@)
            },
        },
{
    let place = match place_linux(ram, initrd_size) {
        Ok(place) => place,
        Err(e) => {
            return Err(e);
        },
    };
    let start: u64 = place.initrd_start;
    let end: u64 = place.initrd_end;
    let device_tree = build_linux_dt(ram, topology, sizes, cmdline, start, end);
    proof {
        lemma_tree_hands_over_the_initrd(
            device_tree@,
            ram@,
            *topology,
            sizes,
            cmdline@,
            start,
            end,
        );
    }
    Ok(
        LinuxPlan {
            initrd_start: start,
            initrd_size: end - start,
            kernel_minimum_start_address: place.kernel_minimum_start_address,
            device_tree,
        },
    )
}

/// A Linux image starts aligned, behind the initial RAM file system, and no further behind it than
/// its alignment makes necessary.
pub proof fn lemma_kernel_follows_initrd(initrd_end: int)
    requires
        initrd_end >= 0,
    ensures
        kernel_aligned(initrd_end) % KERNEL_ALIGNMENT as int == 0,
        initrd_end <= kernel_aligned(initrd_end) < initrd_end + KERNEL_ALIGNMENT,
{
}

/// Behind a test microkernel that ends at a page, what it gets to know, its page tables and its
/// descriptor table each have pages of their own.
pub proof fn lemma_x86_pages_are_disjoint(elf: ElfLoadInfo, test_index: u64, tables: u64)
    requires
        elf.next_available_address % 4096 == 0,
        tables % 4096 == 0,
        elf.next_available_address + 0x1000 + tables <= u64::MAX,
    ensures
        ({
            let info = LoadInfo {
                entrypoint: elf.entrypoint,
                param: elf.next_available_address,
                next_available_address: (elf.next_available_address + 0x1000) as u64,
            };
            let actions = x86_actions(info, tables);
            &&& start_input_action(elf, test_index) matches LoadAction::ImportStartInput {
                page: first,
                count: one,
                ..
            }
            &&& actions[0] matches LoadAction::ImportPageTables { page: second, count }
            &&& actions[1] matches LoadAction::ImportGdt { page: third }
            &&& first + one == second
            &&& second + count == third
            &&& count * 4096 == tables
        }),
{
}

/// Where the pieces of a test microkernel go: what it gets to know is one page, the page that its
/// parameter points into, and tells it where commands go and which test to run.
pub proof fn lemma_start_input_is_where_the_parameter_points(elf: ElfLoadInfo, test_index: u64)
    ensures
        start_input_action(elf, test_index) matches LoadAction::ImportStartInput {
            page,
            count,
            input,
        } && page * 4096 <= elf.next_available_address < (page + 1) * 4096 && count == 1
            && input.command == 0xffff_0000 && input.test_index == test_index,
{
}

/// A 64-bit Arm processor starts a test microkernel at the entry point that the file has, with the
/// address of what the microkernel gets to know in its first register, and with nothing else set.
pub proof fn lemma_aarch64_starts_at_the_entry_point(elf: ElfLoadInfo, info: LoadInfo)
    requires
        info.entrypoint == elf.entrypoint,
        info.param == elf.next_available_address,
    ensures
        aarch64_actions(info).len() == 2,
        aarch64_actions(info).contains(
            LoadAction::SetAarch64(Aarch64Register::Pc(elf.entrypoint)),
        ),
        aarch64_actions(info).contains(
            LoadAction::SetAarch64(Aarch64Register::X0(elf.next_available_address)),
        ),
{
    let actions = aarch64_actions(info);
    assert(actions[0] == LoadAction::SetAarch64(Aarch64Register::Pc(elf.entrypoint)));
    assert(actions[1] == LoadAction::SetAarch64(Aarch64Register::X0(elf.next_available_address)));
}

/// An x86 processor starts a test microkernel at the entry point that the file has, with the
/// address of what the microkernel gets to know in its second argument register and its page tables
/// where they are imported; it starts in long mode with paging on. The page tables are imported
/// whole, and the descriptor table right behind them.
pub proof fn lemma_x86_starts_at_the_entry_point(elf: ElfLoadInfo, info: LoadInfo, tables: u64)
    requires
        info.entrypoint == elf.entrypoint,
        info.param == elf.next_available_address,
        info.next_available_address == elf.next_available_address + 0x1000,
        info.next_available_address + tables <= u64::MAX,
    ensures
        ({
            let actions = x86_actions(info, tables);
            &&& actions.len() == 8
            &&& actions[0] matches LoadAction::ImportPageTables { page, count }
            &&& page * 4096 <= elf.next_available_address + 0x1000 < (page + 1) * 4096
            &&& count * 4096 <= tables < (count + 1) * 4096
            &&& actions[1] matches LoadAction::ImportGdt { page: gdt }
            &&& gdt * 4096 <= elf.next_available_address + 0x1000 + tables < (gdt + 1) * 4096
            &&& actions[2] == LoadAction::SetX86(X86Register::Cr0(0x8000_0001))
            &&& actions[3] matches LoadAction::SetX86(X86Register::Cr3(base))
            &&& base == elf.next_available_address + 0x1000
            &&& actions[4] == LoadAction::SetX86(X86Register::Cr4(0x20))
            &&& actions[5] == LoadAction::SetX86(X86Register::Efer(0xd01))
            &&& actions[6] == LoadAction::SetX86(X86Register::Rip(elf.entrypoint))
            &&& actions[7] == LoadAction::SetX86(X86Register::Rsi(elf.next_available_address))
        }),
{
}

/// A test microkernel is loaded at the start of RAM on Arm, wherever RAM is, and at 2 MiB on x86.
pub proof fn lemma_microkernel_is_loaded_at_its_place(ram: Seq<MemoryRange>)
    ensures
        ram.len() > 0 ==> tmk_address(GuestArch::Aarch64, ram) == ram[0].start(),
        tmk_address(GuestArch::X86_64, ram) == 0x20_0000,
{
}

/// Linux can be loaded exactly if there is RAM, the size of its initial RAM file system is known,
/// and the initial RAM file system, 16 MiB behind the start of RAM, and what its end is rounded up
/// by stay in the address space; the first of these that fails is the error.
pub proof fn lemma_linux_must_fit(ram: Seq<MemoryRange>, initrd_size: Option<u64>)
    ensures
        linux_error(ram, initrd_size) == if ram.len() == 0 {
            Some(LinuxLoadError::NoRam)
        } else if initrd_size is None {
            Some(LinuxLoadError::InspectInitrd)
        } else if ram[0].start() + 0x100_0000 >= 0x1_0000_0000_0000_0000 {
            Some(LinuxLoadError::InitrdAddressOverflow)
        } else if ram[0].start() + 0x100_0000 + initrd_size->0 >= 0x1_0000_0000_0000_0000 {
            Some(LinuxLoadError::InitrdRangeOverflow)
        } else if ram[0].start() + 0x100_0000 + initrd_size->0 + 0x1f_ffff
            >= 0x1_0000_0000_0000_0000 {
            Some(LinuxLoadError::KernelAddressOverflow)
        } else {
            None
        },
{
}

/// A Linux image goes to the first multiple of 2 MiB behind the initial RAM file system.
pub proof fn lemma_kernel_is_aligned_to_two_mebibytes(initrd_end: int, other: int)
    requires
        initrd_end >= 0,
        other % 0x20_0000 == 0,
        other >= initrd_end,
    ensures
        kernel_aligned(initrd_end) % 0x20_0000 == 0,
        initrd_end <= kernel_aligned(initrd_end) <= other,
{
}

} // verus!
