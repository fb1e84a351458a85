//! The device tree for a Linux guest.
//!
//! A device tree is given as the calls that write it, one by one: a node is started, gets its
//! properties and its child nodes, and is ended.

use crate::gic::PlatformGic;
use crate::memory::MemoryRange;
use crate::serial::{UART_BASE, UART_INTID, UART_SIZE};
use crate::text::{digits_value, hex_digits, lemma_hex_reads_back, push_hex};
use crate::topology::{GicSizes, GicVersion, ProcessorTopology};
use vstd::prelude::*;
use vstd::string::*;

verus! {

/// The size of the buffer that the device tree is written into.
pub const DT_BUFFER_SIZE: usize = 0x1_0000;

/// The room for property names.
pub const DT_STRING_TABLE_CAP: usize = 512;

/// The processor that boots.
pub const DT_BOOT_CPU: u32 = 0;

/// The interrupt of the UART, counted from the first shared interrupt.
pub const UART_SPI: u32 = 1;

/// The handle of the interrupt controller.
pub const PHANDLE_GIC: u32 = 1;

/// A shared interrupt.
pub const GIC_SPI: u32 = 0;

/// An interrupt private to a processor.
pub const GIC_PPI: u32 = 1;

/// An interrupt that is active while its line is high.
pub const IRQ_TYPE_LEVEL_HIGH: u32 = 4;

/// An interrupt that is active while its line is low.
pub const IRQ_TYPE_LEVEL_LOW: u32 = 8;

/// The names that properties have.
#[derive(Clone, Copy, Debug, PartialEq, Eq, Structural)]
pub enum DtProperty {
    AddressCells,
    SizeCells,
    Compatible,
    DeviceType,
    Reg,
    Status,
    InterruptCells,
    InterruptController,
    InterruptParent,
    Interrupts,
    InterruptNames,
    AlwaysOn,
    Phandle,
    Bootargs,
    StdoutPath,
    InitrdStart,
    InitrdEnd,
    CurrentSpeed,
}

impl DtProperty {
    /// The name as it is written.
    pub open spec fn text(self) -> Seq<char> {
        match self {
            DtProperty::AddressCells => "#address-cells"@,
            DtProperty::SizeCells => "#size-cells"@,
            DtProperty::Compatible => "compatible"@,
            DtProperty::DeviceType => "device_type"@,
            DtProperty::Reg => "reg"@,
            DtProperty::Status => "status"@,
            DtProperty::InterruptCells => "#interrupt-cells"@,
            DtProperty::InterruptController => "interrupt-controller"@,
            DtProperty::InterruptParent => "interrupt-parent"@,
            DtProperty::Interrupts => "interrupts"@,
            DtProperty::InterruptNames => "interrupt-names"@,
            DtProperty::AlwaysOn => "always-on"@,
            DtProperty::Phandle => "phandle"@,
            DtProperty::Bootargs => "bootargs"@,
            DtProperty::StdoutPath => "stdout-path"@,
            DtProperty::InitrdStart => "linux,initrd-start"@,
            DtProperty::InitrdEnd => "linux,initrd-end"@,
            DtProperty::CurrentSpeed => "current-speed"@,
        }
    }

    /// Returns the name as it is written.
    pub fn name(self) -> (s: &'static str)
        ensures
            s@ == self.text(),
    {
        match self {
            DtProperty::AddressCells => "#address-cells",
            DtProperty::SizeCells => "#size-cells",
            DtProperty::Compatible => "compatible",
            DtProperty::DeviceType => "device_type",
            DtProperty::Reg => "reg",
            DtProperty::Status => "status",
            DtProperty::InterruptCells => "#interrupt-cells",
            DtProperty::InterruptController => "interrupt-controller",
            DtProperty::InterruptParent => "interrupt-parent",
            DtProperty::Interrupts => "interrupts",
            DtProperty::InterruptNames => "interrupt-names",
            DtProperty::AlwaysOn => "always-on",
            DtProperty::Phandle => "phandle",
            DtProperty::Bootargs => "bootargs",
            DtProperty::StdoutPath => "stdout-path",
            DtProperty::InitrdStart => "linux,initrd-start",
            DtProperty::InitrdEnd => "linux,initrd-end",
            DtProperty::CurrentSpeed => "current-speed",
        }
    }
}

/// The names in the order in which they enter the string table.
pub open spec fn property_names() -> Seq<DtProperty> {
    seq![
        DtProperty::AddressCells,
        DtProperty::SizeCells,
        DtProperty::Compatible,
        DtProperty::DeviceType,
        DtProperty::Reg,
        DtProperty::Status,
        DtProperty::InterruptCells,
        DtProperty::InterruptController,
        DtProperty::InterruptParent,
        DtProperty::Interrupts,
        DtProperty::InterruptNames,
        DtProperty::AlwaysOn,
        DtProperty::Phandle,
        DtProperty::Bootargs,
        DtProperty::StdoutPath,
        DtProperty::InitrdStart,
        DtProperty::InitrdEnd,
        DtProperty::CurrentSpeed,
    ]
}

/// Returns the names in the order in which they enter the string table.
pub fn properties() -> (names: Vec<DtProperty>)
    ensures
        names@ == property_names(),
{
    let names = vec![
        DtProperty::AddressCells,
        DtProperty::SizeCells,
        DtProperty::Compatible,
        DtProperty::DeviceType,
        DtProperty::Reg,
        DtProperty::Status,
        DtProperty::InterruptCells,
        DtProperty::InterruptController,
        DtProperty::InterruptParent,
        DtProperty::Interrupts,
        DtProperty::InterruptNames,
        DtProperty::AlwaysOn,
        DtProperty::Phandle,
        DtProperty::Bootargs,
        DtProperty::StdoutPath,
        DtProperty::InitrdStart,
        DtProperty::InitrdEnd,
        DtProperty::CurrentSpeed,
    ];
    assert(names@ =~= property_names());
    names
}

/// One call that writes a part of a device tree.
#[derive(Debug)]
pub enum DtEvent {
    /// Starts a node.
    StartNode(String),
    /// Adds a property with a 32-bit value.
    U32(DtProperty, u32),
    /// Adds a property with a 64-bit value.
    U64(DtProperty, u64),
    /// Adds a property with a text.
    Str(DtProperty, String),
    /// Adds a property with 32-bit values.
    U32Array(DtProperty, Vec<u32>),
    /// Adds a property with 64-bit values.
    U64Array(DtProperty, Vec<u64>),
    /// Adds a property without a value.
    Null(DtProperty),
    /// Ends the node that was started last.
    EndNode,
}

/// One call that writes a part of a device tree.
pub ghost enum DtEventView {
    StartNode(Seq<char>),
    U32(DtProperty, u32),
    U64(DtProperty, u64),
    Str(DtProperty, Seq<char>),
    U32Array(DtProperty, Seq<u32>),
    U64Array(DtProperty, Seq<u64>),
    Null(DtProperty),
    EndNode,
}

impl View for DtEvent {
    type V = DtEventView;

    open spec fn view(&self) -> DtEventView {
        match self {
            DtEvent::StartNode(name) => DtEventView::StartNode(name@),
            DtEvent::U32(p, v) => DtEventView::U32(*p, *v),
            DtEvent::U64(p, v) => DtEventView::U64(*p, *v),
            DtEvent::Str(p, v) => DtEventView::Str(*p, v@),
            DtEvent::U32Array(p, v) => DtEventView::U32Array(*p, v@),
            DtEvent::U64Array(p, v) => DtEventView::U64Array(*p, v@),
            DtEvent::Null(p) => DtEventView::Null(*p),
            DtEvent::EndNode => DtEventView::EndNode,
        }
    }
}

/// The calls as values.
pub open spec fn calls(events: Seq<DtEvent>) -> Seq<DtEventView> {
    events.map_values(|e: DtEvent| e@)
}

/// A node with its contents.
pub open spec fn node(name: Seq<char>, contents: Seq<DtEventView>) -> Seq<DtEventView> {
    seq![DtEventView::StartNode(name)] + contents + seq![DtEventView::EndNode]
}

/// The properties of the root.
pub open spec fn root_properties() -> Seq<DtEventView> {
    seq![
        DtEventView::U32(DtProperty::AddressCells, 2),
        DtEventView::U32(DtProperty::SizeCells, 2),
        DtEventView::U32(DtProperty::InterruptParent, PHANDLE_GIC),
        DtEventView::Str(DtProperty::Compatible, "microsoft,openvmm-cca-prototype"@),
    ]
}

/// The node of the only processor.
pub open spec fn cpu_node() -> Seq<DtEventView> {
    node(
        "cpu@0"@,
        seq![
            DtEventView::Str(DtProperty::DeviceType, "cpu"@),
            DtEventView::Str(DtProperty::Compatible, "arm,armv8"@),
            DtEventView::U32(DtProperty::Reg, 0),
            DtEventView::Str(DtProperty::Status, "okay"@),
        ],
    )
}

/// The node of the processors.
pub open spec fn cpus_node() -> Seq<DtEventView> {
    node(
        "cpus"@,
        seq![
            DtEventView::U32(DtProperty::AddressCells, 1),
            DtEventView::U32(DtProperty::SizeCells, 0),
        ] + cpu_node(),
    )
}

/// The node of a range of RAM.
pub open spec fn memory_node(range: MemoryRange) -> Seq<DtEventView> {
    node(
        "memory@"@ + hex_digits(range.start() as nat),
        seq![
            DtEventView::Str(DtProperty::DeviceType, "memory"@),
            DtEventView::U64Array(
                DtProperty::Reg,
                seq![range.start(), (range.end() - range.start()) as u64],
            ),
        ],
    )
}

/// The nodes of the ranges of RAM, in their order.
pub open spec fn memory_nodes(ram: Seq<MemoryRange>) -> Seq<DtEventView>
    decreases ram.len(),
{
    if ram.len() == 0 {
        Seq::empty()
    } else {
        memory_nodes(ram.drop_last()) + memory_node(ram.last())
    }
}

/// The node of the interrupt controller.
pub open spec fn intc_node(
    distributor_base: u64,
    redistributors_base: u64,
    sizes: GicSizes,
    vp_count: nat,
) -> Seq<DtEventView> {
    node(
        "intc@"@ + hex_digits(distributor_base as nat),
        seq![
            DtEventView::Str(DtProperty::Compatible, "arm,gic-v3"@),
            DtEventView::U64Array(
                DtProperty::Reg,
                seq![
                    distributor_base,
                    sizes.distributor,
                    redistributors_base,
                    (sizes.redistributor * vp_count) as u64,
                ],
            ),
            DtEventView::U32(DtProperty::AddressCells, 2),
            DtEventView::U32(DtProperty::SizeCells, 2),
            DtEventView::U32(DtProperty::InterruptCells, 3),
            DtEventView::Null(DtProperty::InterruptController),
            DtEventView::U32(DtProperty::Phandle, PHANDLE_GIC),
        ],
    )
}

/// The node of the timer.
pub open spec fn timer_node(timer_ppi: u32) -> Seq<DtEventView> {
    node(
        "timer"@,
        seq![
            DtEventView::Str(DtProperty::Compatible, "arm,armv8-timer"@),
            DtEventView::Str(DtProperty::InterruptNames, "virt"@),
            DtEventView::U32Array(
                DtProperty::Interrupts,
                seq![GIC_PPI, (timer_ppi - 16) as u32, IRQ_TYPE_LEVEL_LOW],
            ),
            DtEventView::Null(DtProperty::AlwaysOn),
        ],
    )
}

/// The name of the node of the UART.
pub open spec fn uart_name() -> Seq<char> {
    "uart@"@ + hex_digits(UART_BASE as nat)
}

/// The node of the UART.
pub open spec fn uart_node() -> Seq<DtEventView> {
    node(
        uart_name(),
        seq![
            DtEventView::Str(DtProperty::Compatible, "arm,sbsa-uart"@),
            DtEventView::U64Array(DtProperty::Reg, seq![UART_BASE, UART_SIZE]),
            DtEventView::U32Array(
                DtProperty::Interrupts,
                seq![GIC_SPI, UART_SPI, IRQ_TYPE_LEVEL_HIGH],
            ),
            DtEventView::U32(DtProperty::CurrentSpeed, 115200),
            DtEventView::Str(DtProperty::Status, "okay"@),
        ],
    )
}

/// The path of the console.
pub open spec fn stdout_path() -> Seq<char> {
    "/uart@effec000"@
}

/// The node of what the boot loader hands over.
pub open spec fn chosen_node(cmdline: Seq<char>, initrd_start: u64, initrd_end: u64) -> Seq<
    DtEventView,
> {
    node(
        "chosen"@,
        seq![
            DtEventView::Str(DtProperty::Bootargs, cmdline),
            DtEventView::Str(DtProperty::StdoutPath, stdout_path()),
            DtEventView::U64(DtProperty::InitrdStart, initrd_start),
            DtEventView::U64(DtProperty::InitrdEnd, initrd_end),
        ],
    )
}

/// The processors and their interrupt controller can be described to the guest.
pub open spec fn describable(topology: ProcessorTopology, sizes: GicSizes) -> bool {
    &&& topology.wf()
    &&& topology.gic_version is V3
    &&& 16 <= topology.virt_timer_ppi < 32
    &&& sizes.redistributor * topology.mpidrs@.len() <= u64::MAX
}

/// The children of the root.
pub open spec fn children(
    ram: Seq<MemoryRange>,
    topology: ProcessorTopology,
    sizes: GicSizes,
    cmdline: Seq<char>,
    initrd_start: u64,
    initrd_end: u64,
) -> Seq<DtEventView> {
    cpus_node() + memory_nodes(ram) + intc_node(
        topology.gic_distributor_base,
        topology.gic_version->redistributors_base,
        sizes,
        topology.mpidrs@.len(),
    ) + timer_node(topology.virt_timer_ppi) + uart_node() + chosen_node(
        cmdline,
        initrd_start,
        initrd_end,
    )
}

/// The device tree.
pub open spec fn linux_dt(
    ram: Seq<MemoryRange>,
    topology: ProcessorTopology,
    sizes: GicSizes,
    cmdline: Seq<char>,
    initrd_start: u64,
    initrd_end: u64,
) -> Seq<DtEventView> {
    node(
        ""@,
        root_properties() + children(ram, topology, sizes, cmdline, initrd_start, initrd_end),
    )
}

fn emit(events: &mut Vec<DtEvent>, event: DtEvent)
    ensures
        calls(final(events)@) == calls(old(events)@).push(event@),
{
    let ghost before = events@;
    events.push(event);
    assert(calls(events@) =~= calls(before).push(event@));
}

fn emit_str(events: &mut Vec<DtEvent>, property: DtProperty, value: &str)
    ensures
        calls(final(events)@) == calls(old(events)@).push(DtEventView::Str(property, value@)),
{
    emit(events, DtEvent::Str(property, value.to_owned()));
}

fn emit_start(events: &mut Vec<DtEvent>, name: &str)
    ensures
        calls(final(events)@) == calls(old(events)@).push(DtEventView::StartNode(name@)),
{
    emit(events, DtEvent::StartNode(name.to_owned()));
}

/// Starts a node whose name ends in its address.
fn emit_start_at(events: &mut Vec<DtEvent>, prefix: &str, address: u64)
    ensures
        calls(final(events)@) == calls(old(events)@).push(
            DtEventView::StartNode(prefix@ + hex_digits(address as nat)),
        ),
{
    let mut name = prefix.to_owned();
    push_hex(&mut name, address);
    emit(events, DtEvent::StartNode(name));
}

fn emit_cpus(events: &mut Vec<DtEvent>)
    ensures
        calls(final(events)@) == calls(old(events)@) + cpus_node(),
{
    let ghost before = calls(events@);
    emit_start(events, "cpus");
    emit(events, DtEvent::U32(DtProperty::AddressCells, 1));
    emit(events, DtEvent::U32(DtProperty::SizeCells, 0));
    emit_start(events, "cpu@0");
    emit_str(events, DtProperty::DeviceType, "cpu");
    emit_str(events, DtProperty::Compatible, "arm,armv8");
    emit(events, DtEvent::U32(DtProperty::Reg, 0));
    emit_str(events, DtProperty::Status, "okay");
    emit(events, DtEvent::EndNode);
    emit(events, DtEvent::EndNode);
    assert(calls(events@) =~= before + cpus_node());
}

fn emit_memory(events: &mut Vec<DtEvent>, range: MemoryRange)
    requires
        range.wf(),
    ensures
        calls(final(events)@) == calls(old(events)@) + memory_node(range),
{
    let ghost before = calls(events@);
    emit_start_at(events, "memory@", range.get_start());
    emit_str(events, DtProperty::DeviceType, "memory");
    let reg = vec![range.get_start(), range.len()];
    assert(reg@ =~= seq![range.start(), (range.end() - range.start()) as u64]);
    emit(events, DtEvent::U64Array(DtProperty::Reg, reg));
    emit(events, DtEvent::EndNode);
    assert(calls(events@) =~= before + memory_node(range));
}

fn emit_intc(
    events: &mut Vec<DtEvent>,
    distributor_base: u64,
    redistributors_base: u64,
    sizes: GicSizes,
    vp_count: u32,
)
    requires
        sizes.redistributor * vp_count <= u64::MAX,
    ensures
        calls(final(events)@) == calls(old(events)@) + intc_node(
            distributor_base,
            redistributors_base,
            sizes,
            vp_count as nat,
        ),
{
    let ghost before = calls(events@);
    emit_start_at(events, "intc@", distributor_base);
    emit_str(events, DtProperty::Compatible, "arm,gic-v3");
    let redistributors_size: u64 = sizes.redistributor * vp_count as u64;
    let reg = vec![distributor_base, sizes.distributor, redistributors_base, redistributors_size];
    assert(reg@ =~= seq![
        distributor_base,
        sizes.distributor,
        redistributors_base,
        (sizes.redistributor * vp_count as nat) as u64,
    ]);
    emit(events, DtEvent::U64Array(DtProperty::Reg, reg));
    emit(events, DtEvent::U32(DtProperty::AddressCells, 2));
    emit(events, DtEvent::U32(DtProperty::SizeCells, 2));
    emit(events, DtEvent::U32(DtProperty::InterruptCells, 3));
    emit(events, DtEvent::Null(DtProperty::InterruptController));
    emit(events, DtEvent::U32(DtProperty::Phandle, PHANDLE_GIC));
    emit(events, DtEvent::EndNode);
    assert(calls(events@) =~= before + intc_node(
        distributor_base,
        redistributors_base,
        sizes,
        vp_count as nat,
    ));
}

fn emit_timer(events: &mut Vec<DtEvent>, timer_ppi: u32)
    requires
        16 <= timer_ppi < 32,
    ensures
        calls(final(events)@) == calls(old(events)@) + timer_node(timer_ppi),
{
    let ghost before = calls(events@);
    emit_start(events, "timer");
    emit_str(events, DtProperty::Compatible, "arm,armv8-timer");
    emit_str(events, DtProperty::InterruptNames, "virt");
    let interrupts = vec![GIC_PPI, timer_ppi - 16, IRQ_TYPE_LEVEL_LOW];
    assert(interrupts@ =~= seq![GIC_PPI, (timer_ppi - 16) as u32, IRQ_TYPE_LEVEL_LOW]);
    emit(events, DtEvent::U32Array(DtProperty::Interrupts, interrupts));
    emit(events, DtEvent::Null(DtProperty::AlwaysOn));
    emit(events, DtEvent::EndNode);
    assert(calls(events@) =~= before + timer_node(timer_ppi));
}

fn emit_uart(events: &mut Vec<DtEvent>)
    ensures
        calls(final(events)@) == calls(old(events)@) + uart_node(),
{
    let ghost before = calls(events@);
    emit_start_at(events, "uart@", UART_BASE);
    emit_str(events, DtProperty::Compatible, "arm,sbsa-uart");
    let reg = vec![UART_BASE, UART_SIZE];
    assert(reg@ =~= seq![UART_BASE, UART_SIZE]);
    emit(events, DtEvent::U64Array(DtProperty::Reg, reg));
    let interrupts = vec![GIC_SPI, UART_SPI, IRQ_TYPE_LEVEL_HIGH];
    assert(interrupts@ =~= seq![GIC_SPI, UART_SPI, IRQ_TYPE_LEVEL_HIGH]);
    emit(events, DtEvent::U32Array(DtProperty::Interrupts, interrupts));
    emit(events, DtEvent::U32(DtProperty::CurrentSpeed, 115200));
    emit_str(events, DtProperty::Status, "okay");
    emit(events, DtEvent::EndNode);
    assert(calls(events@) =~= before + uart_node());
}

fn emit_chosen(events: &mut Vec<DtEvent>, cmdline: &str, initrd_start: u64, initrd_end: u64)
    ensures
        calls(final(events)@) == calls(old(events)@) + chosen_node(
            cmdline@,
            initrd_start,
            initrd_end,
        ),
{
    let ghost before = calls(events@);
    emit_start(events, "chosen");
    emit_str(events, DtProperty::Bootargs, cmdline);
    emit_str(events, DtProperty::StdoutPath, "/uart@effec000");
    emit(events, DtEvent::U64(DtProperty::InitrdStart, initrd_start));
    emit(events, DtEvent::U64(DtProperty::InitrdEnd, initrd_end));
    emit(events, DtEvent::EndNode);
    assert(calls(events@) =~= before + chosen_node(cmdline@, initrd_start, initrd_end));
}

/// Describes the guest to Linux: its RAM, its processor, its interrupt controller, its timer, its
/// console, and what the boot loader hands over.
pub fn build_linux_dt(
    ram: &[MemoryRange],
    topology: &ProcessorTopology,
    sizes: GicSizes,
    cmdline: &str,
    initrd_start: u64,
    initrd_end: u64,
) -> (events: Vec<DtEvent>)
    requires
        describable(*topology, sizes),
        forall|i: int| 0 <= i < ram@.len() ==> (#[trigger] ram@[i]).wf(),
    ensures
        calls(events@) == linux_dt(ram@, *topology, sizes, cmdline@, initrd_start, initrd_end),
{
    let redistributors_base: u64 = match topology.gic_version {
        GicVersion::V3 { redistributors_base } => redistributors_base,
        GicVersion::V2 => 0,
    };
    let mut events: Vec<DtEvent> = Vec::new();
    emit_start(&mut events, "");
    emit(&mut events, DtEvent::U32(DtProperty::AddressCells, 2));
    emit(&mut events, DtEvent::U32(DtProperty::SizeCells, 2));
    emit(&mut events, DtEvent::U32(DtProperty::InterruptParent, PHANDLE_GIC));
    emit_str(&mut events, DtProperty::Compatible, "microsoft,openvmm-cca-prototype");
    emit_cpus(&mut events);
    let ghost start = seq![DtEventView::StartNode(""@)] + root_properties() + cpus_node();
    assert(calls(events@) =~= start + memory_nodes(ram@.take(0)));
    let mut i: usize = 0;
    while i < ram.len()
        invariant
            i <= ram@.len(),
            forall|k: int| 0 <= k < ram@.len() ==> (#[trigger] ram@[k]).wf(),
            calls(events@) == start + memory_nodes(ram@.take(i as int)),
        decreases ram@.len() - i,
    {
        emit_memory(&mut events, ram[i]);
        assert(ram@.take(i + 1).drop_last() =~= ram@.take(i as int));
        assert(calls(events@) =~= start + memory_nodes(ram@.take(i + 1)));
        i = i + 1;
    }
    assert(ram@.take(i as int) =~= ram@);
    emit_intc(
        &mut events,
        topology.gic_distributor_base,
        redistributors_base,
        sizes,
        topology.vp_count(),
    );
    emit_timer(&mut events, topology.virt_timer_ppi);
    emit_uart(&mut events);
    emit_chosen(&mut events, cmdline, initrd_start, initrd_end);
    emit(&mut events, DtEvent::EndNode);
    assert(calls(events@) =~= linux_dt(
        ram@,
        *topology,
        sizes,
        cmdline@,
        initrd_start,
        initrd_end,
    ));
    events
}

/// How many nodes are open after some calls.
pub open spec fn depth(events: Seq<DtEventView>) -> int
    decreases events.len(),
{
    if events.len() == 0 {
        0
    } else {
        depth(events.drop_last()) + match events.last() {
            DtEventView::StartNode(_) => 1int,
            DtEventView::EndNode => -1int,
            _ => 0int,
        }
    }
}

/// Every node that the calls start is ended by them, and none is ended that they did not start.
pub open spec fn balanced(events: Seq<DtEventView>) -> bool {
    &&& depth(events) == 0
    &&& forall|i: int| 0 <= i <= events.len() ==> depth(#[trigger] events.take(i)) >= 0
}

/// The property that a call adds.
pub open spec fn property_of(event: DtEventView) -> Option<DtProperty> {
    match event {
        DtEventView::U32(p, _) => Some(p),
        DtEventView::U64(p, _) => Some(p),
        DtEventView::Str(p, _) => Some(p),
        DtEventView::U32Array(p, _) => Some(p),
        DtEventView::U64Array(p, _) => Some(p),
        DtEventView::Null(p) => Some(p),
        _ => None,
    }
}

/// The calls add properties to an open node.
pub open spec fn only_properties(events: Seq<DtEventView>) -> bool {
    forall|i: int| 0 <= i < events.len() ==> property_of(#[trigger] events[i]) is Some
}

/// How much room property names take up, each with its terminator.
pub open spec fn table_size(names: Seq<DtProperty>) -> nat
    decreases names.len(),
{
    if names.len() == 0 {
        0
    } else {
        table_size(names.drop_last()) + names.last().text().len() + 1
    }
}

proof fn lemma_depth_add(a: Seq<DtEventView>, b: Seq<DtEventView>)
    ensures
        depth(a + b) == depth(a) + depth(b),
    decreases b.len(),
{
    if b.len() == 0 {
        assert(a + b =~= a);
    } else {
        assert((a + b).drop_last() =~= a + b.drop_last());
        lemma_depth_add(a, b.drop_last());
    }
}

proof fn lemma_balanced_add(a: Seq<DtEventView>, b: Seq<DtEventView>)
    requires
        balanced(a),
        balanced(b),
    ensures
        balanced(a + b),
{
    lemma_depth_add(a, b);
    assert forall|i: int| 0 <= i <= (a + b).len() implies depth(#[trigger] (a + b).take(i)) >= 0 by {
        if i <= a.len() {
            assert((a + b).take(i) =~= a.take(i));
        } else {
            assert((a + b).take(i) =~= a + b.take(i - a.len()));
            lemma_depth_add(a, b.take(i - a.len()));
        }
    }
}

proof fn lemma_properties_are_balanced(events: Seq<DtEventView>)
    requires
        only_properties(events),
    ensures
        balanced(events),
    decreases events.len(),
{
    if events.len() > 0 {
        let front = events.drop_last();
        lemma_properties_are_balanced(front);
        assert(property_of(events[events.len() - 1]) is Some);
        assert forall|i: int| 0 <= i <= events.len() implies depth(#[trigger] events.take(i)) >= 0 by {
            if i < events.len() {
                assert(events.take(i) =~= front.take(i));
            } else {
                assert(events.take(i) =~= events);
            }
        }
    } else {
        assert forall|i: int| 0 <= i <= events.len() implies depth(#[trigger] events.take(i)) >= 0 by {
            assert(events.take(i) =~= events);
        }
    }
}

/// A node is open until its last call.
proof fn lemma_node_is_balanced(name: Seq<char>, contents: Seq<DtEventView>)
    requires
        balanced(contents),
    ensures
        balanced(node(name, contents)),
        forall|i: int|
            0 < i < node(name, contents).len() ==> depth(
                #[trigger] node(name, contents).take(i),
            ) >= 1,
{
    let all = node(name, contents);
    let start = seq![DtEventView::StartNode(name)];
    let end = seq![DtEventView::EndNode];
    assert(start.drop_last() =~= Seq::empty());
    assert(end.drop_last() =~= Seq::empty());
    reveal_with_fuel(depth, 2);
    assert(depth(start) == 1);
    assert(depth(end) == -1);
    lemma_depth_add(start, contents);
    lemma_depth_add(start + contents, end);
    assert forall|i: int| 0 < i < all.len() implies depth(#[trigger] all.take(i)) >= 1 by {
        assert(all.take(i) =~= start + contents.take(i - 1));
        lemma_depth_add(start, contents.take(i - 1));
    }
    assert forall|i: int| 0 <= i <= all.len() implies depth(#[trigger] all.take(i)) >= 0 by {
        if i == 0 {
            assert(all.take(i) =~= Seq::empty());
        } else if i == all.len() {
            assert(all.take(i) =~= all);
        }
    }
}

proof fn lemma_leaf_is_balanced(name: Seq<char>, properties: Seq<DtEventView>)
    requires
        only_properties(properties),
    ensures
        balanced(node(name, properties)),
{
    lemma_properties_are_balanced(properties);
    lemma_node_is_balanced(name, properties);
}

proof fn lemma_memory_nodes_are_balanced(ram: Seq<MemoryRange>)
    ensures
        balanced(memory_nodes(ram)),
    decreases ram.len(),
{
    if ram.len() == 0 {
        lemma_properties_are_balanced(memory_nodes(ram));
    } else {
        lemma_memory_nodes_are_balanced(ram.drop_last());
        let range = ram.last();
        lemma_leaf_is_balanced(
            "memory@"@ + hex_digits(range.start() as nat),
            memory_node(range).subrange(1, 3),
        );
        assert(memory_node(range) =~= node(
            "memory@"@ + hex_digits(range.start() as nat),
            memory_node(range).subrange(1, 3),
        ));
        lemma_balanced_add(memory_nodes(ram.drop_last()), memory_node(range));
    }
}

proof fn lemma_first_children_are_balanced(
    ram: Seq<MemoryRange>,
    topology: ProcessorTopology,
    sizes: GicSizes,
)
    ensures
        balanced(
            cpus_node() + memory_nodes(ram) + intc_node(
                topology.gic_distributor_base,
                topology.gic_version->redistributors_base,
                sizes,
                topology.mpidrs@.len(),
            ) + timer_node(topology.virt_timer_ppi),
        ),
{
    let cpu = cpu_node();
    assert(cpu =~= node("cpu@0"@, cpu.subrange(1, 5)));
    lemma_leaf_is_balanced("cpu@0"@, cpu.subrange(1, 5));
    let cells = cpus_node().subrange(1, 3);
    lemma_properties_are_balanced(cells);
    lemma_balanced_add(cells, cpu);
    assert(cpus_node() =~= node("cpus"@, cells + cpu));
    lemma_node_is_balanced("cpus"@, cells + cpu);
    lemma_memory_nodes_are_balanced(ram);
    let base = topology.gic_distributor_base;
    let intc = intc_node(
        base,
        topology.gic_version->redistributors_base,
        sizes,
        topology.mpidrs@.len(),
    );
    assert(intc =~= node("intc@"@ + hex_digits(base as nat), intc.subrange(1, 8)));
    lemma_leaf_is_balanced("intc@"@ + hex_digits(base as nat), intc.subrange(1, 8));
    let timer = timer_node(topology.virt_timer_ppi);
    assert(timer =~= node("timer"@, timer.subrange(1, 5)));
    lemma_leaf_is_balanced("timer"@, timer.subrange(1, 5));
    lemma_balanced_add(cpus_node(), memory_nodes(ram));
    lemma_balanced_add(cpus_node() + memory_nodes(ram), intc);
    lemma_balanced_add(cpus_node() + memory_nodes(ram) + intc, timer);
}

proof fn lemma_children_are_balanced(
    ram: Seq<MemoryRange>,
    topology: ProcessorTopology,
    sizes: GicSizes,
    cmdline: Seq<char>,
    initrd_start: u64,
    initrd_end: u64,
)
    ensures
        balanced(children(ram, topology, sizes, cmdline, initrd_start, initrd_end)),
{
    lemma_first_children_are_balanced(ram, topology, sizes);
    let first = cpus_node() + memory_nodes(ram) + intc_node(
        topology.gic_distributor_base,
        topology.gic_version->redistributors_base,
        sizes,
        topology.mpidrs@.len(),
    ) + timer_node(topology.virt_timer_ppi);
    let uart = uart_node();
    assert(uart =~= node(uart_name(), uart.subrange(1, 6)));
    lemma_leaf_is_balanced(uart_name(), uart.subrange(1, 6));
    let chosen = chosen_node(cmdline, initrd_start, initrd_end);
    assert(chosen =~= node("chosen"@, chosen.subrange(1, 5)));
    lemma_leaf_is_balanced("chosen"@, chosen.subrange(1, 5));
    lemma_balanced_add(first, uart);
    lemma_balanced_add(first + uart, chosen);
}

/// The device tree is one tree: every node is ended, and the root only by the last call.
pub proof fn lemma_device_tree_has_one_root(
    ram: Seq<MemoryRange>,
    topology: ProcessorTopology,
    sizes: GicSizes,
    cmdline: Seq<char>,
    initrd_start: u64,
    initrd_end: u64,
)
    ensures
        ({
            let dt = linux_dt(ram, topology, sizes, cmdline, initrd_start, initrd_end);
            &&& balanced(dt)
            &&& forall|i: int| 0 < i < dt.len() ==> depth(#[trigger] dt.take(i)) >= 1
        }),
{
    let rest = children(ram, topology, sizes, cmdline, initrd_start, initrd_end);
    lemma_children_are_balanced(ram, topology, sizes, cmdline, initrd_start, initrd_end);
    lemma_properties_are_balanced(root_properties());
    lemma_balanced_add(root_properties(), rest);
    lemma_node_is_balanced(""@, root_properties() + rest);
}

/// The property names fit their table, and every property that can be added is one of them.
pub proof fn lemma_property_names_fit()
    ensures
        table_size(property_names()) <= DT_STRING_TABLE_CAP,
        forall|p: DtProperty| #[trigger] property_names().contains(p),
{
    let names = property_names();
    reveal_strlit("#address-cells");
    reveal_strlit("#size-cells");
    reveal_strlit("compatible");
    reveal_strlit("device_type");
    reveal_strlit("reg");
    reveal_strlit("status");
    reveal_strlit("#interrupt-cells");
    reveal_strlit("interrupt-controller");
    reveal_strlit("interrupt-parent");
    reveal_strlit("interrupts");
    reveal_strlit("interrupt-names");
    reveal_strlit("always-on");
    reveal_strlit("phandle");
    reveal_strlit("bootargs");
    reveal_strlit("stdout-path");
    reveal_strlit("linux,initrd-start");
    reveal_strlit("linux,initrd-end");
    reveal_strlit("current-speed");
    lemma_table_size_bound(names, 20);
    assert forall|p: DtProperty| #[trigger] names.contains(p) by {
        assert(exists|i: int| 0 <= i < 18 && names[i] == p) by {
            match p {
                DtProperty::AddressCells => assert(names[0] == p),
                DtProperty::SizeCells => assert(names[1] == p),
                DtProperty::Compatible => assert(names[2] == p),
                DtProperty::DeviceType => assert(names[3] == p),
                DtProperty::Reg => assert(names[4] == p),
                DtProperty::Status => assert(names[5] == p),
                DtProperty::InterruptCells => assert(names[6] == p),
                DtProperty::InterruptController => assert(names[7] == p),
                DtProperty::InterruptParent => assert(names[8] == p),
                DtProperty::Interrupts => assert(names[9] == p),
                DtProperty::InterruptNames => assert(names[10] == p),
                DtProperty::AlwaysOn => assert(names[11] == p),
                DtProperty::Phandle => assert(names[12] == p),
                DtProperty::Bootargs => assert(names[13] == p),
                DtProperty::StdoutPath => assert(names[14] == p),
                DtProperty::InitrdStart => assert(names[15] == p),
                DtProperty::InitrdEnd => assert(names[16] == p),
                DtProperty::CurrentSpeed => assert(names[17] == p),
            }
        }
    }
}

proof fn lemma_table_size_bound(names: Seq<DtProperty>, longest: nat)
    requires
        forall|i: int| 0 <= i < names.len() ==> (#[trigger] names[i]).text().len() <= longest,
    ensures
        table_size(names) <= names.len() * (longest + 1),
    decreases names.len(),
{
    if names.len() > 0 {
        assert(names[names.len() - 1].text().len() <= longest);
        lemma_table_size_bound(names.drop_last(), longest);
        assert(names.len() * (longest + 1) == (names.len() - 1) * (longest + 1) + (longest + 1))
            by (nonlinear_arith);
    }
}

/// Call `i` starts a child of the root.
pub open spec fn starts_child(events: Seq<DtEventView>, i: int, name: Seq<char>) -> bool {
    &&& 0 <= i < events.len()
    &&& events[i] == DtEventView::StartNode(name)
    &&& depth(events.take(i)) == 1
}

/// The path of the console is that of the UART's node, which is a child of the root.
pub proof fn lemma_console_is_the_uart(
    ram: Seq<MemoryRange>,
    topology: ProcessorTopology,
    sizes: GicSizes,
    cmdline: Seq<char>,
    initrd_start: u64,
    initrd_end: u64,
)
    ensures
        stdout_path() == "/"@ + uart_name(),
        exists|i: int|
            starts_child(
                linux_dt(ram, topology, sizes, cmdline, initrd_start, initrd_end),
                i,
                uart_name(),
            ),
{
    reveal_strlit("/uart@effec000");
    reveal_strlit("/");
    reveal_strlit("uart@");
    reveal_with_fuel(hex_digits, 9);
    assert(hex_digits(UART_BASE as nat) =~= seq!['e', 'f', 'f', 'e', 'c', '0', '0', '0']);
    assert(stdout_path() =~= "/"@ + uart_name());
    let dt = linux_dt(ram, topology, sizes, cmdline, initrd_start, initrd_end);
    let start = seq![DtEventView::StartNode(""@)];
    let intc = intc_node(
        topology.gic_distributor_base,
        topology.gic_version->redistributors_base,
        sizes,
        topology.mpidrs@.len(),
    );
    let timer = timer_node(topology.virt_timer_ppi);
    let before = root_properties() + (cpus_node() + memory_nodes(ram) + intc + timer);
    let after = chosen_node(cmdline, initrd_start, initrd_end) + seq![DtEventView::EndNode];
    let i = (start + before).len() as int;
    assert(dt =~= start + before + uart_node() + after);
    assert(dt[i] == uart_node()[0]);
    assert(dt.take(i) =~= start + before);
    lemma_depth_add(start, before);
    assert(start.drop_last() =~= Seq::empty());
    reveal_with_fuel(depth, 2);
    lemma_first_children_are_balanced(ram, topology, sizes);
    lemma_properties_are_balanced(root_properties());
    lemma_balanced_add(root_properties(), cpus_node() + memory_nodes(ram) + intc + timer);
    assert(starts_child(dt, i, uart_name()));
}

/// The node of the interrupt controller gives the addresses at which the interrupt controller is.
pub proof fn lemma_tree_names_the_interrupt_controller(
    gic: PlatformGic,
    topology: ProcessorTopology,
    sizes: GicSizes,
)
    requires
        gic.laid_out(topology, sizes),
    ensures
        intc_node(
            topology.gic_distributor_base,
            topology.gic_version->redistributors_base,
            sizes,
            topology.mpidrs@.len(),
        )[2] == DtEventView::U64Array(
            DtProperty::Reg,
            seq![
                gic.distributor_range.start(),
                (gic.distributor_range.end() - gic.distributor_range.start()) as u64,
                gic.redistributor_range.start(),
                (gic.redistributor_range.end() - gic.redistributor_range.start()) as u64,
            ],
        ),
{
}

/// Every range of RAM has its node, with its address and its size.
pub proof fn lemma_every_range_has_its_node(ram: Seq<MemoryRange>, k: int)
    requires
        0 <= k < ram.len(),
    ensures
        memory_nodes(ram) == memory_nodes(ram.take(k)) + memory_node(ram[k]) + memory_nodes(
            ram.skip(k + 1),
        ),
    decreases ram.len(),
{
    if k == ram.len() - 1 {
        assert(ram.drop_last() =~= ram.take(k));
        assert(ram.skip(k + 1) =~= Seq::empty());
        assert(memory_nodes(ram) =~= memory_nodes(ram.take(k)) + memory_node(ram[k])
            + memory_nodes(ram.skip(k + 1)));
    } else {
        let front = ram.drop_last();
        lemma_every_range_has_its_node(front, k);
        assert(front.take(k) =~= ram.take(k));
        assert(ram.skip(k + 1).drop_last() =~= front.skip(k + 1));
        assert(memory_nodes(ram) =~= memory_nodes(ram.take(k)) + memory_node(ram[k])
            + memory_nodes(ram.skip(k + 1)));
    }
}

proof fn lemma_memory_nodes_in_place(ram: Seq<MemoryRange>, k: int)
    requires
        0 <= k < ram.len(),
    ensures
        memory_nodes(ram).len() == 4 * ram.len(),
        memory_nodes(ram)[4 * k] == DtEventView::StartNode(
            "memory@"@ + hex_digits(ram[k].start() as nat),
        ),
        memory_nodes(ram)[4 * k + 1] == DtEventView::Str(DtProperty::DeviceType, "memory"@),
        memory_nodes(ram)[4 * k + 2] == DtEventView::U64Array(
            DtProperty::Reg,
            seq![ram[k].start(), (ram[k].end() - ram[k].start()) as u64],
        ),
        memory_nodes(ram)[4 * k + 3] == DtEventView::EndNode,
    decreases ram.len(),
{
    lemma_memory_nodes_len(ram);
    lemma_memory_nodes_len(ram.drop_last());
    if k < ram.len() - 1 {
        lemma_memory_nodes_in_place(ram.drop_last(), k);
        assert(ram.drop_last()[k] == ram[k]);
    }
}

proof fn lemma_memory_nodes_len(ram: Seq<MemoryRange>)
    ensures
        memory_nodes(ram).len() == 4 * ram.len(),
    decreases ram.len(),
{
    if ram.len() > 0 {
        lemma_memory_nodes_len(ram.drop_last());
    }
}

/// The device tree ends with what the boot loader hands over: the command line, and the guest
/// addresses at which the initial RAM file system starts and ends, each exactly as given, whatever
/// the RAM is.
pub proof fn lemma_tree_hands_over_the_initrd(
    events: Seq<DtEvent>,
    ram: Seq<MemoryRange>,
    topology: ProcessorTopology,
    sizes: GicSizes,
    cmdline: Seq<char>,
    initrd_start: u64,
    initrd_end: u64,
)
    requires
        calls(events) == linux_dt(ram, topology, sizes, cmdline, initrd_start, initrd_end),
    ensures
        ({
            let n = events.len() as int;
            &&& n > 7
            &&& events[n - 7] matches DtEvent::StartNode(name)
            &&& name@ == "chosen"@
            &&& events[n - 6] matches DtEvent::Str(DtProperty::Bootargs, text)
            &&& text@ == cmdline
            &&& events[n - 5] matches DtEvent::Str(DtProperty::StdoutPath, path)
            &&& path@ == "/uart@effec000"@
            &&& events[n - 4] matches DtEvent::U64(DtProperty::InitrdStart, start)
            &&& start == initrd_start
            &&& events[n - 3] matches DtEvent::U64(DtProperty::InitrdEnd, end)
            &&& end == initrd_end
            &&& events[n - 2] is EndNode && events[n - 1] is EndNode
        }),
{
    let all = calls(events);
    let n = events.len() as int;
    assert(all.len() == events.len());
    assert(all[n - 7] == events[n - 7]@);
    assert(all[n - 6] == events[n - 6]@);
    assert(all[n - 5] == events[n - 5]@);
    assert(all[n - 4] == events[n - 4]@);
    assert(all[n - 3] == events[n - 3]@);
    assert(all[n - 2] == events[n - 2]@);
    assert(all[n - 1] == events[n - 1]@);
}

/// Range `k` of RAM is described by a node at its address, with its start and its size: the start
/// is its own, and start and size together are its end.
pub proof fn lemma_tree_describes_the_ram(
    events: Seq<DtEvent>,
    ram: Seq<MemoryRange>,
    topology: ProcessorTopology,
    sizes: GicSizes,
    cmdline: Seq<char>,
    initrd_start: u64,
    initrd_end: u64,
    k: int,
)
    requires
        calls(events) == linux_dt(ram, topology, sizes, cmdline, initrd_start, initrd_end),
        0 <= k < ram.len(),
        ram[k].wf(),
    ensures
        events.len() == 44 + 4 * ram.len(),
        ({
            let i = 15 + 4 * k;
            &&& events[i] matches DtEvent::StartNode(name)
            &&& name@.len() > 7
            &&& name@.take(7) == "memory@"@
            &&& digits_value(name@.skip(7), 16) == ram[k].start()
            &&& events[i + 1] matches DtEvent::Str(DtProperty::DeviceType, text)
            &&& text@ == "memory"@
            &&& events[i + 2] matches DtEvent::U64Array(DtProperty::Reg, reg)
            &&& reg@.len() == 2
            &&& reg@[0] == ram[k].start()
            &&& reg@[0] + reg@[1] == ram[k].end()
            &&& events[i + 3] is EndNode
        }),
{
    let all = calls(events);
    assert(all.len() == events.len());
    let i = 15 + 4 * k;
    lemma_memory_nodes_in_place(ram, k);
    lemma_hex_reads_back(ram[k].start() as nat);
    reveal_strlit("memory@");
    let name = "memory@"@ + hex_digits(ram[k].start() as nat);
    assert(name.take(7) =~= "memory@"@);
    assert(name.skip(7) =~= hex_digits(ram[k].start() as nat));
    assert(all[i] == memory_nodes(ram)[4 * k]);
    assert(all[i + 1] == memory_nodes(ram)[4 * k + 1]);
    assert(all[i + 2] == memory_nodes(ram)[4 * k + 2]);
    assert(all[i + 3] == memory_nodes(ram)[4 * k + 3]);
    assert(all[i] == events[i]@);
    assert(all[i + 1] == events[i + 1]@);
    assert(all[i + 2] == events[i + 2]@);
    assert(all[i + 3] == events[i + 3]@);
}

/// The interrupt controller, the timer and the console are described as they are: the interrupt
/// controller by the addresses and sizes of its parts, the timer by its interrupt, counted from the
/// first private one, and the console by its addresses and its interrupt, counted from the first
/// shared one.
pub proof fn lemma_tree_describes_the_devices(
    events: Seq<DtEvent>,
    ram: Seq<MemoryRange>,
    topology: ProcessorTopology,
    sizes: GicSizes,
    cmdline: Seq<char>,
    initrd_start: u64,
    initrd_end: u64,
)
    requires
        describable(topology, sizes),
        calls(events) == linux_dt(ram, topology, sizes, cmdline, initrd_start, initrd_end),
    ensures
        ({
            let i = 15 + 4 * (ram.len() as int);
            &&& events.len() == i + 29
            &&& events[i] matches DtEvent::StartNode(name)
            &&& name@.len() > 5
            &&& name@.take(5) == "intc@"@
            &&& digits_value(name@.skip(5), 16) == topology.gic_distributor_base
            &&& events[i + 1] matches DtEvent::Str(DtProperty::Compatible, model)
            &&& model@ == "arm,gic-v3"@
            &&& events[i + 2] matches DtEvent::U64Array(DtProperty::Reg, reg)
            &&& reg@.len() == 4
            &&& reg@[0] == topology.gic_distributor_base
            &&& reg@[1] == sizes.distributor
            &&& reg@[2] == topology.gic_version->redistributors_base
            &&& reg@[3] == sizes.redistributor * topology.mpidrs@.len()
            &&& events[i + 3] == DtEvent::U32(DtProperty::AddressCells, 2)
            &&& events[i + 4] == DtEvent::U32(DtProperty::SizeCells, 2)
            &&& events[i + 5] == DtEvent::U32(DtProperty::InterruptCells, 3)
            &&& events[i + 6] == DtEvent::Null(DtProperty::InterruptController)
            &&& events[i + 7] == DtEvent::U32(DtProperty::Phandle, 1)
            &&& events[i + 8] is EndNode
        }),
        ({
            let i = 24 + 4 * (ram.len() as int);
            &&& events[i] matches DtEvent::StartNode(name)
            &&& name@ == "timer"@
            &&& events[i + 1] matches DtEvent::Str(DtProperty::Compatible, model)
            &&& model@ == "arm,armv8-timer"@
            &&& events[i + 2] matches DtEvent::Str(DtProperty::InterruptNames, text)
            &&& text@ == "virt"@
            &&& events[i + 3] matches DtEvent::U32Array(DtProperty::Interrupts, irq)
            &&& irq@.len() == 3
            &&& irq@[0] == 1
            &&& irq@[1] + 16 == topology.virt_timer_ppi
            &&& irq@[2] == 8
            &&& events[i + 4] == DtEvent::Null(DtProperty::AlwaysOn)
            &&& events[i + 5] is EndNode
        }),
        ({
            let i = 30 + 4 * (ram.len() as int);
            &&& events[i] matches DtEvent::StartNode(name)
            &&& name@.len() > 5
            &&& name@.take(5) == "uart@"@
            &&& digits_value(name@.skip(5), 16) == 0xeffe_c000
            &&& events[i + 1] matches DtEvent::Str(DtProperty::Compatible, model)
            &&& model@ == "arm,sbsa-uart"@
            &&& events[i + 2] matches DtEvent::U64Array(DtProperty::Reg, reg)
            &&& reg@ == seq![0xeffe_c000u64, 0x1000u64]
            &&& events[i + 3] matches DtEvent::U32Array(DtProperty::Interrupts, irq)
            &&& irq@.len() == 3
            &&& irq@[0] == 0
            &&& irq@[1] + 32 == UART_INTID
            &&& irq@[2] == 4
            &&& events[i + 4] == DtEvent::U32(DtProperty::CurrentSpeed, 115200)
            &&& events[i + 5] matches DtEvent::Str(DtProperty::Status, status)
            &&& status@ == "okay"@
            &&& events[i + 6] is EndNode
        }),
{
    let all = calls(events);
    assert(all.len() == events.len());
    lemma_memory_nodes_len(ram);
    let i = 15 + 4 * (ram.len() as int);
    lemma_hex_reads_back(topology.gic_distributor_base as nat);
    lemma_hex_reads_back(0xeffe_c000);
    reveal_strlit("intc@");
    reveal_strlit("uart@");
    let intc_name = "intc@"@ + hex_digits(topology.gic_distributor_base as nat);
    assert(intc_name.take(5) =~= "intc@"@);
    assert(intc_name.skip(5) =~= hex_digits(topology.gic_distributor_base as nat));
    assert(uart_name().take(5) =~= "uart@"@);
    assert(uart_name().skip(5) =~= hex_digits(0xeffe_c000));
    let intc = intc_node(
        topology.gic_distributor_base,
        topology.gic_version->redistributors_base,
        sizes,
        topology.mpidrs@.len(),
    );
    let timer = timer_node(topology.virt_timer_ppi);
    let uart = uart_node();
    assert forall|j: int| 0 <= j < 9 implies (#[trigger] events[i + j])@ == intc[j] by {
        assert(all[i + j] == intc[j]);
    }
    assert forall|j: int| 0 <= j < 6 implies (#[trigger] events[i + 9 + j])@ == timer[j] by {
        assert(all[i + 9 + j] == timer[j]);
    }
    assert forall|j: int| 0 <= j < 7 implies (#[trigger] events[i + 15 + j])@ == uart[j] by {
        assert(all[i + 15 + j] == uart[j]);
    }
    assert(events[i + 0]@ == intc[0]);
    assert(events[i + 1]@ == intc[1]);
    assert(events[i + 2]@ == intc[2]);
    assert(events[i + 3]@ == intc[3]);
    assert(events[i + 4]@ == intc[4]);
    assert(events[i + 5]@ == intc[5]);
    assert(events[i + 6]@ == intc[6]);
    assert(events[i + 7]@ == intc[7]);
    assert(events[i + 8]@ == intc[8]);
    assert(events[i + 9 + 0]@ == timer[0]);
    assert(events[i + 9 + 1]@ == timer[1]);
    assert(events[i + 9 + 2]@ == timer[2]);
    assert(events[i + 9 + 3]@ == timer[3]);
    assert(events[i + 9 + 4]@ == timer[4]);
    assert(events[i + 9 + 5]@ == timer[5]);
    assert(events[i + 15 + 0]@ == uart[0]);
    assert(events[i + 15 + 1]@ == uart[1]);
    assert(events[i + 15 + 2]@ == uart[2]);
    assert(events[i + 15 + 3]@ == uart[3]);
    assert(events[i + 15 + 4]@ == uart[4]);
    assert(events[i + 15 + 5]@ == uart[5]);
    assert(events[i + 15 + 6]@ == uart[6]);
}

/// The device tree starts with the properties that every guest has, which name the interrupt
/// controller as the interrupt parent, and with its one processor.
pub proof fn lemma_tree_describes_the_processor(
    events: Seq<DtEvent>,
    ram: Seq<MemoryRange>,
    topology: ProcessorTopology,
    sizes: GicSizes,
    cmdline: Seq<char>,
    initrd_start: u64,
    initrd_end: u64,
)
    requires
        calls(events) == linux_dt(ram, topology, sizes, cmdline, initrd_start, initrd_end),
    ensures
        events.len() >= 15,
        ({
            &&& events[0] matches DtEvent::StartNode(root)
            &&& root@ == ""@
            &&& events[1] == DtEvent::U32(DtProperty::AddressCells, 2)
            &&& events[2] == DtEvent::U32(DtProperty::SizeCells, 2)
            &&& events[3] == DtEvent::U32(DtProperty::InterruptParent, 1)
            &&& events[4] matches DtEvent::Str(DtProperty::Compatible, model)
            &&& model@ == "microsoft,openvmm-cca-prototype"@
            &&& events[5] matches DtEvent::StartNode(cpus)
            &&& cpus@ == "cpus"@
            &&& events[6] == DtEvent::U32(DtProperty::AddressCells, 1)
            &&& events[7] == DtEvent::U32(DtProperty::SizeCells, 0)
            &&& events[8] matches DtEvent::StartNode(cpu)
            &&& cpu@ == "cpu@0"@
            &&& events[9] matches DtEvent::Str(DtProperty::DeviceType, device)
            &&& device@ == "cpu"@
            &&& events[10] matches DtEvent::Str(DtProperty::Compatible, kind)
            &&& kind@ == "arm,armv8"@
            &&& events[11] == DtEvent::U32(DtProperty::Reg, 0)
            &&& events[12] matches DtEvent::Str(DtProperty::Status, status)
            &&& status@ == "okay"@
            &&& events[13] is EndNode
            &&& events[14] is EndNode
        }),
{
    let all = calls(events);
    let root = root_properties();
    let cpus = cpus_node();
    assert(all.len() == events.len());
    assert forall|j: int| 0 <= j < 4 implies (#[trigger] events[1 + j])@ == root[j] by {
        assert(all[1 + j] == root[j]);
    }
    assert forall|j: int| 0 <= j < 10 implies (#[trigger] events[5 + j])@ == cpus[j] by {
        assert(all[5 + j] == cpus[j]);
    }
    assert(all[0] == events[0]@);
    assert(events[1int + 0]@ == root[0]);
    assert(events[1int + 1]@ == root[1]);
    assert(events[1int + 2]@ == root[2]);
    assert(events[1int + 3]@ == root[3]);
    assert(events[5int + 0]@ == cpus[0]);
    assert(events[5int + 1]@ == cpus[1]);
    assert(events[5int + 2]@ == cpus[2]);
    assert(events[5int + 3]@ == cpus[3]);
    assert(events[5int + 4]@ == cpus[4]);
    assert(events[5int + 5]@ == cpus[5]);
    assert(events[5int + 6]@ == cpus[6]);
    assert(events[5int + 7]@ == cpus[7]);
    assert(events[5int + 8]@ == cpus[8]);
    assert(events[5int + 9]@ == cpus[9]);
}

} // verus!
