use crate::console::{lemma_put_one, lemma_put_string_concat, spec_put_string, Console};
use crate::err::{KError, KResult};
use vstd::prelude::*;

verus! {

/// The reserved all-ones vendor identifier: no device responds at the probed
/// address.
pub const VENDOR_ID_INVALID: u16 = 0xffff;

/// Capacity of the device registry, a deliberate layout constraint of the
/// target environment.
pub const MAX_DEVICES: usize = 32;

// ---------------------------------------------------------------------------
// Configuration space
//
// The hardware exposes one 32-bit register space addressed indirectly: a
// composed address is written to one fixed port and the data moves through a
// second one. This library models the space as a value: a map from composed
// address to 32-bit register, where every unmapped address reads as all ones,
// exactly what the hardware returns for an absent function. The process
// entry point fills a `ConfigSpace` from the real ports; tests build
// synthetic topologies in it.
// ---------------------------------------------------------------------------

/// Register map built from a journal of writes: a later write to an address
/// shadows an earlier one.
pub open spec fn map_of(entries: Seq<(u32, u32)>) -> Map<u32, u32>
    decreases entries.len(),
{
    if entries.len() == 0 {
        Map::empty()
    } else {
        map_of(entries.drop_last()).insert(entries.last().0, entries.last().1)
    }
}

/// What a read of `addr` returns out of register map `m`: the stored value,
/// or the all-ones pattern of an address nothing responds to.
pub open spec fn reg_of(m: Map<u32, u32>, addr: u32) -> u32 {
    if m.contains_key(addr) {
        m[addr]
    } else {
        0xffff_ffffu32
    }
}

/// A snapshot of the bus's configuration register space, keyed by the
/// composed 32-bit configuration address.
pub struct ConfigSpace {
    entries: Vec<(u32, u32)>,
}

impl View for ConfigSpace {
    type V = Map<u32, u32>;

    closed spec fn view(&self) -> Map<u32, u32> {
        map_of(self.entries@)
    }
}

proof fn lemma_map_of_push(entries: Seq<(u32, u32)>, entry: (u32, u32))
    ensures
        map_of(entries.push(entry)) == map_of(entries).insert(entry.0, entry.1),
{
    assert(entries.push(entry).drop_last() =~= entries);
    assert(entries.push(entry).last() == entry);
}

impl ConfigSpace {
    /// An empty space: every address reads as all ones.
    pub fn new() -> (r: ConfigSpace)
        ensures
            r@ == Map::<u32, u32>::empty(),
    {
        ConfigSpace { entries: Vec::new() }
    }

    /// Record the 32-bit register at composed address `addr`.
    pub fn write(&mut self, addr: u32, value: u32)
        ensures
            final(self)@ == old(self)@.insert(addr, value),
    {
        proof {
            lemma_map_of_push(self.entries@, (addr, value));
        }
        self.entries.push((addr, value));
    }

    /// Read the 32-bit register at composed address `addr`.
    pub fn read(&self, addr: u32) -> (r: u32)
        ensures
            r == reg_of(self@, addr),
    {
        let n = self.entries.len();
        let mut r: u32 = 0xffff_ffffu32;
        let mut i: usize = 0;
        while i < n
            invariant
                i <= n,
                n == self.entries@.len(),
                r == reg_of(map_of(self.entries@.take(i as int)), addr),
            decreases n - i,
        {
            let (a, v) = self.entries[i];
            proof {
                assert(self.entries@.take(i + 1 as int).drop_last() =~= self.entries@.take(
                    i as int,
                ));
                lemma_map_of_push(self.entries@.take(i as int), self.entries@[i as int]);
                assert(self.entries@.take(i as int).push(self.entries@[i as int])
                    =~= self.entries@.take(i + 1 as int));
            }
            if a == addr {
                r = v;
            }
            i = i + 1;
        }
        proof {
            assert(self.entries@.take(n as int) =~= self.entries@);
        }
        r
    }
}

// ---------------------------------------------------------------------------
// The configuration address protocol
// ---------------------------------------------------------------------------

/// The composed configuration address: an enable bit on top, the bus in bits
/// 16..24, the device in bits 11..16, the function in bits 8..11 and the
/// register offset, clipped to a multiple of four, in the low byte.
pub open spec fn spec_make_address(bus: u8, device: u8, function: u8, offset: u8) -> u32 {
    (1u32 << 31) | ((bus as u32) << 16) | ((device as u32) << 11) | ((function as u32) << 8) | (
    (offset & 0xfcu8) as u32)
}

/// Compose the address that selects register `offset` of the given function.
pub fn make_address(bus: u8, device: u8, function: u8, offset: u8) -> (r: u32)
    ensures
        r == spec_make_address(bus, device, function, offset),
{
    let mut address: u32 = 0;
    address |= 1u32 << 31;
    address |= (bus as u32) << 16;
    address |= (device as u32) << 11;
    address |= (function as u32) << 8;
    address |= (offset & 0xfcu8) as u32;
    proof {
        assert(((((0u32 | (1u32 << 31)) | ((bus as u32) << 16)) | ((device as u32) << 11)) | (
        (function as u32) << 8)) | ((offset & 0xfcu8) as u32) == (1u32 << 31) | ((bus as u32)
            << 16) | ((device as u32) << 11) | ((function as u32) << 8) | ((offset & 0xfcu8)
            as u32)) by (bit_vector);
    }
    address
}

// ---------------------------------------------------------------------------
// Register readers
// ---------------------------------------------------------------------------

/// The 16-bit vendor identifier of a function: the low half of register 0x00.
pub open spec fn spec_vendor_id(m: Map<u32, u32>, bus: u8, device: u8, function: u8) -> u16 {
    (reg_of(m, spec_make_address(bus, device, function, 0x00)) & 0xffff) as u16
}

/// The header-type byte of a function: bits 16..24 of register 0x0c.
pub open spec fn spec_header_type(m: Map<u32, u32>, bus: u8, device: u8, function: u8) -> u8 {
    ((reg_of(m, spec_make_address(bus, device, function, 0x0c)) >> 16) & 0xff) as u8
}

/// The class triple of a function, from the top three bytes of register 0x08.
pub open spec fn spec_class_code(m: Map<u32, u32>, bus: u8, device: u8, function: u8) -> ClassCode {
    let reg = reg_of(m, spec_make_address(bus, device, function, 0x08));
    ClassCode {
        base: ((reg >> 24) & 0xff) as u8,
        sub: ((reg >> 16) & 0xff) as u8,
        interface: ((reg >> 8) & 0xff) as u8,
    }
}

/// The bus-numbers register of a bridge, register 0x18.
pub open spec fn spec_bus_numbers(m: Map<u32, u32>, bus: u8, device: u8, function: u8) -> u32 {
    reg_of(m, spec_make_address(bus, device, function, 0x18))
}

/// A header type whose top bit is clear marks a single-function device.
pub open spec fn spec_single_function(header_type: u8) -> bool {
    header_type & 0x80u8 == 0
}

pub fn read_vendor_id(cs: &ConfigSpace, bus: u8, device: u8, function: u8) -> (r: u16)
    ensures
        r == spec_vendor_id(cs@, bus, device, function),
{
    let reg = cs.read(make_address(bus, device, function, 0x00));
    proof {
        assert(reg & 0xffff < 0x10000) by (bit_vector);
    }
    (reg & 0xffff) as u16
}

pub fn read_header_type(cs: &ConfigSpace, bus: u8, device: u8, function: u8) -> (r: u8)
    ensures
        r == spec_header_type(cs@, bus, device, function),
{
    let reg = cs.read(make_address(bus, device, function, 0x0c));
    proof {
        assert((reg >> 16) & 0xff < 0x100) by (bit_vector);
    }
    ((reg >> 16) & 0xff) as u8
}

pub fn read_class_code(cs: &ConfigSpace, bus: u8, device: u8, function: u8) -> (r: ClassCode)
    ensures
        r == spec_class_code(cs@, bus, device, function),
{
    let reg = cs.read(make_address(bus, device, function, 0x08));
    proof {
        assert((reg >> 24) & 0xff < 0x100 && (reg >> 16) & 0xff < 0x100 && (reg >> 8) & 0xff
            < 0x100) by (bit_vector);
    }
    ClassCode {
        base: ((reg >> 24) & 0xff) as u8,
        sub: ((reg >> 16) & 0xff) as u8,
        interface: ((reg >> 8) & 0xff) as u8,
    }
}

pub fn read_bus_numbers(cs: &ConfigSpace, bus: u8, device: u8, function: u8) -> (r: u32)
    ensures
        r == spec_bus_numbers(cs@, bus, device, function),
{
    cs.read(make_address(bus, device, function, 0x18))
}

fn is_single_function_device(header_type: u8) -> (r: bool)
    ensures
        r == spec_single_function(header_type),
{
    (header_type & 0x80u8) == 0
}

// ---------------------------------------------------------------------------
// Devices and the registry
// ---------------------------------------------------------------------------

/// The three-field classification of a function's purpose.
#[derive(Clone, Copy, Debug, PartialEq, Eq, Structural)]
pub struct ClassCode {
    pub base: u8,
    pub sub: u8,
    pub interface: u8,
}

impl ClassCode {
    /// Does the class match the given target triple exactly?
    pub fn same(&self, base: u8, sub: u8, interface: u8) -> (r: bool)
        ensures
            r == (self.base == base && self.sub == sub && self.interface == interface),
    {
        self.base == base && self.sub == sub && self.interface == interface
    }
}

/// One responding function, as recorded during a scan.
#[derive(Clone, Copy, Debug, PartialEq, Eq, Structural)]
pub struct Device {
    pub bus: u8,
    pub device: u8,
    pub function: u8,
    pub header_type: u8,
    pub class_code: ClassCode,
}

/// The device registry: discovery order, bounded by `MAX_DEVICES`.
pub struct Pci {
    pub num_device: usize,
    pub devices: Vec<Device>,
}

// ---------------------------------------------------------------------------
// Base-address registers
// ---------------------------------------------------------------------------

/// Offset of base-address register `bar_index`: the six registers from 0x10.
pub open spec fn spec_calc_bar_address(bar_index: int) -> u8 {
    (0x10 + 4 * bar_index) as u8
}

/// What decoding base-address register `bar_index` of `dev` yields. An index
/// past 5 is out of range. Bit 2 of the low register clear: the 32-bit value
/// itself, zero-extended. Bit 2 set: the low half of a 64-bit address whose
/// high half sits in the next register, so index 5, which has no next
/// register, is out of range too.
pub open spec fn spec_read_bar(m: Map<u32, u32>, dev: Device, bar_index: int) -> Result<u64, KError> {
    if bar_index < 0 || bar_index >= 6 {
        Err(KError::IndexOutOfRange)
    } else {
        let low = reg_of(
            m,
            spec_make_address(dev.bus, dev.device, dev.function, spec_calc_bar_address(bar_index)),
        );
        if low & 0x4u32 == 0 {
            Ok(low as u64)
        } else if bar_index == 5 {
            Err(KError::IndexOutOfRange)
        } else {
            let high = reg_of(
                m,
                spec_make_address(
                    dev.bus,
                    dev.device,
                    dev.function,
                    spec_calc_bar_address(bar_index + 1),
                ),
            );
            Ok(((high as u64) << 32) | (low as u64))
        }
    }
}

/// Read one 32-bit configuration register of a recorded device.
pub fn read_conf_reg(cs: &ConfigSpace, dev: &Device, reg_addr: u8) -> (r: u32)
    ensures
        r == reg_of(cs@, spec_make_address(dev.bus, dev.device, dev.function, reg_addr)),
{
    cs.read(make_address(dev.bus, dev.device, dev.function, reg_addr))
}

fn calc_bar_address(bar_index: usize) -> (r: u8)
    requires
        bar_index < 6,
    ensures
        r == spec_calc_bar_address(bar_index as int),
{
    (0x10 + 4 * bar_index) as u8
}

/// Decode base-address register `bar_index` of `dev`, combining a 64-bit
/// pair when bit 2 of the low half is set.
pub fn read_bar(cs: &ConfigSpace, dev: &Device, bar_index: usize) -> (r: Result<u64, KError>)
    ensures
        r == spec_read_bar(cs@, *dev, bar_index as int),
{
    if bar_index >= 6 {
        return Err(KError::IndexOutOfRange);
    }
    let bar_addr = calc_bar_address(bar_index);
    let bar_low = read_conf_reg(cs, dev, bar_addr);

    if bar_low & 0x4u32 == 0 {
        Ok(bar_low as u64)
    } else {
        if bar_index == 5 {
            return Err(KError::IndexOutOfRange);
        }
        let bar_high = read_conf_reg(cs, dev, bar_addr + 4);
        let bar: u64 = ((bar_high as u64) << 32) | (bar_low as u64);
        Ok(bar)
    }
}

// ---------------------------------------------------------------------------
// Device lookup
// ---------------------------------------------------------------------------

/// The class triple of the controller the boot path looks for.
pub open spec fn spec_is_xhc(class_code: ClassCode) -> bool {
    class_code.base == 0x0c && class_code.sub == 0x03 && class_code.interface == 0x30
}

/// The first device of a sequence whose class matches the target controller.
pub open spec fn spec_find_xhc(devices: Seq<Device>) -> Option<Device>
    decreases devices.len(),
{
    if devices.len() == 0 {
        None
    } else if spec_is_xhc(devices[0].class_code) {
        Some(devices[0])
    } else {
        spec_find_xhc(devices.drop_first())
    }
}

/// Find the first registered device whose class marks the target serial-bus
/// controller (base 0x0c, sub 0x03, interface 0x30).
pub fn find_xhc_device(pci: &Pci) -> (r: Option<Device>)
    requires
        pci.wf(),
    ensures
        r == spec_find_xhc(pci.devices@),
{
    let mut i: usize = 0;
    proof {
        assert(pci.devices@.skip(0) =~= pci.devices@);
    }
    while i < pci.num_device
        invariant
            pci.wf(),
            i <= pci.num_device,
            spec_find_xhc(pci.devices@.skip(i as int)) == spec_find_xhc(pci.devices@),
        decreases pci.num_device - i,
    {
        let dev = pci.devices[i];
        if dev.class_code.same(0x0c, 0x03, 0x30) {
            proof {
                assert(pci.devices@.skip(i as int)[0] == dev);
            }
            return Some(dev);
        }
        proof {
            assert(pci.devices@.skip(i as int).drop_first() =~= pci.devices@.skip(i + 1));
            assert(pci.devices@.skip(i as int)[0] == pci.devices@[i as int]);
        }
        i = i + 1;
    }
    proof {
        assert(pci.devices@.skip(pci.num_device as int) =~= Seq::<Device>::empty());
    }
    None
}

// ---------------------------------------------------------------------------
// The scan, as a mathematical function
//
// The recursive walk below mirrors the executable scan step for step: it
// threads the registry contents through the recursion and answers either
// `Ok` with the completed registry or `Err` with the thirty-two entries that
// stood when capacity ran out. `scan_all_bus` promises to leave the registry
// at exactly this value.
// ---------------------------------------------------------------------------

/// The record the scan stores for a responding function.
pub open spec fn spec_device(m: Map<u32, u32>, bus: u8, device: u8, function: u8) -> Device {
    Device {
        bus,
        device,
        function,
        header_type: spec_header_type(m, bus, device, function),
        class_code: spec_class_code(m, bus, device, function),
    }
}

/// A class with base 0x06 and sub 0x04 marks a bridge to a secondary bus.
pub open spec fn spec_is_bridge(class_code: ClassCode) -> bool {
    class_code.base == 0x06 && class_code.sub == 0x04
}

/// The secondary bus number of a bridge: bits 8..16 of its bus-numbers
/// register.
pub open spec fn spec_secondary_bus(m: Map<u32, u32>, bus: u8, device: u8, function: u8) -> u8 {
    ((spec_bus_numbers(m, bus, device, function) >> 8) & 0xff) as u8
}

/// Capacity left in a registry holding `acc`; the termination measure of the
/// recursion, which shrinks with every record stored.
pub open spec fn capgap(acc: Seq<Device>) -> nat {
    if acc.len() <= MAX_DEVICES {
        (MAX_DEVICES - acc.len()) as nat
    } else {
        0
    }
}

/// The longer of the registry before and after a subscan. A subscan only
/// ever appends, so this is the registry after it; phrased this way the
/// termination measure can see, without a side proof, that the registry
/// never shrinks.
pub open spec fn grown(before: Seq<Device>, after: Seq<Device>) -> Seq<Device> {
    if after.len() >= before.len() {
        after
    } else {
        before
    }
}

/// Record the function at (`bus`, `device`, `function`) on top of `acc`,
/// recursing into the secondary bus when it is a bridge.
pub open spec fn spec_scan_function(
    m: Map<u32, u32>,
    bus: u8,
    device: u8,
    function: u8,
    acc: Seq<Device>,
) -> Result<Seq<Device>, Seq<Device>>
    decreases capgap(acc), 1int, 0int,
{
    if acc.len() >= MAX_DEVICES {
        Err(acc)
    } else {
        let acc1 = acc.push(spec_device(m, bus, device, function));
        if spec_is_bridge(spec_class_code(m, bus, device, function)) {
            spec_scan_bus(m, spec_secondary_bus(m, bus, device, function), 0, acc1)
        } else {
            Ok(acc1)
        }
    }
}

/// Scan functions `function`..8 of a multi-function device, skipping the
/// ones whose vendor identifier reads as the invalid sentinel.
pub open spec fn spec_scan_device_functions(
    m: Map<u32, u32>,
    bus: u8,
    device: u8,
    function: int,
    acc: Seq<Device>,
) -> Result<Seq<Device>, Seq<Device>>
    decreases capgap(acc), 2int, 8 - function,
{
    if function >= 8 {
        Ok(acc)
    } else if spec_vendor_id(m, bus, device, function as u8) == VENDOR_ID_INVALID {
        spec_scan_device_functions(m, bus, device, function + 1, acc)
    } else {
        match spec_scan_function(m, bus, device, function as u8, acc) {
            Err(s) => Err(s),
            Ok(acc1) => spec_scan_device_functions(m, bus, device, function + 1, grown(acc, acc1)),
        }
    }
}

/// Scan a responding device slot: always function 0 first, the rest only
/// when the header type marks the device multi-function.
pub open spec fn spec_scan_device(m: Map<u32, u32>, bus: u8, device: u8, acc: Seq<Device>) -> Result<
    Seq<Device>,
    Seq<Device>,
>
    decreases capgap(acc), 3int, 0int,
{
    match spec_scan_function(m, bus, device, 0, acc) {
        Err(s) => Err(s),
        Ok(acc1) => {
            if spec_single_function(spec_header_type(m, bus, device, 0)) {
                Ok(acc1)
            } else {
                spec_scan_device_functions(m, bus, device, 1, grown(acc, acc1))
            }
        },
    }
}

/// Scan device slots `device`..32 of one bus, skipping slots whose vendor
/// identifier reads as the invalid sentinel.
pub open spec fn spec_scan_bus(m: Map<u32, u32>, bus: u8, device: int, acc: Seq<Device>) -> Result<
    Seq<Device>,
    Seq<Device>,
>
    decreases capgap(acc), 4int, 32 - device,
{
    if device >= 32 {
        Ok(acc)
    } else if spec_vendor_id(m, bus, device as u8, 0) == VENDOR_ID_INVALID {
        spec_scan_bus(m, bus, device + 1, acc)
    } else {
        match spec_scan_device(m, bus, device as u8, acc) {
            Err(s) => Err(s),
            Ok(acc1) => spec_scan_bus(m, bus, device + 1, grown(acc, acc1)),
        }
    }
}

/// Probe root functions `function`..8; each one that responds is scanned as
/// the root of the bus bearing its own index (the probe has always handed
/// the function index on as the bus number).
pub open spec fn spec_scan_root_functions(m: Map<u32, u32>, function: int, acc: Seq<Device>) -> Result<
    Seq<Device>,
    Seq<Device>,
>
    decreases capgap(acc), 5int, 8 - function,
{
    if function >= 8 {
        Ok(acc)
    } else if spec_vendor_id(m, 0, 0, function as u8) == VENDOR_ID_INVALID {
        spec_scan_root_functions(m, function + 1, acc)
    } else {
        match spec_scan_bus(m, function as u8, 0, acc) {
            Err(s) => Err(s),
            Ok(acc1) => spec_scan_root_functions(m, function + 1, grown(acc, acc1)),
        }
    }
}

/// The whole topology walk on an empty registry.
pub open spec fn spec_scan_all(m: Map<u32, u32>) -> Result<Seq<Device>, Seq<Device>> {
    if spec_single_function(spec_header_type(m, 0, 0, 0)) {
        spec_scan_bus(m, 0, 0, Seq::<Device>::empty())
    } else {
        spec_scan_root_functions(m, 1, Seq::<Device>::empty())
    }
}

/// How an executable scan result relates to the mathematical one: the
/// registry holds exactly the scanned sequence, and the call failed exactly
/// when capacity ran out.
pub open spec fn scan_outcome(
    scanned: Result<Seq<Device>, Seq<Device>>,
    devices: Seq<Device>,
    r: KResult<()>,
) -> bool {
    match scanned {
        Ok(s) => devices == s && r == Ok::<(), KError>(()),
        Err(s) => devices == s && r == Err::<(), KError>(KError::Full),
    }
}

// ---------------------------------------------------------------------------
// Text for the device listing
// ---------------------------------------------------------------------------

/// The character of one digit value below sixteen, lower case.
pub open spec fn spec_hex_digit(d: u8) -> char {
    if d == 0 {
        '0'
    } else if d == 1 {
        '1'
    } else if d == 2 {
        '2'
    } else if d == 3 {
        '3'
    } else if d == 4 {
        '4'
    } else if d == 5 {
        '5'
    } else if d == 6 {
        '6'
    } else if d == 7 {
        '7'
    } else if d == 8 {
        '8'
    } else if d == 9 {
        '9'
    } else if d == 10 {
        'a'
    } else if d == 11 {
        'b'
    } else if d == 12 {
        'c'
    } else if d == 13 {
        'd'
    } else if d == 14 {
        'e'
    } else {
        'f'
    }
}

/// A byte in decimal, without leading zeros.
pub open spec fn spec_dec_u8(n: u8) -> Seq<char>
    decreases n,
{
    if n < 10 {
        seq![spec_hex_digit(n)]
    } else {
        spec_dec_u8(n / 10).push(spec_hex_digit(n % 10))
    }
}

/// A byte as two lower-case hex digits.
pub open spec fn spec_hex2(n: u8) -> Seq<char> {
    seq![spec_hex_digit(n / 16), spec_hex_digit(n % 16)]
}

/// A 16-bit value as four lower-case hex digits.
pub open spec fn spec_hex4(n: u16) -> Seq<char> {
    seq![
        spec_hex_digit((n / 4096) as u8),
        spec_hex_digit(((n / 256) % 16) as u8),
        spec_hex_digit(((n / 16) % 16) as u8),
        spec_hex_digit((n % 16) as u8),
    ]
}

/// The listing line of one recorded device: its coordinates in decimal, then
/// the vendor identifier and class triple as read back live from the
/// configuration space, and the stored header type, in hex.
pub open spec fn spec_device_line(m: Map<u32, u32>, d: Device) -> Seq<char> {
    let class_code = spec_class_code(m, d.bus, d.device, d.function);
    spec_dec_u8(d.bus) + seq![':'] + spec_dec_u8(d.device) + seq![':'] + spec_dec_u8(d.function)
        + seq![':', ' ', 'v', 'e', 'n', 'd', ' '] + spec_hex4(
        spec_vendor_id(m, d.bus, d.device, d.function),
    ) + seq![',', ' ', 'c', 'l', 'a', 's', 's', ' '] + spec_hex2(class_code.base) + seq![',']
        + spec_hex2(class_code.sub) + seq![','] + spec_hex2(class_code.interface) + seq![
        ',',
        ' ',
        'h',
        'e',
        'a',
        'd',
        ' ',
    ] + spec_hex2(d.header_type) + seq!['\n']
}

/// The listing of a whole sequence of devices, one line each, in order.
pub open spec fn spec_device_listing(m: Map<u32, u32>, devices: Seq<Device>) -> Seq<char>
    decreases devices.len(),
{
    if devices.len() == 0 {
        Seq::<char>::empty()
    } else {
        spec_device_listing(m, devices.drop_last()) + spec_device_line(m, devices.last())
    }
}

fn hex_digit(d: u8) -> (c: char)
    requires
        d < 16,
    ensures
        c == spec_hex_digit(d),
{
    match d {
        0 => '0',
        1 => '1',
        2 => '2',
        3 => '3',
        4 => '4',
        5 => '5',
        6 => '6',
        7 => '7',
        8 => '8',
        9 => '9',
        10 => 'a',
        11 => 'b',
        12 => 'c',
        13 => 'd',
        14 => 'e',
        _ => 'f',
    }
}

fn put_dec_u8(console: &mut Console, n: u8)
    requires
        old(console).wf(),
    ensures
        final(console).wf(),
        (final(console).buffer@, final(console).cursor_row as int,
            final(console).cursor_column as int) == spec_put_string(
            old(console).buffer@,
            old(console).cursor_row as int,
            old(console).cursor_column as int,
            spec_dec_u8(n),
        ),
        final(console).fg_color == old(console).fg_color,
        final(console).bg_color == old(console).bg_color,
    decreases n,
{
    let ghost g0 = old(console).buffer@;
    let ghost r0 = old(console).cursor_row as int;
    let ghost c0 = old(console).cursor_column as int;
    if n < 10 {
        console.put_char(hex_digit(n));
        proof {
            lemma_put_one(g0, r0, c0, spec_hex_digit(n));
        }
    } else {
        put_dec_u8(console, n / 10);
        let ghost mid = (console.buffer@, console.cursor_row as int, console.cursor_column as int);
        console.put_char(hex_digit(n % 10));
        proof {
            lemma_put_string_concat(g0, r0, c0, spec_dec_u8(n / 10), seq![spec_hex_digit(n % 10)]);
            lemma_put_one(mid.0, mid.1, mid.2, spec_hex_digit(n % 10));
            assert(spec_dec_u8(n / 10) + seq![spec_hex_digit(n % 10)] =~= spec_dec_u8(n));
        }
    }
}

fn put_hex2(console: &mut Console, n: u8)
    requires
        old(console).wf(),
    ensures
        final(console).wf(),
        (final(console).buffer@, final(console).cursor_row as int,
            final(console).cursor_column as int) == spec_put_string(
            old(console).buffer@,
            old(console).cursor_row as int,
            old(console).cursor_column as int,
            spec_hex2(n),
        ),
        final(console).fg_color == old(console).fg_color,
        final(console).bg_color == old(console).bg_color,
{
    let ghost g0 = old(console).buffer@;
    let ghost r0 = old(console).cursor_row as int;
    let ghost c0 = old(console).cursor_column as int;
    console.put_char(hex_digit(n / 16));
    let ghost mid = (console.buffer@, console.cursor_row as int, console.cursor_column as int);
    console.put_char(hex_digit(n % 16));
    proof {
        lemma_put_one(g0, r0, c0, spec_hex_digit(n / 16));
        lemma_put_string_concat(g0, r0, c0, seq![spec_hex_digit(n / 16)], seq![spec_hex_digit(n % 16)]);
        lemma_put_one(mid.0, mid.1, mid.2, spec_hex_digit(n % 16));
        assert(seq![spec_hex_digit(n / 16)] + seq![spec_hex_digit(n % 16)] =~= spec_hex2(n));
    }
}

fn put_hex4(console: &mut Console, n: u16)
    requires
        old(console).wf(),
    ensures
        final(console).wf(),
        (final(console).buffer@, final(console).cursor_row as int,
            final(console).cursor_column as int) == spec_put_string(
            old(console).buffer@,
            old(console).cursor_row as int,
            old(console).cursor_column as int,
            spec_hex4(n),
        ),
        final(console).fg_color == old(console).fg_color,
        final(console).bg_color == old(console).bg_color,
{
    let ghost g0 = old(console).buffer@;
    let ghost r0 = old(console).cursor_row as int;
    let ghost c0 = old(console).cursor_column as int;
    let d0 = (n / 4096) as u8;
    let d1 = ((n / 256) % 16) as u8;
    let d2 = ((n / 16) % 16) as u8;
    let d3 = (n % 16) as u8;
    console.put_char(hex_digit(d0));
    let ghost s1 = (console.buffer@, console.cursor_row as int, console.cursor_column as int);
    console.put_char(hex_digit(d1));
    let ghost s2 = (console.buffer@, console.cursor_row as int, console.cursor_column as int);
    console.put_char(hex_digit(d2));
    let ghost s3 = (console.buffer@, console.cursor_row as int, console.cursor_column as int);
    console.put_char(hex_digit(d3));
    proof {
        lemma_put_one(g0, r0, c0, spec_hex_digit(d0));
        lemma_put_string_concat(g0, r0, c0, seq![spec_hex_digit(d0)], seq![spec_hex_digit(d1)]);
        lemma_put_one(s1.0, s1.1, s1.2, spec_hex_digit(d1));
        lemma_put_string_concat(
            g0,
            r0,
            c0,
            seq![spec_hex_digit(d0)] + seq![spec_hex_digit(d1)],
            seq![spec_hex_digit(d2)],
        );
        lemma_put_one(s2.0, s2.1, s2.2, spec_hex_digit(d2));
        lemma_put_string_concat(
            g0,
            r0,
            c0,
            seq![spec_hex_digit(d0)] + seq![spec_hex_digit(d1)] + seq![spec_hex_digit(d2)],
            seq![spec_hex_digit(d3)],
        );
        lemma_put_one(s3.0, s3.1, s3.2, spec_hex_digit(d3));
        assert(seq![spec_hex_digit(d0)] + seq![spec_hex_digit(d1)] + seq![spec_hex_digit(d2)]
            + seq![spec_hex_digit(d3)] =~= spec_hex4(n));
    }
}

fn put_one_char(console: &mut Console, c: char)
    requires
        old(console).wf(),
    ensures
        final(console).wf(),
        (final(console).buffer@, final(console).cursor_row as int,
            final(console).cursor_column as int) == spec_put_string(
            old(console).buffer@,
            old(console).cursor_row as int,
            old(console).cursor_column as int,
            seq![c],
        ),
        final(console).fg_color == old(console).fg_color,
        final(console).bg_color == old(console).bg_color,
{
    proof {
        lemma_put_one(
            old(console).buffer@,
            old(console).cursor_row as int,
            old(console).cursor_column as int,
            c,
        );
    }
    console.put_char(c);
}

fn put_device_line(console: &mut Console, cs: &ConfigSpace, dev: &Device)
    requires
        old(console).wf(),
    ensures
        final(console).wf(),
        (final(console).buffer@, final(console).cursor_row as int,
            final(console).cursor_column as int) == spec_put_string(
            old(console).buffer@,
            old(console).cursor_row as int,
            old(console).cursor_column as int,
            spec_device_line(cs@, *dev),
        ),
        final(console).fg_color == old(console).fg_color,
        final(console).bg_color == old(console).bg_color,
{
    let ghost g0 = old(console).buffer@;
    let ghost r0 = old(console).cursor_row as int;
    let ghost c0 = old(console).cursor_column as int;
    let ghost mut emitted = Seq::<char>::empty();
    proof {
        assert(spec_put_string(g0, r0, c0, emitted) == (g0, r0, c0));
    }
    let vendor_id = read_vendor_id(cs, dev.bus, dev.device, dev.function);
    let class_code = read_class_code(cs, dev.bus, dev.device, dev.function);

    put_dec_u8(console, dev.bus);
    proof {
        lemma_put_string_concat(g0, r0, c0, emitted, spec_dec_u8(dev.bus));
        emitted = emitted + spec_dec_u8(dev.bus);
    }
    put_one_char(console, ':');
    proof {
        lemma_put_string_concat(g0, r0, c0, emitted, seq![':']);
        emitted = emitted + seq![':'];
    }
    put_dec_u8(console, dev.device);
    proof {
        lemma_put_string_concat(g0, r0, c0, emitted, spec_dec_u8(dev.device));
        emitted = emitted + spec_dec_u8(dev.device);
    }
    put_one_char(console, ':');
    proof {
        lemma_put_string_concat(g0, r0, c0, emitted, seq![':']);
        emitted = emitted + seq![':'];
    }
    put_dec_u8(console, dev.function);
    proof {
        lemma_put_string_concat(g0, r0, c0, emitted, spec_dec_u8(dev.function));
        emitted = emitted + spec_dec_u8(dev.function);
    }
    console.put_string(": vend ");
    proof {
        reveal_strlit(": vend ");
        assert(": vend "@ =~= seq![':', ' ', 'v', 'e', 'n', 'd', ' ']);
        lemma_put_string_concat(g0, r0, c0, emitted, ": vend "@);
        emitted = emitted + seq![':', ' ', 'v', 'e', 'n', 'd', ' '];
    }
    put_hex4(console, vendor_id);
    proof {
        lemma_put_string_concat(g0, r0, c0, emitted, spec_hex4(vendor_id));
        emitted = emitted + spec_hex4(vendor_id);
    }
    console.put_string(", class ");
    proof {
        reveal_strlit(", class ");
        assert(", class "@ =~= seq![',', ' ', 'c', 'l', 'a', 's', 's', ' ']);
        lemma_put_string_concat(g0, r0, c0, emitted, ", class "@);
        emitted = emitted + seq![',', ' ', 'c', 'l', 'a', 's', 's', ' '];
    }
    put_hex2(console, class_code.base);
    proof {
        lemma_put_string_concat(g0, r0, c0, emitted, spec_hex2(class_code.base));
        emitted = emitted + spec_hex2(class_code.base);
    }
    put_one_char(console, ',');
    proof {
        lemma_put_string_concat(g0, r0, c0, emitted, seq![',']);
        emitted = emitted + seq![','];
    }
    put_hex2(console, class_code.sub);
    proof {
        lemma_put_string_concat(g0, r0, c0, emitted, spec_hex2(class_code.sub));
        emitted = emitted + spec_hex2(class_code.sub);
    }
    put_one_char(console, ',');
    proof {
        lemma_put_string_concat(g0, r0, c0, emitted, seq![',']);
        emitted = emitted + seq![','];
    }
    put_hex2(console, class_code.interface);
    proof {
        lemma_put_string_concat(g0, r0, c0, emitted, spec_hex2(class_code.interface));
        emitted = emitted + spec_hex2(class_code.interface);
    }
    console.put_string(", head ");
    proof {
        reveal_strlit(", head ");
        assert(", head "@ =~= seq![',', ' ', 'h', 'e', 'a', 'd', ' ']);
        lemma_put_string_concat(g0, r0, c0, emitted, ", head "@);
        emitted = emitted + seq![',', ' ', 'h', 'e', 'a', 'd', ' '];
    }
    put_hex2(console, dev.header_type);
    proof {
        lemma_put_string_concat(g0, r0, c0, emitted, spec_hex2(dev.header_type));
        emitted = emitted + spec_hex2(dev.header_type);
    }
    put_one_char(console, '\n');
    proof {
        lemma_put_string_concat(g0, r0, c0, emitted, seq!['\n']);
        emitted = emitted + seq!['\n'];
        assert(emitted =~= spec_device_line(cs@, *dev));
    }
}

// ---------------------------------------------------------------------------
// What holds of every scan
// ---------------------------------------------------------------------------

/// Every entry of `s` answers with a vendor identifier other than the
/// invalid sentinel when its registers are read back out of `m`.
pub open spec fn all_vendors_valid(m: Map<u32, u32>, s: Seq<Device>) -> bool {
    forall|i: int|
        0 <= i < s.len() ==> spec_vendor_id(m, s[i].bus, s[i].device, s[i].function)
            != VENDOR_ID_INVALID
}

/// What each step of the scan keeps: the result stays within capacity — it
/// stands exactly at capacity when the step fails — and records only
/// responding functions.
pub open spec fn scan_step_good(
    m: Map<u32, u32>,
    acc: Seq<Device>,
    r: Result<Seq<Device>, Seq<Device>>,
) -> bool {
    match r {
        Ok(s) => s.len() <= MAX_DEVICES && (all_vendors_valid(m, acc) ==> all_vendors_valid(m, s)),
        Err(s) => s.len() == MAX_DEVICES && (all_vendors_valid(m, acc) ==> all_vendors_valid(m, s)),
    }
}

proof fn lemma_scan_function_good(m: Map<u32, u32>, bus: u8, device: u8, function: u8, acc: Seq<Device>)
    requires
        acc.len() <= MAX_DEVICES,
        spec_vendor_id(m, bus, device, function) != VENDOR_ID_INVALID,
    ensures
        scan_step_good(m, acc, spec_scan_function(m, bus, device, function, acc)),
    decreases capgap(acc), 1int, 0int,
{
    if acc.len() >= MAX_DEVICES {
    } else {
        let acc1 = acc.push(spec_device(m, bus, device, function));
        if all_vendors_valid(m, acc) {
            assert forall|i: int| 0 <= i < acc1.len() implies spec_vendor_id(
                m,
                acc1[i].bus,
                acc1[i].device,
                acc1[i].function,
            ) != VENDOR_ID_INVALID by {
                if i < acc.len() {
                    assert(acc1[i] == acc[i]);
                } else {
                    assert(acc1[i] == spec_device(m, bus, device, function));
                }
            }
        }
        if spec_is_bridge(spec_class_code(m, bus, device, function)) {
            lemma_scan_bus_good(m, spec_secondary_bus(m, bus, device, function), 0, acc1);
        }
    }
}

proof fn lemma_scan_device_functions_good(
    m: Map<u32, u32>,
    bus: u8,
    device: u8,
    function: int,
    acc: Seq<Device>,
)
    requires
        acc.len() <= MAX_DEVICES,
    ensures
        scan_step_good(m, acc, spec_scan_device_functions(m, bus, device, function, acc)),
    decreases capgap(acc), 2int, 8 - function,
{
    if function >= 8 {
    } else if spec_vendor_id(m, bus, device, function as u8) == VENDOR_ID_INVALID {
        lemma_scan_device_functions_good(m, bus, device, function + 1, acc);
    } else {
        lemma_scan_function_good(m, bus, device, function as u8, acc);
        match spec_scan_function(m, bus, device, function as u8, acc) {
            Err(s) => {},
            Ok(acc1) => {
                lemma_scan_device_functions_good(m, bus, device, function + 1, grown(acc, acc1));
            },
        }
    }
}

proof fn lemma_scan_device_good(m: Map<u32, u32>, bus: u8, device: u8, acc: Seq<Device>)
    requires
        acc.len() <= MAX_DEVICES,
        spec_vendor_id(m, bus, device, 0) != VENDOR_ID_INVALID,
    ensures
        scan_step_good(m, acc, spec_scan_device(m, bus, device, acc)),
    decreases capgap(acc), 3int, 0int,
{
    lemma_scan_function_good(m, bus, device, 0, acc);
    match spec_scan_function(m, bus, device, 0, acc) {
        Err(s) => {},
        Ok(acc1) => {
            if !spec_single_function(spec_header_type(m, bus, device, 0)) {
                lemma_scan_device_functions_good(m, bus, device, 1, grown(acc, acc1));
            }
        },
    }
}

proof fn lemma_scan_bus_good(m: Map<u32, u32>, bus: u8, device: int, acc: Seq<Device>)
    requires
        acc.len() <= MAX_DEVICES,
    ensures
        scan_step_good(m, acc, spec_scan_bus(m, bus, device, acc)),
    decreases capgap(acc), 4int, 32 - device,
{
    if device >= 32 {
    } else if spec_vendor_id(m, bus, device as u8, 0) == VENDOR_ID_INVALID {
        lemma_scan_bus_good(m, bus, device + 1, acc);
    } else {
        lemma_scan_device_good(m, bus, device as u8, acc);
        match spec_scan_device(m, bus, device as u8, acc) {
            Err(s) => {},
            Ok(acc1) => {
                lemma_scan_bus_good(m, bus, device + 1, grown(acc, acc1));
            },
        }
    }
}

proof fn lemma_scan_root_functions_good(m: Map<u32, u32>, function: int, acc: Seq<Device>)
    requires
        acc.len() <= MAX_DEVICES,
    ensures
        scan_step_good(m, acc, spec_scan_root_functions(m, function, acc)),
    decreases capgap(acc), 5int, 8 - function,
{
    if function >= 8 {
    } else if spec_vendor_id(m, 0, 0, function as u8) == VENDOR_ID_INVALID {
        lemma_scan_root_functions_good(m, function + 1, acc);
    } else {
        lemma_scan_bus_good(m, function as u8, 0, acc);
        match spec_scan_bus(m, function as u8, 0, acc) {
            Err(s) => {},
            Ok(acc1) => {
                lemma_scan_root_functions_good(m, function + 1, grown(acc, acc1));
            },
        }
    }
}

/// Whatever topology the registers describe, a full scan stores one entry
/// per responding function it discovers, never more than the registry's
/// capacity — exactly its capacity when it fails, so a failing scan leaves
/// no partial extra entry — and every stored entry answers with a vendor
/// identifier other than the invalid sentinel.
pub proof fn lemma_scan_all_good(m: Map<u32, u32>)
    ensures
        match spec_scan_all(m) {
            Ok(s) => s.len() <= MAX_DEVICES && all_vendors_valid(m, s),
            Err(s) => s.len() == MAX_DEVICES && all_vendors_valid(m, s),
        },
{
    assert(all_vendors_valid(m, Seq::<Device>::empty()));
    if spec_single_function(spec_header_type(m, 0, 0, 0)) {
        lemma_scan_bus_good(m, 0, 0, Seq::<Device>::empty());
    } else {
        lemma_scan_root_functions_good(m, 1, Seq::<Device>::empty());
    }
}

/// A scanned function whose class marks a bridge (base 0x06, sub 0x04) is
/// recorded and then the bus named by bits 8..16 of its bus-numbers register
/// is scanned in turn, depth-first, on top of the grown registry.
pub proof fn lemma_bridge_recurses(
    m: Map<u32, u32>,
    bus: u8,
    device: u8,
    function: u8,
    acc: Seq<Device>,
)
    requires
        acc.len() < MAX_DEVICES,
        spec_is_bridge(spec_class_code(m, bus, device, function)),
    ensures
        spec_scan_function(m, bus, device, function, acc) == spec_scan_bus(
            m,
            spec_secondary_bus(m, bus, device, function),
            0,
            acc.push(spec_device(m, bus, device, function)),
        ),
{
}

impl Pci {
    /// The registry counts exactly its stored entries and never exceeds its
    /// fixed capacity.
    pub open spec fn wf(self) -> bool {
        self.num_device == self.devices@.len() && self.num_device <= MAX_DEVICES
    }

    /// An empty registry.
    pub fn new() -> (r: Pci)
        ensures
            r.wf(),
            r.devices@ == Seq::<Device>::empty(),
            r.num_device == 0,
    {
        Pci { num_device: 0, devices: Vec::new() }
    }

    /// Write one listing line per registered device onto the console: the
    /// bus, device and function coordinates in decimal, then the vendor
    /// identifier and class triple read back live from the configuration
    /// space and the stored header type in hex.
    pub fn show_device(&self, cs: &ConfigSpace, console: &mut Console)
        requires
            self.wf(),
            old(console).wf(),
        ensures
            final(console).wf(),
            (final(console).buffer@, final(console).cursor_row as int,
                final(console).cursor_column as int) == spec_put_string(
                old(console).buffer@,
                old(console).cursor_row as int,
                old(console).cursor_column as int,
                spec_device_listing(cs@, self.devices@),
            ),
            final(console).fg_color == old(console).fg_color,
            final(console).bg_color == old(console).bg_color,
    {
        let ghost g0 = old(console).buffer@;
        let ghost r0 = old(console).cursor_row as int;
        let ghost c0 = old(console).cursor_column as int;
        let mut i: usize = 0;
        proof {
            assert(self.devices@.take(0) =~= Seq::<Device>::empty());
        }
        while i < self.num_device
            invariant
                self.wf(),
                i <= self.num_device,
                console.wf(),
                console.fg_color == old(console).fg_color,
                console.bg_color == old(console).bg_color,
                (console.buffer@, console.cursor_row as int, console.cursor_column as int)
                    == spec_put_string(
                    g0,
                    r0,
                    c0,
                    spec_device_listing(cs@, self.devices@.take(i as int)),
                ),
                g0 == old(console).buffer@,
                r0 == old(console).cursor_row as int,
                c0 == old(console).cursor_column as int,
            decreases self.num_device - i,
        {
            let dev = self.devices[i];
            put_device_line(console, cs, &dev);
            proof {
                assert(self.devices@.take(i + 1).drop_last() =~= self.devices@.take(i as int));
                assert(self.devices@.take(i + 1).last() == dev);
                lemma_put_string_concat(
                    g0,
                    r0,
                    c0,
                    spec_device_listing(cs@, self.devices@.take(i as int)),
                    spec_device_line(cs@, dev),
                );
            }
            i = i + 1;
        }
        proof {
            assert(self.devices@.take(self.num_device as int) =~= self.devices@);
        }
    }

    /// Reset the registry and walk the whole topology: bus 0 alone when the
    /// root complex is single-function, otherwise each responding root
    /// function probed as its own bus root. The registry afterwards holds the
    /// responding functions in depth-first discovery order; the scan fails
    /// only when the registry runs out of capacity, and then keeps everything
    /// recorded up to that point.
    pub fn scan_all_bus(&mut self, cs: &ConfigSpace) -> (r: KResult<()>)
        requires
            old(self).wf(),
        ensures
            final(self).wf(),
            scan_outcome(spec_scan_all(cs@), final(self).devices@, r),
    {
        self.num_device = 0;
        self.devices = Vec::new();

        let header_type = read_header_type(cs, 0, 0, 0);
        if is_single_function_device(header_type) {
            return self.scan_bus(cs, 0);
        }
        let mut function: u8 = 1;
        while function < 8
            invariant
                self.wf(),
                1 <= function <= 8,
                !spec_single_function(spec_header_type(cs@, 0, 0, 0)),
                spec_scan_root_functions(cs@, function as int, self.devices@) == spec_scan_all(
                    cs@,
                ),
            decreases 8 - function,
        {
            let ghost pre = self.devices@;
            // The root probe hands the function index on as a bus number;
            // the hardware path has always conflated the two, so the scan
            // keeps that reading.
            if read_vendor_id(cs, 0, 0, function) != VENDOR_ID_INVALID {
                match self.scan_bus(cs, function) {
                    Ok(()) => {
                        proof {
                            assert(spec_scan_root_functions(cs@, function as int, pre)
                                == spec_scan_root_functions(cs@, function + 1, self.devices@));
                        }
                    },
                    Err(e) => {
                        proof {
                            assert(spec_scan_root_functions(cs@, function as int, pre)
                                == Err::<Seq<Device>, Seq<Device>>(self.devices@));
                        }
                        return Err(e);
                    },
                }
            } else {
                proof {
                    assert(spec_scan_root_functions(cs@, function as int, pre)
                        == spec_scan_root_functions(cs@, function + 1, pre));
                }
            }
            function = function + 1;
        }
        proof {
            assert(spec_scan_root_functions(cs@, 8, self.devices@) == Ok::<
                Seq<Device>,
                Seq<Device>,
            >(self.devices@));
        }
        Ok(())
    }

    /// Scan each responding device slot of one bus.
    fn scan_bus(&mut self, cs: &ConfigSpace, bus: u8) -> (r: KResult<()>)
        requires
            old(self).wf(),
        ensures
            final(self).wf(),
            final(self).devices@.len() >= old(self).devices@.len(),
            scan_outcome(
                spec_scan_bus(cs@, bus, 0, old(self).devices@),
                final(self).devices@,
                r,
            ),
        decreases capgap(old(self).devices@), 4int, 0int,
    {
        let mut device: u8 = 0;
        while device < 32
            invariant
                self.wf(),
                device <= 32,
                self.devices@.len() >= old(self).devices@.len(),
                spec_scan_bus(cs@, bus, device as int, self.devices@) == spec_scan_bus(
                    cs@,
                    bus,
                    0,
                    old(self).devices@,
                ),
            decreases 32 - device,
        {
            let ghost pre = self.devices@;
            if read_vendor_id(cs, bus, device, 0) != VENDOR_ID_INVALID {
                match self.scan_device(cs, bus, device) {
                    Ok(()) => {
                        proof {
                            assert(grown(pre, self.devices@) == self.devices@);
                            assert(spec_scan_bus(cs@, bus, device as int, pre) == spec_scan_bus(
                                cs@,
                                bus,
                                device + 1,
                                self.devices@,
                            ));
                        }
                    },
                    Err(e) => {
                        proof {
                            assert(spec_scan_bus(cs@, bus, device as int, pre) == Err::<
                                Seq<Device>,
                                Seq<Device>,
                            >(self.devices@));
                        }
                        return Err(e);
                    },
                }
            } else {
                proof {
                    assert(spec_scan_bus(cs@, bus, device as int, pre) == spec_scan_bus(
                        cs@,
                        bus,
                        device + 1,
                        pre,
                    ));
                }
            }
            device = device + 1;
        }
        proof {
            assert(spec_scan_bus(cs@, bus, 32, self.devices@) == Ok::<Seq<Device>, Seq<Device>>(
                self.devices@,
            ));
        }
        Ok(())
    }

    /// Scan function 0 of a responding slot, then, unless the device is
    /// single-function, each further responding function.
    fn scan_device(&mut self, cs: &ConfigSpace, bus: u8, device: u8) -> (r: KResult<()>)
        requires
            old(self).wf(),
        ensures
            final(self).wf(),
            final(self).devices@.len() >= old(self).devices@.len(),
            scan_outcome(
                spec_scan_device(cs@, bus, device, old(self).devices@),
                final(self).devices@,
                r,
            ),
        decreases capgap(old(self).devices@), 3int, 0int,
    {
        let ghost acc0 = self.devices@;
        match self.scan_function(cs, bus, device, 0) {
            Ok(()) => {},
            Err(e) => {
                return Err(e);
            },
        }
        let header_type = read_header_type(cs, bus, device, 0);
        if is_single_function_device(header_type) {
            return Ok(());
        }
        proof {
            assert(grown(acc0, self.devices@) == self.devices@);
            assert(spec_scan_device(cs@, bus, device, acc0) == spec_scan_device_functions(
                cs@,
                bus,
                device,
                1,
                self.devices@,
            ));
        }
        let mut function: u8 = 1;
        while function < 8
            invariant
                self.wf(),
                1 <= function <= 8,
                self.devices@.len() >= old(self).devices@.len(),
                spec_scan_device_functions(cs@, bus, device, function as int, self.devices@)
                    == spec_scan_device(cs@, bus, device, old(self).devices@),
            decreases 8 - function,
        {
            let ghost pre = self.devices@;
            if read_vendor_id(cs, bus, device, function) != VENDOR_ID_INVALID {
                match self.scan_function(cs, bus, device, function) {
                    Ok(()) => {
                        proof {
                            assert(grown(pre, self.devices@) == self.devices@);
                            assert(spec_scan_device_functions(cs@, bus, device, function as int, pre)
                                == spec_scan_device_functions(
                                cs@,
                                bus,
                                device,
                                function + 1,
                                self.devices@,
                            ));
                        }
                    },
                    Err(e) => {
                        proof {
                            assert(spec_scan_device_functions(cs@, bus, device, function as int, pre)
                                == Err::<Seq<Device>, Seq<Device>>(self.devices@));
                        }
                        return Err(e);
                    },
                }
            } else {
                proof {
                    assert(spec_scan_device_functions(cs@, bus, device, function as int, pre)
                        == spec_scan_device_functions(cs@, bus, device, function + 1, pre));
                }
            }
            function = function + 1;
        }
        proof {
            assert(spec_scan_device_functions(cs@, bus, device, 8, self.devices@) == Ok::<
                Seq<Device>,
                Seq<Device>,
            >(self.devices@));
        }
        Ok(())
    }

    /// Record one function; when its class marks a bridge, read the
    /// secondary bus number out of bits 8..16 of the bus-numbers register and
    /// scan that bus depth-first before returning.
    fn scan_function(&mut self, cs: &ConfigSpace, bus: u8, device: u8, function: u8) -> (r:
        KResult<()>)
        requires
            old(self).wf(),
        ensures
            final(self).wf(),
            final(self).devices@.len() >= old(self).devices@.len(),
            scan_outcome(
                spec_scan_function(cs@, bus, device, function, old(self).devices@),
                final(self).devices@,
                r,
            ),
        decreases capgap(old(self).devices@), 1int, 0int,
    {
        let header_type = read_header_type(cs, bus, device, function);
        let class_code = read_class_code(cs, bus, device, function);
        let dev = Device { bus, device, function, header_type, class_code };
        match self.add_device(dev) {
            Ok(()) => {},
            Err(e) => {
                return Err(e);
            },
        }
        if class_code.base == 0x06u8 && class_code.sub == 0x04u8 {
            let bus_numbers = read_bus_numbers(cs, bus, device, function);
            proof {
                assert((bus_numbers >> 8) & 0xff < 0x100) by (bit_vector);
            }
            let secondary_bus: u8 = ((bus_numbers >> 8) & 0xff) as u8;
            return self.scan_bus(cs, secondary_bus);
        }
        Ok(())
    }

    /// Append one record, or fail without changing anything once the fixed
    /// capacity is reached.
    pub fn add_device(&mut self, dev: Device) -> (r: KResult<()>)
        requires
            old(self).wf(),
        ensures
            final(self).wf(),
            old(self).devices@.len() < MAX_DEVICES ==> r == Ok::<(), KError>(())
                && final(self).devices@ == old(self).devices@.push(dev),
            old(self).devices@.len() >= MAX_DEVICES ==> r == Err::<(), KError>(KError::Full)
                && final(self).devices@ == old(self).devices@,
    {
        if self.num_device == MAX_DEVICES {
            return Err(KError::Full);
        }
        self.devices.push(dev);
        self.num_device = self.num_device + 1;
        Ok(())
    }
}

} // verus!
