use kernel_core::err::KError;
use kernel_core::pci::{
    find_xhc_device, make_address, read_bar, read_header_type, read_vendor_id, ClassCode,
    ConfigSpace, Device, Pci,
};

/// Register a function in the synthetic configuration space: vendor
/// identifier, class triple, header type.
fn add_function(
    cs: &mut ConfigSpace,
    bus: u8,
    device: u8,
    function: u8,
    vendor: u16,
    class: (u8, u8, u8),
    header_type: u8,
) {
    cs.write(make_address(bus, device, function, 0x00), vendor as u32);
    cs.write(
        make_address(bus, device, function, 0x08),
        ((class.0 as u32) << 24) | ((class.1 as u32) << 16) | ((class.2 as u32) << 8),
    );
    cs.write(
        make_address(bus, device, function, 0x0c),
        (header_type as u32) << 16,
    );
}

fn dev(bus: u8, device: u8, function: u8, header_type: u8, class: (u8, u8, u8)) -> Device {
    Device {
        bus,
        device,
        function,
        header_type,
        class_code: ClassCode {
            base: class.0,
            sub: class.1,
            interface: class.2,
        },
    }
}

#[test]
fn address_composition() {
    assert_eq!(make_address(0, 0, 0, 0), 0x8000_0000);
    assert_eq!(
        make_address(1, 2, 3, 0x11),
        0x8000_0000 | (1 << 16) | (2 << 11) | (3 << 8) | 0x10
    );
    assert_eq!(make_address(0xff, 31, 7, 0xfc), 0x80ff_fffc);
}

#[test]
fn unmapped_registers_read_all_ones() {
    let cs = ConfigSpace::new();
    assert_eq!(cs.read(make_address(0, 0, 0, 0)), 0xffff_ffff);
    assert_eq!(read_vendor_id(&cs, 4, 9, 2), 0xffff);
    assert_eq!(read_header_type(&cs, 4, 9, 2), 0xff);
}

#[test]
fn scan_single_function_root() {
    let mut cs = ConfigSpace::new();
    add_function(&mut cs, 0, 0, 0, 0x1022, (0x0c, 0x03, 0x30), 0x00);
    let mut pci = Pci::new();
    assert!(pci.scan_all_bus(&cs).is_ok());
    assert_eq!(pci.num_device, 1);
    assert_eq!(pci.devices[0], dev(0, 0, 0, 0x00, (0x0c, 0x03, 0x30)));
}

#[test]
fn scan_depth_first_order_and_valid_vendors() {
    let mut cs = ConfigSpace::new();
    // Root is single-function; bus 0 carries devices on slots 0, 3 and 5;
    // slot 3 is multi-function with functions 0, 2 and 6 responding.
    add_function(&mut cs, 0, 0, 0, 0x1111, (0x01, 0x00, 0x00), 0x00);
    add_function(&mut cs, 0, 3, 0, 0x2222, (0x02, 0x00, 0x00), 0x80);
    add_function(&mut cs, 0, 3, 2, 0x3333, (0x02, 0x01, 0x00), 0x00);
    add_function(&mut cs, 0, 3, 6, 0x4444, (0x02, 0x02, 0x00), 0x00);
    add_function(&mut cs, 0, 5, 0, 0x5555, (0x03, 0x00, 0x00), 0x00);
    let mut pci = Pci::new();
    assert!(pci.scan_all_bus(&cs).is_ok());
    assert_eq!(pci.num_device, 5);
    assert_eq!(pci.devices[0], dev(0, 0, 0, 0x00, (0x01, 0x00, 0x00)));
    assert_eq!(pci.devices[1], dev(0, 3, 0, 0x80, (0x02, 0x00, 0x00)));
    assert_eq!(pci.devices[2], dev(0, 3, 2, 0x00, (0x02, 0x01, 0x00)));
    assert_eq!(pci.devices[3], dev(0, 3, 6, 0x00, (0x02, 0x02, 0x00)));
    assert_eq!(pci.devices[4], dev(0, 5, 0, 0x00, (0x03, 0x00, 0x00)));
    for i in 0..pci.num_device {
        let d = pci.devices[i];
        assert_ne!(read_vendor_id(&cs, d.bus, d.device, d.function), 0xffff);
    }
}

#[test]
fn scan_multi_function_root_probes_root_functions_as_buses() {
    let mut cs = ConfigSpace::new();
    // The root complex is multi-function: root function 2 responds, and its
    // index is probed as a bus number.
    add_function(&mut cs, 0, 0, 0, 0x1111, (0x06, 0x00, 0x00), 0x80);
    add_function(&mut cs, 0, 0, 2, 0x1112, (0x06, 0x00, 0x00), 0x00);
    add_function(&mut cs, 2, 4, 0, 0x2222, (0x01, 0x00, 0x00), 0x00);
    let mut pci = Pci::new();
    assert!(pci.scan_all_bus(&cs).is_ok());
    // Root function 2 responds at (0, 0, 2), so bus 2 is scanned; bus 0
    // itself is never walked because root function 0 is not probed again.
    assert_eq!(pci.num_device, 1);
    assert_eq!(pci.devices[0], dev(2, 4, 0, 0x00, (0x01, 0x00, 0x00)));
}

#[test]
fn bridge_recursion_scans_secondary_bus_depth_first() {
    let mut cs = ConfigSpace::new();
    // A bridge at (0, 0, 0) whose bus-numbers register names bus 5 in bits
    // 8..16; a device behind it and another device on bus 0 after it.
    add_function(&mut cs, 0, 0, 0, 0x1111, (0x06, 0x04, 0x00), 0x00);
    cs.write(make_address(0, 0, 0, 0x18), 0x0000_0501);
    add_function(&mut cs, 5, 3, 0, 0x2222, (0x0c, 0x03, 0x30), 0x00);
    add_function(&mut cs, 0, 7, 0, 0x3333, (0x01, 0x00, 0x00), 0x00);
    let mut pci = Pci::new();
    assert!(pci.scan_all_bus(&cs).is_ok());
    // Depth-first: the bridge, then everything behind it, then the sibling.
    assert_eq!(pci.num_device, 3);
    assert_eq!(pci.devices[0], dev(0, 0, 0, 0x00, (0x06, 0x04, 0x00)));
    assert_eq!(pci.devices[1], dev(5, 3, 0, 0x00, (0x0c, 0x03, 0x30)));
    assert_eq!(pci.devices[2], dev(0, 7, 0, 0x00, (0x01, 0x00, 0x00)));
}

#[test]
fn registry_capacity_is_exactly_thirty_two() {
    let mut pci = Pci::new();
    for i in 0..32u8 {
        assert!(pci.add_device(dev(0, i, 0, 0, (0, 0, 0))).is_ok());
    }
    assert_eq!(pci.num_device, 32);
    let r = pci.add_device(dev(1, 0, 0, 0, (0, 0, 0)));
    assert_eq!(r, Err(KError::Full));
    assert_eq!(pci.num_device, 32);
    assert_eq!(pci.devices.len(), 32);
    // The registry still holds exactly what was there before the refusal.
    for i in 0..32usize {
        assert_eq!(pci.devices[i], dev(0, i as u8, 0, 0, (0, 0, 0)));
    }
}

#[test]
fn scan_past_capacity_fails_full_with_no_partial_entry() {
    let mut cs = ConfigSpace::new();
    // A single-function root, then five multi-function devices with eight
    // functions each: forty-one responding functions on bus 0.
    add_function(&mut cs, 0, 0, 0, 0x1000, (1, 2, 3), 0x00);
    for slot in 1..6u8 {
        for f in 0..8u8 {
            add_function(&mut cs, 0, slot, f, 0x1000 + slot as u16, (1, 2, 3), 0x80);
        }
    }
    let mut pci = Pci::new();
    assert_eq!(pci.scan_all_bus(&cs), Err(KError::Full));
    assert_eq!(pci.num_device, 32);
    assert_eq!(pci.devices.len(), 32);
    // Depth-first order up to the break: the root, slots 1..4 complete, and
    // slot 5 cut off after function 6 — the thirty-third record never lands.
    assert_eq!(pci.devices[0], dev(0, 0, 0, 0x00, (1, 2, 3)));
    assert_eq!(pci.devices[31], dev(0, 4, 6, 0x80, (1, 2, 3)));
}

#[test]
fn read_bar_32_bit_returns_value_zero_extended() {
    let mut cs = ConfigSpace::new();
    let d = dev(1, 2, 3, 0, (0, 0, 0));
    cs.write(make_address(1, 2, 3, 0x10), 0xfedc_ba98);
    assert_eq!(read_bar(&cs, &d, 0), Ok(0xfedc_ba98u64));
}

#[test]
fn read_bar_64_bit_combines_high_and_low() {
    let mut cs = ConfigSpace::new();
    let d = dev(1, 2, 3, 0, (0, 0, 0));
    // Index 2: low half at 0x18 with bit 2 set, high half at 0x1c.
    cs.write(make_address(1, 2, 3, 0x18), 0x8000_0004);
    cs.write(make_address(1, 2, 3, 0x1c), 0x0000_00ab);
    assert_eq!(read_bar(&cs, &d, 2), Ok((0xabu64 << 32) | 0x8000_0004u64));
}

#[test]
fn read_bar_index_out_of_range() {
    let mut cs = ConfigSpace::new();
    let d = dev(0, 0, 0, 0, (0, 0, 0));
    assert_eq!(read_bar(&cs, &d, 6), Err(KError::IndexOutOfRange));
    assert_eq!(read_bar(&cs, &d, 100), Err(KError::IndexOutOfRange));
}

#[test]
fn read_bar_64_bit_at_last_index_out_of_range() {
    let mut cs = ConfigSpace::new();
    let d = dev(0, 0, 0, 0, (0, 0, 0));
    // Index 5 with bit 2 set has no following register for the high half.
    cs.write(make_address(0, 0, 0, 0x24), 0x0000_0004);
    assert_eq!(read_bar(&cs, &d, 5), Err(KError::IndexOutOfRange));
}

#[test]
fn find_xhc_device_returns_first_match() {
    let mut pci = Pci::new();
    pci.add_device(dev(0, 0, 0, 0, (0x01, 0x00, 0x00))).unwrap();
    pci.add_device(dev(0, 1, 0, 0, (0x0c, 0x03, 0x30))).unwrap();
    pci.add_device(dev(0, 2, 0, 0, (0x0c, 0x03, 0x30))).unwrap();
    assert_eq!(
        find_xhc_device(&pci),
        Some(dev(0, 1, 0, 0, (0x0c, 0x03, 0x30)))
    );
}

#[test]
fn find_xhc_device_none_without_match() {
    let mut pci = Pci::new();
    pci.add_device(dev(0, 0, 0, 0, (0x0c, 0x03, 0x31))).unwrap();
    pci.add_device(dev(0, 1, 0, 0, (0x0c, 0x04, 0x30))).unwrap();
    assert_eq!(find_xhc_device(&pci), None);
}

#[test]
fn class_code_same_compares_all_three_fields() {
    let c = ClassCode {
        base: 0x0c,
        sub: 0x03,
        interface: 0x30,
    };
    assert!(c.same(0x0c, 0x03, 0x30));
    assert!(!c.same(0x0c, 0x03, 0x31));
    assert!(!c.same(0x0c, 0x04, 0x30));
    assert!(!c.same(0x0d, 0x03, 0x30));
}
