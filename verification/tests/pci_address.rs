use vore::pci::PCIAddress;

#[test]
fn test_input_and_output_are_same() {
    assert_eq!(
        PCIAddress::from_str("0000:00:00.1")
            .expect("Failed to parse correct string")
            .to_string(),
        "0000:00:00.1"
    );

    assert_eq!(
        PCIAddress::from_str("0000:00:01.0")
            .expect("Failed to parse correct string")
            .to_string(),
        "0000:00:01.0"
    );
}

#[test]
fn missing_parts_default_to_zero() {
    let a = PCIAddress::from_str("01:02.3").unwrap();
    assert_eq!(a.domain, 0);
    assert_eq!(a.bus, 1);
    assert_eq!(a.slot, 2);
    assert_eq!(a.func, 3);
    assert_eq!(a.to_string(), "0000:01:02.3");

    let b = PCIAddress::from_str("1f.0").unwrap();
    assert_eq!(b.bus, 0);
    assert_eq!(b.slot, 0x1f);
    assert_eq!(b.func, 0);
}

#[test]
fn hex_components() {
    let a = PCIAddress::from_str("00ff:ab:1f.7").unwrap();
    assert_eq!(a.domain, 0xff);
    assert_eq!(a.bus, 0xab);
    assert_eq!(a.slot, 0x1f);
    assert_eq!(a.func, 7);
    assert_eq!(a.to_string(), "00ff:ab:1f.7");
}

#[test]
fn bad_addresses_are_refused() {
    let err = PCIAddress::from_str("zz:00.0").unwrap_err();
    assert_eq!(err.message(), "'zz:00.0' is not a valid PCI address");
    assert!(PCIAddress::from_str("").is_err());
    assert!(PCIAddress::from_str("0000:00:1ff.0").is_err());
}
