use vore::config_model::{ConfigDoc, ConfigTable, ConfigValue};
use vore::error::VoreError;
use vore::instance_config::{
    parse_size, CpuConfig, DiskConfig, InstanceConfig, LookingGlassConfig, PciDevice, VfioConfig,
};
use vore::pci::PCIAddress;

fn table(entries: Vec<(&str, ConfigValue)>) -> ConfigTable {
    ConfigTable {
        entries: entries.into_iter().map(|(k, v)| (k.to_string(), v)).collect(),
    }
}

fn empty_doc() -> ConfigDoc {
    ConfigDoc {
        machine: ConfigTable { entries: vec![] },
        cpu: None,
        disk: vec![],
        uefi: None,
        vfio: vec![],
        looking_glass: None,
        scream: None,
        spice: None,
        pulse: None,
    }
}

#[test]
fn size_in_gibibytes_with_and_without_b() {
    assert_eq!(parse_size("2g").unwrap(), 2 * 1024);
    assert_eq!(parse_size("2gb").unwrap(), 2 * 1024);
    assert_eq!(parse_size("2G B").unwrap(), 2 * 1024);
}

#[test]
fn size_kilobytes_rejected() {
    let err = parse_size("2kb").unwrap_err();
    assert_eq!(
        err.message(),
        "size can only be specified in megabytes or larger"
    );
    let err = parse_size("1kb").unwrap_err();
    assert_eq!(
        err.message(),
        "size can only be specified in megabytes or larger"
    );
}

#[test]
fn size_plain_numbers_and_units() {
    assert_eq!(parse_size("512").unwrap(), 512);
    assert_eq!(parse_size("3m").unwrap(), 3);
    assert_eq!(parse_size("1t").unwrap(), 1024 * 1024);
}

#[test]
fn size_garbage_rejected() {
    let err = parse_size("abc").unwrap_err();
    assert_eq!(err.message(), "'abc' is not a valid size");
    assert!(parse_size("").is_err());
    assert!(parse_size("2x").is_err());
    assert!(parse_size("m").is_err());
}

#[test]
fn cpu_amount_split_for_even_total() {
    let mut cpu = CpuConfig::default();
    let t = table(vec![("amount", ConfigValue::Int(4))]);
    cpu.apply_table(&t).unwrap();
    assert_eq!(cpu.amount, 4);
    assert_eq!(cpu.cores, 2);
    assert_eq!(cpu.threads, 2);
}

#[test]
fn cpu_amount_odd_total_single_threaded() {
    let mut cpu = CpuConfig::default();
    let t = table(vec![("amount", ConfigValue::Int(3))]);
    cpu.apply_table(&t).unwrap();
    assert_eq!(cpu.amount, 3);
    assert_eq!(cpu.cores, 3);
    assert_eq!(cpu.threads, 1);
}

#[test]
fn cpu_amount_must_match_product() {
    let mut cpu = CpuConfig::default();
    let t = table(vec![
        ("amount", ConfigValue::Int(4)),
        ("sockets", ConfigValue::Int(1)),
        ("dies", ConfigValue::Int(1)),
        ("cores", ConfigValue::Int(2)),
        ("threads", ConfigValue::Int(3)),
    ]);
    let err = cpu.apply_table(&t).unwrap_err();
    let msg = err.message();
    assert!(msg.contains("4"));
    assert!(msg.contains("6"));
    assert_eq!(
        msg,
        "Amount of cpu's (6) from sockets (1), dies (1), cores (2) and threads (3) differs from specified (4) cpu's"
    );
}

#[test]
fn cpu_amount_accepted_when_product_matches() {
    let mut cpu = CpuConfig::default();
    let t = table(vec![
        ("amount", ConfigValue::Int(8)),
        ("sockets", ConfigValue::Int(1)),
        ("dies", ConfigValue::Int(1)),
        ("cores", ConfigValue::Int(4)),
        ("threads", ConfigValue::Int(2)),
    ]);
    cpu.apply_table(&t).unwrap();
    assert_eq!(cpu.amount, 8);
    assert_eq!(cpu.cores, 4);
}

#[test]
fn cpu_product_without_amount() {
    let mut cpu = CpuConfig::default();
    let t = table(vec![
        ("sockets", ConfigValue::Int(2)),
        ("cores", ConfigValue::Int(4)),
        ("threads", ConfigValue::Int(2)),
    ]);
    cpu.apply_table(&t).unwrap();
    assert_eq!(cpu.amount, 2 * 1 * 4 * 2);
}

#[test]
fn cpu_negative_field_rejected() {
    let mut cpu = CpuConfig::default();
    let t = table(vec![("amount", ConfigValue::Int(-1))]);
    let err = cpu.apply_table(&t).unwrap_err();
    assert_eq!(err.message(), "cpu.amount can't be negative");
}

#[test]
fn framebuffer_size_power_of_two_and_large_enough() {
    let mut lg = LookingGlassConfig::default();
    lg.calc_buffer_size_from_screen();
    // 1920 x 1080 x ceil(8*4/8) x 2 + 2 MiB, rounded up to a power of two
    assert_eq!(lg.buffer_size, 33554432);
    let min = 1920u64 * 1080 * 4 * 2 + 2 * 1024 * 1024;
    assert!(lg.buffer_size >= min);
    assert!(lg.buffer_size.is_power_of_two());
    assert!(min > lg.buffer_size / 2);
}

#[test]
fn framebuffer_from_geometry() {
    let t = table(vec![
        ("width", ConfigValue::Int(1024)),
        ("height", ConfigValue::Int(768)),
        ("bit-depth", ConfigValue::Int(10)),
    ]);
    let lg = LookingGlassConfig::from_table(&t).unwrap();
    assert_eq!(lg.width, 1024);
    assert_eq!(lg.height, 768);
    assert_eq!(lg.bit_depth, 10);
    let min = 1024u64 * 768 * 5 * 2 + 2 * 1024 * 1024;
    assert!(lg.buffer_size >= min);
    assert!(lg.buffer_size.is_power_of_two());
}

#[test]
fn framebuffer_direct_and_conflicting_geometry() {
    let direct = table(vec![("buffer-size", ConfigValue::Int(1 << 25))]);
    let lg = LookingGlassConfig::from_table(&direct).unwrap();
    assert_eq!(lg.buffer_size, 1 << 25);

    let both = table(vec![
        ("buffer-size", ConfigValue::Int(1 << 25)),
        ("width", ConfigValue::Int(800)),
        ("height", ConfigValue::Int(600)),
    ]);
    let err = LookingGlassConfig::from_table(&both).unwrap_err();
    assert_eq!(
        err.message(),
        "for looking-glass either width and height need to be set or buffer-size should be set"
    );
}

#[test]
fn disk_type_read_off_the_path() {
    let dev = table(vec![
        ("path", ConfigValue::Str("/dev/null".to_string())),
        ("preset", ConfigValue::Str("hdd".to_string())),
    ]);
    assert_eq!(DiskConfig::from_table(&dev).unwrap().disk_type, "raw");

    let iso = table(vec![
        ("path", ConfigValue::Str("image.iso".to_string())),
        ("preset", ConfigValue::Str("cd".to_string())),
    ]);
    assert_eq!(DiskConfig::from_table(&iso).unwrap().disk_type, "raw");

    let qcow = table(vec![
        ("path", ConfigValue::Str("root.qcow2".to_string())),
        ("preset", ConfigValue::Str("hdd".to_string())),
    ]);
    assert_eq!(DiskConfig::from_table(&qcow).unwrap().disk_type, "qcow2");

    let other = table(vec![
        ("path", ConfigValue::Str("plain.img".to_string())),
        ("preset", ConfigValue::Str("hdd".to_string())),
    ]);
    let err = DiskConfig::from_table(&other).unwrap_err();
    assert_eq!(
        err.message(),
        "Can't figure out from path what type of disk driver should be used"
    );
}

#[test]
fn disk_needs_path_and_preset() {
    let nothing = table(vec![]);
    assert_eq!(
        DiskConfig::from_table(&nothing).unwrap_err().message(),
        "Disk needs a path"
    );
    let no_preset = table(vec![("path", ConfigValue::Str("/dev/sda".to_string()))]);
    assert_eq!(
        DiskConfig::from_table(&no_preset).unwrap_err().message(),
        "Every disk should have a preset set"
    );
}

fn host_devices() -> Vec<PciDevice> {
    // deliberately unsorted addresses; three devices share vendor and device
    let mk = |s: &str, v: u32, d: u32| PciDevice {
        address: PCIAddress::from_str(s).unwrap(),
        vendor: v,
        device: d,
    };
    vec![
        mk("0000:03:00.0", 0x10de, 0x2204),
        mk("0000:01:00.0", 0x10de, 0x2204),
        mk("0000:00:1f.0", 0x8086, 0x1234),
        mk("0000:02:00.0", 0x10de, 0x2204),
    ]
}

#[test]
fn vfio_index_picks_match_in_sorted_order() {
    let pci = host_devices();
    let t = table(vec![
        ("vendor", ConfigValue::Int(0x10de)),
        ("device", ConfigValue::Int(0x2204)),
        ("index", ConfigValue::Int(2)),
    ]);
    let cfg = VfioConfig::from_table(&t, &pci).unwrap();
    // the third match in ascending address order is 0000:03:00.0
    assert_eq!(cfg.address.to_string(), "0000:03:00.0");
    assert_eq!(cfg.vendor, None);
    assert_eq!(cfg.device, None);
    assert_eq!(cfg.index, 0);
}

#[test]
fn vfio_index_first_match_by_default() {
    let pci = host_devices();
    let t = table(vec![
        ("vendor", ConfigValue::Int(0x10de)),
        ("device", ConfigValue::Int(0x2204)),
    ]);
    let cfg = VfioConfig::from_table(&t, &pci).unwrap();
    assert_eq!(cfg.address.to_string(), "0000:01:00.0");
}

#[test]
fn vfio_index_out_of_range() {
    let pci = host_devices();
    let t = table(vec![
        ("vendor", ConfigValue::Int(0x10de)),
        ("device", ConfigValue::Int(0x2204)),
        ("index", ConfigValue::Int(3)),
    ]);
    let err = VfioConfig::from_table(&t, &pci).unwrap_err();
    assert_eq!(
        err.message(),
        "Can't find 4th PCI device with vendor id 0x10de and device id 0x2204"
    );
}

#[test]
fn vfio_address_checked_against_expected_ids() {
    let pci = host_devices();
    let ok = table(vec![
        ("address", ConfigValue::Str("0000:00:1f.0".to_string())),
        ("vendor", ConfigValue::Int(0x8086)),
        ("device", ConfigValue::Int(0x1234)),
    ]);
    assert!(VfioConfig::from_table(&ok, &pci).is_ok());

    let wrong = table(vec![
        ("address", ConfigValue::Str("0000:00:1f.0".to_string())),
        ("device", ConfigValue::Int(0x9999)),
    ]);
    let err = VfioConfig::from_table(&wrong, &pci).unwrap_err();
    assert!(matches!(err, VoreError::VfioWrongDeviceId { .. }));
}

#[test]
fn vfio_needs_address_or_ids() {
    let t = table(vec![("graphics", ConfigValue::Bool(true))]);
    let err = VfioConfig::from_table(&t, &vec![]).unwrap_err();
    assert_eq!(
        err.message(),
        "VFIO element needs either vendor and device or address to be set"
    );
}

#[test]
fn whole_document_parses() {
    let mut doc = empty_doc();
    doc.machine = table(vec![
        ("name", ConfigValue::Str("vm1".to_string())),
        ("memory", ConfigValue::Str("2G".to_string())),
        (
            "features",
            ConfigValue::StrList(vec!["uefi".to_string(), "spice".to_string()]),
        ),
    ]);
    doc.cpu = Some(table(vec![("amount", ConfigValue::Int(2))]));
    doc.disk = vec![table(vec![
        ("path", ConfigValue::Str("/dev/null".to_string())),
        ("preset", ConfigValue::Str("hdd".to_string())),
    ])];
    let cfg = InstanceConfig::from_config(&doc, &vec![]).unwrap();
    assert_eq!(cfg.name, "vm1");
    assert_eq!(cfg.memory, 2048);
    assert_eq!(cfg.cpu.amount, 2);
    assert_eq!(cfg.disks.len(), 1);
    assert_eq!(cfg.disks[0].disk_type, "raw");
    assert!(cfg.uefi.enabled);
    assert!(cfg.spice.enabled);
    assert!(!cfg.scream.enabled);
}

#[test]
fn invalid_memory_surfaces_the_size_error() {
    let mut doc = empty_doc();
    doc.machine = table(vec![("memory", ConfigValue::Str("1kb".to_string()))]);
    let err = InstanceConfig::from_config(&doc, &vec![]).unwrap_err();
    assert_eq!(
        err.message(),
        "size can only be specified in megabytes or larger"
    );
}

#[test]
fn serialized_config_parses_back_to_itself() {
    let mut cfg = InstanceConfig::default();
    cfg.name = "vm1".to_string();
    cfg.memory = 4096;
    cfg.cpu = CpuConfig {
        amount: 8,
        cores: 4,
        threads: 2,
        dies: 1,
        sockets: 1,
    };
    cfg.disks.push(DiskConfig {
        disk_type: "raw".to_string(),
        preset: "hdd".to_string(),
        path: "/dev/null".to_string(),
        read_only: false,
    });
    cfg.vfio.push(VfioConfig {
        address: PCIAddress::from_str("0000:01:00.0").unwrap(),
        vendor: None,
        device: None,
        index: 0,
        graphics: true,
        multifunction: false,
    });
    cfg.uefi.enabled = true;
    // the framebuffer size must be the one its geometry derives
    cfg.looking_glass.enabled = true;
    cfg.looking_glass.buffer_size = 33554432;
    cfg.scream.enabled = true;
    cfg.scream.mem_path = "/dev/shm/scream".to_string();
    cfg.spice.socket_path = "/tmp/spice.sock".to_string();

    let doc = cfg.serialize();
    let back = InstanceConfig::from_config(&doc, &vec![]).unwrap();
    assert_eq!(back, cfg);
}

#[test]
fn wrong_types_are_refused() {
    let mut doc = empty_doc();
    doc.machine = table(vec![("kvm", ConfigValue::Str("yes".to_string()))]);
    let err = InstanceConfig::from_config(&doc, &vec![]).unwrap_err();
    assert_eq!(err.message(), "machine.kvm should be a boolean");

    let mut doc = empty_doc();
    doc.scream = Some(table(vec![("enabled", ConfigValue::Int(1))]));
    let err = InstanceConfig::from_config(&doc, &vec![]).unwrap_err();
    assert_eq!(err.message(), "scream.enabled should be a boolean");

    let mut doc = empty_doc();
    doc.cpu = Some(table(vec![("cores", ConfigValue::Str("two".to_string()))]));
    let err = InstanceConfig::from_config(&doc, &vec![]).unwrap_err();
    assert_eq!(err.message(), "Failed to parse cpu.cores as number");
}
