use vore::daemon::{
    add_target, clear_target, pair_queue_answers, plan_command, DispatchAction, EventTarget,
    MachineRegistry,
};
use vore::error::VoreError;
use vore::global_config::{GlobalConfig, GlobalQemuConfig, GlobalVoreConfig};
use vore::instance_config::InstanceConfig;
use vore::qemu::{assemble_command, build_preamble, VmAccumulator, PresetStore};
use vore::rpc::{
    extract_frames, AllRequests, AllResponses, AnswerResult, Command, CommandCenter, InfoRequest,
    PrepareRequest, PrepareResponse, Request, StartRequest,
};
use vore::virtual_machine::VirtualMachine;

#[test]
fn frames_split_on_newlines_and_buffer_partials() {
    let buffer = b"{\"id\":0}\n{\"id\":1}\n{\"id\"".to_vec();
    let (lines, rest) = extract_frames(buffer.clone(), true);
    assert_eq!(lines.len(), 2);
    assert_eq!(lines[0], b"{\"id\":0}".to_vec());
    assert_eq!(lines[1], b"{\"id\":1}".to_vec());
    // the partial line stays buffered while the peer is open
    assert_eq!(rest, b"{\"id\"".to_vec());
}

#[test]
fn closed_peer_drops_the_partial_buffer() {
    let buffer = b"{\"id\":0}\nhalf a line".to_vec();
    let (lines, rest) = extract_frames(buffer, false);
    // everything is taken; the partial tail comes out as one (bad) line and
    // nothing stays buffered
    assert_eq!(lines.len(), 2);
    assert_eq!(lines[1], b"half a line".to_vec());
    assert!(rest.is_empty());
}

#[test]
fn empty_lines_are_skipped() {
    let buffer = b"\n\na\n\nb\n".to_vec();
    let (lines, rest) = extract_frames(buffer, true);
    assert_eq!(lines.len(), 2);
    assert_eq!(lines[0], b"a".to_vec());
    assert_eq!(lines[1], b"b".to_vec());
    assert!(rest.is_empty());
}

#[test]
fn command_ids_count_up() {
    let mut center = CommandCenter::new();
    let (id0, cmd0) = center.write_command(InfoRequest {});
    let (id1, cmd1) = center.write_command(StartRequest {
        name: "vm1".to_string(),
        cdroms: vec![],
    });
    assert_eq!(id0, 0);
    assert_eq!(id1, 1);
    assert_eq!(cmd0.id, 0);
    assert_eq!(cmd1.id, 1);
    assert!(matches!(cmd0.data, AllRequests::Info(_)));
    assert!(matches!(cmd1.data, AllRequests::Start(_)));
}

#[test]
fn answers_mirror_the_request_id() {
    let cmd = Command {
        id: 41,
        data: PrepareRequest {
            name: "vm1".to_string(),
            cdroms: vec![],
        }
        .into_enum(),
    };
    let ok = CommandCenter::write_answer(&cmd, Ok(PrepareResponse {}));
    assert_eq!(ok.id, 41);
    assert!(matches!(ok.data, AnswerResult::Success(_)));

    let err = CommandCenter::write_answer::<PrepareResponse>(
        &cmd,
        Err(VoreError::NoSuchMachine {
            name: "vm1".to_string(),
        }),
    );
    assert_eq!(err.id, 41);
    match err.data {
        AnswerResult::Error(e) => {
            assert_eq!(e.error, "No machine with the name vm1 exists")
        }
        _ => panic!("expected the error payload"),
    }
}

#[test]
fn every_queued_command_gets_exactly_one_answer() {
    let mk = |id: u64| Command {
        id,
        data: InfoRequest {}.into_enum(),
    };
    let queue = vec![(0usize, mk(7)), (2usize, mk(8)), (0usize, mk(9))];
    let outcomes: Vec<Result<AllResponses, VoreError>> = vec![
        Err(VoreError::Unimplemented),
        Err(VoreError::Unimplemented),
        Err(VoreError::Unimplemented),
    ];
    let answers = pair_queue_answers(&queue, outcomes);
    assert_eq!(answers.len(), 3);
    assert_eq!(answers[0].answer.id, 7);
    assert_eq!(answers[0].connection, 0);
    assert_eq!(answers[1].answer.id, 8);
    assert_eq!(answers[1].connection, 2);
    assert_eq!(answers[2].answer.id, 9);
}

#[test]
fn slot_table_reuses_retired_keys() {
    let mut slots: Vec<EventTarget> = vec![];
    let a = add_target(&mut slots, EventTarget::RpcListener);
    let b = add_target(&mut slots, EventTarget::RpcConnection(0));
    assert_eq!(a, 0);
    assert_eq!(b, 1);
    clear_target(&mut slots, a);
    let c = add_target(&mut slots, EventTarget::Machine("vm1".to_string()));
    assert_eq!(c, 0);
    assert_eq!(slots.len(), 2);
    let d = add_target(&mut slots, EventTarget::RpcConnection(1));
    assert_eq!(d, 2);
}

fn registry_with(names: &[&str]) -> MachineRegistry {
    let global = GlobalConfig {
        vore: GlobalVoreConfig {
            group: None,
            unix_group_id: None,
        },
        qemu: GlobalQemuConfig {
            script: "qemu.lua".to_string(),
        },
        uefi: vec![],
    };
    let mut reg = MachineRegistry::new();
    for name in names {
        let mut cfg = InstanceConfig::default();
        cfg.name = name.to_string();
        reg.mount_machine(VirtualMachine::new(cfg, &global, "/tmp".to_string()));
    }
    reg
}

#[test]
fn dispatch_resolves_names_or_refuses() {
    let reg = registry_with(&["vm1", "vm2"]);
    let start = Command {
        id: 0,
        data: StartRequest {
            name: "vm2".to_string(),
            cdroms: vec![],
        }
        .into_enum(),
    };
    assert!(matches!(
        plan_command(&reg, &start),
        DispatchAction::StartMachine(1)
    ));

    let unknown = Command {
        id: 1,
        data: StartRequest {
            name: "vm3".to_string(),
            cdroms: vec![],
        }
        .into_enum(),
    };
    match plan_command(&reg, &unknown) {
        DispatchAction::Refuse(err) => {
            assert_eq!(err.message(), "No machine with the name vm3 exists")
        }
        other => panic!("expected a refusal, got {:?}", other),
    }

    let info = Command {
        id: 2,
        data: InfoRequest {}.into_enum(),
    };
    match plan_command(&reg, &info) {
        DispatchAction::Respond(AllResponses::Info(i)) => {
            assert_eq!(i.name, "vore");
            assert_eq!(i.version, "0.1.0");
        }
        other => panic!("expected the version response, got {:?}", other),
    }
}

#[test]
fn accumulator_sniffs_device_ids() {
    let mut acc = VmAccumulator::new();
    acc.arg("-device".to_string());
    acc.arg("virtio-blk-pci,drive=disk0,id=blk0".to_string());
    acc.arg("-device".to_string());
    acc.arg("e1000,id=net0".to_string());
    assert_eq!(acc.get_device_id("virtio-blk-pci"), Some("blk0".to_string()));
    assert_eq!(acc.get_device_id("e1000"), Some("net0".to_string()));
    assert_eq!(acc.get_device_id("scsi"), None);
    // a later device of the same type wins
    acc.arg("-device".to_string());
    acc.arg("e1000,id=net1".to_string());
    assert_eq!(acc.get_device_id("e1000"), Some("net1".to_string()));
    assert_eq!(acc.args.len(), 6);
}

#[test]
fn accumulator_counters_are_monotonic_per_name() {
    let mut acc = VmAccumulator::new();
    assert_eq!(acc.get_next_bus("pci".to_string()), "pci.0");
    assert_eq!(acc.get_next_bus("pci".to_string()), "pci.1");
    assert_eq!(acc.get_next_bus("usb".to_string()), "usb.0");
    assert_eq!(acc.get_counter("bootindex".to_string(), 5), 5);
    assert_eq!(acc.get_counter("bootindex".to_string(), 5), 6);
}

#[test]
fn preamble_pins_the_control_socket() {
    let cmd = build_preamble("vm1", "/var/lib/vore/instance/vm1");
    assert_eq!(cmd[0], "-name");
    assert_eq!(cmd[1], "guest=vm1,debug-threads=on");
    assert_eq!(cmd[2], "-S");
    assert_eq!(cmd[6], "nobody");
    assert_eq!(
        cmd[8],
        "socket,id=charmonitor,path=/var/lib/vore/instance/vm1/qemu.sock,server=on,wait=off"
    );
    assert_eq!(cmd[10], "chardev=charmonitor,id=monitor,mode=control");

    let full = assemble_command("vm1", "/w", vec!["-m".to_string(), "2048".to_string()]);
    assert_eq!(full.len(), 13);
    assert_eq!(full[11], "-m");
    assert_eq!(full[12], "2048");
}

#[test]
fn presets_replace_by_name() {
    let mut store = PresetStore::new();
    store.register("hdd".to_string(), "a plain disk".to_string());
    store.register("cd".to_string(), "a cdrom".to_string());
    store.register("hdd".to_string(), "a faster disk".to_string());
    let items = store.list();
    assert_eq!(items.len(), 2);
    assert_eq!(items[0].name, "hdd");
    assert_eq!(items[0].description, "a faster disk");
}

#[test]
fn a_buffer_without_newlines_stays_whole() {
    let (lines, rest) = extract_frames(b"abc".to_vec(), true);
    assert!(lines.is_empty());
    assert_eq!(rest, b"abc".to_vec());
}
