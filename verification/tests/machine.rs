use vore::cpu_list::{get_cpus, Cpu, CpuList};
use vore::daemon::MachineRegistry;
use vore::global_config::{GlobalConfig, GlobalQemuConfig, GlobalVoreConfig};
use vore::instance_config::InstanceConfig;
use vore::virtual_machine::{
    confirm_vfio_bound, vfio_plan, QmpEvent, QmpSendOutcome, StartAction, VfioPlan,
    VirtualMachine, VirtualMachineState,
};

fn global() -> GlobalConfig {
    GlobalConfig {
        vore: GlobalVoreConfig {
            group: None,
            unix_group_id: None,
        },
        qemu: GlobalQemuConfig {
            script: "qemu.lua".to_string(),
        },
        uefi: vec![],
    }
}

fn machine(name: &str) -> VirtualMachine {
    let mut cfg = InstanceConfig::default();
    cfg.name = name.to_string();
    VirtualMachine::new(cfg, &global(), format!("/var/lib/vore/instance/{}", name))
}

#[test]
fn lifecycle_follows_control_events() {
    let mut vm = machine("vm1");
    assert_eq!(vm.state, VirtualMachineState::Loaded);
    vm.apply_prepare(true);
    assert_eq!(vm.state, VirtualMachineState::Prepared);
    vm.mark_spawned();
    vm.attach_control_socket();
    vm.on_qmp_event(QmpEvent::Resume);
    assert_eq!(vm.state, VirtualMachineState::Running);
    vm.on_qmp_event(QmpEvent::Stop);
    assert_eq!(vm.state, VirtualMachineState::Paused);
    vm.on_qmp_event(QmpEvent::Shutdown);
    assert_eq!(vm.state, VirtualMachineState::Stopped);
    // a stop event no longer moves a stopped machine
    vm.on_qmp_event(QmpEvent::Stop);
    assert_eq!(vm.state, VirtualMachineState::Stopped);
}

#[test]
fn prepare_is_idempotent() {
    let mut vm = machine("vm1");
    vm.apply_prepare(true);
    let state_once = vm.state;
    vm.apply_prepare(true);
    assert_eq!(vm.state, state_once);
    assert_eq!(vm.state, VirtualMachineState::Prepared);
}

#[test]
fn start_on_a_live_child_is_a_noop() {
    let mut vm = machine("vm1");
    vm.apply_prepare(true);
    vm.mark_spawned();
    assert_eq!(vm.start_action(true), StartAction::AlreadyRunning);
    assert_eq!(vm.start_action(false), StartAction::Spawn);
    let loaded = machine("vm2");
    assert_eq!(loaded.start_action(false), StartAction::PrepareFirst);
}

#[test]
fn wait_reports_stop_only_on_shutdown() {
    let mut vm = machine("vm1");
    vm.apply_prepare(true);
    vm.mark_spawned();
    vm.attach_control_socket();
    vm.on_qmp_event(QmpEvent::Resume);

    // powerdown accepted: the shutdown event arrives within the round
    let accepted = vec![QmpEvent::Other, QmpEvent::Shutdown];
    assert!(vm.wait_round(&accepted, VirtualMachineState::Stopped));

    let mut vm2 = machine("vm2");
    vm2.apply_prepare(true);
    vm2.mark_spawned();
    vm2.attach_control_socket();
    vm2.on_qmp_event(QmpEvent::Resume);
    // powerdown ignored by the guest: no shutdown, the wait keeps reporting false
    let ignored = vec![QmpEvent::Other, QmpEvent::Stop];
    assert!(!vm2.wait_round(&ignored, VirtualMachineState::Stopped));
}

#[test]
fn quit_treats_eof_as_success() {
    let vm = machine("vm1");
    assert!(vm.quit_result(QmpSendOutcome::Accepted).is_ok());
    assert!(vm.quit_result(QmpSendOutcome::UnexpectedEof).is_ok());
    let err = vm
        .quit_result(QmpSendOutcome::Failed("connection reset".to_string()))
        .unwrap_err();
    assert_eq!(err.message(), "connection reset");
}

#[test]
fn stop_and_pause_commands_depend_on_state() {
    let mut vm = machine("vm1");
    assert_eq!(vm.stop_command(), None);
    assert_eq!(vm.pause_command(), None);
    assert_eq!(vm.quit_command(), None);
    vm.apply_prepare(true);
    vm.mark_spawned();
    vm.attach_control_socket();
    vm.on_qmp_event(QmpEvent::Resume);
    assert!(vm.stop_command().is_some());
    assert!(vm.pause_command().is_some());
    assert!(vm.quit_command().is_some());
    vm.on_qmp_event(QmpEvent::Shutdown);
    assert_eq!(vm.stop_command(), None);
}

#[test]
fn vfio_plans_respect_blacklist_and_force() {
    // already bound: nothing to do
    assert!(matches!(
        vfio_plan("0000:01:00.0", "vfio-pci", true, false),
        VfioPlan::AlreadyBound
    ));
    // blacklisted without force: refused, the message names the blacklist
    match vfio_plan("0000:01:00.0", "nvidia", true, false) {
        VfioPlan::Refuse(err) => {
            assert!(err.message().contains("blacklisted"));
            assert!(err.message().contains("nvidia"));
        }
        other => panic!("expected a refusal, got {:?}", other),
    }
    // blacklisted with force: rebound, unbinding first
    assert!(matches!(
        vfio_plan("0000:01:00.0", "nvidia", true, true),
        VfioPlan::Rebind { unbind_first: true }
    ));
    // no driver at all: no unbind step
    assert!(matches!(
        vfio_plan("0000:01:00.0", "", true, false),
        VfioPlan::Rebind {
            unbind_first: false
        }
    ));
    // checks only: refused with the driver named
    match vfio_plan("0000:01:00.0", "e1000e", false, false) {
        VfioPlan::Refuse(err) => assert!(err.message().contains("e1000e")),
        other => panic!("expected a refusal, got {:?}", other),
    }
}

#[test]
fn vfio_bind_confirmation_checks_the_driver_link() {
    assert!(confirm_vfio_bound("0000:01:00.0", "../../../bus/pci/drivers/vfio-pci").is_ok());
    let err = confirm_vfio_bound("0000:01:00.0", "../../../bus/pci/drivers/nvidia").unwrap_err();
    assert!(err.message().contains("Tried to bind 0000:01:00.0"));
}

#[test]
fn vcpu_threads_recognised_by_name() {
    assert_eq!(VirtualMachine::parse_vcpu_comm("CPU 0/KVM"), Some(0));
    assert_eq!(VirtualMachine::parse_vcpu_comm("CPU 12/KVM"), Some(12));
    assert_eq!(VirtualMachine::parse_vcpu_comm("CPU 7"), Some(7));
    assert_eq!(VirtualMachine::parse_vcpu_comm("worker"), None);
    assert_eq!(VirtualMachine::parse_vcpu_comm("CPU x"), None);
}

#[test]
fn registry_names_stay_unique() {
    let mut reg = MachineRegistry::new();
    reg.mount_machine(machine("vm1"));
    reg.mount_machine(machine("vm2"));
    assert_eq!(reg.len(), 2);
    // registering the same name again replaces, it does not duplicate
    reg.mount_machine(machine("vm1"));
    assert_eq!(reg.len(), 2);
    let infos = reg.infos();
    let names: Vec<String> = infos.iter().map(|i| i.name.clone()).collect();
    assert!(names.contains(&"vm1".to_string()));
    assert!(names.contains(&"vm2".to_string()));
    assert!(reg.find("vm1").is_some());
    assert!(reg.find("vm3").is_none());
}

fn cpu(id: usize, package: usize, core: usize, l3: usize) -> Cpu {
    Cpu {
        id,
        package,
        die: 0,
        core,
        layer_0: Some(id),
        layer_1: Some(id),
        layer_2: Some(id),
        layer_3: Some(l3),
    }
}

#[test]
fn cpus_sorted_by_adjacency() {
    // two cache domains; ids deliberately interleaved
    let probed = vec![
        cpu(0, 0, 0, 0),
        cpu(4, 0, 0, 1),
        cpu(1, 0, 1, 0),
        cpu(5, 0, 1, 1),
        cpu(2, 0, 2, 0),
    ];
    let sorted = get_cpus(probed);
    let ids: Vec<usize> = sorted.iter().map(|c| c.id).collect();
    assert_eq!(ids, vec![0, 1, 2, 4, 5]);
}

#[test]
fn adjacent_cpus_come_off_the_front() {
    let probed = vec![cpu(0, 0, 0, 0), cpu(1, 0, 1, 0), cpu(2, 0, 2, 0)];
    let list = CpuList::new(probed);
    assert_eq!(list.len(), 3);
    let two = list.get_adjacent(2).unwrap();
    assert_eq!(two.len(), 2);
    assert_eq!(two[0].id, 0);
    assert_eq!(two[1].id, 1);
    assert!(list.get_adjacent(4).is_none());
    assert!(list.adjacent(3).is_some());
}

#[test]
fn empty_feature_paths_get_defaults() {
    let mut vm = machine("vm1");
    vm.config.looking_glass.enabled = true;
    vm.config.scream.enabled = true;
    vm.config.scream.mem_path = "/custom/scream".to_string();
    vm.config.spice.enabled = true;
    vm.apply_path_defaults();
    assert_eq!(vm.config.looking_glass.mem_path, "/dev/shm/vore/vm1/looking-glass");
    // a path already set stays as it is
    assert_eq!(vm.config.scream.mem_path, "/custom/scream");
    assert_eq!(
        vm.config.spice.socket_path,
        "/var/lib/vore/instance/vm1/spice.sock"
    );
}
