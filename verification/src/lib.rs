//! A single-host virtual-machine supervisor's verified core: the
//! configuration model and its pure parser, the PCI and CPU bookkeeping for
//! passthrough and pinning, the per-machine lifecycle, the request protocol,
//! and the daemon's dispatch decisions. Everything impure — sockets,
//! processes, sysfs, the build-script interpreter — lives in the program
//! around this crate and only carries values in and out.
pub mod config_model;
pub mod cpu_list;
pub mod daemon;
pub mod error;
pub mod global_config;
pub mod instance_config;
pub mod pci;
pub mod qemu;
pub mod rpc;
pub mod text;
pub mod virtual_machine;
