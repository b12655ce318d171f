//! The library's error type. Each variant stands for one failure that the
//! configuration parsers, the supervisor, or the daemon can report, and
//! `message` renders the exact text a client sees.
use vstd::prelude::*;
use crate::text::{
    ascii_to_string, format_hex_u32, format_u64_dec, lemma_format_u64_dec_digits,
    lemma_hex_digits_hex, spec_bytes_as_chars, spec_format_hex, spec_format_u64_dec,
    spec_hex_digits, spec_is_digit, spec_is_hex_digit, spec_zeros,
};

verus! {

#[derive(Clone, Debug, PartialEq)]
pub enum VoreError {
    SizeTooSmall,
    InvalidSize { input: String },
    NotANumber { key: String },
    NegativeNumber { key: String },
    NotABoolean { key: String },
    NotAString { key: String },
    CpuAmountMismatch { calc: u64, sockets: u64, dies: u64, cores: u64, threads: u64, amount: u64 },
    CpuAmountOverflow { amount: u64 },
    DiskNeedsPath,
    DiskTypeUnknown,
    DiskNeedsPreset,
    LookingGlassGeometry,
    LookingGlassTooLarge,
    InvalidPciAddress { input: String },
    VfioNeedsSelector,
    VfioWrongDeviceId { address: String, expected: u32, found: u32 },
    VfioWrongVendorId { address: String, expected: u32, found: u32 },
    VfioNoSuchDevice { index: u32, vendor: u32, device: u32 },
    VfioModuleLoadFailed,
    VfioBlacklistedDriver { address: String, driver: String },
    VfioWrongDriver { address: String, driver: String },
    VfioNoDriver { address: String },
    VfioRebindFailed { address: String },
    NoSuchMachine { name: String },
    NoControlSocket,
    NoBuildCommand,
    StorageStillShared,
    QemuQuitEarly,
    ControlSocketTimeout { path: String },
    Unimplemented,
    HostError { message: String },
}

/// Decimal rendering of a number, as characters.
pub open spec fn spec_dec_chars(x: nat) -> Seq<char> {
    spec_bytes_as_chars(spec_format_u64_dec(x))
}

/// Hex rendering of an id, as the messages show one: `0x` then at least two
/// lowercase hex digits.
pub open spec fn spec_hex_chars(x: nat) -> Seq<char> {
    "0x"@ + spec_bytes_as_chars(spec_format_hex(x, 2))
}

/// The exact text of each error.
pub open spec fn spec_message(e: VoreError) -> Seq<char> {
    match e {
        VoreError::SizeTooSmall => "size can only be specified in megabytes or larger"@,
        VoreError::InvalidSize { input } => "'"@ + input@ + "' is not a valid size"@,
        VoreError::NotANumber { key } => "Failed to parse "@ + key@ + " as number"@,
        VoreError::NegativeNumber { key } => key@ + " can't be negative"@,
        VoreError::NotABoolean { key } => key@ + " should be a boolean"@,
        VoreError::NotAString { key } => key@ + " should be a string"@,
        VoreError::CpuAmountMismatch { calc, sockets, dies, cores, threads, amount } => {
            "Amount of cpu's ("@ + spec_dec_chars(calc as nat) + ") from sockets ("@
                + spec_dec_chars(sockets as nat) + "), dies ("@ + spec_dec_chars(dies as nat)
                + "), cores ("@ + spec_dec_chars(cores as nat) + ") and threads ("@
                + spec_dec_chars(threads as nat) + ") differs from specified ("@ + spec_dec_chars(
                amount as nat,
            ) + ") cpu's"@
        },
        VoreError::CpuAmountOverflow { amount } => {
            "Amount of cpu's from sockets, dies, cores and threads overflows and differs from specified ("@
                + spec_dec_chars(amount as nat) + ") cpu's"@
        },
        VoreError::DiskNeedsPath => "Disk needs a path"@,
        VoreError::DiskTypeUnknown =>
            "Can't figure out from path what type of disk driver should be used"@,
        VoreError::DiskNeedsPreset => "Every disk should have a preset set"@,
        VoreError::LookingGlassGeometry =>
            "for looking-glass either width and height need to be set or buffer-size should be set"@,
        VoreError::LookingGlassTooLarge =>
            "the looking-glass screen dimensions are too large for a shared-memory buffer"@,
        VoreError::InvalidPciAddress { input } => "'"@ + input@ + "' is not a valid PCI address"@,
        VoreError::VfioNeedsSelector =>
            "VFIO element needs either vendor and device or address to be set"@,
        VoreError::VfioWrongDeviceId { address, expected, found } => {
            "VFIO expects a PCI device on address "@ + address@ + " with the device id "@
                + spec_hex_chars(expected as nat) + " but found the id "@ + spec_hex_chars(
                found as nat,
            ) + " instead"@
        },
        VoreError::VfioWrongVendorId { address, expected, found } => {
            "VFIO expects a PCI device on address "@ + address@ + " with the vendor id "@
                + spec_hex_chars(expected as nat) + " but found the id "@ + spec_hex_chars(
                found as nat,
            ) + " instead"@
        },
        VoreError::VfioNoSuchDevice { index, vendor, device } => {
            "Can't find "@ + spec_dec_chars(index as nat + 1) + "th PCI device with vendor id "@
                + spec_hex_chars(vendor as nat) + " and device id "@ + spec_hex_chars(
                device as nat,
            )
        },
        VoreError::VfioModuleLoadFailed =>
            "Failed to load vfio-pci kernel module. can't use VFIO"@,
        VoreError::VfioBlacklistedDriver { address, driver } => {
            "PCI device "@ + address@ + " it's current driver is "@ + driver@
                + ", but to be used with VFIO needs to be set to vfio-pci, this driver ("@
                + driver@
                + ") has been blacklisted from automatic rebinding because it can't be cleanly unbound, please make sure this device is unbound before running vore"@
        },
        VoreError::VfioWrongDriver { address, driver } => {
            "PCI device "@ + address@ + " it's current driver is "@ + driver@
                + ", but to be used with VFIO needs to be set to vfio-pci"@
        },
        VoreError::VfioNoDriver { address } => {
            "PCI device at "@ + address@
                + " currently has no driver, but to be used with VFIO needs to be set to vfio-pci"@
        },
        VoreError::VfioRebindFailed { address } => {
            "Tried to bind "@ + address@
                + " to vfio-pci but failed to do so (see /sys/bus/pci/devices/"@ + address@
                + " for more info)"@
        },
        VoreError::NoSuchMachine { name } => "No machine with the name "@ + name@ + " exists"@,
        VoreError::NoControlSocket => "No control socket available"@,
        VoreError::NoBuildCommand => "No qemu build command registered in lua script"@,
        VoreError::StorageStillShared => "Something still owns vore, can't continue"@,
        VoreError::QemuQuitEarly => "QEMU quit early"@,
        VoreError::ControlSocketTimeout { path } => {
            "After 30 seconds, QEMU Control socket ("@ + path@ + ") didn't come up"@
        },
        VoreError::Unimplemented => "Unimplemented"@,
        VoreError::HostError { message } => message@,
    }
}

/// Decimal digits are ASCII, so they can be turned into a string.
pub fn dec_string(x: u64) -> (r: String)
    ensures
        r@ == spec_dec_chars(x as nat),
{
    let bytes = format_u64_dec(x);
    proof {
        lemma_format_u64_dec_digits(x as nat);
        assert forall|i: int| 0 <= i < bytes@.len() implies bytes@[i] < 128 by {
            assert(spec_is_digit(bytes@[i]));
        }
    }
    ascii_to_string(&bytes)
}

/// An id rendered the way the messages show one: `0x` and two hex digits.
pub fn hex_string(x: u32) -> (r: String)
    ensures
        r@ == spec_hex_chars(x as nat),
{
    let bytes = format_hex_u32(x, 2);
    proof {
        lemma_hex_digits_hex(x as nat);
        assert forall|i: int| 0 <= i < bytes@.len() implies bytes@[i] < 128 by {
            let digits = spec_hex_digits(x as nat);
            if digits.len() >= 2 {
                assert(bytes@[i] == digits[i]);
                assert(spec_is_hex_digit(digits[i]));
            } else {
                if i < 2 - digits.len() {
                    assert(bytes@[i] == spec_zeros((2 - digits.len()) as nat)[i]);
                } else {
                    assert(bytes@[i] == digits[i - (2 - digits.len())]);
                    assert(spec_is_hex_digit(digits[i - (2 - digits.len())]));
                }
            }
        }
    }
    let mut out = String::from_str("0x");
    out.append(ascii_to_string(&bytes).as_str());
    out
}

impl VoreError {
    /// The text a client sees for this error.
    pub fn message(&self) -> (r: String)
        ensures
            r@ == spec_message(*self),
    {
        match self {
            VoreError::SizeTooSmall => String::from_str(
                "size can only be specified in megabytes or larger",
            ),
            VoreError::InvalidSize { input } => {
                let mut m = String::from_str("'");
                m.append(input.as_str());
                m.append("' is not a valid size");
                m
            },
            VoreError::NotANumber { key } => {
                let mut m = String::from_str("Failed to parse ");
                m.append(key.as_str());
                m.append(" as number");
                m
            },
            VoreError::NegativeNumber { key } => {
                let mut m = key.clone();
                m.append(" can't be negative");
                m
            },
            VoreError::NotABoolean { key } => {
                let mut m = key.clone();
                m.append(" should be a boolean");
                m
            },
            VoreError::NotAString { key } => {
                let mut m = key.clone();
                m.append(" should be a string");
                m
            },
            VoreError::CpuAmountMismatch { calc, sockets, dies, cores, threads, amount } => {
                let mut m = String::from_str("Amount of cpu's (");
                m.append(dec_string(*calc).as_str());
                m.append(") from sockets (");
                m.append(dec_string(*sockets).as_str());
                m.append("), dies (");
                m.append(dec_string(*dies).as_str());
                m.append("), cores (");
                m.append(dec_string(*cores).as_str());
                m.append(") and threads (");
                m.append(dec_string(*threads).as_str());
                m.append(") differs from specified (");
                m.append(dec_string(*amount).as_str());
                m.append(") cpu's");
                m
            },
            VoreError::CpuAmountOverflow { amount } => {
                let mut m = String::from_str(
                    "Amount of cpu's from sockets, dies, cores and threads overflows and differs from specified (",
                );
                m.append(dec_string(*amount).as_str());
                m.append(") cpu's");
                m
            },
            VoreError::DiskNeedsPath => String::from_str("Disk needs a path"),
            VoreError::DiskTypeUnknown => String::from_str(
                "Can't figure out from path what type of disk driver should be used",
            ),
            VoreError::DiskNeedsPreset => String::from_str("Every disk should have a preset set"),
            VoreError::LookingGlassGeometry => String::from_str(
                "for looking-glass either width and height need to be set or buffer-size should be set",
            ),
            VoreError::LookingGlassTooLarge => String::from_str(
                "the looking-glass screen dimensions are too large for a shared-memory buffer",
            ),
            VoreError::InvalidPciAddress { input } => {
                let mut m = String::from_str("'");
                m.append(input.as_str());
                m.append("' is not a valid PCI address");
                m
            },
            VoreError::VfioNeedsSelector => String::from_str(
                "VFIO element needs either vendor and device or address to be set",
            ),
            VoreError::VfioWrongDeviceId { address, expected, found } => {
                let mut m = String::from_str("VFIO expects a PCI device on address ");
                m.append(address.as_str());
                m.append(" with the device id ");
                m.append(hex_string(*expected).as_str());
                m.append(" but found the id ");
                m.append(hex_string(*found).as_str());
                m.append(" instead");
                m
            },
            VoreError::VfioWrongVendorId { address, expected, found } => {
                let mut m = String::from_str("VFIO expects a PCI device on address ");
                m.append(address.as_str());
                m.append(" with the vendor id ");
                m.append(hex_string(*expected).as_str());
                m.append(" but found the id ");
                m.append(hex_string(*found).as_str());
                m.append(" instead");
                m
            },
            VoreError::VfioNoSuchDevice { index, vendor, device } => {
                let mut m = String::from_str("Can't find ");
                m.append(dec_string(*index as u64 + 1).as_str());
                m.append("th PCI device with vendor id ");
                m.append(hex_string(*vendor).as_str());
                m.append(" and device id ");
                m.append(hex_string(*device).as_str());
                m
            },
            VoreError::VfioModuleLoadFailed => String::from_str(
                "Failed to load vfio-pci kernel module. can't use VFIO",
            ),
            VoreError::VfioBlacklistedDriver { address, driver } => {
                let mut m = String::from_str("PCI device ");
                m.append(address.as_str());
                m.append(" it's current driver is ");
                m.append(driver.as_str());
                m.append(
                    ", but to be used with VFIO needs to be set to vfio-pci, this driver (",
                );
                m.append(driver.as_str());
                m.append(
                    ") has been blacklisted from automatic rebinding because it can't be cleanly unbound, please make sure this device is unbound before running vore",
                );
                m
            },
            VoreError::VfioWrongDriver { address, driver } => {
                let mut m = String::from_str("PCI device ");
                m.append(address.as_str());
                m.append(" it's current driver is ");
                m.append(driver.as_str());
                m.append(", but to be used with VFIO needs to be set to vfio-pci");
                m
            },
            VoreError::VfioNoDriver { address } => {
                let mut m = String::from_str("PCI device at ");
                m.append(address.as_str());
                m.append(
                    " currently has no driver, but to be used with VFIO needs to be set to vfio-pci",
                );
                m
            },
            VoreError::VfioRebindFailed { address } => {
                let mut m = String::from_str("Tried to bind ");
                m.append(address.as_str());
                m.append(" to vfio-pci but failed to do so (see /sys/bus/pci/devices/");
                m.append(address.as_str());
                m.append(" for more info)");
                m
            },
            VoreError::NoSuchMachine { name } => {
                let mut m = String::from_str("No machine with the name ");
                m.append(name.as_str());
                m.append(" exists");
                m
            },
            VoreError::NoControlSocket => String::from_str("No control socket available"),
            VoreError::NoBuildCommand => String::from_str(
                "No qemu build command registered in lua script",
            ),
            VoreError::StorageStillShared => String::from_str(
                "Something still owns vore, can't continue",
            ),
            VoreError::QemuQuitEarly => String::from_str("QEMU quit early"),
            VoreError::ControlSocketTimeout { path } => {
                let mut m = String::from_str("After 30 seconds, QEMU Control socket (");
                m.append(path.as_str());
                m.append(") didn't come up");
                m
            },
            VoreError::Unimplemented => String::from_str("Unimplemented"),
            VoreError::HostError { message } => message.clone(),
        }
    }
}

} // verus!
