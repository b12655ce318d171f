//! The command builder's verified core: the argument accumulator the build
//! script fills (with its device-id sniffing and its monotonic counters),
//! the preset registry, and the fixed preamble every command line starts
//! with. The script interpreter itself runs in the program around the
//! library and calls down into these.
use vstd::prelude::*;
use vstd::string::StringSliceAdditionalSpecFns;
use crate::error::spec_dec_chars;
use crate::rpc::DiskPreset;
use crate::text::{
    bytes_eq, bytes_start_with, find_byte, spec_find, str_eq, utf8_to_string,
};

verus! {

/// The comma-separated token starting a device argument: its device type.
pub open spec fn spec_device_type(item: Seq<u8>) -> Seq<u8> {
    match spec_find(item, 44) {
        None => item,
        Some(i) => item.take(i),
    }
}

/// The value of the first `id=` token of a comma-separated run.
pub open spec fn spec_find_id(b: Seq<u8>) -> Option<Seq<u8>>
    decreases b.len(),
    via spec_find_id_decreases
{
    let token = match spec_find(b, 44) {
        None => b,
        Some(i) => b.take(i),
    };
    if crate::text::spec_starts_with(token, vstd::utf8::encode_utf8("id="@)) {
        Some(token.skip(3))
    } else {
        match spec_find(b, 44) {
            None => None,
            Some(i) => spec_find_id(b.skip(i + 1)),
        }
    }
}

#[via_fn]
proof fn spec_find_id_decreases(b: Seq<u8>) {
    crate::text::lemma_find_first(b, 44);
}

/// The id a device argument announces: the first `id=` token after the
/// device type.
pub open spec fn spec_device_id(item: Seq<u8>) -> Option<Seq<u8>> {
    match spec_find(item, 44) {
        None => None,
        Some(i) => spec_find_id(item.skip(i + 1)),
    }
}

/// The last id seen for a device type, keys compared as bytes.
pub open spec fn spec_dev_lookup(m: Seq<(Seq<u8>, Seq<u8>)>, key: Seq<u8>) -> Option<Seq<u8>>
    decreases m.len(),
{
    if m.len() == 0 {
        None
    } else if m[0].0 == key {
        Some(m[0].1)
    } else {
        spec_dev_lookup(m.drop_first(), key)
    }
}

/// A counter's value, keys compared as characters.
pub open spec fn spec_ctr_lookup(m: Seq<(Seq<char>, u64)>, key: Seq<char>) -> Option<u64>
    decreases m.len(),
{
    if m.len() == 0 {
        None
    } else if m[0].0 == key {
        Some(m[0].1)
    } else {
        spec_ctr_lookup(m.drop_first(), key)
    }
}

/// The accumulator the build script fills: raw arguments, the device ids
/// sniffed from `-device` arguments, and the named counters behind bus
/// numbering.
#[derive(Debug)]
pub struct VmAccumulator {
    pub args: Vec<String>,
    pub bus_ids: Vec<(String, u64)>,
    pub devices: Vec<(Vec<u8>, Vec<u8>)>,
    pub device: bool,
}

impl VmAccumulator {
    pub open spec fn spec_devices(&self) -> Seq<(Seq<u8>, Seq<u8>)> {
        self.devices@.map_values(|p: (Vec<u8>, Vec<u8>)| (p.0@, p.1@))
    }

    pub open spec fn spec_counters(&self) -> Seq<(Seq<char>, u64)> {
        self.bus_ids@.map_values(|p: (String, u64)| (p.0@, p.1))
    }

    pub fn new() -> (r: VmAccumulator)
        ensures
            r.args@.len() == 0,
            r.spec_devices() =~= Seq::<(Seq<u8>, Seq<u8>)>::empty(),
            r.spec_counters() =~= Seq::<(Seq<char>, u64)>::empty(),
            !r.device,
    {
        let r = VmAccumulator {
            args: Vec::new(),
            bus_ids: Vec::new(),
            devices: Vec::new(),
            device: false,
        };
        proof {
            assert(r.spec_devices() =~= Seq::<(Seq<u8>, Seq<u8>)>::empty());
            assert(r.spec_counters() =~= Seq::<(Seq<char>, u64)>::empty());
        }
        r
    }

    /// Appends one raw argument. The argument right after a `-device` is
    /// sniffed: its first token names the device type, and the first `id=`
    /// token after it records that type's id.
    pub fn arg(&mut self, item: String)
        ensures
            final(self).args@ == old(self).args@.push(item),
            final(self).device == (item@ == "-device"@),
            final(self).bus_ids == old(self).bus_ids,
            ({
                let ib = vstd::utf8::encode_utf8(item@);
                if old(self).device && spec_device_id(ib) is Some {
                    spec_dev_updated(
                        old(self).spec_devices(),
                        final(self).spec_devices(),
                        spec_device_type(ib),
                        spec_device_id(ib)->Some_0,
                    )
                } else {
                    final(self).spec_devices() == old(self).spec_devices()
                }
            }),
    {
        let ghost args_before = self.args@;
        let ghost devs_before = self.spec_devices();
        if self.device {
            let bytes = item.as_str().as_bytes();
            let n = bytes.len();
            proof {
                crate::text::lemma_find_first(bytes@, 44);
            }
            match find_byte(bytes, 44) {
                None => {},
                Some(c) => {
                    let ty = vstd::slice::slice_to_vec(
                        vstd::slice::slice_subrange(bytes, 0, c),
                    );
                    proof {
                        assert(ty@ =~= spec_device_type(bytes@));
                    }
                    match Self::find_id_token(bytes, c + 1) {
                        None => {},
                        Some(idv) => {
                            self.set_device(ty, idv);
                        },
                    }
                },
            }
            self.device = false;
        }
        proof {
            assert(self.args@ == args_before);
        }
        let is_device = str_eq(item.as_str(), "-device");
        self.device = is_device;
        self.args.push(item);
    }

    /// Scans the comma-separated tokens from `start` for the first `id=`.
    fn find_id_token(bytes: &[u8], start: usize) -> (r: Option<Vec<u8>>)
        requires
            start <= bytes@.len(),
        ensures
            match r {
                Some(v) => spec_find_id(bytes@.skip(start as int)) == Some(v@),
                None => spec_find_id(bytes@.skip(start as int)) is None,
            },
        decreases bytes@.len() - start,
    {
        let n = bytes.len();
        let rest = vstd::slice::slice_subrange(bytes, start, n);
        let ghost seg = bytes@.skip(start as int);
        proof {
            assert(rest@ =~= seg);
            crate::text::lemma_find_first(seg, 44);
            broadcast use vstd::string::group_string_axioms;

            reveal_strlit("id=");
            assert("id="@.len() == 3);
            assert(vstd::utf8::is_ascii_chars("id="@));
            vstd::utf8::is_ascii_chars_encode_utf8("id="@);
            assert(vstd::utf8::encode_utf8("id="@).len() == 3);
        }
        let comma = find_byte(rest, 44);
        let token: &[u8] = match comma {
            None => rest,
            Some(c) => vstd::slice::slice_subrange(rest, 0, c),
        };
        proof {
            match spec_find(seg, 44) {
                Some(c) => {
                    assert(token@ =~= seg.take(c));
                },
                None => {},
            }
        }
        if bytes_start_with(token, "id=".as_bytes()) {
            let tn = token.len();
            let idv = vstd::slice::slice_to_vec(vstd::slice::slice_subrange(token, 3, tn));
            proof {
                assert(idv@ =~= (match spec_find(seg, 44) {
                    None => seg,
                    Some(c) => seg.take(c),
                }).skip(3));
            }
            Some(idv)
        } else {
            match comma {
                None => None,
                Some(c) => {
                    proof {
                        assert(seg.skip(c + 1) =~= bytes@.skip(start + c + 1));
                    }
                    Self::find_id_token(bytes, start + c + 1)
                },
            }
        }
    }

    /// Records a device id under its type, replacing an earlier one.
    fn set_device(&mut self, ty: Vec<u8>, id: Vec<u8>)
        ensures
            final(self).args == old(self).args,
            final(self).bus_ids == old(self).bus_ids,
            final(self).device == old(self).device,
            spec_dev_updated(old(self).spec_devices(), final(self).spec_devices(), ty@, id@),
    {
        let mut i: usize = 0;
        while i < self.devices.len()
            invariant
                i <= self.devices@.len(),
                *self == *old(self),
                forall|j: int| 0 <= j < i ==> (#[trigger] self.spec_devices()[j]).0 != ty@,
            decreases self.devices.len() - i,
        {
            if bytes_eq(self.devices[i].0.as_slice(), ty.as_slice()) {
                let ghost before = self.spec_devices();
                let ghost tyv = ty@;
                let ghost idv = id@;
                self.devices.set(i, (ty, id));
                proof {
                    assert(self.spec_devices() =~= before.update(i as int, (tyv, idv)));
                    assert(0 <= i < before.len() && before[i as int].0 == tyv
                        && self.spec_devices() == before.update(i as int, (tyv, idv)));
                }
                return;
            }
            i = i + 1;
        }
        let ghost before = self.spec_devices();
        let ghost tyv = ty@;
        let ghost idv = id@;
        proof {
            lemma_dev_lookup_none(before, tyv);
            assert(forall|j: int| 0 <= j < before.len() ==> (#[trigger] before[j]).0 != tyv);
        }
        self.devices.push((ty, id));
        proof {
            assert(self.spec_devices() =~= before.push((tyv, idv)));
        }
    }

    /// The id last seen for a device type, for the script to wire buses.
    pub fn get_device_id(&self, ty: &str) -> (r: Option<String>)
        ensures
            r matches Some(s) ==> spec_dev_lookup(self.spec_devices(), ty.spec_bytes())
                matches Some(b) && s@ == vstd::utf8::decode_utf8(b),
            spec_dev_lookup(self.spec_devices(), ty.spec_bytes()) is None ==> r is None,
    {
        let key = ty.as_bytes();
        let mut i: usize = 0;
        while i < self.devices.len()
            invariant
                i <= self.devices@.len(),
                key@ == ty.spec_bytes(),
                forall|j: int|
                    0 <= j < i ==> (#[trigger] self.spec_devices()[j]).0 != key@,
            decreases self.devices.len() - i,
        {
            if bytes_eq(self.devices[i].0.as_slice(), key) {
                proof {
                    lemma_dev_lookup_at(self.spec_devices(), key@, i as int);
                    assert(spec_dev_lookup(self.spec_devices(), ty.spec_bytes()) == Some(
                        self.devices@[i as int].1@,
                    ));
                }
                return utf8_to_string(&self.devices[i].1);
            }
            i = i + 1;
        }
        proof {
            lemma_dev_lookup_none(self.spec_devices(), key@);
        }
        None
    }

    /// `name.0`, `name.1`, ... — one more than the last number handed out
    /// under this name, starting at zero.
    pub fn get_next_bus(&mut self, name: String) -> (r: String)
        ensures
            final(self).args == old(self).args,
            final(self).devices == old(self).devices,
            final(self).device == old(self).device,
            ({
                let v = match spec_ctr_lookup(old(self).spec_counters(), name@) {
                    None => 0u64,
                    Some(p) => if p < u64::MAX {
                        (p + 1) as u64
                    } else {
                        p
                    },
                };
                r@ == name@ + "."@ + spec_dec_chars(v as nat) && spec_ctr_updated(
                    old(self).spec_counters(),
                    final(self).spec_counters(),
                    name@,
                    v,
                )
            }),
    {
        let v = self.bump_counter(name.clone(), 0);
        let mut out = name;
        out.append(".");
        out.append(crate::error::dec_string(v).as_str());
        out
    }

    /// A named counter: its start value on first use, one more on each use
    /// after.
    pub fn get_counter(&mut self, name: String, start: u64) -> (r: u64)
        ensures
            final(self).args == old(self).args,
            final(self).devices == old(self).devices,
            final(self).device == old(self).device,
            r == (match spec_ctr_lookup(old(self).spec_counters(), name@) {
                None => start,
                Some(p) => if p < u64::MAX {
                    (p + 1) as u64
                } else {
                    p
                },
            }),
            spec_ctr_updated(
                old(self).spec_counters(),
                final(self).spec_counters(),
                name@,
                r,
            ),
    {
        self.bump_counter(name, start)
    }

    /// Advances the counter under `name`, installing `start` on first use.
    /// A counter that has reached the top stays there.
    fn bump_counter(&mut self, name: String, start: u64) -> (r: u64)
        ensures
            final(self).args == old(self).args,
            final(self).devices == old(self).devices,
            final(self).device == old(self).device,
            r == (match spec_ctr_lookup(old(self).spec_counters(), name@) {
                None => start,
                Some(p) => if p < u64::MAX {
                    (p + 1) as u64
                } else {
                    p
                },
            }),
            spec_ctr_updated(
                old(self).spec_counters(),
                final(self).spec_counters(),
                name@,
                r,
            ),
    {
        let mut i: usize = 0;
        while i < self.bus_ids.len()
            invariant
                i <= self.bus_ids@.len(),
                *self == *old(self),
                forall|j: int|
                    0 <= j < i ==> (#[trigger] self.spec_counters()[j]).0 != name@,
            decreases self.bus_ids.len() - i,
        {
            if str_eq(self.bus_ids[i].0.as_str(), name.as_str()) {
                proof {
                    lemma_ctr_lookup_at(self.spec_counters(), name@, i as int);
                }
                let prev = self.bus_ids[i].1;
                let v = if prev < u64::MAX {
                    prev + 1
                } else {
                    prev
                };
                let ghost before = self.spec_counters();
                self.bus_ids.set(i, (name, v));
                proof {
                    assert(self.spec_counters() =~= before.update(
                        i as int,
                        (self.bus_ids@[i as int].0@, self.bus_ids@[i as int].1),
                    ));
                }
                return v;
            }
            i = i + 1;
        }
        proof {
            lemma_ctr_lookup_none(self.spec_counters(), name@);
        }
        let ghost before = self.spec_counters();
        self.bus_ids.push((name, start));
        proof {
            assert(self.spec_counters() =~= before.push(
                (self.bus_ids@.last().0@, self.bus_ids@.last().1),
            ));
        }
        start
    }
}

/// The map after recording `id` under `key`: the first entry with the key is
/// replaced, or the pair is appended.
pub open spec fn spec_dev_updated(
    before: Seq<(Seq<u8>, Seq<u8>)>,
    after: Seq<(Seq<u8>, Seq<u8>)>,
    key: Seq<u8>,
    id: Seq<u8>,
) -> bool {
    if exists|i: int| 0 <= i < before.len() && (#[trigger] before[i]).0 == key {
        exists|i: int|
            0 <= i < before.len() && (#[trigger] before[i]).0 == key && after == before.update(
                i,
                (key, id),
            )
    } else {
        after == before.push((key, id))
    }
}

/// The counter map after handing out `v` under `key`.
pub open spec fn spec_ctr_updated(
    before: Seq<(Seq<char>, u64)>,
    after: Seq<(Seq<char>, u64)>,
    key: Seq<char>,
    v: u64,
) -> bool {
    if exists|i: int| 0 <= i < before.len() && (#[trigger] before[i]).0 == key {
        exists|i: int|
            0 <= i < before.len() && (#[trigger] before[i]).0 == key && after == before.update(
                i,
                (key, v),
            )
    } else {
        after == before.push((key, v))
    }
}

proof fn lemma_dev_lookup_at(m: Seq<(Seq<u8>, Seq<u8>)>, key: Seq<u8>, i: int)
    requires
        0 <= i < m.len(),
        m[i].0 == key,
        forall|j: int| 0 <= j < i ==> (#[trigger] m[j]).0 != key,
    ensures
        spec_dev_lookup(m, key) == Some(m[i].1),
    decreases i,
{
    if i > 0 {
        let t = m.drop_first();
        assert(t[i - 1] == m[i]);
        assert forall|j: int| 0 <= j < i - 1 implies (#[trigger] t[j]).0 != key by {
            assert(t[j] == m[j + 1]);
        }
        lemma_dev_lookup_at(t, key, i - 1);
    }
}

proof fn lemma_dev_lookup_none(m: Seq<(Seq<u8>, Seq<u8>)>, key: Seq<u8>)
    requires
        forall|j: int| 0 <= j < m.len() ==> (#[trigger] m[j]).0 != key,
    ensures
        spec_dev_lookup(m, key) is None,
    decreases m.len(),
{
    if m.len() > 0 {
        let t = m.drop_first();
        assert forall|j: int| 0 <= j < t.len() implies (#[trigger] t[j]).0 != key by {
            assert(t[j] == m[j + 1]);
        }
        lemma_dev_lookup_none(t, key);
    }
}

proof fn lemma_ctr_lookup_at(m: Seq<(Seq<char>, u64)>, key: Seq<char>, i: int)
    requires
        0 <= i < m.len(),
        m[i].0 == key,
        forall|j: int| 0 <= j < i ==> (#[trigger] m[j]).0 != key,
    ensures
        spec_ctr_lookup(m, key) == Some(m[i].1),
    decreases i,
{
    if i > 0 {
        let t = m.drop_first();
        assert(t[i - 1] == m[i]);
        assert forall|j: int| 0 <= j < i - 1 implies (#[trigger] t[j]).0 != key by {
            assert(t[j] == m[j + 1]);
        }
        lemma_ctr_lookup_at(t, key, i - 1);
    }
}

proof fn lemma_ctr_lookup_none(m: Seq<(Seq<char>, u64)>, key: Seq<char>)
    requires
        forall|j: int| 0 <= j < m.len() ==> (#[trigger] m[j]).0 != key,
    ensures
        spec_ctr_lookup(m, key) is None,
    decreases m.len(),
{
    if m.len() > 0 {
        let t = m.drop_first();
        assert forall|j: int| 0 <= j < t.len() implies (#[trigger] t[j]).0 != key by {
            assert(t[j] == m[j + 1]);
        }
        lemma_ctr_lookup_none(t, key);
    }
}

// ---------------------------------------------------------------------------
// Disk presets
// ---------------------------------------------------------------------------

/// The presets the build script registers: a name and its description, the
/// callbacks staying with the interpreter.
#[derive(Debug)]
pub struct PresetStore {
    pub items: Vec<DiskPreset>,
}

impl PresetStore {
    pub fn new() -> (r: PresetStore)
        ensures
            r.items@.len() == 0,
    {
        PresetStore { items: Vec::new() }
    }

    /// Registers a preset; a later registration under the same name replaces
    /// the earlier.
    pub fn register(&mut self, name: String, description: String)
        ensures
            ({
                let before = old(self).items@;
                let after = final(self).items@;
                if exists|i: int|
                    0 <= i < before.len() && (#[trigger] before[i]).name@ == name@ {
                    exists|i: int|
                        0 <= i < before.len() && (#[trigger] before[i]).name@ == name@
                            && after[i].name@ == name@ && after[i].description@ == description@
                            && after =~= before.update(i, after[i])
                } else {
                    after.len() == before.len() + 1 && after.last().name@ == name@
                        && after.last().description@ == description@ && after.take(
                        before.len() as int,
                    ) =~= before
                }
            }),
    {
        let mut i: usize = 0;
        while i < self.items.len()
            invariant
                i <= self.items@.len(),
                *self == *old(self),
                forall|j: int| 0 <= j < i ==> (#[trigger] self.items@[j]).name@ != name@,
            decreases self.items.len() - i,
        {
            if str_eq(self.items[i].name.as_str(), name.as_str()) {
                self.items.set(i, DiskPreset { name, description });
                return;
            }
            i = i + 1;
        }
        let ghost before = self.items@;
        self.items.push(DiskPreset { name, description });
        proof {
            assert(self.items@.take(before.len() as int) =~= before);
        }
    }

    pub fn list(&self) -> (r: &Vec<DiskPreset>)
        ensures
            r@ == self.items@,
    {
        &self.items
    }
}

// ---------------------------------------------------------------------------
// The command line
// ---------------------------------------------------------------------------

/// The control-socket path inside a working directory.
pub fn qemu_socket_path(working_dir: &str) -> (r: String)
    ensures
        r@ == working_dir@ + "/qemu.sock"@,
{
    let mut p = working_dir.to_owned();
    p.append("/qemu.sock");
    p
}

/// The fixed opening of every command line: the guest name, a paused start,
/// timestamped messages, dropped privileges, and the control socket in
/// control mode.
pub fn build_preamble(name: &str, working_dir: &str) -> (r: Vec<String>)
    ensures
        r@.len() == 11,
        r@[0]@ == "-name"@,
        r@[1]@ == "guest="@ + name@ + ",debug-threads=on"@,
        r@[2]@ == "-S"@,
        r@[3]@ == "-msg"@,
        r@[4]@ == "timestamp=on"@,
        r@[5]@ == "-runas"@,
        r@[6]@ == "nobody"@,
        r@[7]@ == "-chardev"@,
        r@[8]@ == "socket,id=charmonitor,path="@ + working_dir@
            + "/qemu.sock,server=on,wait=off"@,
        r@[9]@ == "-mon"@,
        r@[10]@ == "chardev=charmonitor,id=monitor,mode=control"@,
{
    let mut cmd: Vec<String> = Vec::new();
    cmd.push(String::from_str("-name"));
    let mut guest = String::from_str("guest=");
    guest.append(name);
    guest.append(",debug-threads=on");
    cmd.push(guest);
    cmd.push(String::from_str("-S"));
    cmd.push(String::from_str("-msg"));
    cmd.push(String::from_str("timestamp=on"));
    cmd.push(String::from_str("-runas"));
    cmd.push(String::from_str("nobody"));
    cmd.push(String::from_str("-chardev"));
    let mut chardev = String::from_str("socket,id=charmonitor,path=");
    chardev.append(working_dir);
    chardev.append("/qemu.sock,server=on,wait=off");
    cmd.push(chardev);
    cmd.push(String::from_str("-mon"));
    cmd.push(String::from_str("chardev=charmonitor,id=monitor,mode=control"));
    cmd
}

/// The whole command line: the preamble, then whatever the script built.
pub fn assemble_command(name: &str, working_dir: &str, script_args: Vec<String>) -> (r: Vec<
    String,
>)
    ensures
        r@.len() == 11 + script_args@.len(),
        forall|i: int| 11 <= i < r@.len() ==> r@[i] == script_args@[i - 11],
        r@[1]@ == "guest="@ + name@ + ",debug-threads=on"@,
        r@[8]@ == "socket,id=charmonitor,path="@ + working_dir@
            + "/qemu.sock,server=on,wait=off"@,
{
    let mut cmd = build_preamble(name, working_dir);
    let mut rest = script_args;
    cmd.append(&mut rest);
    cmd
}

} // verus!
