//! The daemon-wide configuration: the command-build script, the UEFI firmware
//! pairs, and the group that owns the control socket.
use vstd::prelude::*;

verus! {

#[derive(Clone, Debug, PartialEq)]
pub struct GlobalVoreConfig {
    pub group: Option<String>,
    pub unix_group_id: Option<u32>,
}

pub struct GlobalVoreConfigView {
    pub group: Option<Seq<char>>,
    pub unix_group_id: Option<u32>,
}

impl View for GlobalVoreConfig {
    type V = GlobalVoreConfigView;

    open spec fn view(&self) -> GlobalVoreConfigView {
        GlobalVoreConfigView {
            group: match &self.group {
                Some(g) => Some(g@),
                None => None,
            },
            unix_group_id: self.unix_group_id,
        }
    }
}

/// What resolving the socket group needs from the host: nothing, or one
/// group-name lookup.
#[derive(Clone, Debug, PartialEq)]
pub enum GidLookup {
    NoGroup,
    Known(u32),
    NeedLookup(String),
}

impl GlobalVoreConfig {
    /// Decides how to find the socket's group id: a configured id wins, a
    /// configured name must be looked up, and neither means no ownership
    /// change.
    pub fn gid_decision(&self) -> (r: GidLookup)
        ensures
            self.unix_group_id is Some ==> r == GidLookup::Known(self.unix_group_id->0),
            self.unix_group_id is None && self.group is None ==> r == GidLookup::NoGroup,
            self.unix_group_id is None && self.group is Some ==> (r matches
                GidLookup::NeedLookup(name) && name@ == self.group->0@),
    {
        match self.unix_group_id {
            Some(id) => GidLookup::Known(id),
            None => match &self.group {
                Some(name) => GidLookup::NeedLookup(name.clone()),
                None => GidLookup::NoGroup,
            },
        }
    }

    /// Remembers a group id a lookup found.
    pub fn remember_gid(&mut self, gid: u32)
        ensures
            *final(self) == (GlobalVoreConfig { unix_group_id: Some(gid), ..*old(self) }),
    {
        self.unix_group_id = Some(gid);
    }
}

#[derive(Clone, Debug, PartialEq)]
pub struct GlobalQemuConfig {
    pub script: String,
}

pub struct GlobalQemuConfigView {
    pub script: Seq<char>,
}

impl View for GlobalQemuConfig {
    type V = GlobalQemuConfigView;

    open spec fn view(&self) -> GlobalQemuConfigView {
        GlobalQemuConfigView { script: self.script@ }
    }
}

#[derive(Clone, Debug, PartialEq)]
pub struct GlobalUefiConfig {
    pub template: String,
    pub boot_code: String,
}

pub struct GlobalUefiConfigView {
    pub template: Seq<char>,
    pub boot_code: Seq<char>,
}

impl View for GlobalUefiConfig {
    type V = GlobalUefiConfigView;

    open spec fn view(&self) -> GlobalUefiConfigView {
        GlobalUefiConfigView { template: self.template@, boot_code: self.boot_code@ }
    }
}

#[derive(Clone, Debug, PartialEq)]
pub struct GlobalConfig {
    pub vore: GlobalVoreConfig,
    pub qemu: GlobalQemuConfig,
    pub uefi: Vec<(String, GlobalUefiConfig)>,
}

pub struct GlobalConfigView {
    pub vore: GlobalVoreConfigView,
    pub qemu: GlobalQemuConfigView,
    pub uefi: Seq<(Seq<char>, GlobalUefiConfigView)>,
}

impl View for GlobalConfig {
    type V = GlobalConfigView;

    open spec fn view(&self) -> GlobalConfigView {
        GlobalConfigView {
            vore: self.vore@,
            qemu: self.qemu@,
            uefi: self.uefi@.map_values(|p: (String, GlobalUefiConfig)| (p.0@, p.1@)),
        }
    }
}

impl GlobalConfig {
    /// A field-by-field copy whose meaning is known to be the same.
    pub fn duplicate(&self) -> (r: GlobalConfig)
        ensures
            r@ == self@,
    {
        let mut uefi: Vec<(String, GlobalUefiConfig)> = Vec::new();
        let mut i: usize = 0;
        proof {
            let f = |p: (String, GlobalUefiConfig)| (p.0@, p.1@);
            assert(uefi@.map_values(f) =~= self.uefi@.map_values(f).take(0));
        }
        while i < self.uefi.len()
            invariant
                i <= self.uefi@.len(),
                uefi@.map_values(|p: (String, GlobalUefiConfig)| (p.0@, p.1@))
                    =~= self.uefi@.map_values(|p: (String, GlobalUefiConfig)| (p.0@, p.1@)).take(
                    i as int,
                ),
            decreases self.uefi.len() - i,
        {
            let entry = &self.uefi[i];
            let copy = (
                entry.0.clone(),
                GlobalUefiConfig {
                    template: entry.1.template.clone(),
                    boot_code: entry.1.boot_code.clone(),
                },
            );
            let ghost f = |p: (String, GlobalUefiConfig)| (p.0@, p.1@);
            let ghost before = uefi@.map_values(f);
            uefi.push(copy);
            proof {
                assert(uefi@.map_values(f) =~= before.push(f(copy)));
                assert(before.push(f(copy)) =~= self.uefi@.map_values(f).take(i + 1));
            }
            i = i + 1;
        }
        proof {
            let f = |p: (String, GlobalUefiConfig)| (p.0@, p.1@);
            assert(self.uefi@.map_values(f).take(self.uefi@.len() as int) =~= self.uefi@.map_values(
                f,
            ));
        }
        GlobalConfig {
            vore: GlobalVoreConfig {
                group: match &self.vore.group {
                    Some(g) => Some(g.clone()),
                    None => None,
                },
                unix_group_id: self.vore.unix_group_id,
            },
            qemu: GlobalQemuConfig { script: self.qemu.script.clone() },
            uefi,
        }
    }

    /// The firmware pair registered under a name, first entry winning.
    pub fn uefi_for(&self, name: &str) -> (r: Option<&GlobalUefiConfig>)
        ensures
            r is Some ==> exists|i: int|
                0 <= i < self.uefi@.len() && (#[trigger] self.uefi@[i]).0@ == name@
                    && r->0 == &self.uefi@[i].1,
            r is None ==> forall|i: int|
                0 <= i < self.uefi@.len() ==> (#[trigger] self.uefi@[i]).0@ != name@,
    {
        let mut i: usize = 0;
        while i < self.uefi.len()
            invariant
                i <= self.uefi@.len(),
                forall|j: int| 0 <= j < i ==> (#[trigger] self.uefi@[j]).0@ != name@,
            decreases self.uefi.len() - i,
        {
            let entry = &self.uefi[i];
            if crate::text::str_eq(entry.0.as_str(), name) {
                return Some(&entry.1);
            }
            i = i + 1;
        }
        None
    }
}

} // verus!
