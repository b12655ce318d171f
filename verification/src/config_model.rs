//! The parsed form of a configuration document: tables of typed values, as
//! the instance parser reads them. A document is produced from TOML text by
//! the program around the library; the parser here is a pure function on it.
use vstd::prelude::*;
use crate::error::VoreError;
use crate::text::str_eq;

verus! {

/// One typed value in a configuration table.
#[derive(Clone, Debug, PartialEq)]
pub enum ConfigValue {
    Bool(bool),
    Int(i64),
    Str(String),
    StrList(Vec<String>),
}

/// The mathematical shape of a value.
pub enum SpecConfigValue {
    Bool(bool),
    Int(i64),
    Str(Seq<char>),
    StrList(Seq<Seq<char>>),
}

impl View for ConfigValue {
    type V = SpecConfigValue;

    open spec fn view(&self) -> SpecConfigValue {
        match self {
            ConfigValue::Bool(b) => SpecConfigValue::Bool(*b),
            ConfigValue::Int(i) => SpecConfigValue::Int(*i),
            ConfigValue::Str(s) => SpecConfigValue::Str(s@),
            ConfigValue::StrList(v) => SpecConfigValue::StrList(
                v@.map_values(|x: String| x@),
            ),
        }
    }
}

/// A table of key/value pairs; the first entry with a key decides.
#[derive(Clone, Debug, PartialEq)]
pub struct ConfigTable {
    pub entries: Vec<(String, ConfigValue)>,
}

impl View for ConfigTable {
    type V = Seq<(Seq<char>, SpecConfigValue)>;

    open spec fn view(&self) -> Seq<(Seq<char>, SpecConfigValue)> {
        self.entries@.map_values(|p: (String, ConfigValue)| (p.0@, p.1@))
    }
}

/// The value under `key`: that of its first entry, if any.
pub open spec fn spec_get(t: Seq<(Seq<char>, SpecConfigValue)>, key: Seq<char>) -> Option<
    SpecConfigValue,
>
    decreases t.len(),
{
    if t.len() == 0 {
        None
    } else if t[0].0 == key {
        Some(t[0].1)
    } else {
        spec_get(t.drop_first(), key)
    }
}

proof fn lemma_spec_get_skip_step(t: Seq<(Seq<char>, SpecConfigValue)>, key: Seq<char>, i: int)
    requires
        0 <= i < t.len(),
        t[i].0 != key,
    ensures
        spec_get(t.skip(i), key) == spec_get(t.skip(i + 1), key),
{
    assert(t.skip(i)[0] == t[i]);
    assert(t.skip(i).drop_first() =~= t.skip(i + 1));
}

impl ConfigTable {
    pub fn new() -> (r: ConfigTable)
        ensures
            r@ =~= Seq::<(Seq<char>, SpecConfigValue)>::empty(),
    {
        ConfigTable { entries: Vec::new() }
    }

    /// Adds an entry at the end; an earlier entry with the same key wins
    /// on lookup.
    pub fn push(&mut self, key: String, value: ConfigValue)
        ensures
            final(self)@ =~= old(self)@.push((key@, value@)),
    {
        self.entries.push((key, value));
    }

    pub fn get(&self, key: &str) -> (r: Option<&ConfigValue>)
        ensures
            match r {
                Some(v) => spec_get(self@, key@) == Some(v@),
                None => spec_get(self@, key@) is None,
            },
    {
        let mut i: usize = 0;
        proof {
            assert(self@.skip(0) =~= self@);
        }
        while i < self.entries.len()
            invariant
                i <= self@.len(),
                self@.len() == self.entries@.len(),
                spec_get(self@, key@) == spec_get(self@.skip(i as int), key@),
            decreases self.entries.len() - i,
        {
            let entry = &self.entries[i];
            if str_eq(entry.0.as_str(), key) {
                proof {
                    assert(self@.skip(i as int)[0] == self@[i as int]);
                }
                return Some(&entry.1);
            }
            proof {
                lemma_spec_get_skip_step(self@, key@, i as int);
            }
            i = i + 1;
        }
        proof {
            assert(self@.skip(self@.len() as int) =~= Seq::<
                (Seq<char>, SpecConfigValue),
            >::empty());
        }
        None
    }

    pub fn has_key(&self, key: &str) -> (r: bool)
        ensures
            r == (spec_get(self@, key@) is Some),
    {
        self.get(key).is_some()
    }

    /// A boolean under `key`; a value of another type is a fault named
    /// after `err_key`.
    pub fn get_bool(&self, key: &str, err_key: &str) -> (r: Result<Option<bool>, VoreError>)
        ensures
            match spec_get(self@, key@) {
                None => r == Ok::<Option<bool>, VoreError>(None),
                Some(SpecConfigValue::Bool(b)) => r == Ok::<Option<bool>, VoreError>(Some(b)),
                Some(_) => (r matches Err(VoreError::NotABoolean { key: k }) && k@ == err_key@),
            },
    {
        match self.get(key) {
            None => Ok(None),
            Some(ConfigValue::Bool(b)) => Ok(Some(*b)),
            Some(_) => Err(VoreError::NotABoolean { key: err_key.to_owned() }),
        }
    }

    /// A non-negative integer under `key`.
    pub fn get_u64(&self, key: &str, err_key: &str) -> (r: Result<Option<u64>, VoreError>)
        ensures
            match spec_get(self@, key@) {
                None => r == Ok::<Option<u64>, VoreError>(None),
                Some(SpecConfigValue::Int(v)) => if v >= 0 {
                    r == Ok::<Option<u64>, VoreError>(Some(v as u64))
                } else {
                    (r matches Err(VoreError::NegativeNumber { key: k }) && k@ == err_key@)
                },
                Some(_) => (r matches Err(VoreError::NotANumber { key: k }) && k@ == err_key@),
            },
    {
        match self.get(key) {
            None => Ok(None),
            Some(ConfigValue::Int(v)) => {
                if *v >= 0 {
                    Ok(Some(*v as u64))
                } else {
                    Err(VoreError::NegativeNumber { key: err_key.to_owned() })
                }
            },
            Some(_) => Err(VoreError::NotANumber { key: err_key.to_owned() }),
        }
    }

    /// A string under `key`; an integer is accepted and rendered in decimal,
    /// as the sizes in `machine.memory` may be written as plain numbers.
    pub fn get_string(&self, key: &str, err_key: &str) -> (r: Result<Option<String>, VoreError>)
        ensures
            match spec_get(self@, key@) {
                None => r is Ok && r->Ok_0 is None,
                Some(SpecConfigValue::Str(s)) => r is Ok && r->Ok_0 is Some && r->Ok_0->0@ == s,
                Some(SpecConfigValue::Int(v)) => r is Ok && r->Ok_0 is Some && r->Ok_0->0@
                    == spec_int_chars(v as int),
                Some(_) => (r matches Err(VoreError::NotAString { key: k }) && k@ == err_key@),
            },
    {
        match self.get(key) {
            None => Ok(None),
            Some(ConfigValue::Str(s)) => Ok(Some(s.clone())),
            Some(ConfigValue::Int(v)) => Ok(Some(int_string(*v))),
            Some(_) => Err(VoreError::NotAString { key: err_key.to_owned() }),
        }
    }

    /// A list of strings under `key`; any other type reads as absent, as the
    /// feature list does.
    pub fn get_str_list(&self, key: &str) -> (r: Option<Vec<String>>)
        ensures
            match spec_get(self@, key@) {
                Some(SpecConfigValue::StrList(l)) => r is Some && r->0@.map_values(
                    |x: String| x@,
                ) == l,
                _ => r is None,
            },
    {
        match self.get(key) {
            Some(ConfigValue::StrList(l)) => Some(l.clone()),
            _ => None,
        }
    }
}

/// Decimal rendering of a possibly negative integer, as characters.
pub open spec fn spec_int_chars(v: int) -> Seq<char> {
    if v >= 0 {
        crate::error::spec_dec_chars(v as nat)
    } else {
        "-"@ + crate::error::spec_dec_chars((-v) as nat)
    }
}

/// Renders an `i64` in decimal.
pub fn int_string(v: i64) -> (r: String)
    ensures
        r@ == spec_int_chars(v as int),
{
    if v >= 0 {
        crate::error::dec_string(v as u64)
    } else {
        let mag: u64 = ((-(v + 1)) as u64) + 1;
        proof {
            assert(mag as int == -(v as int));
        }
        let mut s = String::from_str("-");
        s.append(crate::error::dec_string(mag).as_str());
        s
    }
}

/// A whole instance-configuration document: the `machine` table, the optional
/// feature tables, and the `disk` and `vfio` arrays.
#[derive(Clone, Debug, PartialEq)]
pub struct ConfigDoc {
    pub machine: ConfigTable,
    pub cpu: Option<ConfigTable>,
    pub disk: Vec<ConfigTable>,
    pub uefi: Option<ConfigTable>,
    pub vfio: Vec<ConfigTable>,
    pub looking_glass: Option<ConfigTable>,
    pub scream: Option<ConfigTable>,
    pub spice: Option<ConfigTable>,
    pub pulse: Option<ConfigTable>,
}

pub struct SpecConfigDoc {
    pub machine: Seq<(Seq<char>, SpecConfigValue)>,
    pub cpu: Option<Seq<(Seq<char>, SpecConfigValue)>>,
    pub disk: Seq<Seq<(Seq<char>, SpecConfigValue)>>,
    pub uefi: Option<Seq<(Seq<char>, SpecConfigValue)>>,
    pub vfio: Seq<Seq<(Seq<char>, SpecConfigValue)>>,
    pub looking_glass: Option<Seq<(Seq<char>, SpecConfigValue)>>,
    pub scream: Option<Seq<(Seq<char>, SpecConfigValue)>>,
    pub spice: Option<Seq<(Seq<char>, SpecConfigValue)>>,
    pub pulse: Option<Seq<(Seq<char>, SpecConfigValue)>>,
}

pub open spec fn spec_opt_table(t: Option<ConfigTable>) -> Option<
    Seq<(Seq<char>, SpecConfigValue)>,
> {
    match t {
        Some(x) => Some(x@),
        None => None,
    }
}

impl View for ConfigDoc {
    type V = SpecConfigDoc;

    open spec fn view(&self) -> SpecConfigDoc {
        SpecConfigDoc {
            machine: self.machine@,
            cpu: spec_opt_table(self.cpu),
            disk: self.disk@.map_values(|t: ConfigTable| t@),
            uefi: spec_opt_table(self.uefi),
            vfio: self.vfio@.map_values(|t: ConfigTable| t@),
            looking_glass: spec_opt_table(self.looking_glass),
            scream: spec_opt_table(self.scream),
            spice: spec_opt_table(self.spice),
            pulse: spec_opt_table(self.pulse),
        }
    }
}

} // verus!
