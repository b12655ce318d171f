//! PCI addresses: `[domain:]bus:slot.func` in hex, parsed from the right so
//! that missing leading components default to zero.
use vstd::prelude::*;
use vstd::slice::slice_subrange;
use vstd::string::StringSliceAdditionalSpecFns;
use crate::error::VoreError;
use crate::text::{
    ascii_to_string, format_hex_u32, lemma_find_none, lemma_find_unique, lemma_hex_digits_hex,
    lemma_hex_digits_u8_len, lemma_hex_round_trip, lemma_rfind_none, lemma_rfind_unique,
    parse_u32_hex, rfind_byte, find_byte, spec_bytes_as_chars, spec_find, spec_format_hex,
    spec_hex_digits, spec_is_hex_digit, spec_parse_u32_hex, spec_rfind, spec_zeros,
};

verus! {

#[derive(Clone, Copy, Debug, PartialEq, Eq, Structural)]
pub struct PCIAddress {
    pub domain: u32,
    pub bus: u8,
    pub slot: u8,
    pub func: u8,
}

/// The slot and function read from the token after the last colon: the part
/// before the first dot is the slot, the part between the first and second
/// dots (if a dot is there at all) is the function.
pub open spec fn spec_parse_slot_func(sf: Seq<u8>) -> Option<(u8, u8)> {
    match spec_find(sf, 46) {
        None => match spec_parse_u32_hex(sf) {
            Some(v) => if v <= 255 {
                Some((v as u8, 0u8))
            } else {
                None
            },
            None => None,
        },
        Some(d) => {
            let slot_s = sf.take(d);
            let func_all = sf.skip(d + 1);
            let func_s = match spec_find(func_all, 46) {
                Some(d2) => func_all.take(d2),
                None => func_all,
            };
            match (spec_parse_u32_hex(slot_s), spec_parse_u32_hex(func_s)) {
                (Some(sv), Some(fv)) => if sv <= 255 && fv <= 255 {
                    Some((sv as u8, fv as u8))
                } else {
                    None
                },
                _ => None,
            }
        },
    }
}

/// The bus and domain read from everything before the last colon; each is the
/// token after the next colon from the right, and a missing token is zero.
pub open spec fn spec_parse_bus_domain(rest: Option<Seq<u8>>) -> Option<(u8, u32)> {
    match rest {
        None => Some((0u8, 0u32)),
        Some(r) => {
            let bus_s = match spec_rfind(r, 58) {
                Some(j) => r.skip(j + 1),
                None => r,
            };
            let bus = match spec_parse_u32_hex(bus_s) {
                Some(v) => if v <= 255 {
                    Some(v as u8)
                } else {
                    None
                },
                None => None,
            };
            match bus {
                None => None,
                Some(bv) => match spec_rfind(r, 58) {
                    None => Some((bv, 0u32)),
                    Some(j) => {
                        let r2 = r.take(j);
                        let dom_s = match spec_rfind(r2, 58) {
                            Some(k) => r2.skip(k + 1),
                            None => r2,
                        };
                        match spec_parse_u32_hex(dom_s) {
                            Some(dv) => Some((bv, dv)),
                            None => None,
                        }
                    },
                },
            }
        },
    }
}

/// What parsing a PCI address accepts, over the input bytes.
pub open spec fn spec_parse_pci(s: Seq<u8>) -> Option<PCIAddress> {
    let sf = match spec_rfind(s, 58) {
        Some(i) => s.skip(i + 1),
        None => s,
    };
    let rest = match spec_rfind(s, 58) {
        Some(i) => Some(s.take(i)),
        None => None,
    };
    match (spec_parse_slot_func(sf), spec_parse_bus_domain(rest)) {
        (Some(sfv), Some(bdv)) => Some(
            PCIAddress { domain: bdv.1, bus: bdv.0, slot: sfv.0, func: sfv.1 },
        ),
        _ => None,
    }
}

/// The canonical rendering: four hex digits of domain, two of bus, two of
/// slot, then the function, as `dddd:bb:ss.f`.
pub open spec fn spec_format_pci(a: PCIAddress) -> Seq<u8> {
    spec_format_hex(a.domain as nat, 4) + seq![58u8] + spec_format_hex(a.bus as nat, 2)
        + seq![58u8] + spec_format_hex(a.slot as nat, 2) + seq![46u8] + spec_format_hex(
        a.func as nat,
        1,
    )
}

/// The same rendering, as the characters of the returned string.
pub open spec fn spec_pci_string(a: PCIAddress) -> Seq<char> {
    spec_bytes_as_chars(spec_format_pci(a))
}

impl PCIAddress {
    pub fn default() -> (r: PCIAddress)
        ensures
            r == (PCIAddress { domain: 0u32, bus: 0u8, slot: 0u8, func: 0u8 }),
    {
        PCIAddress { domain: 0, bus: 0, slot: 0, func: 0 }
    }

    /// Parses `[domain:]bus:slot.func`; every part it accepts is hexadecimal,
    /// components left of those given default to zero.
    #[verifier::rlimit(50)]
    pub fn from_str(s: &str) -> (r: Result<PCIAddress, VoreError>)
        ensures
            spec_parse_pci(s.spec_bytes()) is Some ==> r is Ok && r->Ok_0 == spec_parse_pci(
                s.spec_bytes(),
            )->Some_0,
            spec_parse_pci(s.spec_bytes()) is None ==> (r matches Err(
                VoreError::InvalidPciAddress { input },
            ) && input@ == s@),
    {
        let bytes = s.as_bytes();
        let n = bytes.len();
        let colon = rfind_byte(bytes, 58);
        proof {
            crate::text::lemma_rfind_last(bytes@, 58);
        }
        let sf: &[u8] = match colon {
            Some(i) => slice_subrange(bytes, i + 1, n),
            None => bytes,
        };
        proof {
            match spec_rfind(bytes@, 58) {
                Some(i) => {
                    assert(sf@ =~= bytes@.skip(i + 1));
                },
                None => {},
            }
        }
        // slot and function
        let sf_len = sf.len();
        let dot = find_byte(sf, 46);
        proof {
            crate::text::lemma_find_first(sf@, 46);
        }
        let slot_func: Option<(u8, u8)> = match dot {
            Some(d) => {
                let slot_s = slice_subrange(sf, 0, d);
                let func_all = slice_subrange(sf, d + 1, sf_len);
                let fdot = find_byte(func_all, 46);
                proof {
                    crate::text::lemma_find_first(func_all@, 46);
                }
                let func_s: &[u8] = match fdot {
                    Some(d2) => slice_subrange(func_all, 0, d2),
                    None => func_all,
                };
                proof {
                    assert(slot_s@ =~= sf@.take(spec_find(sf@, 46)->Some_0));
                    assert(func_all@ =~= sf@.skip(spec_find(sf@, 46)->Some_0 + 1));
                    match spec_find(func_all@, 46) {
                        Some(d2) => {
                            assert(func_s@ =~= func_all@.take(d2));
                        },
                        None => {},
                    }
                }
                match (parse_u32_hex(slot_s), parse_u32_hex(func_s)) {
                    (Some(sv), Some(fv)) => if sv <= 255 && fv <= 255 {
                        Some((sv as u8, fv as u8))
                    } else {
                        None
                    },
                    _ => None,
                }
            },
            None => {
                match parse_u32_hex(sf) {
                    Some(v) => if v <= 255 {
                        Some((v as u8, 0u8))
                    } else {
                        None
                    },
                    None => None,
                }
            },
        };
        proof {
            assert(slot_func == spec_parse_slot_func(sf@));
        }
        // bus and domain
        let bus_domain: Option<(u8, u32)> = match colon {
            None => Some((0u8, 0u32)),
            Some(i) => {
                let r = slice_subrange(bytes, 0, i);
                proof {
                    assert(r@ =~= bytes@.take(i as int));
                }
                let r_len = r.len();
                let rcolon = rfind_byte(r, 58);
                proof {
                    crate::text::lemma_rfind_last(r@, 58);
                }
                let bus_s: &[u8] = match rcolon {
                    Some(j) => slice_subrange(r, j + 1, r_len),
                    None => r,
                };
                proof {
                    match spec_rfind(r@, 58) {
                        Some(j) => {
                            assert(bus_s@ =~= r@.skip(j + 1));
                        },
                        None => {},
                    }
                }
                let bus = match parse_u32_hex(bus_s) {
                    Some(v) => if v <= 255 {
                        Some(v as u8)
                    } else {
                        None
                    },
                    None => None,
                };
                match bus {
                    None => None,
                    Some(bv) => match rcolon {
                        None => Some((bv, 0u32)),
                        Some(j) => {
                            let r2 = slice_subrange(r, 0, j);
                            proof {
                                assert(r2@ =~= r@.take(j as int));
                            }
                            let r2_len = r2.len();
                            let r2colon = rfind_byte(r2, 58);
                            proof {
                                crate::text::lemma_rfind_last(r2@, 58);
                            }
                            let dom_s: &[u8] = match r2colon {
                                Some(k) => slice_subrange(r2, k + 1, r2_len),
                                None => r2,
                            };
                            proof {
                                match spec_rfind(r2@, 58) {
                                    Some(k) => {
                                        assert(dom_s@ =~= r2@.skip(k + 1));
                                    },
                                    None => {},
                                }
                            }
                            match parse_u32_hex(dom_s) {
                                Some(dv) => Some((bv, dv)),
                                None => None,
                            }
                        },
                    },
                }
            },
        };
        proof {
            let rest = match spec_rfind(bytes@, 58) {
                Some(i) => Some(bytes@.take(i)),
                None => None,
            };
            assert(bus_domain == spec_parse_bus_domain(rest));
        }
        match (slot_func, bus_domain) {
            (Some(sfv), Some(bdv)) => Ok(
                PCIAddress { domain: bdv.1, bus: bdv.0, slot: sfv.0, func: sfv.1 },
            ),
            _ => Err(VoreError::InvalidPciAddress { input: s.to_owned() }),
        }
    }

    /// Renders `dddd:bb:ss.f` in lowercase hex.
    pub fn to_string(&self) -> (r: String)
        ensures
            r@ == spec_pci_string(*self),
    {
        let mut v = format_hex_u32(self.domain, 4);
        v.push(58);
        let mut bus = format_hex_u32(self.bus as u32, 2);
        v.append(&mut bus);
        v.push(58);
        let mut slot = format_hex_u32(self.slot as u32, 2);
        v.append(&mut slot);
        v.push(46);
        let mut func = format_hex_u32(self.func as u32, 1);
        v.append(&mut func);
        proof {
            assert(v@ =~= spec_format_pci(*self));
            lemma_format_pci_ascii(*self);
        }
        ascii_to_string(&v)
    }
}

/// Every byte of a formatted hex field is ASCII.
proof fn lemma_format_hex_ascii(x: nat, w: nat)
    ensures
        forall|i: int| 0 <= i < spec_format_hex(x, w).len() ==> #[trigger] spec_format_hex(
            x,
            w,
        )[i] < 128,
{
    lemma_hex_digits_hex(x);
    let digits = spec_hex_digits(x);
    let s = spec_format_hex(x, w);
    assert forall|i: int| 0 <= i < s.len() implies #[trigger] s[i] < 128 by {
        if digits.len() >= w {
            assert(s[i] == digits[i]);
            assert(spec_is_hex_digit(digits[i]));
        } else {
            if i < w - digits.len() {
                assert(s[i] == spec_zeros((w - digits.len()) as nat)[i]);
            } else {
                assert(s[i] == digits[i - (w - digits.len())]);
                assert(spec_is_hex_digit(digits[i - (w - digits.len())]));
            }
        }
    }
}

/// Every byte of a formatted PCI address is ASCII.
pub proof fn lemma_format_pci_ascii(a: PCIAddress)
    ensures
        forall|i: int| 0 <= i < spec_format_pci(a).len() ==> #[trigger] spec_format_pci(a)[i]
            < 128,
{
    lemma_format_hex_ascii(a.domain as nat, 4);
    lemma_format_hex_ascii(a.bus as nat, 2);
    lemma_format_hex_ascii(a.slot as nat, 2);
    lemma_format_hex_ascii(a.func as nat, 1);
    let d = spec_format_hex(a.domain as nat, 4);
    let b = spec_format_hex(a.bus as nat, 2);
    let sl = spec_format_hex(a.slot as nat, 2);
    let f = spec_format_hex(a.func as nat, 1);
    let s = spec_format_pci(a);
    assert forall|i: int| 0 <= i < s.len() implies #[trigger] s[i] < 128 by {
        if i < d.len() {
            assert(s[i] == d[i]);
        } else if i == d.len() {
            assert(s[i] == 58);
        } else if i < d.len() + 1 + b.len() {
            assert(s[i] == b[i - d.len() - 1]);
        } else if i == d.len() + 1 + b.len() {
            assert(s[i] == 58);
        } else if i < d.len() + 1 + b.len() + 1 + sl.len() {
            assert(s[i] == sl[i - d.len() - 1 - b.len() - 1]);
        } else if i == d.len() + 1 + b.len() + 1 + sl.len() {
            assert(s[i] == 46);
        } else {
            assert(s[i] == f[i - d.len() - 1 - b.len() - 1 - sl.len() - 1]);
        }
    }
}

/// No hex digit is a colon or a dot.
proof fn lemma_hex_field_no_sep(x: nat, w: nat)
    ensures
        forall|i: int| 0 <= i < spec_format_hex(x, w).len() ==> #[trigger] spec_format_hex(
            x,
            w,
        )[i] != 58 && spec_format_hex(x, w)[i] != 46,
{
    lemma_hex_digits_hex(x);
    let digits = spec_hex_digits(x);
    let s = spec_format_hex(x, w);
    assert forall|i: int| 0 <= i < s.len() implies #[trigger] s[i] != 58 && s[i] != 46 by {
        if digits.len() >= w {
            assert(s[i] == digits[i]);
            assert(spec_is_hex_digit(digits[i]));
        } else {
            if i < w - digits.len() {
                assert(s[i] == spec_zeros((w - digits.len()) as nat)[i]);
            } else {
                assert(s[i] == digits[i - (w - digits.len())]);
                assert(spec_is_hex_digit(digits[i - (w - digits.len())]));
            }
        }
    }
}

/// Formatting an address and parsing it back gives the same address: the
/// round-trip law for PCI addresses.
pub proof fn lemma_pci_round_trip(a: PCIAddress)
    ensures
        spec_parse_pci(spec_format_pci(a)) == Some(a),
{
    let d = spec_format_hex(a.domain as nat, 4);
    let b = spec_format_hex(a.bus as nat, 2);
    let sl = spec_format_hex(a.slot as nat, 2);
    let f = spec_format_hex(a.func as nat, 1);
    let s = spec_format_pci(a);
    lemma_hex_field_no_sep(a.domain as nat, 4);
    lemma_hex_field_no_sep(a.bus as nat, 2);
    lemma_hex_field_no_sep(a.slot as nat, 2);
    lemma_hex_field_no_sep(a.func as nat, 1);
    lemma_hex_digits_u8_len(a.slot as nat);
    lemma_hex_digits_u8_len(a.bus as nat);
    lemma_hex_digits_hex(a.slot as nat);
    assert(sl.len() == 2);
    // the last colon stands between bus and slot
    let i0 = d.len() + 1 + b.len();
    assert(s[i0 as int] == 58);
    assert forall|j: int| i0 < j < s.len() implies s[j] != 58 by {
        if j < i0 + 1 + sl.len() {
            assert(s[j] == sl[j - i0 - 1]);
        } else if j == i0 + 1 + sl.len() {
            assert(s[j] == 46);
        } else {
            assert(s[j] == f[j - i0 - 1 - sl.len() - 1]);
        }
    }
    lemma_rfind_unique(s, 58, i0 as int);
    let sf = s.skip(i0 as int + 1);
    assert(sf =~= sl + seq![46u8] + f);
    let rest = s.take(i0 as int);
    assert(rest =~= d + seq![58u8] + b);
    // within slot.func: the first dot stands after two slot digits
    assert(sf[sl.len() as int] == 46);
    assert forall|j: int| 0 <= j < sl.len() implies sf[j] != 46 by {
        assert(sf[j] == sl[j]);
    }
    lemma_find_unique(sf, 46, sl.len() as int);
    assert(sf.take(sl.len() as int) =~= sl);
    let func_all = sf.skip(sl.len() as int + 1);
    assert(func_all =~= f);
    lemma_find_none(f, 46);
    lemma_hex_round_trip(a.slot as u32, 2);
    lemma_hex_round_trip(a.func as u32, 1);
    assert(spec_parse_slot_func(sf) == Some((a.slot, a.func)));
    // within the rest: the colon stands between domain and bus
    assert(rest[d.len() as int] == 58);
    assert forall|j: int| d.len() < j < rest.len() implies rest[j] != 58 by {
        assert(rest[j] == b[j - d.len() - 1]);
    }
    lemma_rfind_unique(rest, 58, d.len() as int);
    assert(rest.skip(d.len() as int + 1) =~= b);
    assert(rest.take(d.len() as int) =~= d);
    lemma_rfind_none(d, 58);
    lemma_hex_round_trip(a.bus as u32, 2);
    lemma_hex_round_trip(a.domain, 4);
    assert(spec_parse_bus_domain(Some(rest)) == Some((a.bus, a.domain)));
}

} // verus!
