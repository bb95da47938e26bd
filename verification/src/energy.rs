//! Where the energy readings come from: NVML when it loads, else the IPMI
//! device, else the Redfish service of the node's BMC, whose address is
//! read from the SMBIOS dump or from the Redfish configuration file.
use vstd::prelude::*;
use vstd::string::StringExecFns;

use crate::text::{
    contains_text, count_char, count_chars, find_chars, lines, lines_from, next_line, second_piece, strip_prefix,
    strip_prefix_text, trim, trim_text,
};

verus! {

/// The source of energy readings.
#[derive(Debug, Clone, Copy, PartialEq, Eq, Structural)]
pub enum EnergySource {
    Nvml,
    Ipmi,
    Redfish,
    Unavailable,
}

/// The address a line of the SMBIOS type-38 dump gives for the BMC: on an
/// `IPMI Address` or `Base Address` line, the trimmed text after the first
/// `:` (up to a second one), when it is not empty and has exactly three dots.
pub open spec fn line_bmc_address(line: Seq<char>) -> Option<Seq<char>> {
    if contains_text(line, "IPMI Address"@) || contains_text(line, "Base Address"@) {
        match second_piece(line, ":"@) {
            Some(p) => {
                let ip = trim(p);
                if ip.len() > 0 && count_char(ip, '.') == 3 {
                    Some(ip)
                } else {
                    None
                }
            },
            None => None,
        }
    } else {
        None
    }
}

/// The first address found on the lines.
pub open spec fn first_bmc_address(ls: Seq<Seq<char>>) -> Option<Seq<char>>
    decreases ls.len(),
{
    if ls.len() == 0 {
        None
    } else {
        match line_bmc_address(ls[0]) {
            Some(ip) => Some(ip),
            None => first_bmc_address(ls.drop_first()),
        }
    }
}

/// The address on the first `bmc_ip=` line of the configuration, trimmed.
pub open spec fn configured_bmc_address(ls: Seq<Seq<char>>) -> Option<Seq<char>>
    decreases ls.len(),
{
    if ls.len() == 0 {
        None
    } else {
        match strip_prefix(ls[0], "bmc_ip="@) {
            Some(rest) => Some(trim(rest)),
            None => configured_bmc_address(ls.drop_first()),
        }
    }
}

/// The BMC address: none when the SMBIOS dump could not be taken; else the
/// first address in it; else the one in the Redfish configuration, if read.
pub open spec fn bmc_address(smbios: Option<Seq<char>>, config: Option<Seq<char>>) -> Option<Seq<char>> {
    match smbios {
        None => None,
        Some(out) => match first_bmc_address(lines(out)) {
            Some(ip) => Some(ip),
            None => match config {
                Some(c) => configured_bmc_address(lines(c)),
                None => None,
            },
        },
    }
}

/// The address a line gives for the BMC, see [`line_bmc_address`].
fn bmc_address_of_line(line: &str) -> (r: Option<String>)
    ensures
        match line_bmc_address(line@) {
            Some(ip) => r matches Some(s) && s@ == ip,
            None => r is None,
        },
{
    let ipmi = find_chars(line, "IPMI Address", 0);
    let base = find_chars(line, "Base Address", 0);
    if ipmi.is_none() && base.is_none() {
        return None;
    }
    let n = line.unicode_len();
    proof {
        crate::text::lemma_find_from_range(line@, ":"@, 0);
    }
    let first = match find_chars(line, ":", 0) {
        Some(i) => i,
        None => {
            return None;
        },
    };
    proof {
        reveal_strlit(":");
        crate::text::lemma_find_from_range(line@, ":"@, first + 1);
    }
    let piece = match find_chars(line, ":", first + 1) {
        Some(j) => line.substring_char(first + 1, j),
        None => line.substring_char(first + 1, n),
    };
    let ip = trim_text(piece);
    if ip.as_str().unicode_len() > 0 && count_chars(ip.as_str(), '.') == 3 {
        Some(ip)
    } else {
        None
    }
}

/// The BMC address from the SMBIOS dump and the Redfish configuration.
pub fn discover_bmc_ip(smbios: Option<&str>, config: Option<&str>) -> (r: Option<String>)
    ensures
        match bmc_address(
            match smbios {
                Some(s) => Some(s@),
                None => None,
            },
            match config {
                Some(c) => Some(c@),
                None => None,
            },
        ) {
            Some(ip) => r matches Some(s) && s@ == ip,
            None => r is None,
        },
{
    let out = match smbios {
        Some(o) => o,
        None => {
            return None;
        },
    };
    let n = out.unicode_len();
    let mut start: usize = 0;
    while start < n
        invariant
            start <= n,
            n == out@.len(),
            smbios == Some(out),
            first_bmc_address(lines(out@)) == first_bmc_address(lines_from(out@, start as int)),
        decreases n - start,
    {
        let (line, next) = next_line(out, start);
        let ghost rest = lines_from(out@, next as int);
        proof {
            assert((seq![line@] + rest)[0] == line@);
            assert((seq![line@] + rest).drop_first() =~= rest);
        }
        match bmc_address_of_line(line) {
            Some(ip) => {
                proof {
                    assert(first_bmc_address(seq![line@] + rest) == Some(ip@));
                    assert(lines_from(out@, start as int) == seq![line@] + rest);
                    assert(first_bmc_address(lines(out@)) == Some(ip@));
                    assert(smbios == Some(out));
                }
                return Some(ip);
            },
            None => {},
        }
        start = next;
    }
    proof {
        assert(lines_from(out@, start as int) =~= Seq::<Seq<char>>::empty());
    }
    let conf = match config {
        Some(c) => c,
        None => {
            return None;
        },
    };
    let m = conf.unicode_len();
    let mut at: usize = 0;
    while at < m
        invariant
            at <= m,
            m == conf@.len(),
            smbios == Some(out),
            config == Some(conf),
            first_bmc_address(lines(out@)) is None,
            configured_bmc_address(lines(conf@)) == configured_bmc_address(lines_from(conf@, at as int)),
        decreases m - at,
    {
        let (line, next) = next_line(conf, at);
        let ghost later = lines_from(conf@, next as int);
        proof {
            assert((seq![line@] + later)[0] == line@);
            assert((seq![line@] + later).drop_first() =~= later);
        }
        match strip_prefix_text(line, "bmc_ip=") {
            Some(rest) => {
                let ip = trim_text(rest);
                proof {
                    assert(configured_bmc_address(seq![line@] + later) == Some(ip@));
                    assert(lines_from(conf@, at as int) == seq![line@] + later);
                    assert(configured_bmc_address(lines(conf@)) == Some(ip@));
                    assert(config == Some(conf));
                }
                return Some(ip);
            },
            None => {},
        }
        at = next;
    }
    proof {
        assert(lines_from(conf@, at as int) =~= Seq::<Seq<char>>::empty());
    }
    None
}

/// The energy source of a node: NVML when it loaded, else IPMI when its
/// device exists, else Redfish when a BMC address was found, else none.
pub open spec fn source_choice(nvml_loaded: bool, ipmi_present: bool, bmc_found: bool) -> EnergySource {
    if nvml_loaded {
        EnergySource::Nvml
    } else if ipmi_present {
        EnergySource::Ipmi
    } else if bmc_found {
        EnergySource::Redfish
    } else {
        EnergySource::Unavailable
    }
}

/// The energy source of a node, see [`source_choice`].
pub fn choose_energy_source(nvml_loaded: bool, ipmi_present: bool, bmc_found: bool) -> (r: EnergySource)
    ensures
        r == source_choice(nvml_loaded, ipmi_present, bmc_found),
{
    if nvml_loaded {
        EnergySource::Nvml
    } else if ipmi_present {
        EnergySource::Ipmi
    } else if bmc_found {
        EnergySource::Redfish
    } else {
        EnergySource::Unavailable
    }
}

/// The Redfish user when none is configured.
pub fn default_redfish_user() -> (r: String)
    ensures
        r@ == "admin"@,
{
    String::from_str("admin")
}

} // verus!
