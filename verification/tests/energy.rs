use basalto::energy::{choose_energy_source, default_redfish_user, discover_bmc_ip, EnergySource};

const DMI_IO: &str = "# dmidecode 3.3\nHandle 0x0029, DMI type 38, 18 bytes\nIPMI Device Information\n\tInterface Type: KCS (Keyboard Control Style)\n\tBase Address: 0x0000000000000CA2 (I/O)\n";

#[test]
fn address_from_the_smbios_dump() {
    let dump = "Handle 0x0029\n\tIPMI Address: 192.168.1.20\n\tBase Address: 10.0.0.1\n";
    assert_eq!(discover_bmc_ip(Some(dump), None), Some("192.168.1.20".to_string()));
    let crlf = "x\r\n\tBase Address: 10.1.2.3:623\r\n";
    assert_eq!(discover_bmc_ip(Some(crlf), None), Some("10.1.2.3".to_string()));
}

#[test]
fn io_port_addresses_are_not_ips() {
    assert_eq!(discover_bmc_ip(Some(DMI_IO), None), None);
    assert_eq!(discover_bmc_ip(Some("Base Address: 1.2.3\n"), None), None);
    assert_eq!(discover_bmc_ip(Some("Base Address:   \n"), None), None);
}

#[test]
fn configuration_is_the_fallback() {
    let conf = "user=root\nbmc_ip= 10.0.0.5 \nbmc_ip=10.0.0.6\n";
    assert_eq!(discover_bmc_ip(Some(DMI_IO), Some(conf)), Some("10.0.0.5".to_string()));
    assert_eq!(discover_bmc_ip(Some(""), Some("bmc_ip=")), Some("".to_string()));
    assert_eq!(discover_bmc_ip(Some(""), Some(" bmc_ip=1.1.1.1")), None);
}

#[test]
fn no_dump_means_no_address() {
    assert_eq!(discover_bmc_ip(None, Some("bmc_ip=10.0.0.5")), None);
}

#[test]
fn source_preference() {
    assert_eq!(choose_energy_source(true, true, true), EnergySource::Nvml);
    assert_eq!(choose_energy_source(false, true, true), EnergySource::Ipmi);
    assert_eq!(choose_energy_source(false, false, true), EnergySource::Redfish);
    assert_eq!(choose_energy_source(false, false, false), EnergySource::Unavailable);
    assert_eq!(default_redfish_user(), "admin");
}
