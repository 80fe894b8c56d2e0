use config_vault::fingerprint::{choose_mac, default_mac, select_mac, NetInterface};
use config_vault::outcome::{get_config_dir, default_config_name, DecryptionResult, EncryptionResult};
use config_vault::report::{mac_from_report, parse_interfaces};

fn iface(name: &str, mac: &str) -> NetInterface {
    NetInterface { name: name.to_string(), mac: mac.to_string() }
}

#[test]
fn physical_adapter_wins_over_virtual() {
    let list = vec![
        iface("Ethernet adapter vEthernet (Default Switch)", "00155D000001"),
        iface("Ethernet adapter Ethernet", "D8BBC1000002"),
    ];
    assert_eq!(select_mac(&list), "D8BBC1000002");
}

#[test]
fn wireless_adapter_is_preferred() {
    let list = vec![
        iface("Unknown adapter VPN Client", "AA0000000001"),
        iface("Wireless LAN adapter Wi-Fi", "BB0000000002"),
    ];
    assert_eq!(select_mac(&list), "BB0000000002");
}

#[test]
fn only_loopbacks_fall_back_to_fixed_mac() {
    let list = vec![iface("Loopback Pseudo-Interface 1", "000000000000")];
    assert_eq!(select_mac(&list), "902E168B9AC1");
    assert_eq!(select_mac(&vec![]), "902E168B9AC1");
    assert_eq!(default_mac(), "902E168B9AC1");
}

#[test]
fn non_loopback_virtual_adapter_is_second_choice() {
    let list = vec![
        iface("Loopback Pseudo-Interface 1", "000000000000"),
        iface("Ethernet adapter VirtualBox Host-Only Network", "0A0027000003"),
    ];
    assert_eq!(select_mac(&list), "0A0027000003");
}

#[test]
fn selection_ignores_case_but_choose_mac_does_not() {
    let list = vec![iface("X", "11"), iface("ETHERNET ADAPTER LAN", "22")];
    assert_eq!(select_mac(&list), "22");
    assert_eq!(choose_mac(&list), "11");
}

const REPORT: &str = "\r\nWindows IP Configuration\r\n\r\n   Host Name . . . . . . . . . . . . : DESKTOP\r\n\r\nEthernet adapter vEthernet (WSL):\r\n\r\n   Description . . . . . . . . . . . : Hyper-V Virtual Ethernet Adapter\r\n   Physical Address. . . . . . . . . : 00-15-5D-AA-BB-CC\r\n\r\nEthernet adapter Ethernet:\r\n\r\n   Physical Address. . . . . . . . . : D8-BB-C1-12-34-56\r\n   Physical Address. . . . . . . . . : 11-11-11-11-11-11\r\n\r\nTunnel adapter Teredo:\r\n\r\n   Description . . . . . . . . . . . : Teredo\r\n";

#[test]
fn report_is_parsed_into_interfaces() {
    let ifs = parse_interfaces(REPORT);
    assert_eq!(ifs.len(), 2);
    assert_eq!(ifs[0].name, "Ethernet adapter vEthernet (WSL)");
    assert_eq!(ifs[0].mac, "00155DAABBCC");
    assert_eq!(ifs[1].name, "Ethernet adapter Ethernet");
    assert_eq!(ifs[1].mac, "D8BBC1123456");
}

#[test]
fn report_selects_physical_mac() {
    assert_eq!(mac_from_report(REPORT), "D8BBC1123456");
    assert_eq!(mac_from_report(""), "902E168B9AC1");
}

#[test]
fn colon_separated_mac_is_kept_whole() {
    let report = "Ethernet adapter Ethernet:\n   Physical Address . . : 11:22:33:44:55:66\n";
    let ifs = parse_interfaces(report);
    assert_eq!(ifs.len(), 1);
    assert_eq!(ifs[0].mac, "112233445566");
}

#[test]
fn unicode_white_space_is_trimmed() {
    let report = "\u{a0}Ethernet adapter LAN:\u{3000}\r\n\u{2003}Physical Address\u{a0}: 66-55-44-33-22-11\u{85}\n";
    let ifs = parse_interfaces(report);
    assert_eq!(ifs.len(), 1);
    assert_eq!(ifs[0].name, "Ethernet adapter LAN");
    assert_eq!(ifs[0].mac, "665544332211");
}

const VIRTUAL: &str = "Ethernet adapter vEthernet (WSL):\r\n   Physical Address. . . : 00-15-5D-AA-BB-CC\r\n";
const PHYSICAL: &str = "Ethernet adapter Ethernet:\r\n   Physical Address. . . : 11-22-33-44-55-66\r\n";

#[test]
fn physical_mac_is_chosen_in_either_order() {
    assert_eq!(mac_from_report(&format!("{}{}", VIRTUAL, PHYSICAL)), "112233445566");
    assert_eq!(mac_from_report(&format!("{}{}", PHYSICAL, VIRTUAL)), "112233445566");
}

#[test]
fn defaults_and_outcomes() {
    assert_eq!(get_config_dir(), "C:\\ProgramData\\Btic\\ConfigConnectorBitrix");
    assert_eq!(default_config_name(), "config");
    let e = EncryptionResult::saved_to("C:\\x\\config".to_string());
    assert!(e.success);
    assert_eq!(e.message, "Encryption successful. File saved to: C:\\x\\config");
    let d = DecryptionResult::decrypted("{}".to_string());
    assert_eq!(d.message, "Decryption successful");
    assert_eq!(d.json_data, "{}");
}
