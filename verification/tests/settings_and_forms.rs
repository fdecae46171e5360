use rustty::config::client::{
    default_scroll_lines, default_terminal_font_size, default_true, get_settings_schema, ClientConfig,
    CustomizationConfig, IpCustomization, SettingDefinition,
};
use rustty::config::protected_mem::ProtectedMemory;
use rustty::config::{AppConfig, AuthType, BridgeProfile, ConfigNode, HostProfile};
use rustty::forms::{CustomizationState, CustomizationViewMode, NewHostForm, QuickConnectForm, QuickConnectProtocol};
use rustty::validation::{validate_address, validate_bridge_fields, validate_host_fields};

#[test]
fn test_ignore_security_warnings_config_and_schema() {
    let default_cfg = ClientConfig::default();
    assert!(!default_cfg.ignore_security_warnings);

    let schema = get_settings_schema();
    let sec_setting = schema.iter().find(|s| s.key == "ignore_security_warnings");
    assert!(sec_setting.is_some(), "ignore_security_warnings deve estar presente no schema de settings");
    let sec_setting = sec_setting.unwrap();
    assert_eq!(sec_setting.category, "Segurança");
    assert_eq!(sec_setting.setting_type, "boolean");
}

#[test]
fn client_defaults() {
    let c = ClientConfig::default();
    assert_eq!(c.max_scrollback_lines, 4000);
    assert_eq!(c.scroll_lines, 1);
    assert_eq!(c.terminal_font_size, 14);
    assert!(c.global_icmp && c.enable_customization && c.enable_auto_update);
    assert!(!c.performance_mode && !c.debug_mode && !c.allow_multiple_access_to_same_host);
    assert!(default_true());
    assert_eq!(default_scroll_lines(), 1);
    assert_eq!(default_terminal_font_size(), 14);
}

#[test]
fn settings_are_clamped_and_switches_set() {
    let mut c = ClientConfig::default();
    c.apply_setting("max_scrollback_lines", Some(500_000), None);
    assert_eq!(c.max_scrollback_lines, 100_000);
    c.apply_setting("scroll_lines", Some(0), None);
    assert_eq!(c.scroll_lines, 1);
    c.apply_setting("scroll_lines", Some(40), None);
    assert_eq!(c.scroll_lines, 16);
    c.apply_setting("terminal_font_size", Some(30), None);
    assert_eq!(c.terminal_font_size, 22);
    c.apply_setting("terminal_font_size", Some(300), None);
    assert_eq!(c.terminal_font_size, 22, "a number above 255 is no font size");
    c.apply_setting("terminal_font_size", None, None);
    assert_eq!(c.terminal_font_size, 22);
    c.apply_setting("debug_mode", None, Some(true));
    assert!(c.debug_mode);
    c.apply_setting("unknown", Some(1), Some(false));
    assert!(c.debug_mode);
}

#[test]
fn schema_lists_ten_settings_in_order() {
    let schema = get_settings_schema();
    assert_eq!(schema.len(), 10);
    assert_eq!(schema[0].key, "enable_auto_update");
    assert_eq!(schema[9].key, "debug_mode");
    let s = SettingDefinition::new("k", "l", "d", "number", "c");
    assert_eq!((s.key.as_str(), s.setting_type.as_str()), ("k", "number"));
}

#[test]
fn keywords_saved_and_deleted() {
    let mut cd = CustomizationConfig::default();
    cd.save_keyword(String::new(), "#FF0000".into(), false, None);
    assert!(cd.keywords.is_empty());
    cd.save_keyword("error".into(), "#FF0000".into(), true, None);
    cd.save_keyword("warn".into(), "#FFFF00".into(), false, None);
    cd.save_keyword("fail".into(), "#00FF00".into(), false, Some(0));
    assert_eq!(cd.keywords.len(), 2);
    assert_eq!(cd.keywords[0].keyword, "fail");
    cd.save_keyword("x".into(), "#000000".into(), false, Some(9));
    assert_eq!(cd.keywords.len(), 2);
    cd.delete_keyword(5);
    assert_eq!(cd.keywords.len(), 2);
    cd.delete_keyword(0);
    assert_eq!(cd.keywords[0].keyword, "warn");
    cd.save_ip_customization("ipv6", IpCustomization::Unified("#123456".into()));
    assert!(cd.ipv4.is_none());
    assert!(matches!(cd.ipv6, Some(IpCustomization::Unified(ref c)) if c == "#123456"));
    cd.save_ip_customization("other", IpCustomization::Unified("#000000".into()));
    assert!(cd.ipv4.is_none());
}

#[test]
fn protected_memory_pads_and_gives_the_text_back() {
    let m = ProtectedMemory::new("s3cr3t-ção").unwrap();
    assert_eq!(m.unprotect().unwrap(), "s3cr3t-ção");
    let empty = ProtectedMemory::new("").unwrap();
    assert_eq!(empty.unprotect().unwrap(), "");
    let exact = ProtectedMemory::new("0123456789abcdef").unwrap();
    assert_eq!(exact.clone().unprotect().unwrap(), "0123456789abcdef");
}

#[test]
fn addresses_are_validated() {
    assert_eq!(validate_address("  ", true, false).unwrap_err(), "Endereço não pode ser vazio.");
    assert!(validate_address(" 10.0.0.1 ", false, true).is_ok());
    assert_eq!(
        validate_address("host.example.com", false, false).unwrap_err(),
        "Somente IPs numéricos são aceitos. Marque \"Permitir domínio\" para usar nomes DNS."
    );
    assert!(validate_address("host.example.com", true, false).is_ok());
    assert_eq!(
        validate_address("localhost", true, false).unwrap_err(),
        "Domínio inválido — deve ter pelo menos um ponto."
    );
    assert_eq!(validate_address("a..b", true, false).unwrap_err(), "Label de domínio inválida: \"\"");
    assert_eq!(
        validate_address("-a.b", true, false).unwrap_err(),
        "Label \"-a\" não pode começar ou terminar com hífen."
    );
    assert_eq!(validate_address("a_b.c", true, false).unwrap_err(), "Label \"a_b\" contém caracteres inválidos.");
    let long = format!("{}.com", "a".repeat(250));
    assert_eq!(validate_address(&long, true, false).unwrap_err(), "Domínio excede o limite de 253 caracteres.");
    let long_label = format!("{}.com", "b".repeat(64));
    assert_eq!(
        validate_address(&long_label, true, false).unwrap_err(),
        format!("Label de domínio inválida: \"{}\"", "b".repeat(64))
    );
}

#[test]
fn host_and_bridge_fields_are_checked_in_order() {
    assert_eq!(
        validate_host_fields("", "", "", 0, false, false).unwrap_err(),
        "O nome/apelido do host é obrigatório."
    );
    assert_eq!(
        validate_bridge_fields("", "x", "u", 22, false, true).unwrap_err(),
        "O nome da ponte é obrigatório."
    );
    assert_eq!(validate_host_fields("n", "", "u", 22, false, true).unwrap_err(), "O endereço é obrigatório.");
    assert_eq!(validate_host_fields("n", "1.2.3.4", "", 22, false, true).unwrap_err(), "O nome de usuário é obrigatório.");
    assert_eq!(validate_host_fields("n", "1.2.3.4", "u", 0, false, true).unwrap_err(), "Porta inválida (1–65535).");
    assert!(validate_host_fields("n", "1.2.3.4", "u", 22, false, true).is_ok());
}

fn host(id: &str, bridge: Option<uuid::Uuid>) -> HostProfile {
    HostProfile {
        id: id.into(),
        name: id.into(),
        address: "1.1.1.1".into(),
        port: 22,
        username: "u".into(),
        auth: AuthType::NoAuth,
        enable_icmp: false,
        bridge_id: bridge,
        legacy_ssh: false,
        icon: None,
    }
}

#[test]
fn deleting_a_bridge_releases_root_hosts() {
    let id = uuid::Uuid::new_v4();
    let mut config = AppConfig::default();
    config.bridges.push(BridgeProfile {
        id,
        name: "jump".into(),
        address: "10.0.0.9".into(),
        port: 22,
        username: "j".into(),
        auth: AuthType::NoAuth,
    });
    config.root_nodes.push(ConfigNode::Host(host("a", Some(id))));
    config.root_nodes.push(ConfigNode::Host(host("b", None)));
    config.delete_bridge(3);
    assert_eq!(config.bridges.len(), 1);
    config.delete_bridge(0);
    assert!(config.bridges.is_empty());
    match &config.root_nodes[0] {
        ConfigNode::Host(h) => {
            assert!(h.bridge_id.is_none());
            assert!(h.enable_icmp);
        }
        _ => panic!("expected a host"),
    }
    match &config.root_nodes[1] {
        ConfigNode::Host(h) => assert!(!h.enable_icmp),
        _ => panic!("expected a host"),
    }
}

#[test]
fn form_defaults() {
    let f = NewHostForm::new();
    assert_eq!(f.port, "22");
    assert!(f.enable_icmp);
    let q = QuickConnectForm::default();
    assert_eq!(q.protocol, QuickConnectProtocol::Ssh);
    assert_eq!(q.port, "22");
    let c = CustomizationState::default();
    assert_eq!(c.mode, CustomizationViewMode::List);
    assert_eq!(c.kw_color, "#FF7300");
    assert_eq!(c.ip_public_color, "#33D980");
    assert_eq!(c.ip_private_color, "#F24C4C");
}
