use pim_daemon::config_edit::{config_text_is_toml, gateway_disable_config, gateway_enable_config, ConfigEditError};

fn parse(text: &str) -> toml::Value {
    toml::from_str(text).expect("printed config parses")
}

#[test]
fn gateway_enable_sets_keys_and_keeps_the_rest() {
    let current = "[node]\nname = \"n1\"\n\n[gateway]\nenabled = false\nextra = 3\n";
    let out = gateway_enable_config(current, "eth0", Some(16)).expect("edited");
    let v = parse(&out);
    assert_eq!(v["gateway"]["enabled"], toml::Value::Boolean(true));
    assert_eq!(v["gateway"]["nat_interface"], toml::Value::String("eth0".into()));
    assert_eq!(v["gateway"]["max_connections"], toml::Value::Integer(16));
    assert_eq!(v["gateway"]["extra"], toml::Value::Integer(3));
    assert_eq!(v["node"]["name"], toml::Value::String("n1".into()));
}

#[test]
fn gateway_enable_creates_the_table() {
    let out = gateway_enable_config("[node]\nname = \"n1\"\n", "wlan0", None).expect("edited");
    let v = parse(&out);
    assert_eq!(v["gateway"]["enabled"], toml::Value::Boolean(true));
    assert_eq!(v["gateway"]["nat_interface"], toml::Value::String("wlan0".into()));
    assert!(v["gateway"].get("max_connections").is_none());
    assert_eq!(v["node"]["name"], toml::Value::String("n1".into()));
}

#[test]
fn gateway_disable_clears_only_enabled() {
    let current = "[gateway]\nenabled = true\nnat_interface = \"eth0\"\n";
    let v = parse(&gateway_disable_config(current).expect("edited"));
    assert_eq!(v["gateway"]["enabled"], toml::Value::Boolean(false));
    assert_eq!(v["gateway"]["nat_interface"], toml::Value::String("eth0".into()));
}

#[test]
fn config_edits_refuse_bad_documents() {
    assert_eq!(gateway_enable_config("[[[", "eth0", None), Err(ConfigEditError::Parse));
    assert_eq!(gateway_enable_config("gateway = 5\n", "eth0", None), Err(ConfigEditError::GatewayNotTable));
    assert_eq!(gateway_disable_config("gateway = \"x\"\n"), Err(ConfigEditError::GatewayNotTable));
    assert!(config_text_is_toml("[node]\nname = \"x\"\n"));
    assert!(!config_text_is_toml("name = "));
}
