use sheldrive::config::{existing_network, extract_value, render_config, ShelbyConfig};

#[test]
fn defaults_without_a_file() {
    let c = ShelbyConfig::default();
    assert_eq!(c.network, "SHELBYNET");
    assert!(c.api_key.is_none() && c.rpc_url.is_none() && c.private_key.is_none());
}

#[test]
fn parses_known_keys_and_skips_the_rest() {
    let text = "# comment\n[shelby]\nnetwork = \"TESTNET\"\r\n  api_key=\"abc==\"\nunknown = 1\nnoequals\n\nrpc_url = https://x\nprivate_key = '\"pk\"'\n";
    let c = ShelbyConfig::parse_toml(text);
    assert_eq!(c.network, "TESTNET");
    assert_eq!(c.api_key.as_deref(), Some("abc=="));
    assert_eq!(c.rpc_url.as_deref(), Some("https://x"));
    assert_eq!(c.private_key.as_deref(), Some("'\"pk\"'"));
}

#[test]
fn later_lines_win() {
    let c = ShelbyConfig::parse_toml("network = A\nnetwork = B");
    assert_eq!(c.network, "B");
}

#[test]
fn extract_value_takes_text_between_equals_signs() {
    let text = "api_key\napi_key = \"k1==\"\napi_key = k2\n";
    assert_eq!(extract_value(text, "api_key").as_deref(), Some("k1"));
    assert_eq!(extract_value("rpc_url = http://x\n", "rpc_url").as_deref(), Some("http://x"));
    assert_eq!(extract_value(text, "rpc_url"), None);
}

#[test]
fn network_is_kept_or_defaults_to_testnet() {
    assert_eq!(existing_network("network = \"MAINNET\"\n"), "MAINNET");
    assert_eq!(existing_network(""), "TESTNET");
    assert_eq!(existing_network("network\nnetwork = X"), "TESTNET");
    assert_eq!(existing_network("network = \"A=B\"\n"), "A=B");
}

#[test]
fn saving_keeps_the_network_whole_and_other_values_up_to_the_next_equals_sign() {
    let existing = "network = \"A=B\"\napi_key = \"abc==\"\n";
    let out = render_config(existing, &None, &None, &None);
    assert_eq!(
        out,
        "# ShelDrive Configuration\n\n[shelby]\nnetwork = \"A=B\"\napi_key = \"abc\"\n"
    );
    let c = ShelbyConfig::parse_toml(&out);
    assert_eq!(c.network, "A=B");
    assert_eq!(c.api_key, extract_value(existing, "api_key"));
}

#[test]
fn rendering_keeps_existing_values_unless_given() {
    let existing = "network = \"MAINNET\"\napi_key = \"old\"\nrpc_url = \"http://r\"\n";
    let out = render_config(existing, &None, &Some("new".to_string()), &Some(String::new()));
    assert_eq!(
        out,
        "# ShelDrive Configuration\n\n[shelby]\nnetwork = \"MAINNET\"\napi_key = \"new\"\nrpc_url = \"http://r\"\n"
    );
    let fresh = render_config("", &None, &None, &None);
    assert_eq!(fresh, "# ShelDrive Configuration\n\n[shelby]\nnetwork = \"TESTNET\"\n");
}

#[test]
fn saved_settings_read_back() {
    let existing = "network = \"MAINNET\"\nrpc_url = \"http://node:1\"\n";
    let text = render_config(
        existing,
        &None,
        &Some("key=with=equals".to_string()),
        &Some("0xabc".to_string()),
    );
    let c = ShelbyConfig::parse_toml(&text);
    assert_eq!(c.network, "MAINNET");
    assert_eq!(c.api_key.as_deref(), Some("key=with=equals"));
    assert_eq!(c.rpc_url.as_deref(), Some("http://node:1"));
    assert_eq!(c.private_key.as_deref(), Some("0xabc"));
}
