use codex_plus_core::managed_config::{
    catalog_backup_name, catalog_pointer, config_file_path, managed_config_text, managed_document,
    plan_config_update, restore_after_failed_write, without_catalog_pointer, ConfigError,
    CONFIG_BACKUP_EXTENSION,
};

const COMMAND: &str = "C:\\x\\codex-plus-credential.exe";

#[test]
fn apply_writes_provider_command_auth_and_preserves_unrelated_fields() {
    let before =
        "model = \"gpt-5.2-codex\"\n# 用户注释\n[model_providers.custom]\nname = \"Custom\"\n";
    let update = plan_config_update(
        Some(before),
        true,
        "C:\\Program Files\\Codex++\\codex-plus-credential.exe",
    )
    .expect("planned");
    let text = update.text;
    assert!(update.backup);
    assert!(text.contains("model_provider = \"managed_gateway\""));
    assert!(text.contains("[model_providers.managed_gateway]"));
    assert!(text.contains("base_url = \"http://10.20.30.61:8080\""));
    assert!(text.contains("wire_api = \"responses\""));
    assert!(text.contains("args = [\"get\", \"managed-gateway\"]"));
    assert!(text.contains("model = \"gpt-5.2-codex\""));
    assert!(text.contains("# 用户注释"));
    assert!(text.contains("[model_providers.custom]"));
    assert!(!text.contains("env_key"));
    assert!(!text.contains("experimental_bearer_token"));
    assert!(!text.contains("requires_openai_auth = true"));
}

#[test]
fn apply_corrects_drift_on_every_launch() {
    let text = plan_config_update(None, false, COMMAND).expect("planned").text;
    let text = text.replace("http://10.20.30.61:8080", "http://evil:1");
    let text = plan_config_update(Some(&text), true, COMMAND).expect("planned").text;
    assert!(text.contains("http://10.20.30.61:8080"));
    assert!(text.contains("model_provider = \"managed_gateway\""));
}

#[test]
fn apply_creates_config_when_missing_and_tolerates_garbage() {
    let created = plan_config_update(None, false, COMMAND).expect("planned");
    assert!(!created.backup);
    let update = plan_config_update(Some("<<<not toml>>>"), true, COMMAND).expect("planned");
    assert!(update.text.contains("[model_providers.managed_gateway]"));
    assert!(update.backup);
    assert_eq!(update.text, created.text);
}

#[test]
fn detects_and_removes_external_catalog_pointer_only() {
    let contents =
        "model_catalog_json = \"C:\\\\tmp\\\\external-catalog.json\"\nmodel = \"gpt-5.2\"\n";
    assert_eq!(
        catalog_pointer(contents).as_deref(),
        Some("C:\\tmp\\external-catalog.json")
    );
    let text = without_catalog_pointer(contents).expect("removed");
    assert!(!text.contains("model_catalog_json"));
    assert!(text.contains("model = \"gpt-5.2\""));
}

#[test]
fn no_conflict_returns_none_and_removal_is_noop() {
    let contents = "model = \"gpt-5.2\"\n";
    assert!(catalog_pointer(contents).is_none());
    assert_eq!(without_catalog_pointer(contents), Ok(contents.to_string()));
}

#[test]
fn new_configuration_reads_like_this() {
    assert_eq!(
        managed_config_text("", "c").expect("text"),
        "model_provider = \"managed_gateway\"\n\n[model_providers]\n\n\
         [model_providers.managed_gateway]\nname = \"Managed Gateway\"\n\
         base_url = \"http://10.20.30.61:8080\"\nwire_api = \"responses\"\n\n\
         [model_providers.managed_gateway.auth]\ncommand = \"c\"\n\
         args = [\"get\", \"managed-gateway\"]\n"
    );
}

#[test]
fn keys_that_contradict_command_authentication_go() {
    let before = "[model_providers.managed_gateway]\nenv_key = \"K\"\n\
                  experimental_bearer_token = \"t\"\nrequires_openai_auth = true\nextra = 1\n\
                  [model_providers.managed_gateway.auth]\ntimeout_ms = 5\n";
    let text = managed_config_text(before, "c").expect("text");
    assert!(!text.contains("env_key"));
    assert!(!text.contains("experimental_bearer_token"));
    assert!(!text.contains("requires_openai_auth"));
    assert!(text.contains("extra = 1"));
    assert!(text.contains("timeout_ms = 5"));
}

#[test]
fn update_is_stable_and_then_needs_no_copy() {
    let once = plan_config_update(Some("a = 1\n"), true, "c").expect("planned");
    assert!(once.backup);
    let twice = plan_config_update(Some(&once.text), true, "c").expect("planned");
    assert_eq!(twice.text, once.text);
    assert!(!twice.backup);
    let other = plan_config_update(Some(&once.text), true, "d").expect("planned");
    assert_eq!(other.text, managed_config_text("a = 1\n", "d").expect("text"));
}

#[test]
fn what_is_no_table_stands_in_the_way() {
    let error = |contents: &str| managed_config_text(contents, "c").expect_err("refused");
    assert_eq!(error("model_providers = 1\n"), ConfigError::ProvidersNotATable);
    assert_eq!(error("model_providers = {}\n"), ConfigError::ProvidersNotATable);
    assert_eq!(error("[[model_providers]]\n"), ConfigError::ProvidersNotATable);
    assert_eq!(
        error("[model_providers]\nmanaged_gateway = \"x\"\n"),
        ConfigError::ProviderNotATable
    );
    assert_eq!(
        error("[model_providers.managed_gateway]\nauth = []\n"),
        ConfigError::AuthNotATable
    );
    assert_eq!(
        ConfigError::ProvidersNotATable.message(),
        "model_providers 不是 table，无法写入受管 provider"
    );
    assert_eq!(
        ConfigError::ProviderNotATable.message(),
        "model_providers.managed_gateway 不是 table"
    );
    assert_eq!(
        ConfigError::AuthNotATable.message(),
        "model_providers.managed_gateway.auth 不是 table"
    );
}

#[test]
fn dotted_keys_make_tables() {
    let before = "model_providers.managed_gateway.name = \"x\"\n";
    let text = managed_config_text(before, "c").expect("text");
    assert!(text.contains("model_providers.managed_gateway.name = \"Managed Gateway\""));
}

#[test]
fn a_document_can_be_put_right_by_itself() {
    let mut doc = toml_edit::DocumentMut::new();
    doc["model_provider"] = toml_edit::value(7);
    let doc = managed_document(doc, "c").expect("updated");
    assert_eq!(doc["model_provider"].as_str(), Some("managed_gateway"));
    let provider = &doc["model_providers"]["managed_gateway"];
    assert_eq!(provider["name"].as_str(), Some("Managed Gateway"));
    assert_eq!(provider["base_url"].as_str(), Some("http://10.20.30.61:8080"));
    assert_eq!(provider["wire_api"].as_str(), Some("responses"));
    assert_eq!(provider["auth"]["command"].as_str(), Some("c"));
    let args = provider["auth"]["args"].as_array().expect("array");
    let args: Vec<Option<&str>> = args.iter().map(|arg| arg.as_str()).collect();
    assert_eq!(args, vec![Some("get"), Some("managed-gateway")]);
}

#[test]
fn pointer_counts_only_as_a_string_of_the_root() {
    assert_eq!(catalog_pointer("model_catalog_json = 1\n"), None);
    assert_eq!(catalog_pointer("[a]\nmodel_catalog_json = \"x\"\n"), None);
    assert_eq!(catalog_pointer("not toml at all"), None);
    assert_eq!(catalog_pointer("model_catalog_json = ''\n").as_deref(), Some(""));
}

#[test]
fn removal_from_what_is_not_toml_fails() {
    let message = without_catalog_pointer("a = \n").expect_err("refused");
    assert!(message.contains("TOML parse error"), "{message}");
}

#[test]
fn names_of_files() {
    assert_eq!(
        config_file_path(std::path::Path::new("/tmp/codex-home")),
        std::path::Path::new("/tmp/codex-home/config.toml")
    );
    assert_eq!(CONFIG_BACKUP_EXTENSION, "toml.managed-gateway-bak");
    assert_eq!(catalog_backup_name(1758000000123), "config-1758000000123.toml");
    assert_eq!(catalog_backup_name(0), "config-0.toml");
}

#[test]
fn comments_stay_where_they_are() {
    let before = "# top\n# provider\nmodel_provider = \"x\"\n# other\n[other] # head\na = 1 # tail\n\n\
                  # gateway\n[model_providers.managed_gateway]\n# address\nbase_url = \"y\"\n# end\n";
    let text = managed_config_text(before, "c").expect("text");
    assert!(text.starts_with("# top\n# provider\nmodel_provider = \"managed_gateway\"\n"));
    assert!(text.contains("# other\n[other] # head\na = 1 # tail\n"));
    assert!(text.contains("# gateway\n[model_providers.managed_gateway]\n# address\nbase_url = "));
    assert!(text.ends_with("# end\n"));
    let text = without_catalog_pointer("# a\nmodel_catalog_json = \"x\"\n# b\nc = 1\n").expect("text");
    assert_eq!(text, "# b\nc = 1\n");
}

#[test]
fn notation_of_other_values_stays() {
    let before = "model = 'x'   # mine\nlist = [ 'a',\n  \"b\", # b\n]\n[other] # head\n'k' = \"\"\"y\"\"\"\n";
    let text = managed_config_text(before, "c").expect("text");
    assert!(text.contains("model = 'x'   # mine\nlist = [ 'a',\n  \"b\", # b\n]\n"));
    assert!(text.contains("[other] # head\n'k' = \"\"\"y\"\"\"\n"));
}

#[test]
fn only_a_copy_of_this_update_is_put_back() {
    let update = plan_config_update(Some("a = 1\n"), true, "c").expect("planned");
    assert!(restore_after_failed_write(&update));
    let update = plan_config_update(Some(&update.text), true, "c").expect("planned");
    assert!(!restore_after_failed_write(&update));
    let update = plan_config_update(None, false, "c").expect("planned");
    assert!(!restore_after_failed_write(&update));
}
