use devlog::config::{config_summary_lines, parse_connection_string};
use devlog::config::{
    parse_provider, validate_base_path, validate_container_name, azure_settings, AwsConfig,
    AzureConfig, ConfigError, DevLogConfig, ProviderError, SyncProvider,
};

#[test]
fn test_validate_base_path() {
    assert!(validate_base_path("~/.devlog").is_ok());
    assert!(validate_base_path("/home/user/logs").is_ok());
    assert!(validate_base_path("").is_err());
    assert!(validate_base_path("   ").is_err());
}

#[test]
fn test_validate_container_name() {
    assert!(validate_container_name("devlog").is_ok());
    assert!(validate_container_name("my-devlog-123").is_ok());

    assert!(validate_container_name("").is_err());
    assert!(validate_container_name("ab").is_err()); // too short
    assert!(validate_container_name("MyContainer").is_err()); // uppercase
    assert!(validate_container_name("-devlog").is_err()); // starts with hyphen
    assert!(validate_container_name("devlog-").is_err()); // ends with hyphen
}

#[test]
fn container_name_errors_come_in_order() {
    assert_eq!(validate_container_name("  "), Err(ConfigError::ContainerNameEmpty));
    assert_eq!(validate_container_name("ab"), Err(ConfigError::ContainerNameLength));
    assert_eq!(validate_container_name(&"a".repeat(64)), Err(ConfigError::ContainerNameLength));
    assert_eq!(validate_container_name("Abc"), Err(ConfigError::ContainerNameCharacters));
    assert_eq!(validate_container_name("-ab"), Err(ConfigError::ContainerNameHyphen));
    assert_eq!(validate_container_name("  my-logs  "), Ok("my-logs".to_string()));
    assert_eq!(
        ConfigError::ContainerNameHyphen.message(),
        "Container name cannot start or end with a hyphen"
    );
    assert_eq!(validate_base_path("  /x  "), Ok("/x".to_string()));
}

#[test]
fn provider_configs_validate_fields() {
    assert_eq!(AwsConfig::new(String::new(), "eu".to_string()).validate(), Err(ConfigError::AwsBucketEmpty));
    assert_eq!(AwsConfig::new("b".to_string(), String::new()).validate(), Err(ConfigError::AwsRegionEmpty));
    assert!(AwsConfig::new("b".to_string(), "eu".to_string()).validate().is_ok());
    assert_eq!(
        AzureConfig::new(String::new(), "c".to_string()).validate(),
        Err(ConfigError::AzureConnectionStringEmpty)
    );
    assert_eq!(
        AzureConfig::new("s".to_string(), String::new()).validate(),
        Err(ConfigError::AzureContainerNameEmpty)
    );
    let ok = azure_settings("conn", " devlog ").unwrap();
    assert_eq!(ok.container_name, "devlog");
    assert_eq!(ok.connection_string, "conn");
    assert_eq!(azure_settings("conn", "X").err(), Some(ConfigError::ContainerNameLength));
}

#[test]
fn remote_config_rules() {
    let mut c = DevLogConfig::default();
    assert_eq!(c.validate(), Err(ConfigError::RemoteUrlMissing));
    c.remote.url = "http://x".to_string();
    assert_eq!(c.validate(), Err(ConfigError::RemoteUrlNotHttps));
    c.remote.url = "https://x".to_string();
    assert_eq!(c.validate(), Ok(()));
    c.remote.provider = "aws".to_string();
    assert_eq!(c.validate(), Err(ConfigError::ProviderUnsupported));
}

#[test]
fn providers_are_named_without_case() {
    assert_eq!(parse_provider("Azure"), Ok(SyncProvider::Azure));
    assert_eq!(parse_provider("AWS"), Err(ProviderError::AwsNotSupported));
    assert_eq!(parse_provider("gcp"), Err(ProviderError::GcpNotSupported));
    let e = parse_provider("dropbox").unwrap_err();
    assert_eq!(
        e.message(),
        "Unsupported sync provider: dropbox. Supported providers: azure (aws, gcp coming soon)"
    );
}

#[test]
fn connection_strings_give_account_name_and_key() {
    assert_eq!(
        parse_connection_string(
            "DefaultEndpointsProtocol=https;AccountName=acct;AccountKey=a=b==;EndpointSuffix=core"
        ),
        Some(("acct".to_string(), "a=b==".to_string()))
    );
    assert_eq!(parse_connection_string("AccountName=x;AccountName=y;AccountKey=k"), Some(("y".to_string(), "k".to_string())));
    assert_eq!(parse_connection_string("AccountName=x"), None);
    assert_eq!(parse_connection_string(""), None);
}

#[test]
fn configuration_summary_names_the_provider() {
    let off = config_summary_lines("~/devlogs", None);
    assert_eq!(
        off,
        vec!["DevLog Configuration:", "  Base path: ~/devlogs", "  Cloud Sync: Disabled"]
    );
    let azure = config_summary_lines("/tmp/x", Some((SyncProvider::Azure, Some("devlogs".to_string()))));
    assert_eq!(
        azure,
        vec![
            "DevLog Configuration:",
            "  Base path: /tmp/x",
            "  Cloud Sync: Azure Blob Storage",
            "    Container: devlogs",
            "    Status: \u{2713} Configured",
        ]
    );
    let aws = config_summary_lines("p", Some((SyncProvider::Aws, None)));
    assert_eq!(aws[2], "  Cloud Sync: AWS S3 (not yet supported)");
    let gcp = config_summary_lines("p", Some((SyncProvider::Gcp, None)));
    assert_eq!(gcp[2], "  Cloud Sync: Google Cloud Storage (not yet supported)");
}
