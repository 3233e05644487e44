use cazdo::config::{AzureDevOpsConfig, BranchConfig, Config, PatSource};

#[test]
fn test_get_pat_precedence() {
    let config = Config {
        azure_devops: AzureDevOpsConfig {
            organization_url: "https://dev.azure.com/test".to_string(),
            pat: Some("config-pat".to_string()),
        },
        branches: BranchConfig::default(),
    };

    let pat = config.resolve_pat(Some("env-pat".to_string())).unwrap();
    assert_eq!(pat, "env-pat");

    let pat = config.resolve_pat(None).unwrap();
    assert_eq!(pat, "config-pat");

    let pat = config.resolve_pat(Some("  env-pat  ".to_string())).unwrap();
    assert_eq!(pat, "env-pat");
}

#[test]
fn test_get_pat_rejects_whitespace_sources() {
    let config_with_pat = Config {
        azure_devops: AzureDevOpsConfig {
            organization_url: "https://dev.azure.com/test".to_string(),
            pat: Some("config-pat".to_string()),
        },
        branches: BranchConfig::default(),
    };

    assert!(
        config_with_pat
            .resolve_pat(Some("   \t\n".to_string()))
            .is_err()
    );

    let config_whitespace = Config {
        azure_devops: AzureDevOpsConfig {
            organization_url: "https://dev.azure.com/test".to_string(),
            pat: Some("   ".to_string()),
        },
        branches: BranchConfig::default(),
    };
    assert!(config_whitespace.resolve_pat(None).is_err());
}

#[test]
fn test_pat_source_resolution() {
    let config = Config {
        azure_devops: AzureDevOpsConfig {
            organization_url: "https://dev.azure.com/test".to_string(),
            pat: Some("config-pat".to_string()),
        },
        branches: BranchConfig::default(),
    };

    assert_eq!(
        config.resolve_pat_source(Some("env-pat".to_string())),
        PatSource::Env
    );
    assert_eq!(
        config.resolve_pat_source(Some("   ".to_string())),
        PatSource::InvalidEnvWhitespace
    );
    assert_eq!(config.resolve_pat_source(None), PatSource::Config);

    let no_pat_config = Config {
        azure_devops: AzureDevOpsConfig {
            organization_url: "https://dev.azure.com/test".to_string(),
            pat: None,
        },
        branches: BranchConfig::default(),
    };
    assert_eq!(no_pat_config.resolve_pat_source(None), PatSource::Missing);

    let whitespace_config = Config {
        azure_devops: AzureDevOpsConfig {
            organization_url: "https://dev.azure.com/test".to_string(),
            pat: Some("   ".to_string()),
        },
        branches: BranchConfig::default(),
    };
    assert_eq!(
        whitespace_config.resolve_pat_source(None),
        PatSource::InvalidConfigWhitespace
    );
}

#[test]
fn test_get_pat_from_env_only() {
    let config = Config {
        azure_devops: AzureDevOpsConfig {
            organization_url: "https://dev.azure.com/test".to_string(),
            pat: None,
        },
        branches: BranchConfig::default(),
    };

    let pat = config.resolve_pat(Some("env-pat".to_string())).unwrap();
    assert_eq!(pat, "env-pat");
}

#[test]
fn test_get_pat_missing() {
    let config = Config {
        azure_devops: AzureDevOpsConfig {
            organization_url: "https://dev.azure.com/test".to_string(),
            pat: None,
        },
        branches: BranchConfig::default(),
    };

    assert!(config.resolve_pat(None).is_err());
}

#[test]
fn pat_errors_name_their_cause() {
    let config = Config {
        azure_devops: AzureDevOpsConfig {
            organization_url: "https://dev.azure.com/test".to_string(),
            pat: Some(" \t ".to_string()),
        },
        branches: BranchConfig::default(),
    };
    let env_err = config.resolve_pat(Some(" ".to_string())).unwrap_err();
    assert!(env_err.starts_with("CAZDO_PAT is set but empty/whitespace"));
    let cfg_err = config.resolve_pat(None).unwrap_err();
    assert!(cfg_err.starts_with("Config value [azure_devops].pat is empty/whitespace"));
    let missing = Config::default().resolve_pat(None).unwrap_err();
    assert!(missing.starts_with("Azure DevOps PAT not found."));
}

#[test]
fn config_token_is_trimmed() {
    let config = Config {
        azure_devops: AzureDevOpsConfig {
            organization_url: "https://dev.azure.com/test".to_string(),
            pat: Some("\n tok en \t".to_string()),
        },
        branches: BranchConfig::default(),
    };
    assert_eq!(config.resolve_pat(None).unwrap(), "tok en");
}

#[test]
fn protected_patterns_fall_back_to_defaults() {
    let empty = BranchConfig::default();
    assert_eq!(empty.protected_patterns(), vec!["main".to_string(), "master".to_string()]);
    let custom = BranchConfig { protected: vec!["release/*".to_string()] };
    assert_eq!(custom.protected_patterns(), vec!["release/*".to_string()]);
    let defaults = Config::default();
    assert_eq!(defaults.branches.protected, vec!["main".to_string(), "master".to_string()]);
    assert_eq!(
        defaults.azure_devops.organization_url,
        "https://dev.azure.com/your-organization"
    );
}

#[test]
fn base_url_drops_trailing_slashes() {
    let mut c = AzureDevOpsConfig::default();
    c.organization_url = "https://dev.azure.com/org//".to_string();
    assert_eq!(c.base_url(), "https://dev.azure.com/org");
    c.organization_url = "https://dev.azure.com/org".to_string();
    assert_eq!(c.base_url(), "https://dev.azure.com/org");
    c.organization_url = "///".to_string();
    assert_eq!(c.base_url(), "");
}
