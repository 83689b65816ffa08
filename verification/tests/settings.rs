use compiler_cache::config::{choose_region, new_region, RegionChoice, S3FetcherConfig};
use compiler_cache::metrics::{
    count_verify_contract, VerificationResponse, VerificationStatus, VerifyLabels,
};

#[test]
fn the_settings_start_empty() {
    let config = S3FetcherConfig::default();
    assert_eq!(
        config,
        S3FetcherConfig {
            access_key: None,
            secret_key: None,
            region: None,
            endpoint: None,
            bucket: String::new(),
        }
    );
}

#[test]
fn an_address_makes_the_region_the_callers_own() {
    assert_eq!(
        new_region(Some("anything".to_string()), Some("http://localhost:9000".to_string())),
        Some(RegionChoice::Custom {
            region: "anything".to_string(),
            endpoint: "http://localhost:9000".to_string(),
        })
    );
    assert_eq!(
        new_region(None, Some("http://localhost:9000".to_string())),
        Some(RegionChoice::Custom {
            region: String::new(),
            endpoint: "http://localhost:9000".to_string(),
        })
    );
    assert_eq!(
        new_region(Some("us-east-1".to_string()), Some("http://localhost:9000".to_string())),
        Some(RegionChoice::Custom {
            region: "us-east-1".to_string(),
            endpoint: "http://localhost:9000".to_string(),
        })
    );
}

#[test]
fn without_an_address_the_region_must_be_known() {
    assert_eq!(
        new_region(Some("us-east-1".to_string()), None),
        Some(RegionChoice::Named("us-east-1".to_string()))
    );
    assert_eq!(
        new_region(Some("eu-central-1".to_string()), None),
        Some(RegionChoice::Named("eu-central-1".to_string()))
    );
    assert_eq!(new_region(Some("garbage".to_string()), None), None);
    assert_eq!(new_region(Some("US-EAST-1".to_string()), None), None);
    assert_eq!(new_region(None, None), None);
}

#[test]
fn the_choice_follows_what_is_known() {
    assert_eq!(
        choose_region("mars-1".to_string(), None, true),
        Some(RegionChoice::Named("mars-1".to_string()))
    );
    assert_eq!(choose_region("mars-1".to_string(), None, false), None);
    assert_eq!(
        choose_region("mars-1".to_string(), Some("e".to_string()), false),
        Some(RegionChoice::Custom { region: "mars-1".to_string(), endpoint: "e".to_string() })
    );
}

#[test]
fn verifications_are_counted_by_endpoint_and_status() {
    let passed = VerificationResponse {
        message: "OK".to_string(),
        status: VerificationStatus::Verified,
    };
    let failed = VerificationResponse {
        message: "bytecode differs".to_string(),
        status: VerificationStatus::Failed,
    };
    assert_eq!(
        count_verify_contract(&passed, "multi-part"),
        VerifyLabels { language: "solidity", endpoint: "multi-part".to_string(), status: "ok" }
    );
    assert_eq!(
        count_verify_contract(&failed, "standard-json"),
        VerifyLabels {
            language: "solidity",
            endpoint: "standard-json".to_string(),
            status: "fail",
        }
    );
}
