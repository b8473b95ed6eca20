// Settings of the caching pass read from environment values.

use compiler_codegen::field_cache::env_config::{parse_usize, value_says_off, CacheEnv};
use compiler_codegen::field_cache::plan::FieldCacheConfig;

fn empty_env() -> CacheEnv {
    CacheEnv {
        field_cache: None,
        threshold: None,
        max: None,
        licm: None,
        licm_threshold: None,
        licm_max: None,
        pure: None,
        pure_threshold: None,
        chain: None,
        chain_threshold: None,
        chain_depth: None,
        ipa: None,
        ipa_iter: None,
    }
}

#[test]
fn parse_usize_reads_unsigned_decimals() {
    assert_eq!(parse_usize("0"), Some(0));
    assert_eq!(parse_usize("42"), Some(42));
    assert_eq!(parse_usize("+7"), Some(7));
    assert_eq!(parse_usize(""), None);
    assert_eq!(parse_usize("+"), None);
    assert_eq!(parse_usize("-1"), None);
    assert_eq!(parse_usize("4x"), None);
    assert_eq!(parse_usize("99999999999999999999999999"), None);
    assert_eq!(parse_usize(&usize::MAX.to_string()), Some(usize::MAX));
}

#[test]
fn off_values_ignore_ascii_case() {
    assert!(value_says_off("0"));
    assert!(value_says_off("off"));
    assert!(value_says_off("OFF"));
    assert!(value_says_off("False"));
    assert!(!value_says_off("1"));
    assert!(!value_says_off("no"));
    assert!(!value_says_off("offf"));
}

#[test]
fn no_variables_give_defaults() {
    let c = FieldCacheConfig::from_env_or_default(&empty_env());
    assert!(c.enabled && c.licm_enabled && c.pure_enabled && c.chain_enabled && c.ipa_enabled);
    assert_eq!((c.threshold, c.max_per_fn, c.licm_threshold, c.licm_max_per_loop), (2, 8, 2, 4));
    assert_eq!((c.pure_threshold, c.chain_threshold, c.chain_max_depth, c.ipa_iter_limit), (2, 2, 4, 10));
}

#[test]
fn variables_change_settings() {
    let mut e = empty_env();
    e.threshold = Some("3".to_string());
    e.max = Some("0".to_string());
    e.licm = Some("Off".to_string());
    e.pure_threshold = Some("0".to_string());
    e.chain_depth = Some("1".to_string());
    e.ipa_iter = Some("2000".to_string());
    let c = FieldCacheConfig::from_env_or_default(&e);
    assert!(c.enabled);
    assert_eq!(c.threshold, 3);
    assert_eq!(c.max_per_fn, 8);
    assert!(!c.licm_enabled);
    assert!(!c.pure_enabled);
    assert_eq!(c.pure_threshold, 2);
    assert_eq!(c.chain_max_depth, 4);
    assert_eq!(c.ipa_iter_limit, 10);
    let mut e2 = empty_env();
    e2.threshold = Some("0".to_string());
    e2.chain_depth = Some("6".to_string());
    e2.ipa_iter = Some("1024".to_string());
    let c2 = FieldCacheConfig::from_env_or_default(&e2);
    assert!(!c2.enabled);
    assert_eq!(c2.threshold, 2);
    assert_eq!((c2.chain_max_depth, c2.ipa_iter_limit), (6, 1024));
}
