use testx::config::{AdapterConfig, FilterConfig, HistoryConfig, OutputConfig, WatchConfig};

#[test]
fn default_watch_config() {
    let watch = WatchConfig::default();
    assert!(!watch.enabled);
    assert!(watch.clear);
    assert_eq!(watch.debounce_ms, 300);
    assert!(watch.ignore.contains(&".git".to_string()));
    assert!(watch.ignore.contains(&"node_modules".to_string()));
}

#[test]
fn default_sections_are_empty() {
    let f = FilterConfig::default();
    assert!(f.includes.is_none() && f.exclude.is_none());
    let o = OutputConfig::default();
    assert!(o.format.is_none() && o.slowest.is_none());
    let a = AdapterConfig::default();
    assert!(a.runner.is_none() && a.args.is_empty() && a.env.is_empty());
    let h = HistoryConfig::default();
    assert!(!h.enabled && h.db_path.is_none());
}
