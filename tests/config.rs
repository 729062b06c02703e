use cleanup_bot::config::{
    default_check_interval, default_max_retries, default_upload_folder, BackupWorkerConfig, ChannelConfig,
    ChannelTable, Config, MediaBackupConfig, RetentionConfig,
};

fn config(default_days: u32) -> Config {
    Config {
        schedule_interval_seconds: 60,
        retention: RetentionConfig { default_policy_days: default_days },
        media_backup: MediaBackupConfig::default(),
        onedrive: None,
        channels: ChannelTable::new(),
    }
}

fn channel(days: Option<u32>, cursor: Option<u64>) -> ChannelConfig {
    ChannelConfig { name: "general".to_string(), policy_days: days, pagination_cursor: cursor }
}

#[test]
fn defaults() {
    assert_eq!(default_upload_folder(), "/discord-backups");
    assert_eq!(default_check_interval(), 60);
    assert_eq!(default_max_retries(), 5);
    let w = BackupWorkerConfig::default();
    assert_eq!((w.check_interval_seconds, w.max_retries), (60, 5));
    assert_eq!(MediaBackupConfig::default().download_dir, "./media_backups");
}

#[test]
fn policy_resolves_to_override_or_default() {
    let c = config(30);
    assert_eq!(channel(Some(7), None).resolve_policy_days(&c), 7);
    assert_eq!(channel(None, None).resolve_policy_days(&c), 30);
}

#[test]
fn add_channel_returns_resolved_days() {
    let mut c = config(30);
    assert_eq!(c.add_channel_config(1, channel(None, None)), 30);
    assert_eq!(c.add_channel_config(2, channel(Some(3), None)), 3);
    let mut enabled = c.enabled_channels();
    enabled.sort();
    assert_eq!(enabled, vec![(1, 30), (2, 3)]);
}

#[test]
fn stricter_policy_clears_cursor() {
    let mut c = config(30);
    c.add_channel_config(1, channel(Some(10), None));
    c.set_pagination_cursor(1, Some(555));
    assert_eq!(c.get_pagination_cursor(1), Some(555));
    c.add_channel_config(1, channel(Some(5), Some(777)));
    assert_eq!(c.get_pagination_cursor(1), None);
}

#[test]
fn looser_policy_keeps_given_cursor() {
    let mut c = config(30);
    c.add_channel_config(1, channel(Some(5), None));
    c.add_channel_config(1, channel(Some(10), Some(777)));
    assert_eq!(c.get_pagination_cursor(1), Some(777));
    assert_eq!(c.enabled_channels(), vec![(1, 10)]);
}

#[test]
fn cursor_of_unknown_channel() {
    let mut c = config(30);
    c.set_pagination_cursor(9, Some(1));
    assert_eq!(c.get_pagination_cursor(9), None);
    assert!(c.enabled_channels().is_empty());
}

#[test]
fn remove_channel_disables_it() {
    let mut c = config(30);
    c.add_channel_config(1, channel(None, None));
    c.add_channel_config(2, channel(None, None));
    c.remove_channel(1);
    assert_eq!(c.enabled_channels(), vec![(2, 30)]);
    c.remove_channel(1);
    assert_eq!(c.channels.ids(), vec![2]);
    assert!(c.channels.get(1).is_none());
}
