//! The bot's settings: retention policy, enabled channels with their
//! pagination cursors, backup worker and cloud storage settings.

use std::collections::HashMap;

use vstd::prelude::*;

verus! {

broadcast use vstd::std_specs::hash::group_hash_axioms;

/// Credentials of the bot's account on the chat service.
pub struct BotConfig {
    /// Token that lets the bot connect to the chat service.
    pub discord_token: String,
}

/// Cloud storage account settings.
#[derive(Clone, Debug)]
pub struct OneDriveConfig {
    pub client_id: String,
    /// Remote folder under which backups are filed.
    pub upload_folder: String,
}

/// The remote folder used when none is configured.
pub fn default_upload_folder() -> (r: String)
    ensures
        r@ == "/discord-backups"@,
{
    String::from_str("/discord-backups")
}

/// Settings of one enabled channel.
#[derive(Clone, Debug)]
pub struct ChannelConfig {
    pub name: String,
    /// Retention in days for this channel, overriding the default; never 0.
    pub policy_days: Option<u32>,
    /// Oldest message id seen; the next pass fetches before it.
    pub pagination_cursor: Option<u64>,
}

/// The global retention policy.
#[derive(Clone, Copy, Debug)]
pub struct RetentionConfig {
    /// Retention in days of channels without their own; never 0.
    pub default_policy_days: u32,
}

/// Settings of the upload worker.
#[derive(Clone, Copy, Debug)]
pub struct BackupWorkerConfig {
    pub check_interval_seconds: u64,
    pub max_retries: u32,
}

/// Seconds between upload passes when none is configured.
pub fn default_check_interval() -> (r: u64)
    ensures
        r == 60,
{
    60
}

/// Upload attempts per file when none is configured.
pub fn default_max_retries() -> (r: u32)
    ensures
        r == 5,
{
    5
}

impl BackupWorkerConfig {
    /// Defaults: a pass every 60 seconds, 5 attempts per file.
    pub fn default() -> (r: BackupWorkerConfig)
        ensures
            r.check_interval_seconds == 60,
            r.max_retries == 5,
    {
        BackupWorkerConfig {
            check_interval_seconds: default_check_interval(),
            max_retries: default_max_retries(),
        }
    }
}

/// Settings of media backups.
#[derive(Clone, Debug)]
pub struct MediaBackupConfig {
    /// Local directory that downloaded media is saved under.
    pub download_dir: String,
    pub worker: BackupWorkerConfig,
}

impl MediaBackupConfig {
    /// Defaults: downloads under `./media_backups`, default worker settings.
    pub fn default() -> (r: MediaBackupConfig)
        ensures
            r.download_dir@ == "./media_backups"@,
            r.worker.check_interval_seconds == 60,
            r.worker.max_retries == 5,
    {
        MediaBackupConfig {
            download_dir: String::from_str("./media_backups"),
            worker: BackupWorkerConfig::default(),
        }
    }
}

/// The retention in days that applies to a channel.
pub open spec fn resolved_days(c: ChannelConfig, default_days: u32) -> u32 {
    match c.policy_days {
        Some(d) => d,
        None => default_days,
    }
}

/// `c` without its pagination cursor.
pub open spec fn without_cursor(c: ChannelConfig) -> ChannelConfig {
    ChannelConfig { pagination_cursor: None, ..c }
}

/// The enabled channels, each with its settings, in the order they were
/// enabled.
pub struct ChannelTable {
    entries: HashMap<u64, ChannelConfig>,
    order: Vec<u64>,
}

impl View for ChannelTable {
    type V = Map<u64, ChannelConfig>;

    closed spec fn view(&self) -> Map<u64, ChannelConfig> {
        self.entries@
    }
}

impl ChannelTable {
    /// Every channel is listed once, and no channel has a retention of 0 days.
    pub closed spec fn wf(&self) -> bool {
        &&& self.order@.no_duplicates()
        &&& self.order@.to_set() == self.entries@.dom()
        &&& forall|id: u64|
            #[trigger] self.entries@.contains_key(id) ==> (self.entries@[id].policy_days matches Some(
                d,
            ) ==> d > 0)
    }

    /// No channel.
    pub fn new() -> (r: ChannelTable)
        ensures
            r.wf(),
            r@ == Map::<u64, ChannelConfig>::empty(),
    {
        let r = ChannelTable { entries: HashMap::new(), order: Vec::new() };
        assert(r.order@.to_set() =~= r.entries@.dom());
        r
    }

    /// The settings of `channel_id`, if it is enabled.
    pub fn get(&self, channel_id: u64) -> (r: Option<&ChannelConfig>)
        ensures
            r is Some <==> self@.contains_key(channel_id),
            r matches Some(c) ==> *c == self@[channel_id],
    {
        self.entries.get(&channel_id)
    }

    /// Enables `channel_id` with `config`, replacing its settings if any.
    pub fn insert(&mut self, channel_id: u64, config: ChannelConfig)
        requires
            old(self).wf(),
            config.policy_days matches Some(d) ==> d > 0,
        ensures
            final(self).wf(),
            final(self)@ == old(self)@.insert(channel_id, config),
    {
        let known = self.entries.contains_key(&channel_id);
        let ghost order0 = self.order@;
        self.entries.insert(channel_id, config);
        if !known {
            self.order.push(channel_id);
            proof {
                assert(self.order@ == order0.push(channel_id));
                order0.lemma_push_to_set_commute(channel_id);
                assert forall|a: int, b: int|
                    0 <= a < self.order@.len() && 0 <= b < self.order@.len() && a != b implies self.order@[a]
                    != self.order@[b] by {
                    if a == order0.len() as int {
                        assert(order0.to_set().contains(order0[b]));
                    } else if b == order0.len() as int {
                        assert(order0.to_set().contains(order0[a]));
                    }
                }
            }
        }
        assert(self.order@.to_set() =~= self.entries@.dom());
    }

    /// Disables `channel_id`.
    pub fn remove(&mut self, channel_id: u64)
        requires
            old(self).wf(),
        ensures
            final(self).wf(),
            final(self)@ == old(self)@.remove(channel_id),
    {
        self.entries.remove(&channel_id);
        let ghost order0 = self.order@;
        let mut i: usize = 0;
        while i < self.order.len()
            invariant
                self.order@ == order0,
                self.entries@ == old(self).entries@.remove(channel_id),
                order0 == old(self).order@,
                old(self).wf(),
                i <= order0.len(),
                forall|j: int| 0 <= j < i ==> order0[j] != channel_id,
            decreases order0.len() - i,
        {
            if self.order[i] == channel_id {
                self.order.remove(i);
                proof {
                    assert forall|x: u64| #[trigger] self.order@.to_set().contains(x) <==> order0.to_set().contains(x)
                        && x != channel_id by {
                        if self.order@.to_set().contains(x) {
                            assert(self.order@.contains(x));
                            let k = choose|k: int| 0 <= k < self.order@.len() && self.order@[k] == x;
                            let kk = if k < i { k } else { k + 1 };
                            assert(order0[kk] == x && kk != i);
                            assert(order0[kk] != order0[i as int]);
                            assert(order0.contains(x));
                        }
                        if order0.to_set().contains(x) && x != channel_id {
                            assert(order0.contains(x));
                            let k = choose|k: int| 0 <= k < order0.len() && order0[k] == x;
                            assert(k != i);
                            if k < i {
                                assert(self.order@[k] == x);
                            } else {
                                assert(self.order@[k - 1] == x);
                            }
                            assert(self.order@.contains(x));
                        }
                    }
                    assert(self.order@.to_set() =~= self.entries@.dom());
                    assert forall|a: int, b: int|
                        0 <= a < self.order@.len() && 0 <= b < self.order@.len() && a != b implies self.order@[a]
                        != self.order@[b] by {
                        let aa = if a < i { a } else { a + 1 };
                        let bb = if b < i { b } else { b + 1 };
                        assert(order0[aa] != order0[bb]);
                    }
                }
                return;
            }
            i = i + 1;
        }
        proof {
            assert(!order0.to_set().contains(channel_id)) by {
                if order0.to_set().contains(channel_id) {
                    assert(order0.contains(channel_id));
                    let k = choose|k: int| 0 <= k < order0.len() && order0[k] == channel_id;
                    assert(order0[k] != channel_id);
                }
            }
            assert(self.entries@ =~= old(self).entries@.remove(channel_id));
            assert(self.order@.to_set() =~= self.entries@.dom());
        }
    }

    /// The enabled channel ids, each once, in the order they were enabled.
    pub fn ids(&self) -> (r: Vec<u64>)
        requires
            self.wf(),
        ensures
            r@.no_duplicates(),
            r@.to_set() == self@.dom(),
            r@.len() == self@.dom().len(),
    {
        proof {
            self.order@.unique_seq_to_set();
        }
        self.order.clone()
    }
}

/// The bot's settings.
pub struct Config {
    /// Seconds between scheduler ticks; never 0.
    pub schedule_interval_seconds: u32,
    pub retention: RetentionConfig,
    pub media_backup: MediaBackupConfig,
    pub onedrive: Option<OneDriveConfig>,
    pub channels: ChannelTable,
}

impl ChannelConfig {
    /// The retention in days of this channel under `config`.
    pub fn resolve_policy_days(&self, config: &Config) -> (r: u32)
        ensures
            r == resolved_days(*self, config.retention.default_policy_days),
    {
        match self.policy_days {
            Some(d) => d,
            None => config.retention.default_policy_days,
        }
    }
}

impl Config {
    /// Retention and tick interval are never 0, and the channel table is
    /// well formed.
    pub open spec fn wf(&self) -> bool {
        &&& self.channels.wf()
        &&& self.retention.default_policy_days > 0
        &&& self.schedule_interval_seconds > 0
    }

    /// Enables or replaces the settings of `channel_id`, and returns its
    /// retention in days. When the new policy is stricter (fewer days) than
    /// the channel's current one, its cursor is dropped, so that the next
    /// pass starts from the newest message.
    pub fn add_channel_config(&mut self, channel_id: u64, config: ChannelConfig) -> (r: u32)
        requires
            old(self).wf(),
            config.policy_days matches Some(d) ==> d > 0,
        ensures
            final(self).wf(),
            r == resolved_days(config, old(self).retention.default_policy_days),
            r > 0,
            final(self).channels@ == old(self).channels@.insert(
                channel_id,
                if old(self).channels@.contains_key(channel_id) && r < resolved_days(
                    old(self).channels@[channel_id],
                    old(self).retention.default_policy_days,
                ) {
                    without_cursor(config)
                } else {
                    config
                },
            ),
            final(self).retention == old(self).retention,
            final(self).schedule_interval_seconds == old(self).schedule_interval_seconds,
            final(self).media_backup == old(self).media_backup,
            final(self).onedrive == old(self).onedrive,
    {
        let new_days = config.resolve_policy_days(self);
        let stricter = match self.channels.get(channel_id) {
            Some(existing) => new_days < existing.resolve_policy_days(self),
            None => false,
        };
        let mut config = config;
        if stricter {
            config.pagination_cursor = None;
        }
        self.channels.insert(channel_id, config);
        new_days
    }

    /// The stored cursor of `channel_id`, if it is enabled and has one.
    pub fn get_pagination_cursor(&self, channel_id: u64) -> (r: Option<u64>)
        ensures
            r == if self.channels@.contains_key(channel_id) {
                self.channels@[channel_id].pagination_cursor
            } else {
                None
            },
    {
        match self.channels.get(channel_id) {
            Some(c) => c.pagination_cursor,
            None => None,
        }
    }

    /// Stores `cursor` for `channel_id` if it is enabled.
    pub fn set_pagination_cursor(&mut self, channel_id: u64, cursor: Option<u64>)
        requires
            old(self).wf(),
        ensures
            final(self).wf(),
            final(self).channels@ == if old(self).channels@.contains_key(channel_id) {
                old(self).channels@.insert(
                    channel_id,
                    ChannelConfig { pagination_cursor: cursor, ..old(self).channels@[channel_id] },
                )
            } else {
                old(self).channels@
            },
            final(self).retention == old(self).retention,
            final(self).schedule_interval_seconds == old(self).schedule_interval_seconds,
            final(self).media_backup == old(self).media_backup,
            final(self).onedrive == old(self).onedrive,
    {
        let updated = match self.channels.get(channel_id) {
            Some(c) => Some(
                ChannelConfig { name: c.name.clone(), policy_days: c.policy_days, pagination_cursor: cursor },
            ),
            None => None,
        };
        if let Some(u) = updated {
            self.channels.insert(channel_id, u);
        }
    }

    /// Disables `channel_id`.
    pub fn remove_channel(&mut self, channel_id: u64)
        requires
            old(self).wf(),
        ensures
            final(self).wf(),
            final(self).channels@ == old(self).channels@.remove(channel_id),
            final(self).retention == old(self).retention,
            final(self).schedule_interval_seconds == old(self).schedule_interval_seconds,
            final(self).media_backup == old(self).media_backup,
            final(self).onedrive == old(self).onedrive,
    {
        self.channels.remove(channel_id);
    }

    /// Every enabled channel, once, with its retention in days.
    pub fn enabled_channels(&self) -> (r: Vec<(u64, u32)>)
        requires
            self.wf(),
        ensures
            r@.len() == self.channels@.dom().len(),
            forall|j: int|
                0 <= j < r@.len() ==> self.channels@.contains_key(#[trigger] r@[j].0) && r@[j].1
                    == resolved_days(self.channels@[r@[j].0], self.retention.default_policy_days),
            forall|id: u64|
                #[trigger] self.channels@.contains_key(id) ==> exists|j: int| 0 <= j < r@.len() && r@[j].0 == id,
            forall|a: int, b: int| 0 <= a < b < r@.len() ==> r@[a].0 != r@[b].0,
            forall|j: int| 0 <= j < r@.len() ==> #[trigger] r@[j].1 > 0,
    {
        let ids = self.channels.ids();
        let mut r: Vec<(u64, u32)> = Vec::new();
        let mut i: usize = 0;
        while i < ids.len()
            invariant
                self.wf(),
                ids@.no_duplicates(),
                ids@.to_set() == self.channels@.dom(),
                i <= ids@.len(),
                r@.len() == i,
                forall|j: int| 0 <= j < i ==> (#[trigger] r@[j]).0 == ids@[j],
                forall|j: int|
                    0 <= j < i ==> self.channels@.contains_key(#[trigger] r@[j].0) && r@[j].1 == resolved_days(
                        self.channels@[r@[j].0],
                        self.retention.default_policy_days,
                    ),
            decreases ids@.len() - i,
        {
            let id = ids[i];
            assert(ids@.to_set().contains(id));
            let days = match self.channels.get(id) {
                Some(c) => c.resolve_policy_days(self),
                None => self.retention.default_policy_days,
            };
            r.push((id, days));
            i = i + 1;
        }
        proof {
            assert forall|id: u64| #[trigger] self.channels@.contains_key(id) implies exists|j: int|
                0 <= j < r@.len() && r@[j].0 == id by {
                assert(ids@.to_set().contains(id));
                let k = choose|k: int| 0 <= k < ids@.len() && ids@[k] == id;
                assert(r@[k].0 == id);
            }
            assert forall|j: int| 0 <= j < r@.len() implies #[trigger] r@[j].1 > 0 by {
                assert(self.channels@.contains_key(r@[j].0));
                lemma_channel_days_positive(&self.channels, r@[j].0);
            }
        }
        r
    }
}

proof fn lemma_channel_days_positive(t: &ChannelTable, id: u64)
    requires
        t.wf(),
        t@.contains_key(id),
    ensures
        t@[id].policy_days matches Some(d) ==> d > 0,
{
}

} // verus!
