//! The settings of the replication tier.

use vstd::prelude::*;
use crate::repl::compact::CompactionConfig;

verus! {

/// The default deadline of one durability proof, in seconds.
pub const DEFAULT_DURABILITY_TIMEOUT_SECS: u64 = 10;

/// The default size at which a cell's log is truncated, in pages.
pub const DEFAULT_TRUNCATE_PAGES: u32 = 128;

/// The default interval between two flushes to the bucket, in milliseconds.
pub const DEFAULT_FLUSH_MS: u64 = 2000;

/// Cells that may upload at once.
pub const SYNC_CONCURRENCY: usize = 64;

/// Files that may be downloaded at once, over all restores.
pub const RESTORE_DOWNLOAD_CONCURRENCY: usize = 64;

/// Where the bucket is.
#[derive(Clone, Copy, Debug, PartialEq, Eq, Structural)]
pub enum StorageBackend {
    S3,
    Gcs,
    Azure,
    Local,
}

/// The name under which a log file's timestamp is kept.
#[derive(Clone, Copy, Debug, PartialEq, Eq, Structural)]
pub enum TimestampMetadataKey {
    /// With a hyphen, as other tools know it.
    Litestream,
    /// Without one, where a name may not hold a hyphen.
    Underscore,
}

/// The name under which a log file's timestamp is kept.
pub fn timestamp_metadata_key(backend: StorageBackend) -> (key: TimestampMetadataKey)
    ensures
        key == if backend is Azure {
            TimestampMetadataKey::Underscore
        } else {
            TimestampMetadataKey::Litestream
        },
{
    match backend {
        StorageBackend::Azure => TimestampMetadataKey::Underscore,
        _ => TimestampMetadataKey::Litestream,
    }
}

/// What the environment says, where it says anything.
#[derive(Clone, Copy, Debug, PartialEq, Eq, Structural)]
pub struct Overrides {
    pub flush_ms: Option<u64>,
    pub durability_timeout_secs: Option<u64>,
    pub truncate_pages: Option<u32>,
}

/// The settings that a node starts with.
#[derive(Clone, Copy, Debug, PartialEq, Eq, Structural)]
pub struct Settings {
    pub timestamp_metadata_key: TimestampMetadataKey,
    pub flush_ms: u64,
    pub durability_timeout_ms: u64,
    /// Positions that must have gathered before a compaction round; 0 where
    /// there is no compaction.
    pub compaction_min_txids: u64,
    /// Compaction rounds that may run at once; none where there is no
    /// compaction.
    pub compaction_workers: Option<usize>,
    pub truncate_pages: Option<u32>,
}

/// A deadline in milliseconds; one that is too long for the clock is the
/// longest that fits.
pub open spec fn seconds_to_ms(seconds: u64) -> int {
    if seconds * 1000 > u64::MAX {
        u64::MAX as int
    } else {
        seconds * 1000
    }
}

/// The settings that a node starts with.
pub fn assemble(
    backend: StorageBackend,
    compaction: Option<CompactionConfig>,
    overrides: Overrides,
) -> (settings: Settings)
    ensures
        settings.timestamp_metadata_key == (if backend is Azure {
            TimestampMetadataKey::Underscore
        } else {
            TimestampMetadataKey::Litestream
        }),
        settings.flush_ms == match overrides.flush_ms {
            Some(flush_ms) => flush_ms,
            None => 2000,
        },
        settings.durability_timeout_ms == seconds_to_ms(
            match overrides.durability_timeout_secs {
                Some(seconds) => seconds,
                None => 10,
            },
        ),
        settings.compaction_min_txids == match compaction {
            Some(config) => config.min_txids,
            None => 0,
        },
        settings.compaction_workers == match compaction {
            Some(config) => Some(config.concurrency),
            None => None,
        },
        settings.truncate_pages == Some(
            match overrides.truncate_pages {
                Some(pages) => pages,
                None => 128u32,
            },
        ),
{
    let seconds: u64 = match overrides.durability_timeout_secs {
        Some(seconds) => seconds,
        None => DEFAULT_DURABILITY_TIMEOUT_SECS,
    };
    let durability_timeout_ms: u64 = match seconds.checked_mul(1000) {
        Some(ms) => ms,
        None => u64::MAX,
    };
    Settings {
        timestamp_metadata_key: timestamp_metadata_key(backend),
        flush_ms: match overrides.flush_ms {
            Some(flush_ms) => flush_ms,
            None => DEFAULT_FLUSH_MS,
        },
        durability_timeout_ms,
        compaction_min_txids: match compaction {
            Some(config) => config.min_txids,
            None => 0,
        },
        compaction_workers: match compaction {
            Some(config) => Some(config.concurrency),
            None => None,
        },
        truncate_pages: Some(
            match overrides.truncate_pages {
                Some(pages) => pages,
                None => DEFAULT_TRUNCATE_PAGES,
            },
        ),
    }
}

/// Credentials that the control plane issued.
#[derive(Debug)]
pub struct StorageCredentials {
    pub access_key_id: String,
    pub secret_access_key: String,
    pub session_token: Option<String>,
}

/// How the bucket is reached.
#[derive(Debug)]
pub struct ObjectStoreConfig {
    pub bucket: String,
    pub path: String,
    pub region: String,
    pub endpoint: String,
    pub access_key_id: String,
    pub secret_access_key: String,
    pub session_token: String,
    pub force_path_style: bool,
}

/// An issued credential goes before one of the environment, and an empty one
/// counts as none.
pub open spec fn chosen(issued: Option<Seq<char>>, env: Option<Seq<char>>) -> Seq<char> {
    if issued matches Some(value) && value.len() > 0 {
        issued->0
    } else {
        match env {
            Some(value) => value,
            None => Seq::empty(),
        }
    }
}

/// The view of a text that may not be there.
pub open spec fn maybe(text: Option<String>) -> Option<Seq<char>> {
    match text {
        Some(text) => Some(text@),
        None => None,
    }
}

fn filled(text: &str) -> (filled: bool)
    ensures
        filled == (text@.len() > 0),
{
    crate::text::chars_of(text).len() > 0
}

fn choose_credential(issued: Option<&String>, env: &Option<String>) -> (value: String)
    ensures
        value@ == chosen(
            match issued {
                Some(issued) => Some(issued@),
                None => None,
            },
            maybe(*env),
        ),
{
    if let Some(issued) = issued {
        if filled(issued.as_str()) {
            return issued.as_str().to_owned();
        }
    }
    match env {
        Some(value) => value.as_str().to_owned(),
        None => {
            let empty = String::new();
            assert(empty@ =~= Seq::<char>::empty());
            empty
        },
    }
}

/// Credentials of the environment.
#[derive(Debug)]
pub struct EnvCredentials {
    pub access_key_id: Option<String>,
    pub secret_access_key: Option<String>,
    pub session_token: Option<String>,
}

/// How the bucket is reached. A custom endpoint is addressed by path.
pub fn node_config(
    bucket: &str,
    endpoint: Option<&str>,
    region: &str,
    credentials: Option<&StorageCredentials>,
    env: &EnvCredentials,
) -> (config: ObjectStoreConfig)
    ensures
        config.bucket@ == bucket@,
        config.path@ == Seq::<char>::empty(),
        config.region@ == region@,
        config.endpoint@ == match endpoint {
            Some(endpoint) => endpoint@,
            None => Seq::empty(),
        },
        config.force_path_style == (config.endpoint@.len() > 0),
        config.access_key_id@ == chosen(
            match credentials {
                Some(credentials) => Some(credentials.access_key_id@),
                None => None,
            },
            maybe(env.access_key_id),
        ),
        config.secret_access_key@ == chosen(
            match credentials {
                Some(credentials) => Some(credentials.secret_access_key@),
                None => None,
            },
            maybe(env.secret_access_key),
        ),
        config.session_token@ == chosen(
            match credentials {
                Some(credentials) => maybe(credentials.session_token),
                None => None,
            },
            maybe(env.session_token),
        ),
{
    let endpoint: String = match endpoint {
        Some(endpoint) => endpoint.to_owned(),
        None => String::new(),
    };
    let issued_key: Option<&String> = match credentials {
        Some(credentials) => Some(&credentials.access_key_id),
        None => None,
    };
    let issued_secret: Option<&String> = match credentials {
        Some(credentials) => Some(&credentials.secret_access_key),
        None => None,
    };
    let issued_token: Option<&String> = match credentials {
        Some(credentials) => match &credentials.session_token {
            Some(token) => Some(token),
            None => None,
        },
        None => None,
    };
    let path = String::new();
    assert(path@ =~= Seq::<char>::empty());
    let force_path_style = filled(endpoint.as_str());
    ObjectStoreConfig {
        bucket: bucket.to_owned(),
        path,
        region: region.to_owned(),
        endpoint,
        access_key_id: choose_credential(issued_key, &env.access_key_id),
        secret_access_key: choose_credential(issued_secret, &env.secret_access_key),
        session_token: choose_credential(issued_token, &env.session_token),
        force_path_style,
    }
}

/// How old a file is, from the clock and its last change; one from the future
/// is new.
pub fn file_age(now_ms: i64, modified_ms: i64) -> (age_ms: u64)
    ensures
        age_ms == if now_ms - modified_ms < 0 {
            0
        } else if now_ms - modified_ms > i64::MAX {
            i64::MAX as int
        } else {
            now_ms - modified_ms
        },
{
    let age: i128 = now_ms as i128 - modified_ms as i128;
    if age < 0 {
        0
    } else if age > i64::MAX as i128 {
        i64::MAX as u64
    } else {
        age as u64
    }
}

/// What the environment says goes before the defaults: a flush every 2000
/// milliseconds, ten seconds for a proof, 128 pages of log. Compaction runs as it
/// was configured or not at all.
pub proof fn law_environment_goes_before_the_defaults(
    backend: StorageBackend,
    compaction: Option<CompactionConfig>,
    overrides: Overrides,
    settings: Settings,
    key: TimestampMetadataKey,
)
    requires
        call_ensures(assemble, (backend, compaction, overrides), settings),
        call_ensures(timestamp_metadata_key, (backend,), key),
    ensures
        overrides.flush_ms is Some ==> Some(settings.flush_ms) == overrides.flush_ms,
        overrides.flush_ms is None ==> settings.flush_ms == 2000,
        overrides.durability_timeout_secs is None ==> settings.durability_timeout_ms == 10 * 1000,
        overrides.durability_timeout_secs matches Some(seconds) ==> {
            &&& settings.durability_timeout_ms <= seconds * 1000
            &&& settings.durability_timeout_ms == seconds * 1000 || settings.durability_timeout_ms
                == u64::MAX
        },
        overrides.truncate_pages is Some ==> settings.truncate_pages == overrides.truncate_pages,
        overrides.truncate_pages is None ==> settings.truncate_pages == Some(128u32),
        compaction is None ==> settings.compaction_min_txids == 0 && settings.compaction_workers
            is None,
        compaction matches Some(config) ==> settings.compaction_min_txids == config.min_txids
            && settings.compaction_workers == Some(config.concurrency),
        settings.timestamp_metadata_key == key,
        key is Underscore <==> backend is Azure,
{
}

/// A bucket is reached where it was said to be, by path exactly where an endpoint
/// was named. Each credential is the issued one where that is not empty, and
/// otherwise the environment's, or none.
pub proof fn law_issued_credentials_go_first(
    bucket: &str,
    endpoint: Option<&str>,
    region: &str,
    credentials: Option<&StorageCredentials>,
    env: EnvCredentials,
    config: ObjectStoreConfig,
)
    requires
        call_ensures(node_config, (bucket, endpoint, region, credentials, &env), config),
    ensures
        config.bucket@ == bucket@ && config.region@ == region@ && config.path@.len() == 0,
        endpoint is Some ==> config.endpoint@ == endpoint->0@,
        endpoint is None ==> config.endpoint@.len() == 0,
        config.force_path_style <==> endpoint is Some && endpoint->0@.len() > 0,
        credentials is Some && credentials->0.access_key_id@.len() > 0 ==> config.access_key_id@
            == credentials->0.access_key_id@,
        credentials is Some && credentials->0.secret_access_key@.len() > 0
            ==> config.secret_access_key@ == credentials->0.secret_access_key@,
        credentials is Some && (credentials->0.session_token matches Some(token) && token@.len()
            > 0) ==> config.session_token@ == credentials->0.session_token->0@,
        credentials is None || credentials->0.access_key_id@.len() == 0 ==> {
            &&& env.access_key_id is Some ==> config.access_key_id@ == env.access_key_id->0@
            &&& env.access_key_id is None ==> config.access_key_id@.len() == 0
        },
        credentials is None || credentials->0.secret_access_key@.len() == 0 ==> {
            &&& env.secret_access_key is Some ==> config.secret_access_key@
                == env.secret_access_key->0@
            &&& env.secret_access_key is None ==> config.secret_access_key@.len() == 0
        },
        credentials is None || credentials->0.session_token is None ==> {
            &&& env.session_token is Some ==> config.session_token@ == env.session_token->0@
            &&& env.session_token is None ==> config.session_token@.len() == 0
        },
{
}

/// A file's age is the time since its last change, and none where that lies ahead.
pub proof fn law_age_is_the_time_since_the_change(now_ms: i64, modified_ms: i64, age_ms: u64)
    requires
        call_ensures(file_age, (now_ms, modified_ms), age_ms),
    ensures
        modified_ms <= now_ms && now_ms - modified_ms <= i64::MAX ==> modified_ms + age_ms
            == now_ms,
        modified_ms > now_ms ==> age_ms == 0,
        age_ms <= i64::MAX,
        modified_ms <= now_ms && now_ms - modified_ms > i64::MAX ==> age_ms == i64::MAX,
{
}

} // verus!
