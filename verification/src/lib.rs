//! Provisioning of compiler binaries: version identifiers, integrity checks,
//! fetcher decisions and the single-flight download cache.

pub mod config;
pub mod digits;
pub mod download_cache;
pub mod fetcher;
pub mod flight;
pub mod grammar;
pub mod hash;
pub mod list_fetcher;
pub mod metrics;
pub mod order;
pub mod reconcile;
pub mod refreshable_versions;
pub mod s3_fetcher;
pub mod version;
pub mod version_set;

pub use download_cache::DownloadCache;
pub use fetcher::{FetchError, Fetcher, VersionsFetcher};
pub use flight::SingleFlight;
pub use hash::{Mismatch, H256};
pub use refreshable_versions::RefreshableVersions;
pub use version::Version;
pub use version_set::VersionSet;
