//! Language profiles and windowed active-author metrics over batches of
//! Nostr events.

pub mod activity;
pub mod analytics;
pub mod assoc;
pub mod author_set;
pub mod error;
pub mod index;
pub mod language;
pub mod language_stats;
pub mod lexical;
pub mod profile;
pub mod profile_builder;
pub mod profile_laws;
pub mod ranking;
pub mod relay_client;
pub mod str_map;
pub mod types;
pub mod window;

pub use activity::ActivityBucket;
pub use analytics::{
    check_request, compute_metrics_by_language, compute_metrics_from_events,
    users_with_any_language, windowed_active_counts,
};
pub use author_set::AuthorSet;
pub use error::AnalyticsError;
pub use index::{users_with_language, LanguageIndex, LanguageIndexResult};
pub use language::{
    blank, detect_language, interpret_detection, lang_to_iso639_1, white_space, Lang,
};
pub use language_stats::count_speakers;
pub use profile::{LanguageScores, UserLanguages};
pub use profile_builder::{
    build_language_index, build_profiles, process_events_for_language_index,
    LanguageIndexOutput,
};
pub use relay_client::NostrEvent;
pub use str_map::StrMap;
pub use types::{
    checked_epoch_day, epoch_day_to_timestamp, timestamp_to_epoch_day, Confidence, EpochDay,
    EventId, LanguageCode, LanguageIndexOptions, MetricDataPoint, MetricsOptions, PubkeyHex,
    Timestamp, CONFIDENCE_ONE, SECONDS_PER_DAY,
};
pub use vstd::hash_set::StringHashSet;
pub use window::sliding_window_counts;
