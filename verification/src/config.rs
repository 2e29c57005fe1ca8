//! The settings of the service and their defaults.

use vstd::prelude::*;

verus! {

/// Where the service listens.
#[derive(Debug, Clone)]
pub struct ServerConfig {
    pub host: String,
    pub port: u16,
}

/// Where the feed comes from.
#[derive(Debug, Clone)]
pub struct RssConfig {
    pub source_url: String,
}

/// Settings of the rule set.
#[derive(Debug, Clone)]
pub struct ConversionConfig {
    pub default_priority: u32,
}

/// Settings of the log.
#[derive(Debug, Clone)]
pub struct LoggingConfig {
    pub level: String,
}

/// All settings of the service.
#[derive(Debug, Clone)]
pub struct AppConfig {
    pub server: ServerConfig,
    pub rss: RssConfig,
    pub conversion: ConversionConfig,
    pub logging: LoggingConfig,
}

impl Default for AppConfig {
    /// The settings that hold where nothing else is configured.
    fn default() -> (config: AppConfig)
        ensures
            config.server.host@ == "127.0.0.1"@,
            config.server.port == 3030,
            config.rss.source_url@ == "https://example.com/rss.xml"@,
            config.conversion.default_priority == 100,
            config.logging.level@ == "info"@,
    {
        AppConfig {
            server: ServerConfig { host: "127.0.0.1".to_owned(), port: 3030 },
            rss: RssConfig { source_url: "https://example.com/rss.xml".to_owned() },
            conversion: ConversionConfig { default_priority: 100 },
            logging: LoggingConfig { level: "info".to_owned() },
        }
    }
}

} // verus!
