//! Configuration values the library checks and derives settings from.
use vstd::prelude::*;

use crate::error::NinetyNineError;
use crate::runner::executor::ExecutionConfig;

verus! {

/// Settings of the diagnose pipeline.
#[derive(Debug, Clone)]
pub struct DiagnoseConfig {
    pub stress_runs: u32,
    pub isolation_runs: u32,
    /// Zero means use available parallelism at resolve time.
    pub stress_threads: u32,
    pub stress_timeout_secs: u64,
    pub record: bool,
    pub record_dir: String,
    pub record_attempts: u32,
}

impl Default for DiagnoseConfig {
    fn default() -> (r: DiagnoseConfig)
        ensures
            r.stress_runs == 3,
            r.isolation_runs == 10,
            r.stress_threads == 0,
            r.stress_timeout_secs == 300,
            !r.record,
            r.record_dir@ == ".ninety-nine/recordings"@,
            r.record_attempts == 10,
    {
        DiagnoseConfig {
            stress_runs: 3,
            isolation_runs: 10,
            stress_threads: 0,
            stress_timeout_secs: 300,
            record: false,
            record_dir: ".ninety-nine/recordings".to_owned(),
            record_attempts: 10,
        }
    }
}

/// Whether a diagnose configuration is usable: every count and the stress
/// timeout are at least one.
pub open spec fn diagnose_valid(c: DiagnoseConfig) -> bool {
    c.stress_runs >= 1 && c.isolation_runs >= 1 && c.record_attempts >= 1
        && c.stress_timeout_secs >= 1
}

impl DiagnoseConfig {
    /// The number of stress threads: the configured number, or when that
    /// is zero the machine's parallelism (4 when unknown).
    pub fn effective_stress_threads(&self, available: Option<usize>) -> (r: usize)
        ensures
            self.stress_threads != 0 ==> r == self.stress_threads,
            self.stress_threads == 0 ==> r == (match available {
                Some(n) => n,
                None => 4,
            }),
    {
        if self.stress_threads == 0 {
            match available {
                Some(n) => n,
                None => 4,
            }
        } else {
            self.stress_threads as usize
        }
    }

    /// Validates the configuration; the first zero count is reported as
    /// `InvalidConfig`, naming the field.
    pub fn validate(&self) -> (r: Result<(), NinetyNineError>)
        ensures
            r is Ok <==> diagnose_valid(*self),
            r matches Err(e) ==> e is InvalidConfig,
            self.stress_runs == 0 ==> (r matches Err(NinetyNineError::InvalidConfig { message })
                && message@ == "diagnose.stress_runs must be >= 1"@),
            self.stress_runs != 0 && self.isolation_runs == 0 ==> (r matches Err(
                NinetyNineError::InvalidConfig { message },
            ) && message@ == "diagnose.isolation_runs must be >= 1"@),
            self.stress_runs != 0 && self.isolation_runs != 0 && self.record_attempts == 0 ==> (r matches Err(
                NinetyNineError::InvalidConfig { message },
            ) && message@ == "diagnose.record_attempts must be >= 1"@),
            self.stress_runs != 0 && self.isolation_runs != 0 && self.record_attempts != 0
                && self.stress_timeout_secs == 0 ==> (r matches Err(
                NinetyNineError::InvalidConfig { message },
            ) && message@ == "diagnose.stress_timeout_secs must be >= 1"@),
    {
        if self.stress_runs == 0 {
            return Err(
                NinetyNineError::InvalidConfig {
                    message: "diagnose.stress_runs must be >= 1".to_owned(),
                },
            );
        }
        if self.isolation_runs == 0 {
            return Err(
                NinetyNineError::InvalidConfig {
                    message: "diagnose.isolation_runs must be >= 1".to_owned(),
                },
            );
        }
        if self.record_attempts == 0 {
            return Err(
                NinetyNineError::InvalidConfig {
                    message: "diagnose.record_attempts must be >= 1".to_owned(),
                },
            );
        }
        if self.stress_timeout_secs == 0 {
            return Err(
                NinetyNineError::InvalidConfig {
                    message: "diagnose.stress_timeout_secs must be >= 1".to_owned(),
                },
            );
        }
        Ok(())
    }
}

/// The delays of a retry backoff strategy. The growth factor of the
/// exponential strategy is a float and is kept by the configuration file's
/// own copy of the strategy; no delay computed here depends on it.
#[derive(Debug, Clone, Copy, PartialEq, Eq, Structural)]
pub enum BackoffStrategy {
    NoBackoff,
    Linear { delay_ms: u64 },
    Exponential { base_ms: u64, max_ms: u64 },
    Fibonacci { start_ms: u64, max_ms: u64 },
}

/// The first delay of a strategy.
pub open spec fn base_delay(s: BackoffStrategy) -> u64 {
    match s {
        BackoffStrategy::NoBackoff => 0,
        BackoffStrategy::Linear { delay_ms } => delay_ms,
        BackoffStrategy::Exponential { base_ms, .. } => base_ms,
        BackoffStrategy::Fibonacci { start_ms, .. } => start_ms,
    }
}

/// Extracts the base delay, in milliseconds, from a backoff strategy.
pub fn backoff_base_delay(strategy: &BackoffStrategy) -> (r: u64)
    ensures
        r == base_delay(*strategy),
{
    match strategy {
        BackoffStrategy::NoBackoff => 0,
        BackoffStrategy::Linear { delay_ms } => *delay_ms,
        BackoffStrategy::Exponential { base_ms, .. } => *base_ms,
        BackoffStrategy::Fibonacci { start_ms, .. } => *start_ms,
    }
}

/// The execution settings of a detection run: `parallel_runs` workers,
/// the maximum retry time as the per-test timeout (saturating in
/// milliseconds), the configured retries and the strategy's base delay.
pub fn execution_config_for(
    parallel_runs: u32,
    max_retry_time_secs: u64,
    retries: u32,
    strategy: &BackoffStrategy,
) -> (r: ExecutionConfig)
    ensures
        r.concurrency == parallel_runs,
        r.timeout_ms == (if max_retry_time_secs * 1000 > u64::MAX {
            u64::MAX as int
        } else {
            max_retry_time_secs * 1000
        }),
        r.retries == retries,
        r.retry_delay_ms == base_delay(*strategy),
{
    ExecutionConfig {
        concurrency: parallel_runs as usize,
        timeout_ms: if max_retry_time_secs > u64::MAX / 1000 {
            u64::MAX
        } else {
            max_retry_time_secs * 1000
        },
        retries,
        retry_delay_ms: backoff_base_delay(strategy),
    }
}

/// Storage back ends.
#[derive(Debug, Clone, Copy, PartialEq, Eq, Structural)]
pub enum StorageBackendType {
    Sqlite,
    Postgres,
}

/// Where the SQLite database lives.
#[derive(Debug, Clone)]
pub struct SqliteConfig {
    pub database_path: String,
}

/// How to reach PostgreSQL.
#[derive(Debug, Clone)]
pub struct PostgresConfig {
    pub connection_string: String,
    pub pool_size: u32,
}

/// Storage settings.
#[derive(Debug, Clone)]
pub struct StorageConfig {
    pub backend: StorageBackendType,
    pub retention_days: u32,
    pub sqlite: Option<SqliteConfig>,
    pub postgres: Option<PostgresConfig>,
}

impl StorageConfig {
    /// The default storage settings with the given default database path:
    /// SQLite, 90 days of retention.
    pub fn with_database_path(database_path: String) -> (r: StorageConfig)
        ensures
            r.backend == StorageBackendType::Sqlite,
            r.retention_days == 90,
            r.sqlite matches Some(s) && s.database_path == database_path,
            r.postgres is None,
    {
        StorageConfig {
            backend: StorageBackendType::Sqlite,
            retention_days: 90,
            sqlite: Some(SqliteConfig { database_path }),
            postgres: None,
        }
    }
}

/// Which storage to open: the configured back end, with its settings.
pub enum StorageChoice {
    Sqlite { database_path: String },
    Postgres { connection_string: String, pool_size: u32 },
}

/// Chooses the storage to open. SQLite uses its configured path or
/// `default_path`; PostgreSQL without its settings is an `InvalidConfig`
/// error.
pub fn choose_storage(config: &StorageConfig, default_path: String) -> (r: Result<StorageChoice, NinetyNineError>)
    ensures
        config.backend == StorageBackendType::Sqlite ==> (r matches Ok(StorageChoice::Sqlite { database_path })
            && database_path == (match config.sqlite {
                Some(s) => s.database_path,
                None => default_path,
            })),
        config.backend == StorageBackendType::Postgres ==> (match config.postgres {
            Some(p) => r matches Ok(StorageChoice::Postgres { connection_string, pool_size })
                && connection_string == p.connection_string && pool_size == p.pool_size,
            None => r matches Err(NinetyNineError::InvalidConfig { message }) && message@
                == "postgres backend selected but no [storage.postgres] config provided"@,
        }),
{
    match config.backend {
        StorageBackendType::Sqlite => {
            let database_path = match &config.sqlite {
                Some(s) => s.database_path.clone(),
                None => default_path,
            };
            Ok(StorageChoice::Sqlite { database_path })
        },
        StorageBackendType::Postgres => match &config.postgres {
            Some(p) => Ok(
                StorageChoice::Postgres {
                    connection_string: p.connection_string.clone(),
                    pool_size: p.pool_size,
                },
            ),
            None => Err(
                NinetyNineError::InvalidConfig {
                    message: "postgres backend selected but no [storage.postgres] config provided".to_owned(),
                },
            ),
        },
    }
}

/// Console output settings.
#[derive(Debug, Clone, Copy, Default)]
pub struct ConsoleOutputConfig {
    pub summary_only: bool,
}

/// Reporting settings.
#[derive(Debug, Clone, Copy, Default)]
pub struct ReportingConfig {
    pub console: ConsoleOutputConfig,
}

} // verus!
