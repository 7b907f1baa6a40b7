//! Database configuration: the driver's connection parameters and the
//! optional override for the tracking table's name.

use vstd::prelude::*;

verus! {

/// Connection parameters of one supported database driver.
#[derive(Debug, PartialEq)]
pub enum DatabaseDriver {
    /// SQLite, a file on disk
    SQLite {
        /// The filename of the database
        filename: String,
    },
    /// MySQL / MariaDB
    MySQL {
        /// Name of the database
        name: String,
        /// Host of the database
        host: String,
        /// Port of the database
        port: u16,
        /// User to connect as
        user: String,
        /// Password to connect with
        password: String,
    },
    /// PostgreSQL
    Postgres {
        /// Name of the database
        name: String,
        /// Host of the database
        host: String,
        /// Port of the database
        port: u16,
        /// User to connect as
        user: String,
        /// Password to connect with
        password: String,
    },
}

/// The mathematical value of a [`DatabaseDriver`].
pub ghost enum DatabaseDriverV {
    /// SQLite
    SQLite { filename: Seq<char> },
    /// MySQL / MariaDB
    MySQL {
        name: Seq<char>,
        host: Seq<char>,
        port: u16,
        user: Seq<char>,
        password: Seq<char>,
    },
    /// PostgreSQL
    Postgres {
        name: Seq<char>,
        host: Seq<char>,
        port: u16,
        user: Seq<char>,
        password: Seq<char>,
    },
}

impl View for DatabaseDriver {
    type V = DatabaseDriverV;

    open spec fn view(&self) -> DatabaseDriverV {
        match self {
            DatabaseDriver::SQLite { filename } => DatabaseDriverV::SQLite {
                filename: filename@,
            },
            DatabaseDriver::MySQL { name, host, port, user, password } => DatabaseDriverV::MySQL {
                name: name@,
                host: host@,
                port: *port,
                user: user@,
                password: password@,
            },
            DatabaseDriver::Postgres { name, host, port, user, password } => DatabaseDriverV::Postgres {
                name: name@,
                host: host@,
                port: *port,
                user: user@,
                password: password@,
            },
        }
    }
}

/// Database-related settings: the driver and, optionally, another name for
/// the tracking table.
#[derive(Debug, PartialEq)]
pub struct DatabaseConfig {
    /// The driver's connection parameters
    pub driver: DatabaseDriver,
    /// The tracking table's name, where the default is not wanted
    pub last_migration_table_name: Option<String>,
}

/// The configuration is malformed or incomplete.
#[derive(Debug, PartialEq)]
pub struct ConfigurationError {
    /// What is wrong with the configuration
    pub message: String,
}

/// An empty SQLite filename: the one configuration this engine rejects.
pub open spec fn config_invalid(driver: DatabaseDriverV) -> bool {
    match driver {
        DatabaseDriverV::SQLite { filename } => filename.len() == 0,
        _ => false,
    }
}

impl DatabaseConfig {
    /// Check the configuration: an SQLite driver must name a file.
    pub fn validate(&self) -> (r: Result<(), ConfigurationError>)
        ensures
            r is Err <==> config_invalid(self.driver@),
    {
        match &self.driver {
            DatabaseDriver::SQLite { filename } => {
                if filename.as_str().is_empty() {
                    Err(
                        ConfigurationError {
                            message: String::from_str(
                                "Invalid configuration: Filename for sqlite is empty",
                            ),
                        },
                    )
                } else {
                    Ok(())
                }
            },
            _ => Ok(()),
        }
    }

    /// The tracking table's name: the configured override, or the engine's
    /// own default.
    pub fn effective_table_name(&self) -> (r: &str)
        ensures
            r@ == (match self.last_migration_table_name {
                Some(n) => n@,
                None => "_rorm__last_migration"@,
            }),
    {
        match &self.last_migration_table_name {
            Some(n) => n.as_str(),
            None => "_rorm__last_migration",
        }
    }
}

} // verus!
