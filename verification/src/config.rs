//! The settings of a run.
use vstd::prelude::*;
use vstd::string::*;

verus! {

/// The settings of a run.
#[derive(Debug, Clone, PartialEq, Eq)]
pub struct Config {
    /// The address of the database.
    pub address: String,
    /// The name of the root user.
    pub username: String,
    /// The password of the root user.
    pub password: String,
    /// The namespace to use.
    pub namespace: Option<String>,
    /// The database to use.
    pub database: Option<String>,
    /// Whether references to records are typed as the rows they lead to.
    pub links_fetched: bool,
    /// Whether the types of the database client are used in the output.
    pub target_sdk: bool,
    /// Whether the table descriptions are stored in the database.
    pub store_meta_in_db: bool,
    /// The table that the table descriptions are stored in.
    pub metadata_table_name: String,
    /// Whether the table descriptions are left out of the output.
    pub no_meta: bool,
    /// Whether no type definitions are written.
    pub skip_ts_generation: bool,
    /// Where the type definitions are written to.
    pub output: String,
    /// A file to read the settings from.
    pub config_file_path: Option<String>,
}

/// The address used where none is given.
pub fn default_address() -> (r: String)
    ensures
        r@ == "http://localhost:8000"@,
{
    "http://localhost:8000".to_owned()
}

/// The user name used where none is given.
pub fn default_username() -> (r: String)
    ensures
        r@ == "root"@,
{
    "root".to_owned()
}

/// The password used where none is given.
pub fn default_password() -> (r: String)
    ensures
        r@ == "root"@,
{
    "root".to_owned()
}

/// Whether the output is shaped for the client library where nothing is said.
pub fn default_target_sdk() -> (r: bool)
    ensures
        r,
{
    true
}

/// The name of the table that holds the table descriptions.
pub fn default_metadata_table() -> (r: String)
    ensures
        r@ == "table_meta"@,
{
    "table_meta".to_owned()
}

/// The name of the file the definitions are written to.
pub fn default_output() -> (r: String)
    ensures
        r@ == "db.ts"@,
{
    "db.ts".to_owned()
}

impl Default for Config {
    /// The settings of a run for which nothing was set.
    fn default() -> (r: Config)
        ensures
            r.address@ == "http://localhost:8000"@,
            r.username@ == "root"@,
            r.password@ == "root"@,
            r.namespace is None,
            r.database is None,
            !r.links_fetched,
            r.target_sdk,
            !r.store_meta_in_db,
            r.metadata_table_name@ == "table_meta"@,
            !r.no_meta,
            !r.skip_ts_generation,
            r.output@ == "db.ts"@,
            r.config_file_path is None,
    {
        Config {
            address: default_address(),
            username: default_username(),
            password: default_password(),
            namespace: None,
            database: None,
            links_fetched: false,
            target_sdk: default_target_sdk(),
            store_meta_in_db: false,
            metadata_table_name: default_metadata_table(),
            no_meta: false,
            skip_ts_generation: false,
            output: default_output(),
            config_file_path: None,
        }
    }
}

} // verus!
