//! Where databases live: the storage directory and the file name of a
//! database in it.
use vstd::prelude::*;

verus! {

/// Environment variable that names the storage directory.
pub const VAR_DIR: &'static str = "VESSEL_DIR";

/// File extension of a database.
pub const DB_EXTENSION: &'static str = ".veas";

/// Directory under the home directory used when none is configured.
pub const HOME_SUBDIR: &'static str = "/.local/share/vessel/";

/// The storage directory: the configured one if there is one, else the
/// default directory under `home`.
pub fn check_token(configured: Option<&str>, home: &str) -> (r: String)
    ensures
        match configured {
            Some(d) => r@ == d@,
            None => r@ == home@ + HOME_SUBDIR@,
        },
{
    match configured {
        Some(d) => String::from_str(d),
        None => {
            let mut dir = String::from_str(home);
            dir.append(HOME_SUBDIR);
            dir
        },
    }
}

/// The path of the database `name` in the directory `dir`.
pub fn database_path(dir: &str, name: &str) -> (r: String)
    ensures
        r@ == dir@ + name@ + DB_EXTENSION@,
{
    let mut path = String::from_str(dir);
    path.append(name);
    path.append(DB_EXTENSION);
    path
}

} // verus!
