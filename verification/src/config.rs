//! The run's configuration, assembled from environment values.
//!
//! The caller looks the settings up (environment variables, possibly loaded
//! from a dotenv file) and hands them in as plain optional strings; building
//! the configuration fails before any network activity when a required value
//! is missing. The two status-record settings are optional: without a check
//! URL no preflight fetch happens, without a state path nothing is
//! published.

use vstd::prelude::*;

use crate::errors::RunError;

verus! {

/// Everything one collection run needs to know.
#[derive(Clone, PartialEq, Eq, Debug)]
pub struct Config {
    /// Server of the scheduling source.
    pub server: String,
    /// School whose timetable is collected.
    pub school: String,
    /// Account name at the scheduling source.
    pub user: String,
    /// Account password at the scheduling source.
    pub password: String,
    /// Secret of the teacher-name pseudonymization.
    pub secret: String,
    /// Base directory of the archive.
    pub path: String,
    /// Where to publish this run's status record, if anywhere.
    pub state_file_path: Option<String>,
    /// Where to fetch the shared status record from, if anywhere.
    pub state_file_check: Option<String>,
}

/// The name of the first missing required setting, in lookup order.
pub open spec fn first_missing_setting(
    server: bool,
    school: bool,
    user: bool,
    password: bool,
    secret: bool,
    path: bool,
) -> Seq<char> {
    if !server {
        "SERVER"@
    } else if !school {
        "SCHOOL"@
    } else if !user {
        "USERNAME"@
    } else if !password {
        "PASSWORD"@
    } else if !secret {
        "SECRET"@
    } else {
        "STORAGE_PATH"@
    }
}

impl Config {
    /// Builds the configuration from the looked-up settings. Succeeds
    /// exactly when every required setting is present, keeping each value
    /// as it was handed in; otherwise names the first missing setting.
    pub fn from_values(
        server: Option<String>,
        school: Option<String>,
        user: Option<String>,
        password: Option<String>,
        secret: Option<String>,
        path: Option<String>,
        state_file_path: Option<String>,
        state_file_check: Option<String>,
    ) -> (r: Result<Config, RunError>)
        ensures
            r is Ok <==> server is Some && school is Some && user is Some && password is Some
                && secret is Some && path is Some,
            r matches Ok(c) ==> {
                &&& server == Option::Some(c.server)
                &&& school == Option::Some(c.school)
                &&& user == Option::Some(c.user)
                &&& password == Option::Some(c.password)
                &&& secret == Option::Some(c.secret)
                &&& path == Option::Some(c.path)
                &&& c.state_file_path == state_file_path
                &&& c.state_file_check == state_file_check
            },
            r matches Err(e) ==> e matches RunError::ConfigError(m) && m@
                == first_missing_setting(
                server is Some,
                school is Some,
                user is Some,
                password is Some,
                secret is Some,
                path is Some,
            ),
    {
        let server = match server {
            Option::Some(v) => v,
            Option::None => {
                return Err(RunError::ConfigError(String::from_str("SERVER")));
            },
        };
        let school = match school {
            Option::Some(v) => v,
            Option::None => {
                return Err(RunError::ConfigError(String::from_str("SCHOOL")));
            },
        };
        let user = match user {
            Option::Some(v) => v,
            Option::None => {
                return Err(RunError::ConfigError(String::from_str("USERNAME")));
            },
        };
        let password = match password {
            Option::Some(v) => v,
            Option::None => {
                return Err(RunError::ConfigError(String::from_str("PASSWORD")));
            },
        };
        let secret = match secret {
            Option::Some(v) => v,
            Option::None => {
                return Err(RunError::ConfigError(String::from_str("SECRET")));
            },
        };
        let path = match path {
            Option::Some(v) => v,
            Option::None => {
                return Err(RunError::ConfigError(String::from_str("STORAGE_PATH")));
            },
        };
        Ok(
            Config {
                server,
                school,
                user,
                password,
                secret,
                path,
                state_file_path,
                state_file_check,
            },
        )
    }
}

} // verus!
