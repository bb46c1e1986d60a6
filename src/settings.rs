//! The settings the tool reads at start-up.

use vstd::prelude::*;

verus! {

/// Settings kept in the user's configuration file.
pub struct AppSettings {
    /// The key that the catalogue asks for with every request.
    pub api_key: String,
}

impl Default for AppSettings {
    /// A placeholder key, which the user replaces with their own.
    fn default() -> (r: AppSettings)
        ensures
            r.api_key@ == "YOUR_API_KEY_HERE"@,
    {
        AppSettings { api_key: String::from_str("YOUR_API_KEY_HERE") }
    }
}

} // verus!
