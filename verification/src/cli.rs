//! The configuration surface of one run, as plain values, with the
//! defaulting rules for the fields the user may leave out.

use vstd::prelude::*;
use vstd::string::*;

verus! {

/// Everything the user can configure: the input directory, naming and
/// layout of the document, and the mode flags.
pub struct Cli {
    pub input: String,
    pub client: Option<String>,
    pub title: Option<String>,
    pub date: Option<String>,
    pub columns: u8,
    pub output: Option<String>,
    pub manifest_only: bool,
    pub dry_run: bool,
    pub verbose: bool,
    pub no_tui: bool,
    pub auto_orient: bool,
}

/// The column count must fit the layout grid.
pub open spec fn columns_valid(c: u8) -> bool {
    3 <= c <= 8
}

impl Cli {
    /// The client name, or its default.
    pub fn client_or_default(&self) -> (r: String)
        ensures
            self.client matches Some(c) ==> r@ == c@,
            self.client is None ==> r@ == "Delivery"@,
    {
        match &self.client {
            Some(c) => String::from_str(c.as_str()),
            None => String::from_str("Delivery"),
        }
    }

    /// Whether the configured column count is in the layout range.
    pub fn columns_ok(&self) -> (r: bool)
        ensures
            r == columns_valid(self.columns),
    {
        3 <= self.columns && self.columns <= 8
    }

    /// Whether the live dashboard runs: on by default, off for the
    /// manifest-only and no-dashboard modes.
    pub fn use_dashboard(&self) -> (r: bool)
        ensures
            r == (!self.no_tui && !self.manifest_only),
    {
        !self.no_tui && !self.manifest_only
    }
}

} // verus!
