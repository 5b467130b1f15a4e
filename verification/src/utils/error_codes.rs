//! The source and the codes that the diagnostics carry.

use vstd::prelude::*;
use vstd::string::*;
use crate::diagnostics::NumberOrString;

verus! {

pub const ERROR_SOURCE: &'static str = "New Horizons";

pub const SHIPLOG_DUPLICATE_ID: &'static str = "nh.shiplog.duplicate_ids";

pub const SHIPLOG_VANILLA_ID: &'static str = "nh.shiplog.vanilla_id";

pub const SHIPLOG_MISSING_CURIOSITY: &'static str = "nh.shiplog.missing_curiosity";

pub const SHIPLOG_MISSING_SOURCE_ID: &'static str = "nh.shiplog.invalid_source_id";

pub const CONFIG_FILE_PATH_NOT_FOUND: &'static str = "nh.config.file_path_invalid";

/// The code of a diagnostic, from its text.
pub fn get_error_code(code: &str) -> (r: Option<NumberOrString>)
    ensures
        r matches Some(NumberOrString::String(s)) && s@ == code@,
{
    Some(NumberOrString::String(String::from_str(code)))
}

} // verus!
