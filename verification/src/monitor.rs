//! Reading the display tool's report: the primary monitor and the lines that
//! hold brightness and gamma. The numbers themselves are fractions and are
//! read by the caller.

use crate::error::UtilError;
use crate::pattern::pattern_valid;
use crate::sys::{first_captured, first_group, first_match, first_matching, line_views};
use crate::tree::text_of;
use vstd::prelude::*;

verus! {

/// The pattern of the line of a connected monitor at the origin of the
/// screen; its first group is the monitor's name.
pub open spec fn primary_pattern() -> Seq<char> {
    "^(?P<monitor>.*) connected .*\\+0\\+0 .*"@
}

/// The pattern of the line that reports the brightness; its first group is
/// the number.
pub open spec fn brightness_pattern() -> Seq<char> {
    "Brightness: +(?P<num>.*)"@
}

/// The pattern of the line that reports the gamma.
pub open spec fn gamma_pattern() -> Seq<char> {
    "Gamma: *.*"@
}

/// The name of the primary monitor: of the first monitor reported as
/// connected at the origin of the screen. There is none where no line says
/// so.
pub fn get_primary_monitor(lines: &Vec<String>) -> (monitor: Option<String>)
    ensures
        pattern_valid(primary_pattern()) ==> text_of(monitor) == first_group(
            line_views(lines@),
            primary_pattern(),
            1,
        ),
        !pattern_valid(primary_pattern()) ==> monitor is None,
{
    match first_captured(lines, "^(?P<monitor>.*) connected .*\\+0\\+0 .*", 1) {
        Ok(monitor) => monitor,
        Err(_) => None,
    }
}

/// The text of the brightness in the first line that reports one.
pub fn get_brightness(lines: &Vec<String>) -> (r: Result<String, UtilError>)
    ensures
        pattern_valid(brightness_pattern()) ==> match first_group(
            line_views(lines@),
            brightness_pattern(),
            1,
        ) {
            Some(text) => r is Ok && r->Ok_0@ == text,
            None => r is Err && r->Err_0 matches UtilError::NotFound,
        },
        !pattern_valid(brightness_pattern()) ==> r is Err && r->Err_0 is Pattern,
{
    match first_captured(lines, "Brightness: +(?P<num>.*)", 1) {
        Ok(Some(text)) => Ok(text),
        Ok(None) => Err(UtilError::NotFound),
        Err(e) => Err(e),
    }
}

/// The first line that reports the gamma.
pub fn get_gamma(lines: &Vec<String>) -> (r: Result<String, UtilError>)
    ensures
        pattern_valid(gamma_pattern()) ==> match first_match(line_views(lines@), gamma_pattern()) {
            Some(line) => r is Ok && r->Ok_0@ == line,
            None => r is Err && r->Err_0 matches UtilError::NotFound,
        },
        !pattern_valid(gamma_pattern()) ==> r is Err && r->Err_0 is Pattern,
{
    match first_matching(lines, "Gamma: *.*") {
        Ok(Some(line)) => Ok(line),
        Ok(None) => Err(UtilError::NotFound),
        Err(e) => Err(e),
    }
}

} // verus!
