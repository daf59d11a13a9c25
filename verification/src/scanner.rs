//! Recognition of spreadsheet files by their extension.
use vstd::prelude::*;

use crate::text::{chars_equal, chars_of};

verus! {

/// The extensions of the workbooks that a scan picks up.
pub open spec fn is_excel_extension_spec(ext: Seq<char>) -> bool {
    ext == "xlsx"@ || ext == "xls"@ || ext == "xlsm"@
}

/// Is `ext` (a file extension, without the dot) that of a workbook the
/// scan picks up? Extensions are compared exactly, letter case included.
pub fn is_excel_extension(ext: &str) -> (r: bool)
    ensures
        r == is_excel_extension_spec(ext@),
{
    let e = chars_of(ext);
    chars_equal(&e, &chars_of("xlsx")) || chars_equal(&e, &chars_of("xls")) || chars_equal(&e, &chars_of("xlsm"))
}

} // verus!
