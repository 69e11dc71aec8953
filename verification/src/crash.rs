//! Names of the Windows structured-exception codes reported in crash logs.

use vstd::prelude::*;

verus! {

/// The name of an exception code, "Unknown" for codes not listed.
pub open spec fn spec_exception_name(code: u32) -> Seq<char> {
    if code == 0xC0000005 { "Access violation"@ }
    else if code == 0xC0000094 { "Integer divide by zero"@ }
    else if code == 0xC0000095 { "Integer overflow"@ }
    else if code == 0xC00000FD { "Stack overflow"@ }
    else if code == 0xC0000006 { "In-page error"@ }
    else if code == 0xC0000017 { "No memory"@ }
    else if code == 0xC000001D { "Illegal instruction"@ }
    else if code == 0xC0000025 { "Noncontinuable exception"@ }
    else if code == 0xC0000026 { "Invalid disposition"@ }
    else if code == 0xC000008C { "Array bounds exceeded"@ }
    else if code == 0xC000008D { "Float denormal operand"@ }
    else if code == 0xC000008E { "Float divide by zero"@ }
    else if code == 0xC0000090 { "Float invalid operation"@ }
    else if code == 0xC0000091 { "Float overflow"@ }
    else if code == 0xC0000093 { "Float underflow"@ }
    else if code == 0x80000003 { "Breakpoint"@ }
    else if code == 0x80000002 { "Datatype misalignment"@ }
    else { "Unknown"@ }
}

/// The name of a structured-exception code.
pub fn exception_name(code: u32) -> (name: &'static str)
    ensures
        name@ == spec_exception_name(code),
{
    match code {
        0xC0000005 => "Access violation",
        0xC0000094 => "Integer divide by zero",
        0xC0000095 => "Integer overflow",
        0xC00000FD => "Stack overflow",
        0xC0000006 => "In-page error",
        0xC0000017 => "No memory",
        0xC000001D => "Illegal instruction",
        0xC0000025 => "Noncontinuable exception",
        0xC0000026 => "Invalid disposition",
        0xC000008C => "Array bounds exceeded",
        0xC000008D => "Float denormal operand",
        0xC000008E => "Float divide by zero",
        0xC0000090 => "Float invalid operation",
        0xC0000091 => "Float overflow",
        0xC0000093 => "Float underflow",
        0x80000003 => "Breakpoint",
        0x80000002 => "Datatype misalignment",
        _ => "Unknown",
    }
}

} // verus!
