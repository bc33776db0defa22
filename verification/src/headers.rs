//! The fixed identification headers carried on every outgoing request: the
//! Accept preference for structured markup, and the toolkit's version, which
//! the caller reads from the toolkit at startup.

use vstd::prelude::*;
use crate::text::{spec_digits, push_digits, string_from_chars};

verus! {

fn version_string(v: u32) -> (r: String)
    ensures
        r@ == spec_digits(v as nat),
{
    let mut out: Vec<char> = Vec::new();
    push_digits(v as u64, &mut out);
    proof {
        assert(out@ =~= spec_digits(v as nat));
    }
    string_from_chars(out.as_slice())
}

/// The header names and values included on every request: the Accept
/// preference favoring the structured-markup subtype, and the three toolkit
/// version components.
pub fn request_headers(major: u32, minor: u32, micro: u32) -> (r: Vec<(String, String)>)
    ensures
        r.deep_view() =~= seq![
            ("accept"@, "application/gtk, text/gtk, text/*;q=0.9"@),
            ("x-gtk-version-major"@, spec_digits(major as nat)),
            ("x-gtk-version-minor"@, spec_digits(minor as nat)),
            ("x-gtk-version-micro"@, spec_digits(micro as nat)),
        ],
{
    let mut out: Vec<(String, String)> = Vec::new();
    out.push(
        (
            String::from_str("accept"),
            String::from_str("application/gtk, text/gtk, text/*;q=0.9"),
        ),
    );
    out.push((String::from_str("x-gtk-version-major"), version_string(major)));
    out.push((String::from_str("x-gtk-version-minor"), version_string(minor)));
    out.push((String::from_str("x-gtk-version-micro"), version_string(micro)));
    out
}

} // verus!
