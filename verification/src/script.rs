//! Scripts carried by a document: the language tag recognized by the
//! scripting bridge and the script body collected by the parser.

use vstd::prelude::*;
use crate::text::str_eq;

verus! {

#[derive(Copy, Clone, Debug, PartialEq, Eq, Structural)]
pub enum Lang {
    Lua,
}

impl Lang {
    /// Recognizes a script language tag; only "lua" is supported.
    pub fn from(s: &str) -> (r: Option<Lang>)
        ensures
            r == (if s@ == "lua"@ {
                Some(Lang::Lua)
            } else {
                None::<Lang>
            }),
    {
        if str_eq(s, "lua") {
            Some(Lang::Lua)
        } else {
            None
        }
    }
}

pub struct Script {
    pub lang: Lang,
    pub text: String,
}

impl Script {
    pub fn new(lang: Lang, text: String) -> (r: Script)
        ensures
            r.lang == lang,
            r.text == text,
    {
        Script { lang, text }
    }
}

/// Failure signalled by a widget-handle operation that the widget's kind does
/// not support.
#[derive(Debug, PartialEq, Eq, Structural)]
pub enum Error {
    UnsupportedOperation,
}

impl Error {
    /// The text shown for this error.
    pub fn message(&self) -> (r: String)
        ensures
            r@ == "unsupported operation"@,
    {
        String::from_str("unsupported operation")
    }
}

} // verus!
