//! A browser for native UI markup: documents fetched over HTTP are parsed,
//! sanitized and turned into live widget trees, with an embedded scripting
//! engine bridged into the tree. This crate holds the verified core — the
//! markup extension parser, the navigation history, link resolution, content
//! negotiation and the navigation state machine, the scripting bridge's
//! decisions, the automation listener's command handling, and the fixed
//! request headers. Widget construction, HTTP transport and the scripting
//! engine itself are collaborators on the outside; they hand these modules
//! plain values and carry out what they decide.

use vstd::prelude::*;

pub mod bridge;
pub mod error;
pub mod headers;
pub mod history;
pub mod lex;
pub mod nav;
pub mod script;
pub mod text;
pub mod ui;
pub mod util;
pub mod webdriver;

verus! {

} // verus!
