//! The navigation controller's decision core. A navigation fetches a location
//! on a worker thread; the completion is marshalled back to the UI-affinity
//! thread and handed to `handle_completion`, which decides everything that
//! follows: content negotiation by the Content-Type header, parsing of
//! structured markup, the render plan, the banner on failure, the window
//! title, the style installation, and the history update.

use vstd::prelude::*;
use crate::error::Error;
use crate::history::History;
use crate::text::str_eq;
use crate::ui::{Definition, spec_parse, scripts_view};

verus! {

/// States of one navigation.
#[derive(Copy, Clone, Debug, PartialEq, Eq, Structural)]
pub enum NavState {
    Idle,
    Loading,
    Rendered,
    Errored,
}

/// How a response body is to be shown.
#[derive(Copy, Clone, Debug, PartialEq, Eq, Structural)]
pub enum ContentClass {
    /// A recognized structured-markup subtype: parse and build widgets.
    GtkMarkup,
    /// Any other text: show read-only.
    PlainText,
}

/// The media-type parts the classification reads, as plain values.
pub struct MimeParts {
    pub type_: String,
    pub subtype: String,
    pub charset: Option<String>,
    pub essence: String,
}

/// What parsing a Content-Type value yields: top-level type, subtype, the
/// charset parameter if any, and the essence (type and subtype without
/// parameters). A function of the text alone.
pub uninterp spec fn mime_parts_of(s: Seq<char>) -> Option<
    (Seq<char>, Seq<char>, Option<Seq<char>>, Seq<char>),
>;

/// Relies on the mime crate: `str::parse::<mime::Mime>` with the accessors
/// `type_`, `subtype`, `get_param("charset")` and `essence_str`. Parsing
/// lowercases the type, subtype and parameters, and fails on text that is not
/// a media type.
#[verifier::external_body]
fn parse_mime(s: &str) -> (r: Option<MimeParts>)
    ensures
        match (r, mime_parts_of(s@)) {
            (Some(p), Some(m)) => p.type_@ == m.0 && p.subtype@ == m.1 && p.charset.deep_view()
                == m.2 && p.essence@ == m.3,
            (None, None) => true,
            _ => false,
        },
{
    let m = match s.parse::<mime::Mime>() {
        Ok(m) => m,
        Err(_) => return None,
    };
    let charset = match m.get_param("charset") {
        Some(c) => Some(c.as_str().to_string()),
        None => None,
    };
    let type_ = m.type_().as_str().to_string();
    let subtype = m.subtype().as_str().to_string();
    let essence = m.essence_str().to_string();
    Some(MimeParts { type_, subtype, charset, essence })
}

/// Only UTF-8 (or an absent charset parameter) is accepted.
pub open spec fn charset_ok(cs: Option<Seq<char>>) -> bool {
    match cs {
        Some(c) => c == "utf-8"@,
        None => true,
    }
}

/// The classification rule: "text/gtk" and "application/gtk" are structured
/// markup; any other "text" type is plain text; everything else is refused.
pub open spec fn media_class(ty: Seq<char>, sub: Seq<char>) -> Option<ContentClass> {
    if ty == "text"@ && sub == "gtk"@ {
        Some(ContentClass::GtkMarkup)
    } else if ty == "text"@ {
        Some(ContentClass::PlainText)
    } else if ty == "application"@ && sub == "gtk"@ {
        Some(ContentClass::GtkMarkup)
    } else {
        None
    }
}

/// The outcome of content negotiation over the Content-Type header.
pub ghost enum Negotiation {
    /// No Content-Type header was present.
    NoHeader,
    /// The header did not parse as a media type.
    Unparsable(Seq<char>),
    /// A charset other than UTF-8 was declared.
    BadCharset(Seq<char>),
    /// The media type (by essence) is not supported.
    Unsupported(Seq<char>),
    /// The response is accepted with this classification.
    Accept(ContentClass),
}

pub open spec fn spec_negotiate(ct: Option<Seq<char>>) -> Negotiation {
    match ct {
        None => Negotiation::NoHeader,
        Some(h) => match mime_parts_of(h) {
            None => Negotiation::Unparsable(h),
            Some(m) => if !charset_ok(m.2) {
                Negotiation::BadCharset(m.2->0)
            } else {
                match media_class(m.0, m.1) {
                    Some(c) => Negotiation::Accept(c),
                    None => Negotiation::Unsupported(m.3),
                }
            },
        },
    }
}

/// Classifies a media type already split into parts.
pub fn classify_parts(p: &MimeParts) -> (r: Result<ContentClass, Error>)
    ensures
        !charset_ok(p.charset.deep_view()) ==> (r matches Err(Error::UnsupportedCharsetError(c))
            && Some(c@) == p.charset.deep_view()),
        charset_ok(p.charset.deep_view()) && media_class(p.type_@, p.subtype@) is Some ==> r
            == Ok::<ContentClass, Error>(media_class(p.type_@, p.subtype@)->0),
        charset_ok(p.charset.deep_view()) && media_class(p.type_@, p.subtype@) is None ==> (
        r matches Err(Error::UnsupportedContentTypeError(e)) && e@ == p.essence@),
{
    match &p.charset {
        Some(c) => {
            if !str_eq(c.as_str(), "utf-8") {
                return Err(Error::UnsupportedCharsetError(c.clone()));
            }
        },
        None => {},
    }
    let is_text = str_eq(p.type_.as_str(), "text");
    let is_application = str_eq(p.type_.as_str(), "application");
    let is_gtk = str_eq(p.subtype.as_str(), "gtk");
    if is_text && is_gtk {
        Ok(ContentClass::GtkMarkup)
    } else if is_text {
        Ok(ContentClass::PlainText)
    } else if is_application && is_gtk {
        Ok(ContentClass::GtkMarkup)
    } else {
        Err(Error::UnsupportedContentTypeError(p.essence.clone()))
    }
}

/// Classifies a response by its Content-Type header alone.
pub fn classify_content_type(header: Option<&String>) -> (r: Result<ContentClass, Error>)
    ensures
        match spec_negotiate(header.deep_view()) {
            Negotiation::NoHeader => r matches Err(Error::NoContentTypeError),
            Negotiation::Unparsable(h) => (r matches Err(Error::MimeParseError(x)) && x@ == h),
            Negotiation::BadCharset(c) => (r matches Err(Error::UnsupportedCharsetError(x)) && x@
                == c),
            Negotiation::Unsupported(e) => (r matches Err(Error::UnsupportedContentTypeError(x))
                && x@ == e),
            Negotiation::Accept(c) => r == Ok::<ContentClass, Error>(c),
        },
{
    match header {
        None => Err(Error::NoContentTypeError),
        Some(h) => match parse_mime(h.as_str()) {
            None => Err(Error::MimeParseError(h.clone())),
            Some(parts) => classify_parts(&parts),
        },
    }
}

/// What a navigation's fetch came back with: a transport failure with its
/// description, or a response with its final (post-redirect) location, its
/// Content-Type header if any, and its body text.
pub enum FetchResult {
    Failure(String),
    Success { final_location: String, content_type: Option<String>, body: String },
}

/// How the content pane is to be filled.
pub enum RenderPlan {
    /// Show the text read-only.
    Text(String),
    /// Build a widget tree from the parsed document.
    Gtk(Definition),
}

/// Everything one completed navigation asks of the window. A `None` render
/// leaves the content pane cleared (it was emptied when loading began).
pub struct NavUpdate {
    /// Rendered on success, Errored on any failure.
    pub state: NavState,
    /// The new current location (the response's final location); kept even
    /// when negotiation or parsing fails afterwards.
    pub location: Option<String>,
    /// The error banner to show, if any.
    pub banner: Option<String>,
    /// What to place in the content pane.
    pub render: Option<RenderPlan>,
    /// Styles to install at user priority (the prior per-page provider is
    /// always dropped first).
    pub install_styles: Option<String>,
    /// The window title: the document's title, else the resolved location.
    pub window_title: Option<String>,
    /// The location to push onto the history.
    pub history_push: Option<String>,
}

/// What starting a navigation asks of the window, before the fetch is
/// issued: the content pane is cleared, the prior error banner hidden, the
/// address field set, and the loading indicator shown.
pub struct LoadStart {
    /// Always `Loading`.
    pub state: NavState,
    /// The text for the address field.
    pub address_field: String,
    /// The loading indicator's text.
    pub status: String,
}

/// Begins a navigation: the state machine leaves `Idle` (or whatever page
/// stood before) for `Loading`, and the window shows it.
pub fn begin_navigation(location: &String) -> (r: LoadStart)
    ensures
        r.state == NavState::Loading,
        r.address_field@ == location@,
        r.status@ == "Loading "@ + location@ + "..."@,
{
    let status = String::from_str("Loading ").concat(location.as_str()).concat("...");
    LoadStart { state: NavState::Loading, address_field: location.clone(), status }
}

/// Decides everything that follows a fetch completion. A transport failure
/// shows a banner and touches nothing else. A response first has its location
/// recorded, then is classified by Content-Type: a negotiation failure shows
/// a banner; plain text renders read-only; structured markup is parsed — on
/// a parse failure the banner shows and the content pane stays empty, and on
/// success the document is rendered, its styles installed if it has any, the
/// title set, and (when asked) the location pushed onto the history.
pub fn handle_completion(outcome: FetchResult, record_history: bool) -> (u: NavUpdate)
    ensures
        match outcome {
            FetchResult::Failure(e) => {
                &&& u.state == NavState::Errored
                &&& (u.banner matches Some(b) && b@ == "http error: "@ + e@)
                &&& u.location is None
                &&& u.render is None
                &&& u.install_styles is None
                &&& u.window_title is None
                &&& u.history_push is None
            },
            FetchResult::Success { final_location, content_type, body } => {
                &&& (u.location matches Some(l) && l@ == final_location@)
                &&& match spec_negotiate(content_type.deep_view()) {
                    Negotiation::NoHeader => u.state == NavState::Errored && (
                    u.banner matches Some(b) && b@
                        == "no Content-Type header provided by server"@) && u.render is None
                        && u.install_styles is None && u.window_title is None
                        && u.history_push is None,
                    Negotiation::Unparsable(h) => u.state == NavState::Errored && (
                    u.banner matches Some(b) && b@ == "failed to parse mime type: "@ + h)
                        && u.render is None && u.install_styles is None && u.window_title is None
                        && u.history_push is None,
                    Negotiation::BadCharset(c) => u.state == NavState::Errored && (
                    u.banner matches Some(b) && b@ == "expected UTF-8, received charset: "@ + c)
                        && u.render is None && u.install_styles is None && u.window_title is None
                        && u.history_push is None,
                    Negotiation::Unsupported(e) => u.state == NavState::Errored && (
                    u.banner matches Some(b) && b@ == "unsupported Content-Type: "@ + e)
                        && u.render is None && u.install_styles is None && u.window_title is None
                        && u.history_push is None,
                    Negotiation::Accept(ContentClass::PlainText) => u.state == NavState::Rendered
                        && u.banner is None && (u.render matches Some(RenderPlan::Text(b)) && b@
                        == body@) && u.install_styles is None && u.window_title is None && (
                    if record_history {
                        u.history_push matches Some(l) && l@ == final_location@
                    } else {
                        u.history_push is None
                    }),
                    Negotiation::Accept(ContentClass::GtkMarkup) => match spec_parse(body@) {
                        Err(()) => u.state == NavState::Errored && (u.banner matches Some(b) && (
                        b@ == "xml error: "@ + "malformed markup"@ || b@ == "xml error: "@
                            + "malformed character reference"@)) && u.render is None
                            && u.install_styles is None && u.window_title is None
                            && u.history_push is None,
                        Ok(m) => {
                            &&& u.state == NavState::Rendered
                            &&& u.banner is None
                            &&& (u.render matches Some(RenderPlan::Gtk(d)) && d.buildable@
                                == m.clean && d.hrefs.deep_view() == m.hrefs && scripts_view(
                                d.scripts@,
                            ) == m.scripts && d.styles@ == m.styles && d.title.deep_view()
                                == m.title)
                            &&& (if m.styles.len() > 0 {
                                u.install_styles matches Some(st) && st@ == m.styles
                            } else {
                                u.install_styles is None
                            })
                            &&& (u.window_title matches Some(t) && t@ == (match m.title {
                                Some(tt) => tt,
                                None => final_location@,
                            }))
                            &&& (if record_history {
                                u.history_push matches Some(l) && l@ == final_location@
                            } else {
                                u.history_push is None
                            })
                        },
                    },
                }
            },
        },
{
    match outcome {
        FetchResult::Failure(e) => {
            let banner = Error::HttpError(e).message();
            NavUpdate {
                state: NavState::Errored,
                location: None,
                banner: Some(banner),
                render: None,
                install_styles: None,
                window_title: None,
                history_push: None,
            }
        },
        FetchResult::Success { final_location, content_type, body } => {
            let class = match classify_content_type(content_type.as_ref()) {
                Ok(c) => c,
                Err(err) => {
                    let banner = err.message();
                    return NavUpdate {
                        state: NavState::Errored,
                        location: Some(final_location),
                        banner: Some(banner),
                        render: None,
                        install_styles: None,
                        window_title: None,
                        history_push: None,
                    };
                },
            };
            match class {
                ContentClass::PlainText => {
                    let push = if record_history {
                        Some(final_location.clone())
                    } else {
                        None
                    };
                    NavUpdate {
                        state: NavState::Rendered,
                        location: Some(final_location),
                        banner: None,
                        render: Some(RenderPlan::Text(body)),
                        install_styles: None,
                        window_title: None,
                        history_push: push,
                    }
                },
                ContentClass::GtkMarkup => {
                    match Definition::new(body.as_str()) {
                        Err(err) => {
                            let banner = err.message();
                            NavUpdate {
                                state: NavState::Errored,
                                location: Some(final_location),
                                banner: Some(banner),
                                render: None,
                                install_styles: None,
                                window_title: None,
                                history_push: None,
                            }
                        },
                        Ok(def) => {
                            let install_styles = if def.styles.as_str().is_empty() {
                                None
                            } else {
                                Some(def.styles.clone())
                            };
                            let window_title = match &def.title {
                                Some(t) => Some(t.clone()),
                                None => Some(final_location.clone()),
                            };
                            let push = if record_history {
                                Some(final_location.clone())
                            } else {
                                None
                            };
                            NavUpdate {
                                state: NavState::Rendered,
                                location: Some(final_location),
                                banner: None,
                                render: Some(RenderPlan::Gtk(def)),
                                install_styles,
                                window_title,
                                history_push: push,
                            }
                        },
                    }
                },
            }
        },
    }
}

/// Applies a completed navigation to the history and recomputes the
/// enablement of the back, forward and refresh buttons.
pub fn apply_history(u: &NavUpdate, h: &mut History) -> (enable: (bool, bool, bool))
    requires
        old(h).wf(),
    ensures
        final(h).wf(),
        match u.history_push {
            Some(l) => final(h).locations() == (if old(h).locations().len()
                < crate::history::MAX_SIZE {
                old(h).locations()
            } else {
                old(h).locations().skip(1)
            }).push(l@),
            None => *final(h) == *old(h),
        },
        enable.0 == (final(h).cursor() is Some && final(h).cursor()->0 > 0),
        enable.1 == (final(h).cursor() is Some && final(h).cursor()->0 < final(h).locations().len()
            - 1),
        enable.2 == true,
{
    match &u.history_push {
        Some(l) => {
            h.push(l.clone());
        },
        None => {},
    }
    (h.can_go_back(), h.can_go_forward(), true)
}

} // verus!
