use webby::error::Error;
use webby::history::History;
use webby::nav::{
    apply_history, begin_navigation, classify_content_type, handle_completion, ContentClass,
    FetchResult, NavState, NavUpdate, RenderPlan,
};

fn success(ct: Option<&str>, body: &str) -> FetchResult {
    FetchResult::Success {
        final_location: String::from("http://h/page"),
        content_type: ct.map(String::from),
        body: String::from(body),
    }
}

#[test]
fn test_classify_structured_subtypes() {
    assert_eq!(
        classify_content_type(Some(&String::from("text/gtk"))).unwrap(),
        ContentClass::GtkMarkup
    );
    assert_eq!(
        classify_content_type(Some(&String::from("application/gtk"))).unwrap(),
        ContentClass::GtkMarkup
    );
    assert_eq!(
        classify_content_type(Some(&String::from("text/gtk; charset=utf-8"))).unwrap(),
        ContentClass::GtkMarkup
    );
    assert_eq!(
        classify_content_type(Some(&String::from("text/plain"))).unwrap(),
        ContentClass::PlainText
    );
}

#[test]
fn test_classify_missing_header() {
    assert!(matches!(classify_content_type(None), Err(Error::NoContentTypeError)));
}

#[test]
fn test_classify_bad_charset() {
    match classify_content_type(Some(&String::from("text/gtk; charset=latin1"))) {
        Err(Error::UnsupportedCharsetError(c)) => assert_eq!(c, "latin1"),
        other => panic!("expected charset error, got {:?}", other.is_ok()),
    }
}

#[test]
fn test_classify_unsupported_type() {
    match classify_content_type(Some(&String::from("image/png"))) {
        Err(Error::UnsupportedContentTypeError(e)) => assert_eq!(e, "image/png"),
        _ => panic!("expected unsupported content type"),
    }
}

#[test]
fn test_classify_unparsable_header() {
    assert!(matches!(
        classify_content_type(Some(&String::from("not a mime type"))),
        Err(Error::MimeParseError(_))
    ));
}

#[test]
fn test_transport_failure_shows_banner() {
    let u: NavUpdate = handle_completion(FetchResult::Failure(String::from("refused")), true);
    assert_eq!(u.state, NavState::Errored);
    assert_eq!(u.banner, Some(String::from("http error: refused")));
    assert!(u.render.is_none());
    assert!(u.history_push.is_none());
    assert!(u.location.is_none());
}

#[test]
fn test_invalid_markup_body_shows_banner_and_keeps_pane_empty() {
    let u = handle_completion(success(Some("text/gtk"), "<interface><object"), true);
    assert_eq!(u.state, NavState::Errored);
    let banner = u.banner.expect("banner expected");
    assert!(banner.starts_with("xml error: "));
    assert!(u.render.is_none());
    assert!(u.history_push.is_none());
    assert_eq!(u.location, Some(String::from("http://h/page")));
}

#[test]
fn test_plain_text_renders_read_only() {
    let u = handle_completion(success(Some("text/plain"), "hello"), true);
    assert_eq!(u.state, NavState::Rendered);
    match u.render {
        Some(RenderPlan::Text(t)) => assert_eq!(t, "hello"),
        _ => panic!("expected a text render"),
    }
    assert_eq!(u.history_push, Some(String::from("http://h/page")));
    assert!(u.window_title.is_none());
}

#[test]
fn test_gtk_render_with_styles_and_title() {
    let body = r#"<a><web:page title="Hi"/><web:style>x { }</web:style></a>"#;
    let u = handle_completion(success(Some("application/gtk"), body), true);
    assert_eq!(u.state, NavState::Rendered);
    match u.render {
        Some(RenderPlan::Gtk(d)) => assert_eq!(d.buildable, "<a></a>"),
        _ => panic!("expected a widget render"),
    }
    assert_eq!(u.install_styles, Some(String::from("x { }")));
    assert_eq!(u.window_title, Some(String::from("Hi")));
    assert_eq!(u.history_push, Some(String::from("http://h/page")));
}

#[test]
fn test_gtk_render_title_falls_back_to_location() {
    let u = handle_completion(success(Some("text/gtk"), "<a></a>"), false);
    assert_eq!(u.state, NavState::Rendered);
    assert_eq!(u.window_title, Some(String::from("http://h/page")));
    assert!(u.install_styles.is_none());
    assert!(u.history_push.is_none());
}

#[test]
fn test_missing_content_type_is_navigation_error() {
    let u = handle_completion(success(None, "ignored"), true);
    assert_eq!(u.state, NavState::Errored);
    assert_eq!(
        u.banner,
        Some(String::from("no Content-Type header provided by server"))
    );
    assert!(u.render.is_none());
}

#[test]
fn test_apply_history_recomputes_enablement() {
    let mut h = History::new();
    h.push(String::from("http://h/first"));
    let u = handle_completion(success(Some("text/plain"), "x"), true);
    let (back, forward, refresh) = apply_history(&u, &mut h);
    assert!(back);
    assert!(!forward);
    assert!(refresh);
    assert_eq!(h.current_location(), "http://h/page");
}

#[test]
fn test_begin_navigation_shows_loading() {
    let start = begin_navigation(&String::from("http://h/p"));
    assert_eq!(start.state, NavState::Loading);
    assert_eq!(start.address_field, "http://h/p");
    assert_eq!(start.status, "Loading http://h/p...");
}
