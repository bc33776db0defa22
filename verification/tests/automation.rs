use webby::error::Error;
use webby::headers::request_headers;
use webby::script::{Lang, Script};
use webby::webdriver::{active_window, Command, CommandResponse, Handler};

#[test]
fn test_new_session_allocates_id() {
    let mut h = Handler::new();
    let r = h.handle_command(Command::NewSession, String::from("id-123")).unwrap();
    match r {
        (CommandResponse::NewSession(id), None) => assert_eq!(id, "id-123"),
        _ => panic!("expected a new-session response"),
    }
}

#[test]
fn test_delete_session() {
    let mut h = Handler::new();
    let r = h.handle_command(Command::DeleteSession, String::from("unused")).unwrap();
    assert!(matches!(r, (CommandResponse::DeleteSession, None)));
    h.teardown_session();
}

#[test]
fn test_get_returns_navigation() {
    let mut h = Handler::new();
    let r = h
        .handle_command(Command::Get(String::from("http://h/p")), String::from("unused"))
        .unwrap();
    match r {
        (CommandResponse::Void, Some(act)) => {
            assert_eq!(act.url, "http://h/p");
            assert!(act.record_history);
        },
        _ => panic!("expected a navigation action"),
    }
}

#[test]
fn test_unsupported_command_fails_loudly() {
    let mut h = Handler::new();
    assert!(matches!(
        h.handle_command(Command::Unsupported, String::from("unused")),
        Err(Error::UnimplementedCommandError)
    ));
}

#[test]
fn test_request_headers_exact() {
    let hs = request_headers(4, 12, 3);
    assert_eq!(hs.len(), 4);
    assert_eq!(hs[0].0, "accept");
    assert_eq!(hs[0].1, "application/gtk, text/gtk, text/*;q=0.9");
    assert_eq!(hs[1], (String::from("x-gtk-version-major"), String::from("4")));
    assert_eq!(hs[2], (String::from("x-gtk-version-minor"), String::from("12")));
    assert_eq!(hs[3], (String::from("x-gtk-version-micro"), String::from("3")));
}

#[test]
fn test_lang_from() {
    assert!(matches!(Lang::from("lua"), Some(Lang::Lua)));
    assert!(Lang::from("python").is_none());
    assert!(Lang::from("").is_none());
}

#[test]
fn test_script_new() {
    let s = Script::new(Lang::Lua, String::from("print(1)"));
    assert!(matches!(s.lang, Lang::Lua));
    assert_eq!(s.text, "print(1)");
}

#[test]
fn test_error_messages() {
    assert_eq!(
        Error::NoContentTypeError.message(),
        "no Content-Type header provided by server"
    );
    assert_eq!(
        Error::UnsupportedCharsetError(String::from("latin1")).message(),
        "expected UTF-8, received charset: latin1"
    );
    assert_eq!(
        Error::UnsupportedContentTypeError(String::from("image/png")).message(),
        "unsupported Content-Type: image/png"
    );
    assert_eq!(Error::NoConversionError.message(), "no conversion error");
    assert_eq!(
        webby::script::Error::UnsupportedOperation.message(),
        "unsupported operation"
    );
}

#[test]
fn test_active_window_prefers_focus() {
    assert_eq!(active_window(&vec![]), None);
    assert_eq!(active_window(&vec![(1, false), (2, true), (3, true)]), Some(2));
    assert_eq!(active_window(&vec![(1, false), (2, false)]), Some(1));
}

#[test]
fn test_fetch_response_fields() {
    let r = webby::bridge::FetchResponse::new(404, None);
    assert_eq!(r.status_code, 404);
    assert!(r.body.is_none());
    let ok = webby::bridge::FetchResponse::new(200, Some(String::from("hi")));
    assert_eq!(ok.body.as_deref(), Some("hi"));
}
