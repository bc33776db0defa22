use webby::bridge::{
    callback_return, check_method, fetch_precheck, form_submit_action, get_property_value,
    native_to_script, script_to_native, set_property_value, CallbackRegistry, FireOutcome,
    FormAction, NativeValue, ScriptValue, WidgetHandle, WidgetKind,
};
use webby::error::Error;

#[test]
fn test_glib_value_to_lua() {
    assert_eq!(
        native_to_script(&NativeValue::Bool(true)),
        Some(ScriptValue::Bool(true))
    );
    assert_eq!(
        native_to_script(&NativeValue::Bool(false)),
        Some(ScriptValue::Bool(false))
    );
}

#[test]
fn test_native_to_script_table() {
    assert_eq!(native_to_script(&NativeValue::Invalid), Some(ScriptValue::Nil));
    assert_eq!(native_to_script(&NativeValue::Unit), Some(ScriptValue::Nil));
    assert_eq!(
        native_to_script(&NativeValue::Widget(7)),
        Some(ScriptValue::WidgetRef(7))
    );
    assert_eq!(native_to_script(&NativeValue::Other), None);
}

#[test]
fn test_script_to_native_table() {
    assert_eq!(script_to_native(&ScriptValue::Nil), None);
    assert_eq!(
        script_to_native(&ScriptValue::Bool(true)),
        Some(NativeValue::Bool(true))
    );
    assert_eq!(script_to_native(&ScriptValue::WidgetRef(3)), None);
}

#[test]
fn test_callback_return_arity() {
    assert_eq!(callback_return(&vec![]).unwrap(), None);
    assert_eq!(
        callback_return(&vec![ScriptValue::Bool(true)]).unwrap(),
        Some(NativeValue::Bool(true))
    );
    assert_eq!(callback_return(&vec![ScriptValue::Nil]).unwrap(), None);
    assert!(matches!(
        callback_return(&vec![ScriptValue::Nil, ScriptValue::Nil]),
        Err(Error::TooManyReturnValues)
    ));
}

#[test]
fn test_purged_callback_fires_as_noop() {
    let mut reg = CallbackRegistry::new();
    let mut handle = WidgetHandle::new(1, WidgetKind::ButtonLike);
    let key = handle.connect(&mut reg, 100).expect("a key");
    assert_eq!(reg.fire(key), FireOutcome::Invoke(key));
    // A render pass purges the registry; nothing references the callback any
    // more, so the native signal must fire as a safe no-op.
    reg.expire(&vec![]);
    assert_eq!(reg.fire(key), FireOutcome::NoOp);
}

#[test]
fn test_expire_keeps_referenced_keys() {
    let mut reg = CallbackRegistry::new();
    let k1 = reg.register().unwrap();
    let k2 = reg.register().unwrap();
    assert_ne!(k1, k2);
    reg.expire(&vec![k2]);
    assert_eq!(reg.fire(k1), FireOutcome::NoOp);
    assert_eq!(reg.fire(k2), FireOutcome::Invoke(k2));
}

#[test]
fn test_connect_records_registration() {
    let mut reg = CallbackRegistry::new();
    let mut handle = WidgetHandle::new(42, WidgetKind::Other);
    let key = handle.connect(&mut reg, 9).unwrap();
    assert_eq!(handle.registrations.len(), 1);
    assert_eq!(handle.registrations[0].widget, 42);
    assert_eq!(handle.registrations[0].subscription, 9);
    assert_eq!(handle.registrations[0].callback_key, key);
}

#[test]
fn test_get_text_only_on_entries() {
    let entry = WidgetHandle::new(1, WidgetKind::TextEntry);
    let button = WidgetHandle::new(2, WidgetKind::ButtonLike);
    assert!(entry.check_get_text().is_ok());
    assert_eq!(
        button.check_get_text(),
        Err(webby::script::Error::UnsupportedOperation)
    );
}

#[test]
fn test_set_label_only_on_buttons() {
    let entry = WidgetHandle::new(1, WidgetKind::TextEntry);
    let button = WidgetHandle::new(2, WidgetKind::ButtonLike);
    assert!(button.check_set_label().is_ok());
    assert_eq!(
        entry.check_set_label(),
        Err(webby::script::Error::UnsupportedOperation)
    );
}

#[test]
fn test_set_property_requires_conversion() {
    assert_eq!(
        set_property_value(&ScriptValue::Bool(false)).unwrap(),
        NativeValue::Bool(false)
    );
    assert!(matches!(
        set_property_value(&ScriptValue::Nil),
        Err(Error::NoConversionError)
    ));
}

#[test]
fn test_get_property_not_found() {
    match get_property_value(None, &String::from("width")) {
        Err(Error::PropertyNotFound(n)) => assert_eq!(n, "width"),
        _ => panic!("expected a property-not-found failure"),
    }
    assert_eq!(
        get_property_value(Some(&NativeValue::Bool(true)), &String::from("visible")).unwrap(),
        Some(ScriptValue::Bool(true))
    );
}

#[test]
fn test_form_submit_action() {
    assert_eq!(form_submit_action(200), FormAction::Reload);
    assert_eq!(form_submit_action(204), FormAction::Reload);
    assert_eq!(form_submit_action(302), FormAction::LogRedirect);
    assert_eq!(form_submit_action(404), FormAction::NoAction);
    assert_eq!(form_submit_action(101), FormAction::NoAction);
}

#[test]
fn test_check_method() {
    assert!(check_method("GET"));
    assert!(check_method("POST"));
    assert!(check_method("PATCH"));
    assert!(!check_method(""));
    assert!(!check_method("GE T"));
    assert!(!check_method("GET/"));
}

#[test]
fn test_fetch_precheck() {
    assert!(fetch_precheck(&String::from("http://h/x")).is_ok());
    assert_eq!(
        fetch_precheck(&String::from("h/x")).err().unwrap(),
        "URL is missing protocol: h/x"
    );
}

#[test]
fn test_out_of_set_script_value_produces_no_value() {
    assert_eq!(script_to_native(&ScriptValue::Other), None);
    assert!(matches!(
        set_property_value(&ScriptValue::Other),
        Err(Error::NoConversionError)
    ));
}
