use webby::history::History;
use webby::util::absolutize_url;

#[test]
fn test_absolutize_url() {
    assert_eq!(
        absolutize_url(&String::new(), &String::from("http://localhost:8000")),
        "http://localhost:8000"
    );
    assert_eq!(
        absolutize_url(&String::from("http://localhost:8000"), &String::from("/sub-page")),
        "http://localhost:8000/sub-page"
    );
    assert_eq!(
        absolutize_url(
            &String::from("http://localhost:8000/sub-page"),
            &String::from("/another-page")
        ),
        "http://localhost:8000/another-page"
    );
    assert_eq!(
        absolutize_url(
            &String::from("http://localhost:8000/sub-page"),
            &String::from("sub-sub-page")
        ),
        "http://localhost:8000/sub-page/sub-sub-page"
    );
    assert_eq!(
        absolutize_url(&String::from("http://localhost:8000/current-page"), &String::from("")),
        "http://localhost:8000/current-page"
    );
}

#[test]
fn test_history_back_and_forward() {
    let mut h = History::new();
    h.push(String::from("A"));
    h.push(String::from("B"));
    h.push(String::from("C"));
    assert!(h.can_go_back());
    assert_eq!(h.back(), "B");
    assert!(h.can_go_back());
    assert_eq!(h.back(), "A");
    assert!(!h.can_go_back());
    assert!(h.can_go_forward());
    assert_eq!(h.forward(), "B");
    assert_eq!(h.forward(), "C");
    assert!(!h.can_go_forward());
}

#[test]
fn test_history_current_location() {
    let mut h = History::new();
    h.push(String::from("one"));
    assert_eq!(h.current_location(), "one");
    h.push(String::from("two"));
    assert_eq!(h.current_location(), "two");
}

#[test]
fn test_history_eviction_at_bound() {
    let mut h = History::new();
    for i in 0..webby::history::MAX_SIZE {
        h.push(format!("loc-{}", i));
    }
    assert_eq!(h.current_location(), format!("loc-{}", webby::history::MAX_SIZE - 1));
    h.push(String::from("overflow"));
    assert_eq!(h.current_location(), "overflow");
    let mut steps = 0;
    while h.can_go_back() {
        h.back();
        steps += 1;
    }
    assert_eq!(steps, webby::history::MAX_SIZE - 1);
    assert_eq!(h.current_location(), "loc-1");
}

#[test]
fn test_history_push_keeps_forward_entries() {
    let mut h = History::new();
    h.push(String::from("A"));
    h.push(String::from("B"));
    assert_eq!(h.back(), "A");
    h.push(String::from("C"));
    assert!(h.can_go_back());
    assert_eq!(h.back(), "B");
}
