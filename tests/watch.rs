use handlebars_iron::{next_action, SourceError, WatchAction, WatchEvent};

#[test]
fn change_triggers_reload() {
    assert_eq!(next_action(&WatchEvent::Changed), WatchAction::Reload);
}

#[test]
fn failed_reload_is_reported_and_watching_goes_on() {
    assert_eq!(next_action(&WatchEvent::ReloadFailed), WatchAction::Report);
}

#[test]
fn event_error_is_reported_and_watching_goes_on() {
    assert_eq!(next_action(&WatchEvent::EventFailed), WatchAction::Report);
}

#[test]
fn backend_failure_stops_the_watch() {
    assert_eq!(next_action(&WatchEvent::BackendFailed), WatchAction::Stop);
}

#[test]
fn source_error_message_is_its_cause() {
    let io = SourceError::Io { path: "tpl/a.hbs".to_string(), cause: "denied".to_string() };
    assert_eq!(io.message(), "denied");
    let compile = SourceError::Compile { name: "a".to_string(), cause: "bad syntax".to_string() };
    assert_eq!(compile.message(), "bad syntax");
}
