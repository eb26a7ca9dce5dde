use salvo_core_runtime::chain::{catch, ChainState, Fallback, Flow, Outcome, Response, Stage};

fn done(status: Option<u16>, body: Option<&str>, flow: Flow) -> Outcome {
    Outcome::Done { status, body: body.map(|b| b.to_string()), flow }
}

fn not_found_page() -> Vec<Fallback> {
    vec![Fallback { on_status: 404, status: 404, body: "Custom 404 Error Page".to_string() }]
}

#[test]
fn normal_completion_runs_goal() {
    let mut c = ChainState::start(2);
    assert_eq!(c.next, Stage::Hoop(0));
    c.step(done(None, None, Flow::Continue));
    assert_eq!(c.next, Stage::Hoop(1));
    c.step(done(None, None, Flow::Continue));
    assert_eq!(c.next, Stage::Goal);
    c.step(done(Some(201), Some("ok"), Flow::Continue));
    assert_eq!(c.next, Stage::Catch);
    let r = c.finish(&not_found_page());
    assert_eq!(r.status, 201);
    assert_eq!(r.body, Some("ok".to_string()));
}

#[test]
fn skip_rest_goes_to_catcher() {
    let mut c = ChainState::start(3);
    c.step(done(Some(403), None, Flow::SkipRest));
    assert_eq!(c.next, Stage::Catch);
    assert_eq!(c.finish(&vec![]).status, 403);
}

#[test]
fn stop_ends_chain() {
    let mut c = ChainState::start(2);
    c.step(done(None, None, Flow::Continue));
    c.step(done(Some(204), None, Flow::Stop));
    assert_eq!(c.next, Stage::Catch);
    assert_eq!(c.finish(&not_found_page()).status, 204);
}

#[test]
fn failure_becomes_500() {
    let mut c = ChainState::start(1);
    c.step(done(Some(201), None, Flow::Continue));
    c.step(Outcome::Failed);
    assert_eq!(c.next, Stage::Catch);
    let r = c.finish(&vec![]);
    assert_eq!(r.status, 500);
    assert_eq!(r.body, None);
}

#[test]
fn goal_without_hoops() {
    let mut c = ChainState::start(0);
    assert_eq!(c.next, Stage::Goal);
    c.step(done(None, Some("Hello World"), Flow::Continue));
    let r = c.finish(&vec![]);
    assert_eq!(r.status, 200);
    assert_eq!(r.body, Some("Hello World".to_string()));
}

#[test]
fn unmatched_gets_custom_page() {
    let c = ChainState::unmatched();
    let r = c.finish(&not_found_page());
    assert_eq!(r.status, 404);
    assert_eq!(r.body, Some("Custom 404 Error Page".to_string()));
}

#[test]
fn catcher_leaves_success_and_unhandled() {
    let fs = vec![
        Fallback { on_status: 500, status: 503, body: "first".to_string() },
        Fallback { on_status: 500, status: 500, body: "second".to_string() },
    ];
    let ok = catch(Response { status: 200, body: None }, &fs);
    assert_eq!(ok.status, 200);
    assert_eq!(ok.body, None);
    let err = catch(Response { status: 500, body: None }, &fs);
    assert_eq!(err.status, 503);
    assert_eq!(err.body, Some("first".to_string()));
    let other = catch(Response { status: 418, body: Some("tea".to_string()) }, &fs);
    assert_eq!(other.status, 418);
    assert_eq!(other.body, Some("tea".to_string()));
}
