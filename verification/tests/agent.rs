use bg_driver::agent::{AgentLoop, Phase, MAX_ROUNDS};
use bg_driver::driver::{Action, ActionResult};

#[test]
fn done_first_gives_one_step() {
    let mut l = AgentLoop::new();
    assert!(l.awaits_decision());
    assert!(l.decide(Phase::Done).is_none());
    assert!(!l.awaits_decision());
    let h = l.into_history();
    assert_eq!(h.len(), 1);
    assert_eq!(h[0].phase, Phase::Done);
    assert!(h[0].action.is_none() && h[0].result.is_none());
}

#[test]
fn rounds_record_screenshots() {
    let mut l = AgentLoop::new();
    let a = l.decide(Phase::Think);
    assert!(matches!(a, Some(Action::Screenshot)));
    assert!(l.awaits_result());
    assert!(!l.awaits_decision());
    l.observe(ActionResult::Success);
    assert!(l.awaits_decision());
    assert!(matches!(l.decide(Phase::Act), Some(Action::Screenshot)));
    l.observe(ActionResult::Failure("boom".into()));
    assert!(l.decide(Phase::Done).is_none());
    let h = l.into_history();
    assert_eq!(h.len(), 3);
    assert_eq!(h[0].phase, Phase::Think);
    assert_eq!(h[1].phase, Phase::Act);
    assert!(matches!(h[1].result, Some(ActionResult::Failure(ref m)) if m == "boom"));
    assert_eq!(h[2].phase, Phase::Done);
}

#[test]
fn run_stops_after_max_rounds() {
    let mut l = AgentLoop::new();
    let mut n = 0;
    while l.awaits_decision() {
        l.decide(Phase::Observe);
        l.observe(ActionResult::Success);
        n += 1;
    }
    assert_eq!(n, MAX_ROUNDS);
    assert!(!l.awaits_result());
    assert_eq!(l.into_history().len(), 100);
}
