use airp_core::agent::{default_max_steps, default_wall_clock_secs, EchoTool, LoopDecision, LoopState, StopReason};

#[test]
fn max_steps_one_is_single_turn() {
    assert_eq!(default_max_steps(), 1);
}

#[test]
fn defaults_and_echo_meta() {
    assert_eq!(default_wall_clock_secs(), 300);
    let m = EchoTool.meta();
    assert_eq!(m.name, "echo");
}

#[test]
fn three_step_plan_converges() {
    let mut s = LoopState::new(3, None);
    match s.next(false, false) {
        LoopDecision::Run { step, action } => {
            assert_eq!(step, 1);
            assert_eq!(action, airp_core::agent::PlanStep::CallTool { tool: "echo".to_string() });
        }
        other => panic!("unexpected {:?}", other),
    }
    s.tool_done();
    assert_eq!(
        s.next(false, false),
        LoopDecision::Run { step: 2, action: airp_core::agent::PlanStep::Generate }
    );
    s.generation_done(5);
    assert_eq!(
        s.next(false, false),
        LoopDecision::Stop { reason: StopReason::Converged, steps_taken: 2, tokens_estimated: 5 }
    );
}

#[test]
fn single_turn_converges() {
    let mut s = LoopState::new(0, None);
    assert_eq!(
        s.next(false, false),
        LoopDecision::Run { step: 1, action: airp_core::agent::PlanStep::Generate }
    );
    s.generation_done(7);
    assert_eq!(
        s.next(false, false),
        LoopDecision::Stop { reason: StopReason::Converged, steps_taken: 1, tokens_estimated: 7 }
    );
}

#[test]
fn finish_converges_even_when_the_budget_is_spent() {
    let mut s = LoopState::new(2, Some(3));
    assert!(matches!(s.next(false, false), LoopDecision::Run { step: 1, .. }));
    s.tool_done();
    assert_eq!(
        s.next(false, false),
        LoopDecision::Run { step: 2, action: airp_core::agent::PlanStep::Generate }
    );
    s.generation_done(10);
    assert_eq!(
        s.next(false, false),
        LoopDecision::Stop { reason: StopReason::Converged, steps_taken: 2, tokens_estimated: 10 }
    );
}

#[test]
fn gates_in_order() {
    let mut s = LoopState::new(3, Some(0));
    assert_eq!(
        s.next(true, true),
        LoopDecision::Stop { reason: StopReason::Cancelled, steps_taken: 0, tokens_estimated: 0 }
    );
    let mut s2 = LoopState::new(3, Some(0));
    assert_eq!(
        s2.next(false, true),
        LoopDecision::Stop { reason: StopReason::WallClock, steps_taken: 0, tokens_estimated: 0 }
    );
    let mut s3 = LoopState::new(3, Some(0));
    assert_eq!(
        s3.next(false, false),
        LoopDecision::Stop { reason: StopReason::TokenBudget, steps_taken: 0, tokens_estimated: 0 }
    );
    let mut s4 = LoopState::new(3, None);
    assert_eq!(
        s4.generation_failed(),
        LoopDecision::Stop { reason: StopReason::UpstreamError, steps_taken: 0, tokens_estimated: 0 }
    );
}
