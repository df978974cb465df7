use agent_platform_desktop::agenda::{horizon_label, Message, ProjectSummary, State, Write};

fn project(id: i64, name: &str) -> ProjectSummary {
    ProjectSummary { id, name: name.into() }
}

#[test]
fn the_first_project_opens_itself() {
    let mut state = State::new();
    let fx = state.update(Message::ProjectsLoaded(Ok(vec![project(7, "a"), project(9, "b")])));
    assert_eq!(state.project, Some(7));
    assert!(state.loading, "the dashboard fetch is in flight");
    assert_eq!(fx.load, Some((7, "day".to_string())));
}

#[test]
fn a_chosen_project_survives_a_refresh() {
    let mut state = State::new();
    state.project = Some(9);
    let _ = state.update(Message::ProjectsLoaded(Ok(vec![project(7, "a"), project(9, "b")])));
    assert_eq!(state.project, Some(9));
}

#[test]
fn a_vanished_project_falls_back_to_the_first() {
    let mut state = State::new();
    state.project = Some(42);
    let _ = state.update(Message::ProjectsLoaded(Ok(vec![project(7, "a")])));
    assert_eq!(state.project, Some(7));
}

#[test]
fn switching_horizon_clears_nothing_but_refetches() {
    let mut state = State::new();
    state.project = Some(1);
    let fx = state.update(Message::SetHorizon("week".into()));
    assert_eq!(state.horizon, "week");
    assert!(state.loading);
    assert_eq!(fx.load, Some((1, "week".to_string())));
}

#[test]
fn the_same_horizon_twice_fetches_once() {
    let mut state = State::new();
    state.project = Some(1);
    let fx = state.update(Message::SetHorizon("day".into()));
    assert_eq!(fx.load, None);
    assert!(!state.loading);
}

#[test]
fn a_failed_fetch_surfaces_and_dismisses() {
    let mut state = State::new();
    state.loading = true;
    let _ = state.update(Message::DashboardLoaded(Err("boom".into())));
    assert!(!state.loading);
    assert_eq!(state.error.as_deref(), Some("boom"));
    let _ = state.update(Message::Dismiss);
    assert_eq!(state.error, None);
}

#[test]
fn a_review_runs_only_with_a_project() {
    let mut state = State::new();
    let fx = state.update(Message::RunReview);
    assert!(fx.write.is_none());
    assert!(!state.busy);
    state.project = Some(3);
    let fx = state.update(Message::RunReview);
    assert!(matches!(fx.write, Some(Write::RunReview(3))));
    assert!(state.busy);
}

#[test]
fn horizons_have_labels() {
    assert_eq!(horizon_label("day"), "Today");
    assert_eq!(horizon_label("week"), "This week");
}
