use space_cmd::app::{stream_title, AppState};
use space_cmd::records::Agent;

#[test]
fn all_stream_title_includes_all_tag() {
    let mut state = AppState::new();
    state.all_stream = true;
    assert_eq!(stream_title(&state, 42), "Stream (all, 42)");
}

#[test]
fn scoped_stream_title_names_the_agent() {
    let mut state = AppState::new();
    state.agents = vec![Agent {
        id: "a1".to_string(),
        identity: "zealot".to_string(),
        agent_type: "ai".to_string(),
        model: None,
        constitution: None,
        avatar_path: None,
        color: None,
        created_at: "t".to_string(),
        archived_at: None,
    }];
    state.active_agent_idx = Some(0);
    assert_eq!(stream_title(&state, 3), "Stream (zealot, 3)");
    state.active_agent_idx = None;
    assert_eq!(stream_title(&state, 3), "Stream (3)");
}
