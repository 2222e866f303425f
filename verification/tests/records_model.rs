use space_cmd::schema::{Agent, Channel, Message};

#[test]
fn test_channel_struct() {
    let ch = Channel {
        channel_id: "ch1".to_string(),
        name: "general".to_string(),
        topic: Some("dev".to_string()),
        created_at: "2025-11-05T12:34:56Z".to_string(),
        pinned_at: None,
    };
    assert_eq!(ch.name, "general");
}

#[test]
fn test_message_struct() {
    let msg = Message {
        message_id: "m1".to_string(),
        channel_id: "ch1".to_string(),
        agent_id: "hailot".to_string(),
        content: "test".to_string(),
        created_at: "2025-11-05T12:34:56Z".to_string(),
    };
    assert_eq!(msg.agent_id, "hailot");
}

#[test]
fn test_agent_struct() {
    let ag = Agent {
        agent_id: "a1".to_string(),
        identity: "zealot".to_string(),
        constitution: None,
        model: "model-x".to_string(),
        role: Some("executor".to_string()),
        spawn_count: 5,
        created_at: "2025-11-05T12:34:56Z".to_string(),
        last_active_at: None,
    };
    assert_eq!(ag.spawn_count, 5);
}
