use room_relay::startup::{startup_plan, StartupPlan};

#[test]
fn bootnode_listens_everywhere_and_dials_nobody() {
    assert_eq!(
        startup_plan(true, Some("/ip4/10.0.0.1/tcp/58455".to_string())),
        StartupPlan {
            key_file: "bootnode_key.json".to_string(),
            listen_on: "/ip4/0.0.0.0/tcp/58455".to_string(),
            dial: None,
            serve_clients: false,
        }
    );
}

#[test]
fn ordinary_node_listens_locally_and_dials_what_it_is_given() {
    assert_eq!(
        startup_plan(false, Some("/ip4/10.0.0.1/tcp/58455".to_string())),
        StartupPlan {
            key_file: "node_key.json".to_string(),
            listen_on: "/ip4/127.0.0.1/tcp/0".to_string(),
            dial: Some("/ip4/10.0.0.1/tcp/58455".to_string()),
            serve_clients: true,
        }
    );
    assert_eq!(startup_plan(false, None).dial, None);
}
