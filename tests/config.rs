use mjreplay::options::{ReplayApp, GUI_PORT};
use mjreplay::seats::{Agent, AgentRegistry, ConfigError, SEAT};

fn args(a: &[&str]) -> Vec<String> {
    a.iter().map(|s| s.to_string()).collect()
}

fn registry() -> AgentRegistry {
    AgentRegistry::new(args(&["Tiitoitsu", "Random"]))
}

#[test]
fn unconfigured_seats_get_nop() {
    let seats = registry().assign_seats(&args(&["", "", "", ""])).unwrap();
    assert_eq!(seats.len(), SEAT);
    assert!(seats.iter().all(|a| a.is_nop()));
}

#[test]
fn named_seats_get_their_agent() {
    let seats = registry().assign_seats(&args(&["", "Random", "", "Tiitoitsu"])).unwrap();
    assert_eq!(seats.len(), 4);
    assert!(seats[0].is_nop());
    assert!(matches!(&seats[1], Agent::Named(n) if n == "Random"));
    assert!(seats[2].is_nop());
    assert!(matches!(&seats[3], Agent::Named(n) if n == "Tiitoitsu"));
}

#[test]
fn unknown_agent_is_a_config_error() {
    let r = registry().assign_seats(&args(&["", "Nobody", "", ""]));
    assert!(matches!(r, Err(ConfigError::UnknownAgent)));
    assert!(matches!(registry().create(&"Nobody".to_string()), Err(ConfigError::UnknownAgent)));
    assert!(registry().clone_default().is_nop());
}

#[test]
fn options_are_read() {
    let app = ReplayApp::new(args(&["-f", "logs", "-s", "0,1", "-d", "-2", "Random", "-gui-port", "8080"]))
        .unwrap();
    assert_eq!(app.file_path, "logs");
    assert_eq!(app.skip, "0,1");
    assert!(app.debug);
    assert_eq!(app.gui_port, 8080);
    assert_eq!(app.names, args(&["", "", "Random", ""]));
}

#[test]
fn default_port_and_names() {
    let app = ReplayApp::new(args(&["-f", "a.json"])).unwrap();
    assert_eq!(app.gui_port, GUI_PORT);
    assert!(!app.debug);
    assert_eq!(app.skip, "");
    assert_eq!(app.names, args(&["", "", "", ""]));
}

#[test]
fn option_errors() {
    assert!(matches!(ReplayApp::new(args(&[])), Err(ConfigError::NoInputFile)));
    assert!(matches!(ReplayApp::new(args(&["-x"])), Err(ConfigError::UnknownOption)));
    assert!(matches!(ReplayApp::new(args(&["-f"])), Err(ConfigError::MissingValue)));
    assert!(matches!(
        ReplayApp::new(args(&["-f", "a", "-gui-port", "70000x"])),
        Err(ConfigError::InvalidPort)
    ));
    assert!(matches!(
        ReplayApp::new(args(&["-f", "a", "-gui-port", "4294967296"])),
        Err(ConfigError::InvalidPort)
    ));
    assert!(matches!(ReplayApp::new(args(&["-d"])), Err(ConfigError::NoInputFile)));
}
