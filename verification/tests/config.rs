use osc_commands::config::Configuration;

#[test]
fn configuration_keeps_bind_and_port() {
    let c = Configuration::new("0.0.0.0".to_string(), 8000).unwrap();
    assert_eq!(c.bind(), "0.0.0.0");
    assert_eq!(c.port(), 8000);
    assert_eq!(c.listen_address(), "0.0.0.0:8000");
}

#[test]
fn configuration_takes_every_port_number() {
    assert_eq!(Configuration::new("::1".to_string(), 0).unwrap().listen_address(), "::1:0");
    assert_eq!(
        Configuration::new("localhost".to_string(), 65535).unwrap().listen_address(),
        "localhost:65535"
    );
}

#[test]
fn configuration_refuses_what_is_no_port_number() {
    assert!(Configuration::new("0.0.0.0".to_string(), -1).is_none());
    assert!(Configuration::new("0.0.0.0".to_string(), 65536).is_none());
    assert!(Configuration::new("0.0.0.0".to_string(), i32::MIN).is_none());
    assert!(Configuration::new("0.0.0.0".to_string(), i32::MAX).is_none());
}

#[test]
fn templates_are_found_by_address() {
    let mut c = Configuration::new("0.0.0.0".to_string(), 8000).unwrap();
    assert_eq!(c.template("/play"), None);
    c.add_command("/play".to_string(), "echo $0".to_string());
    c.add_command("/stop".to_string(), "killall mplayer".to_string());
    assert_eq!(c.template("/play"), Some(&"echo $0".to_string()));
    assert_eq!(c.template("/stop"), Some(&"killall mplayer".to_string()));
    assert_eq!(c.template("/pla"), None);
    assert_eq!(c.template("/play/"), None);
    c.add_command("/play".to_string(), "true".to_string());
    assert_eq!(c.template("/play"), Some(&"true".to_string()));
}
