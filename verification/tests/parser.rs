use hex_defense::communication::{TDCommand, parse_command};
use hex_defense::components::TowerType;

#[test]
fn parse_reset() {
    match parse_command("reset") {
        Some(TDCommand::Restart(_)) => {},
        other => panic!("expected restart, got {:?}", other),
    }
}

#[test]
fn parse_reset_with_surrounding_whitespace() {
    match parse_command("  reset \n") {
        Some(TDCommand::Restart(_)) => {},
        other => panic!("expected restart, got {:?}", other),
    }
}

#[test]
fn parse_toggle() {
    match parse_command("toggle 1,2") {
        Some(TDCommand::Toggle(t)) => {
            assert_eq!(t.hex_pos.x, 1);
            assert_eq!(t.hex_pos.y, 2);
        },
        other => panic!("expected toggle, got {:?}", other),
    }
}

#[test]
fn parse_toggle_negative() {
    match parse_command("toggle -3,-14") {
        Some(TDCommand::Toggle(t)) => {
            assert_eq!(t.hex_pos.x, -3);
            assert_eq!(t.hex_pos.y, -14);
        },
        other => panic!("expected toggle, got {:?}", other),
    }
}

#[test]
fn parse_tower_small() {
    match parse_command("tower 0,0 s") {
        Some(TDCommand::Tower(c)) => {
            assert_eq!(c.hex_pos.x, 0);
            assert_eq!(c.hex_pos.y, 0);
            assert_eq!(c.tower_type, TowerType::Small);
        },
        other => panic!("expected tower, got {:?}", other),
    }
}

#[test]
fn parse_tower_medium_and_large() {
    match parse_command("tower 2,-1 m") {
        Some(TDCommand::Tower(c)) => assert_eq!(c.tower_type, TowerType::Medium),
        other => panic!("expected tower, got {:?}", other),
    }
    match parse_command("tower 2,-1 l") {
        Some(TDCommand::Tower(c)) => assert_eq!(c.tower_type, TowerType::Large),
        other => panic!("expected tower, got {:?}", other),
    }
}

#[test]
fn parse_malformed_inputs() {
    assert!(parse_command("").is_none());
    assert!(parse_command("   ").is_none());
    assert!(parse_command("frobnicate").is_none());
    assert!(parse_command("toggle").is_none());
    assert!(parse_command("toggle 1;2").is_none());
    assert!(parse_command("toggle 1,").is_none());
    assert!(parse_command("toggle ,2").is_none());
    assert!(parse_command("toggle a,b").is_none());
    assert!(parse_command("tower 1,2").is_none());
    assert!(parse_command("tower 1,2 x").is_none());
    assert!(parse_command("tower 1,2 ss").is_none());
}

#[test]
fn parse_out_of_range_integers() {
    assert!(parse_command("toggle 99999999999,0").is_none());
    assert!(parse_command("toggle 2147483648,0").is_none());
    match parse_command("toggle 2147483647,-2147483648") {
        Some(TDCommand::Toggle(t)) => {
            assert_eq!(t.hex_pos.x, 2147483647);
            assert_eq!(t.hex_pos.y, -2147483648);
        },
        other => panic!("expected toggle, got {:?}", other),
    }
}

#[test]
fn parse_ignores_trailing_tokens() {
    match parse_command("reset now please") {
        Some(TDCommand::Restart(_)) => {},
        other => panic!("expected restart, got {:?}", other),
    }
    match parse_command("toggle 1,2 extra") {
        Some(TDCommand::Toggle(_)) => {},
        other => panic!("expected toggle, got {:?}", other),
    }
}
