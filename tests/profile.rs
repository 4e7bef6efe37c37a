use arcade_markets::profile::{
    execute_operation, register_profile, update_name, update_stats, validate_name, Operation,
    OperationResult, PlayerProfile, ProfileError,
};

fn invalid(r: Result<(), ProfileError>) -> String {
    match r {
        Err(ProfileError::InvalidName(m)) => m,
        other => panic!("expected an invalid name, got {:?}", other),
    }
}

fn profile(name: &str) -> PlayerProfile {
    PlayerProfile { name: name.to_string(), created_at: 5, xp: 10, games_played: 2, wins: 1 }
}

fn error_text(r: OperationResult) -> String {
    match r {
        OperationResult::Error(m) => m,
        other => panic!("expected an error, got {:?}", other),
    }
}

#[test]
fn names_are_checked_after_trimming() {
    assert!(validate_name("  Ace  ").is_ok());
    assert!(validate_name("Zoë_9-x y").is_ok());
    assert_eq!(invalid(validate_name("  ab  ")), "Name must be at least 3 characters");
    assert_eq!(invalid(validate_name("abcdefghijklmnopqrstu")), "Name must be at most 20 characters");
    assert!(validate_name("abcdefghijklmnopqrst").is_ok());
    assert_eq!(
        invalid(validate_name("bad!name")),
        "Name can only contain letters, numbers, spaces, hyphens, and underscores"
    );
}

#[test]
fn register_trims_and_refuses_a_second_profile() {
    let p = register_profile(false, "  Ace  ", 77).unwrap();
    assert_eq!(p.name, "Ace");
    assert_eq!((p.created_at, p.xp, p.games_played, p.wins), (77, 0, 0, 0));
    assert!(matches!(register_profile(true, "Ace", 78), Err(ProfileError::ProfileExists)));
    assert!(matches!(register_profile(true, "A", 78), Err(ProfileError::InvalidName(_))));
}

#[test]
fn stats_saturate() {
    let mut p = profile("Ace");
    p.xp = u64::MAX - 1;
    let q = update_stats(Some(p), 5, 3, 4).unwrap();
    assert_eq!((q.xp, q.games_played, q.wins), (u64::MAX, 5, 5));
    assert!(matches!(update_stats(None, 1, 1, 1), Err(ProfileError::ProfileNotFound)));
}

#[test]
fn rename_checks_name_first() {
    let q = update_name(Some(profile("Ace")), " Bee ").unwrap();
    assert_eq!(q.name, "Bee");
    assert_eq!((q.created_at, q.xp), (5, 10));
    assert!(matches!(update_name(None, "x"), Err(ProfileError::InvalidName(_))));
    assert!(matches!(update_name(None, "Bee"), Err(ProfileError::ProfileNotFound)));
}

#[test]
fn requests_reply_with_error_texts() {
    let (r, stored) = execute_operation(None, Operation::Register { name: "Ace".to_string() }, 9);
    assert!(matches!(r, OperationResult::ProfileCreated));
    assert_eq!(stored.unwrap().name, "Ace");
    let (r, stored) = execute_operation(Some(profile("Ace")), Operation::Register { name: "Ace".to_string() }, 9);
    assert_eq!(error_text(r), "Profile already exists for this owner");
    assert!(stored.is_none());
    let (r, _) = execute_operation(None, Operation::Register { name: "A".to_string() }, 9);
    assert_eq!(error_text(r), "Invalid name: Name must be at least 3 characters");
    let op = Operation::UpdateStats { xp_delta: 1, games_delta: 1, wins_delta: 0 };
    let (r, _) = execute_operation(None, op, 9);
    assert_eq!(error_text(r), "Profile not found");
    let op = Operation::UpdateStats { xp_delta: 1, games_delta: 1, wins_delta: 0 };
    let (r, stored) = execute_operation(Some(profile("Ace")), op, 9);
    assert!(matches!(r, OperationResult::StatsUpdated { new_xp: 11, new_games: 3, new_wins: 1 }));
    assert_eq!(stored.unwrap().xp, 11);
    let (r, stored) = execute_operation(Some(profile("Ace")), Operation::UpdateName { name: "Cee".to_string() }, 9);
    assert!(matches!(r, OperationResult::ProfileUpdated));
    assert_eq!(stored.unwrap().name, "Cee");
    assert_eq!(ProfileError::StateError("disk".to_string()).message(), "State error: disk");
    assert_eq!(ProfileError::Unauthorized.message(), "Unauthorized: only the owner can modify this profile");
}
