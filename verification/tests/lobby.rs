use vu_deploy::lobby::{Timestamp, VuLobby, VuLobbyStatus};

fn at(seconds: i64, nanoseconds: u32) -> Timestamp {
    Timestamp { seconds, nanoseconds }
}

#[test]
fn lobby_expiration_test() {
    let mut lobby = VuLobby::new_at(1, at(1_000, 500));
    assert_eq!(lobby.expiry_time(), at(1_300, 500));
    assert!(!lobby.is_expired_at(at(1_300, 499)));
    assert!(lobby.is_expired_at(at(1_300, 500)));
    assert!(lobby.is_expired_at(at(1_301, 0)));

    assert!(lobby.extend_expiry_at(at(1_200, 7)));
    assert_eq!(lobby.expiry_time(), at(1_500, 7));
    assert!(!lobby.is_expired_at(at(1_400, 0)));

    assert!(!lobby.extend_expiry_at(at(1_500, 7)));
    assert_eq!(lobby.expiry_time(), at(1_500, 7));
    assert!(!lobby.extend_expiry_at(at(2_000, 0)));
    assert_eq!(lobby.expiry_time(), at(1_500, 7));
}

#[test]
fn new_lobby_waits_for_four_players_for_five_minutes() {
    assert_eq!(VuLobby::DEFAULT_MAX_PLAYERS, 4);
    assert_eq!(VuLobby::DEFAULT_EXPIRY_TIME, 5);
    let lobby = VuLobby::new_at(42, at(10, 20));
    assert_eq!(lobby.id(), 42);
    assert_eq!(lobby.status(), VuLobbyStatus::Waiting);
    assert!(lobby.players().is_empty());
    assert_eq!(lobby.max_players(), 4);
    assert_eq!(lobby.creation_time(), at(10, 20));
    assert_eq!(lobby.expiry_time(), at(310, 20));
}

#[test]
fn lobby_made_now_runs_for_five_minutes() {
    let mut lobby = VuLobby::new();
    let made = lobby.creation_time();
    assert_eq!(lobby.expiry_time(), at(made.seconds + 300, made.nanoseconds));
    assert!(made.seconds > 1_600_000_000);
    assert!(!lobby.is_expired());
    assert!(lobby.extend_expiry());
    assert!(lobby.expiry_time().is_at_or_after(&at(made.seconds + 300, made.nanoseconds)));
    assert_eq!(lobby.status(), VuLobbyStatus::Waiting);
    assert!(lobby.players().is_empty());
}

#[test]
fn random_lobby_ids_are_version_four() {
    let first = VuLobby::new().id();
    let second = VuLobby::new().id();
    assert_ne!(first, second);
    for id in [first, second] {
        assert_eq!((id >> 76) & 0xF, 4);
        assert_eq!((id >> 62) & 0x3, 2);
    }
}

#[test]
fn players_join_in_order_until_the_lobby_is_full() {
    let mut lobby = VuLobby::new_at(1, at(0, 0));
    assert!(lobby.add_player(10));
    assert!(lobby.add_player(20));
    assert!(lobby.add_player(10));
    assert_eq!(lobby.players(), &vec![10, 20]);
    assert!(lobby.add_player(30));
    assert!(lobby.add_player(40));
    assert_eq!(lobby.players(), &vec![10, 20, 30, 40]);
    assert!(!lobby.add_player(50));
    assert!(!lobby.add_player(10));
    assert_eq!(lobby.players(), &vec![10, 20, 30, 40]);
}

#[test]
fn players_leave_and_the_others_keep_their_order() {
    let mut lobby = VuLobby::new_at(1, at(0, 0));
    for id in [10, 20, 30, 40] {
        lobby.add_player(id);
    }
    assert!(lobby.remove_player(20));
    assert_eq!(lobby.players(), &vec![10, 30, 40]);
    assert!(!lobby.remove_player(20));
    assert!(!lobby.remove_player(99));
    assert!(lobby.add_player(50));
    assert_eq!(lobby.players(), &vec![10, 30, 40, 50]);
    assert!(lobby.remove_player(10));
    assert!(lobby.remove_player(50));
    assert_eq!(lobby.players(), &vec![30, 40]);
}

#[test]
fn moments_are_ordered_by_seconds_then_nanoseconds() {
    assert!(at(5, 0).is_at_or_after(&at(5, 0)));
    assert!(at(5, 1).is_at_or_after(&at(5, 0)));
    assert!(!at(5, 0).is_at_or_after(&at(5, 1)));
    assert!(at(6, 0).is_at_or_after(&at(5, 999_999_999)));
    assert!(!at(-1, 999_999_999).is_at_or_after(&at(0, 0)));
}
