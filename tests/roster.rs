use belo::cli::{parse_game_result, VsResult};
use belo::config::Config;
use belo::rating::round_bits;
use belo::player::{is_blank, is_white_space, GameResult, Player};
use belo::system::{AddError, EloSystem, LoadError, RecordError};
use skillratings::glicko2::Glicko2Rating;

fn rating(mean: f64) -> Glicko2Rating {
    Glicko2Rating { rating: mean, deviation: 350.0, volatility: 0.06 }
}

fn player(id: &str, wins: u32, losses: u32, ties: u32, r: Glicko2Rating) -> Player {
    Player { id: id.to_string(), wins, losses, ties, rating: r }
}

fn roster(players: Vec<Player>) -> EloSystem {
    let entries = players.into_iter().map(|p| (p.id.clone(), p)).collect();
    match EloSystem::from_entries(entries) {
        Ok(sys) => sys,
        Err(e) => panic!("refused: {:?}", e),
    }
}

fn find(sys: &EloSystem, id: &str) -> Player {
    sys.to_entries().into_iter().find(|(k, _)| k == id).unwrap().1
}

fn same_player(a: &Player, b: &Player) -> bool {
    a.id == b.id
        && a.wins == b.wins
        && a.losses == b.losses
        && a.ties == b.ties
        && a.rating.rating.to_bits() == b.rating.rating.to_bits()
        && a.rating.deviation.to_bits() == b.rating.deviation.to_bits()
        && a.rating.volatility.to_bits() == b.rating.volatility.to_bits()
}

fn same_roster(a: &EloSystem, b: &EloSystem) -> bool {
    let (ea, eb) = (a.to_entries(), b.to_entries());
    ea.len() == eb.len() && ea.iter().zip(eb.iter()).all(|(x, y)| x.0 == y.0 && same_player(&x.1, &y.1))
}

#[test]
fn added_player_has_no_games_and_default_rating() {
    let mut sys = EloSystem::new();
    assert_eq!(sys.add_player("carol"), Ok(()));
    let info = sys.player_info("carol").unwrap();
    assert_eq!(info.id, "carol");
    assert_eq!((info.wins, info.losses, info.ties), (0, 0, 0));
    assert_eq!(info.rating, 1500);
    let p = find(&sys, "carol");
    assert_eq!(p.rating.rating, 1500.0);
    assert_eq!(p.rating.deviation, 350.0);
    assert_eq!(p.rating.volatility, 0.06);
}

#[test]
fn adding_twice_keeps_the_roster_size() {
    let mut sys = EloSystem::new();
    assert_eq!(sys.add_player("dave"), Ok(()));
    assert_eq!(sys.len(), 1);
    assert_eq!(sys.add_player("dave"), Err(AddError::DuplicateId));
    assert_eq!(sys.len(), 1);
}

#[test]
fn blank_ids_are_refused() {
    let mut sys = EloSystem::new();
    assert_eq!(sys.add_player(""), Err(AddError::BlankId));
    assert_eq!(sys.add_player("  \t\n"), Err(AddError::BlankId));
    assert_eq!(sys.add_player("\u{A0}"), Err(AddError::BlankId));
    assert_eq!(sys.len(), 0);
    assert!(is_blank(" \r "));
    assert!(!is_blank(" x "));
    assert_eq!(sys.add_player(" x "), Ok(()));
}

#[test]
fn unknown_player_leaves_roster_unchanged() {
    let mut sys = EloSystem::new();
    sys.add_player("alice").unwrap();
    sys.add_player("bob").unwrap();
    sys.record_game("alice", GameResult::Tie, "bob").unwrap();
    let before = roster(sys.to_entries().into_iter().map(|e| e.1).collect());
    assert_eq!(
        sys.record_game("alice", GameResult::Player1Wins, "zed").err(),
        Some(RecordError::UnknownPlayer)
    );
    assert_eq!(
        sys.record_game("zed", GameResult::Player2Wins, "bob").err(),
        Some(RecordError::UnknownPlayer)
    );
    assert!(same_roster(&before, &sys));
}

#[test]
fn self_play_leaves_roster_unchanged() {
    let mut sys = EloSystem::new();
    sys.add_player("alice").unwrap();
    let before = roster(sys.to_entries().into_iter().map(|e| e.1).collect());
    assert_eq!(
        sys.record_game("alice", GameResult::Player1Wins, "alice").err(),
        Some(RecordError::SelfPlay)
    );
    assert!(same_roster(&before, &sys));
}

#[test]
fn a_win_counts_and_narrows_deviations() {
    let mut sys = EloSystem::new();
    sys.add_player("a").unwrap();
    sys.add_player("b").unwrap();
    let report = sys.record_game("a", GameResult::Player1Wins, "b").unwrap();
    let (a, b) = (find(&sys, "a"), find(&sys, "b"));
    assert_eq!((a.wins, a.losses, a.ties), (1, 0, 0));
    assert_eq!((b.wins, b.losses, b.ties), (0, 1, 0));
    assert!(a.rating.deviation <= 350.0);
    assert!(b.rating.deviation <= 350.0);
    assert_eq!(report.first.id, "a");
    assert_eq!(report.second.id, "b");
    assert_eq!(report.first.before.rating, 1500.0);
    assert_eq!(report.first.after.rating, a.rating.rating);
    assert_eq!(report.second.after.rating, b.rating.rating);
}

#[test]
fn a_second_player_win_counts_for_the_second() {
    let mut sys = EloSystem::new();
    sys.add_player("a").unwrap();
    sys.add_player("b").unwrap();
    sys.record_game("a", GameResult::Player2Wins, "b").unwrap();
    let (a, b) = (find(&sys, "a"), find(&sys, "b"));
    assert_eq!((a.wins, a.losses, a.ties), (0, 1, 0));
    assert_eq!((b.wins, b.losses, b.ties), (1, 0, 0));
    assert!(b.rating.rating > 1500.0);
    assert!(a.rating.rating < 1500.0);
}

#[test]
fn a_draw_between_equals_keeps_means() {
    let mut sys = EloSystem::new();
    sys.add_player("a").unwrap();
    sys.add_player("b").unwrap();
    sys.record_game("a", GameResult::Tie, "b").unwrap();
    let (a, b) = (find(&sys, "a"), find(&sys, "b"));
    assert_eq!((a.wins, a.losses, a.ties), (0, 0, 1));
    assert_eq!((b.wins, b.losses, b.ties), (0, 0, 1));
    assert!((a.rating.rating - 1500.0).abs() < 1e-9);
    assert!((b.rating.rating - 1500.0).abs() < 1e-9);
    assert!(a.rating.deviation < 350.0);
    assert!((a.rating.deviation - b.rating.deviation).abs() < 1e-9);
}

#[test]
fn top_two_of_three() {
    let sys = roster(vec![
        player("p1500", 0, 0, 0, rating(1500.0)),
        player("p1600", 0, 0, 0, rating(1600.0)),
        player("p1400", 0, 0, 0, rating(1400.0)),
    ]);
    let top = sys.get_top_n(Some(2));
    let ids: Vec<&str> = top.iter().map(|p| p.id.as_str()).collect();
    assert_eq!(ids, vec!["p1600", "p1500"]);
}

#[test]
fn top_defaults_to_five_and_stops_at_roster_size() {
    let mut players = Vec::new();
    for i in 0..7 {
        players.push(player(&format!("p{}", i), 0, 0, 0, rating(1000.0 + 100.0 * i as f64)));
    }
    let sys = roster(players);
    let top = sys.get_top_n(None);
    let ids: Vec<&str> = top.iter().map(|p| p.id.as_str()).collect();
    assert_eq!(ids, vec!["p6", "p5", "p4", "p3", "p2"]);
    assert_eq!(sys.get_top_n(Some(20)).len(), 7);
    assert_eq!(sys.get_top_n(Some(0)).len(), 0);
    assert_eq!(EloSystem::new().get_top_n(Some(3)).len(), 0);
}

#[test]
fn top_orders_negative_means() {
    let sys = roster(vec![
        player("low", 0, 0, 0, rating(-20.5)),
        player("lower", 0, 0, 0, rating(-300.0)),
        player("zero", 0, 0, 0, rating(0.0)),
    ]);
    let ids: Vec<String> = sys.get_top_n(Some(3)).into_iter().map(|p| p.id).collect();
    assert_eq!(ids, vec!["zero", "low", "lower"]);
}

#[test]
fn stored_roster_round_trips() {
    let mut sys = EloSystem::new();
    for id in ["x", "y", "z"] {
        sys.add_player(id).unwrap();
    }
    sys.record_game("x", GameResult::Player1Wins, "y").unwrap();
    sys.record_game("y", GameResult::Tie, "z").unwrap();
    sys.record_game("z", GameResult::Player1Wins, "x").unwrap();
    let back = EloSystem::from_entries(sys.to_entries()).unwrap();
    assert!(same_roster(&sys, &back));
    assert_eq!(back.len(), 3);
    let y = find(&back, "y");
    assert_eq!((y.wins, y.losses, y.ties), (0, 1, 1));
}

#[test]
fn corrupt_entries_are_refused() {
    let good = player("a", 0, 0, 0, rating(1500.0));
    let mismatch = vec![("b".to_string(), good.clone())];
    assert_eq!(EloSystem::from_entries(mismatch).err(), Some(LoadError::KeyMismatch));
    let nan = player("a", 0, 0, 0, rating(f64::NAN));
    assert_eq!(
        EloSystem::from_entries(vec![("a".to_string(), nan)]).err(),
        Some(LoadError::InvalidRating)
    );
    let inf = player("a", 0, 0, 0, rating(f64::INFINITY));
    assert_eq!(
        EloSystem::from_entries(vec![("a".to_string(), inf)]).err(),
        Some(LoadError::InvalidRating)
    );
    let flat = player("a", 0, 0, 0, Glicko2Rating { rating: 1500.0, deviation: 0.0, volatility: 0.06 });
    assert_eq!(
        EloSystem::from_entries(vec![("a".to_string(), flat)]).err(),
        Some(LoadError::InvalidRating)
    );
    let still = player("a", 0, 0, 0, Glicko2Rating { rating: 1500.0, deviation: 350.0, volatility: -0.06 });
    assert_eq!(
        EloSystem::from_entries(vec![("a".to_string(), still)]).err(),
        Some(LoadError::InvalidRating)
    );
    let twice = vec![("a".to_string(), good.clone()), ("a".to_string(), good.clone())];
    assert_eq!(EloSystem::from_entries(twice).err(), Some(LoadError::DuplicateId));
}

#[test]
fn full_counter_is_refused() {
    let mut sys = roster(vec![
        player("a", u32::MAX, 0, 0, rating(1500.0)),
        player("b", 0, 0, 0, rating(1500.0)),
    ]);
    assert_eq!(
        sys.record_game("a", GameResult::Player1Wins, "b").err(),
        Some(RecordError::CounterLimit)
    );
    assert_eq!(find(&sys, "b").losses, 0);
    assert!(sys.record_game("a", GameResult::Tie, "b").is_ok());
}

#[test]
fn info_rounds_half_away_from_zero() {
    let sys = roster(vec![
        player("up", 3, 2, 1, rating(1600.5)),
        player("down", 0, 0, 0, rating(1599.4)),
        player("neg", 0, 0, 0, rating(-2.5)),
    ]);
    let up = sys.player_info("up").unwrap();
    assert_eq!((up.rating, up.wins, up.losses, up.ties), (1601, 3, 2, 1));
    assert_eq!(sys.player_info("down").unwrap().rating, 1599);
    assert_eq!(sys.player_info("neg").unwrap().rating, -3);
    assert!(sys.player_info("none").is_none());
}

#[test]
fn alice_beats_bob() {
    let mut sys = EloSystem::new();
    sys.add_player("alice").unwrap();
    sys.add_player("bob").unwrap();
    sys.record_game("alice", GameResult::Player1Wins, "bob").unwrap();
    let (alice, bob) = (find(&sys, "alice"), find(&sys, "bob"));
    assert_eq!(alice.wins, 1);
    assert_eq!(bob.losses, 1);
    assert!(alice.rating.rating > 1500.0);
    assert!(bob.rating.rating < 1500.0);
    assert!(alice.rating.deviation <= 350.0);
    assert!(bob.rating.deviation <= 350.0);
    assert_eq!(sys.player_info("alice").unwrap().rating, 1662);
    assert_eq!(sys.player_info("bob").unwrap().rating, 1338);
}

#[test]
fn result_words() {
    assert_eq!(parse_game_result("gt"), Some(GameResult::Player1Wins));
    assert_eq!(parse_game_result(">"), Some(GameResult::Player1Wins));
    assert_eq!(parse_game_result("lt"), Some(GameResult::Player2Wins));
    assert_eq!(parse_game_result("<"), Some(GameResult::Player2Wins));
    assert_eq!(parse_game_result("eq"), Some(GameResult::Tie));
    assert_eq!(parse_game_result("=="), Some(GameResult::Tie));
    assert_eq!(parse_game_result("ge"), None);
    assert_eq!(parse_game_result(""), None);
    assert_eq!(VsResult::Gt.game_result(), GameResult::Player1Wins);
    assert_eq!(VsResult::Lt.game_result(), GameResult::Player2Wins);
    assert_eq!(VsResult::Eq.game_result(), GameResult::Tie);
}

#[test]
fn config_activation() {
    let mut c = Config::new();
    assert!(c.active_project.is_none());
    assert!(!c.deactivate());
    c.activate("proj");
    assert_eq!(c.active_project.as_deref(), Some("proj"));
    assert!(c.deactivate());
    assert!(c.active_project.is_none());
}

#[test]
fn applied_game_stores_given_ratings() {
    let mut sys = EloSystem::new();
    sys.add_player("a").unwrap();
    sys.add_player("b").unwrap();
    let (ra, rb) = (rating(1510.25), rating(1490.75));
    let report = sys.apply_game("a", GameResult::Player2Wins, "b", ra, rb).unwrap();
    assert_eq!(report.first.after.rating, 1510.25);
    assert_eq!(report.second.before.rating, 1500.0);
    let (a, b) = (find(&sys, "a"), find(&sys, "b"));
    assert_eq!((a.losses, b.wins), (1, 1));
    assert_eq!(a.rating.rating, 1510.25);
    assert_eq!(b.rating.rating, 1490.75);
}

#[test]
fn applied_game_refuses_invalid_ratings() {
    let mut sys = EloSystem::new();
    sys.add_player("a").unwrap();
    sys.add_player("b").unwrap();
    let before = roster(sys.to_entries().into_iter().map(|e| e.1).collect());
    let bad = Glicko2Rating { rating: f64::NAN, deviation: 300.0, volatility: 0.06 };
    assert_eq!(
        sys.apply_game("a", GameResult::Tie, "b", rating(1500.0), bad).err(),
        Some(RecordError::RatingOutOfRange)
    );
    assert_eq!(
        sys.apply_game("a", GameResult::Tie, "a", rating(1500.0), rating(1500.0)).err(),
        Some(RecordError::SelfPlay)
    );
    assert!(same_roster(&before, &sys));
}

#[test]
fn white_space_characters() {
    for c in ['\t', '\n', '\u{0B}', '\u{0C}', '\r', ' ', '\u{85}', '\u{A0}', '\u{1680}', '\u{2000}', '\u{200A}', '\u{2028}', '\u{2029}', '\u{202F}', '\u{205F}', '\u{3000}'] {
        assert!(is_white_space(c));
        assert_eq!(is_white_space(c), c.is_whitespace());
    }
    for c in ['a', '0', '_', '\u{200B}', '\u{1F}', '\u{FEFF}'] {
        assert!(!is_white_space(c));
        assert_eq!(is_white_space(c), c.is_whitespace());
    }
}

#[test]
fn rounding_matches_round_and_cast() {
    let values = [
        0.0, -0.0, 0.4, 0.5, -0.5, 1.5, 2.5, -2.5, 0.49999999999999994, 1499.5, 1500.49,
        -1337.7, 4503599627370497.0, 9007199254740993.0, 1e-310, -1e-310, 9.2e18, 9.3e18,
        -9.2e18, -9.3e18, 1e300, -1e300, f64::INFINITY, f64::NEG_INFINITY, f64::NAN,
        f64::MAX, f64::MIN_POSITIVE,
    ];
    for x in values {
        assert_eq!(round_bits(x.to_bits()), x.round() as i64, "value {}", x);
    }
    assert_eq!(round_bits(1500.0f64.to_bits()), 1500);
    assert_eq!(round_bits(2.5f64.to_bits()), 3);
    assert_eq!(round_bits((-2.5f64).to_bits()), -3);
}
