use cerke_matching::ids::AccessToken;
use cerke_matching::types::{Ciurl, TacticsKey, Unit, WhoGoesFirst, MAX_ROUNDS};

#[test]
fn unit_equals_itself() {
    assert_eq!(Unit {}, Unit {});
}

#[test]
fn ciurl_count_counts_face_up_sticks() {
    assert_eq!(Ciurl(false, false, false, false, false).count(), 0);
    assert_eq!(Ciurl(true, false, true, false, true).count(), 3);
    assert_eq!(Ciurl(true, true, true, true, true).count(), 5);
}

#[test]
fn who_goes_first_is_decided_by_its_last_round() {
    let mut rng = rand::thread_rng();
    for _ in 0..200 {
        let w = WhoGoesFirst::new(&mut rng).unwrap();
        assert!(!w.process.is_empty() && w.process.len() <= MAX_ROUNDS);
        let (last, earlier) = w.process.split_last().unwrap();
        for [a, b] in earlier {
            assert_eq!(a.count(), b.count());
        }
        assert_ne!(last[0].count(), last[1].count());
        assert_eq!(w.result, last[0].count() > last[1].count());
    }
}

#[test]
fn mirror_swaps_throws_and_negates_result() {
    let a = Ciurl(true, true, false, false, false);
    let b = Ciurl(true, false, false, false, false);
    let tie = Ciurl(false, true, false, false, false);
    let w = WhoGoesFirst { result: true, process: vec![[tie, b], [a, b]] };
    let m = w.not();
    assert_eq!(m, WhoGoesFirst { result: false, process: vec![[b, tie], [b, a]] });
    assert_eq!(m.not(), w);
    assert_eq!(w.duplicate(), w);
}

#[test]
fn tactics_key_round_trips_through_its_name() {
    let keys = [
        TacticsKey::VictoryAlmostCertain,
        TacticsKey::StrengthenedShaman,
        TacticsKey::FreeLunch,
        TacticsKey::AvoidDefeat,
        TacticsKey::LossAlmostCertain,
        TacticsKey::Neutral,
    ];
    for k in keys {
        assert_eq!(TacticsKey::try_from(k.as_str()), Ok(k));
    }
    assert_eq!(TacticsKey::FreeLunch.as_str(), "free_lunch");
    assert_eq!(TacticsKey::try_from("avoid_defeat"), Ok(TacticsKey::AvoidDefeat));
}

#[test]
fn tactics_key_rejects_unknown_name() {
    match TacticsKey::try_from("all_in") {
        Err(e) => assert_eq!(
            e,
            "unknown tactics name `all_in` found. Please edit cerke_online_backend_rewritten repository."
        ),
        Ok(k) => panic!("unexpected {:?}", k),
    }
}

#[test]
fn access_token_text_round_trips() {
    let text = "67e55044-10b1-426f-9247-bb680e5fe0c8";
    let t = AccessToken::parse_str(text).unwrap();
    assert_eq!(t.0, 0x67e5504410b1426f9247bb680e5fe0c8);
    assert_eq!(t.to_string(), text);
    assert!(AccessToken::parse_str("67e55044").is_none());
    let fresh = AccessToken::new_random();
    assert_eq!(AccessToken::parse_str(&fresh.to_string()), Some(fresh));
}

#[test]
fn tactics_key_names_are_case_sensitive() {
    assert_eq!(
        TacticsKey::try_from("Neutral"),
        Err("unknown tactics name `Neutral` found. Please edit cerke_online_backend_rewritten repository.".to_string())
    );
}

#[test]
fn decide_stops_at_the_first_winning_round() {
    let one = Ciurl(true, false, false, false, false);
    let two = Ciurl(true, true, false, false, false);
    let w = WhoGoesFirst::decide(&vec![[one, one], [one, two], [two, one]]).unwrap();
    assert_eq!(w, WhoGoesFirst { result: false, process: vec![[one, one], [one, two]] });
    let w = WhoGoesFirst::decide(&vec![[two, one]]).unwrap();
    assert_eq!(w, WhoGoesFirst { result: true, process: vec![[two, one]] });
}

#[test]
fn decide_fails_when_every_round_ties() {
    let one = Ciurl(true, false, false, false, false);
    let other = Ciurl(false, false, false, false, true);
    assert!(WhoGoesFirst::decide(&vec![]).is_none());
    assert!(WhoGoesFirst::decide(&vec![[one, other]; MAX_ROUNDS]).is_none());
    // a winning round past the bound does not count
    let mut throws = vec![[one, other]; MAX_ROUNDS];
    throws.push([one, Ciurl(true, true, true, true, true)]);
    assert!(WhoGoesFirst::decide(&throws).is_none());
}
