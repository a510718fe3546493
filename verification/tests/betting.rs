use karera_platform::{AccountId, Error, KareraPlatform, RaceStatus};

fn account(tag: u8) -> AccountId {
    AccountId::new([tag; 32])
}

fn pending() -> KareraPlatform {
    let mut platform = KareraPlatform::new(account(1));
    platform.create_race().unwrap();
    platform
}

#[test]
fn a_bet_is_recorded_and_reported() {
    let mut platform = pending();
    let event = platform.place_bet(&account(2), 0, 3, 250).unwrap();
    assert_eq!(event.bettor, account(2));
    assert_eq!(event.race_id, 0);
    assert_eq!(event.horse_id, 3);
    assert_eq!(event.amount, 250);
    let bets = platform.get_bets(&account(2), 0);
    assert_eq!(bets.len(), 1);
    assert_eq!(bets[0].bettor, account(2));
    assert_eq!(bets[0].race_id, 0);
    assert_eq!(bets[0].horse_id, 3);
    assert_eq!(bets[0].amount, 250);
    assert_eq!(platform.get_total_pool(0), 250);
    assert_eq!(platform.get_horse_pool(0, 3), 250);
    assert_eq!(platform.get_horse_pool(0, 2), 0);
}

#[test]
fn bets_of_a_bettor_keep_their_order() {
    let mut platform = pending();
    platform.place_bet(&account(2), 0, 3, 10).unwrap();
    platform.place_bet(&account(3), 0, 3, 7).unwrap();
    platform.place_bet(&account(2), 0, 0, 20).unwrap();
    platform.place_bet(&account(2), 0, 3, 30).unwrap();
    let bets: Vec<(u8, u128)> = platform.get_bets(&account(2), 0).iter().map(|b| (b.horse_id, b.amount)).collect();
    assert_eq!(bets, vec![(3, 10), (0, 20), (3, 30)]);
    let bets: Vec<(u8, u128)> = platform.get_bets(&account(3), 0).iter().map(|b| (b.horse_id, b.amount)).collect();
    assert_eq!(bets, vec![(3, 7)]);
    assert!(platform.get_bets(&account(4), 0).is_empty());
    assert!(platform.get_bets(&account(2), 1).is_empty());
}

#[test]
fn the_pool_is_the_sum_of_the_horse_pools_and_of_all_bets() {
    let mut platform = pending();
    let bettors = [account(2), account(3), account(4)];
    let mut placed: u128 = 0;
    for round in 0..20u128 {
        let bettor = &bettors[(round % 3) as usize];
        let horse = (round * 5 % 6) as u8;
        let amount = 1 + round * round;
        platform.place_bet(bettor, 0, horse, amount).unwrap();
        placed += amount;
        let by_horse: u128 = (0..6u8).map(|h| platform.get_horse_pool(0, h)).sum();
        let by_bet: u128 = bettors.iter().flat_map(|b| platform.get_bets(b, 0)).map(|b| b.amount).sum();
        assert_eq!(platform.get_total_pool(0), placed);
        assert_eq!(by_horse, placed);
        assert_eq!(by_bet, placed);
    }
    for horse in 0..6u8 {
        let on_horse: u128 = bettors
            .iter()
            .flat_map(|b| platform.get_bets(b, 0))
            .filter(|b| b.horse_id == horse)
            .map(|b| b.amount)
            .sum();
        assert_eq!(platform.get_horse_pool(0, horse), on_horse);
    }
}

#[test]
fn a_bet_on_a_missing_race_fails() {
    let mut platform = pending();
    assert_eq!(platform.place_bet(&account(2), 1, 0, 10).unwrap_err(), Error::RaceNotFound);
    assert_eq!(platform.place_bet(&account(2), 200, 9, 0).unwrap_err(), Error::RaceNotFound);
}

#[test]
fn a_bet_on_a_horse_out_of_range_fails() {
    let mut platform = pending();
    assert_eq!(platform.place_bet(&account(2), 0, 6, 10).unwrap_err(), Error::InvalidHorse);
    assert_eq!(platform.place_bet(&account(2), 0, 255, 10).unwrap_err(), Error::InvalidHorse);
    assert_eq!(platform.place_bet(&account(2), 0, 6, 0).unwrap_err(), Error::InvalidHorse);
    assert!(platform.place_bet(&account(2), 0, 5, 10).is_ok());
    assert_eq!(platform.get_total_pool(0), 10);
}

#[test]
fn a_bet_of_nothing_fails() {
    let mut platform = pending();
    assert_eq!(platform.place_bet(&account(2), 0, 0, 0).unwrap_err(), Error::InvalidBetAmount);
    assert_eq!(platform.get_total_pool(0), 0);
    assert!(platform.get_bets(&account(2), 0).is_empty());
}

#[test]
fn a_bet_that_the_pool_cannot_hold_fails() {
    let mut platform = pending();
    platform.place_bet(&account(2), 0, 0, u128::MAX - 5).unwrap();
    assert_eq!(platform.place_bet(&account(3), 0, 1, 6).unwrap_err(), Error::InvalidBetAmount);
    assert_eq!(platform.get_total_pool(0), u128::MAX - 5);
    assert_eq!(platform.get_horse_pool(0, 1), 0);
    assert!(platform.get_bets(&account(3), 0).is_empty());
    assert!(platform.place_bet(&account(3), 0, 1, 5).is_ok());
    assert_eq!(platform.get_total_pool(0), u128::MAX);
    assert_eq!(platform.get_horse_pool(0, 0), u128::MAX - 5);
    assert_eq!(platform.get_horse_pool(0, 1), 5);
}

#[test]
fn betting_closes_when_the_race_starts() {
    let mut platform = pending();
    platform.place_bet(&account(2), 0, 0, 10).unwrap();
    platform.start_race(&account(1), 0, 10).unwrap();
    assert_eq!(platform.place_bet(&account(2), 0, 0, 10).unwrap_err(), Error::BettingClosed);
    assert_eq!(platform.place_bet(&account(2), 0, 6, 10).unwrap_err(), Error::BettingClosed);
    assert_eq!(platform.place_bet(&account(2), 0, 0, 0).unwrap_err(), Error::BettingClosed);
    assert_eq!(platform.place_bet(&account(2), 0, 77, 0).unwrap_err(), Error::BettingClosed);
    assert_eq!(platform.get_total_pool(0), 10);
    assert_eq!(platform.get_bets(&account(2), 0).len(), 1);
}

#[test]
fn betting_stays_closed_when_the_race_is_finished() {
    let mut platform = pending();
    platform.start_race(&account(1), 0, 10).unwrap();
    platform.update_race(0, 110, 0).unwrap();
    assert_eq!(platform.get_race(0).unwrap().status, RaceStatus::Finished);
    assert_eq!(platform.place_bet(&account(2), 0, 0, 10).unwrap_err(), Error::BettingClosed);
    assert_eq!(platform.place_bet(&account(2), 0, 9, 0).unwrap_err(), Error::BettingClosed);
    assert_eq!(platform.get_total_pool(0), 0);
}

#[test]
fn each_race_has_its_own_pool() {
    let mut platform = pending();
    platform.create_race().unwrap();
    platform.place_bet(&account(2), 0, 1, 10).unwrap();
    platform.place_bet(&account(2), 1, 1, 70).unwrap();
    assert_eq!(platform.get_total_pool(0), 10);
    assert_eq!(platform.get_total_pool(1), 70);
    assert_eq!(platform.get_horse_pool(1, 1), 70);
    assert_eq!(platform.get_bets(&account(2), 1)[0].race_id, 1);
    assert_eq!(platform.get_total_pool(2), 0);
    assert_eq!(platform.get_horse_pool(0, 6), 0);
}

#[test]
fn accounts_are_told_apart_by_every_byte() {
    let mut first = [0u8; 32];
    let mut second = [0u8; 32];
    first[31] = 1;
    second[31] = 2;
    let a = AccountId::new(first);
    let b = AccountId::new(second);
    assert!(a.same_as(&a));
    assert!(!a.same_as(&b));
    assert!(a.same_as(&AccountId::new(first)));
    let mut platform = pending();
    platform.place_bet(&a, 0, 0, 1).unwrap();
    platform.place_bet(&b, 0, 0, 2).unwrap();
    assert_eq!(platform.get_bets(&a, 0).len(), 1);
    assert_eq!(platform.get_bets(&b, 0)[0].amount, 2);
}
