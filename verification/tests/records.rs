use karera_platform::{
    AccountId, Bet, Error, KareraPlatform, Ledger, PlatformRecord, RaceStatus,
};

fn account(tag: u8) -> AccountId {
    AccountId::new([tag; 32])
}

fn stamp(block: u32) -> u64 {
    1_700_000_000_000 + 6000 * block as u64
}

/// Race 0 finished with bets and one claim, race 1 running, race 2 pending with bets.
fn busy() -> KareraPlatform {
    let mut platform = KareraPlatform::new(account(1));
    for _ in 0..3 {
        platform.create_race().unwrap();
    }
    platform.place_bet(&account(2), 0, 1, 100).unwrap();
    platform.place_bet(&account(3), 0, 4, 300).unwrap();
    platform.place_bet(&account(2), 0, 1, 50).unwrap();
    platform.place_bet(&account(2), 2, 5, 9).unwrap();
    platform.start_race(&account(1), 0, 10).unwrap();
    let mut block: u32 = 10;
    while platform.get_race(0).unwrap().status != RaceStatus::Finished {
        block += 1;
        platform.update_race(0, block, stamp(block)).unwrap();
    }
    platform.claim_winnings(&account(2), 0).unwrap();
    platform.start_race(&account(1), 1, 60).unwrap();
    for block in 61..100u32 {
        platform.update_race(1, block, stamp(block)).unwrap();
    }
    platform
}

fn rejected(change: fn(&mut PlatformRecord)) -> bool {
    let mut record = busy().into_record();
    change(&mut record);
    KareraPlatform::restore(record).is_none()
}

#[test]
fn a_platform_comes_back_from_its_record() {
    let record = busy().into_record();
    assert_eq!(record.owner, account(1));
    assert_eq!(record.books.len(), 3);
    assert_eq!(record.books[0].total_pool, 450);
    assert_eq!(record.books[0].horse_pools, vec![0, 150, 0, 0, 300, 0]);
    assert_eq!(record.books[0].ledgers.len(), 2);
    assert!(record.books[0].ledgers[0].claimed);
    assert!(!record.books[0].ledgers[1].claimed);
    assert_eq!(record.books[0].race.rankings, vec![1, 2, 3, 5, 0, 4]);

    let mut platform = KareraPlatform::restore(record).unwrap();
    assert_eq!(platform.get_race_count(), 3);
    assert_eq!(platform.get_owner(), account(1));
    assert_eq!(platform.get_race(0).unwrap().winner, Some(1));
    assert_eq!(platform.get_race(1).unwrap().status, RaceStatus::Active);
    assert_eq!(platform.get_race(2).unwrap().status, RaceStatus::Pending);
    assert_eq!(platform.get_bets(&account(2), 0).len(), 2);
    assert_eq!(platform.claim_winnings(&account(2), 0), Err(Error::AlreadyClaimed));
    assert_eq!(platform.claim_winnings(&account(3), 0), Err(Error::NoWinningBets));
    assert!(platform.place_bet(&account(4), 2, 0, 1).is_ok());
    assert!(platform.update_race(1, 100, stamp(100)).is_ok());
}

#[test]
fn an_empty_record_is_a_platform() {
    let record = PlatformRecord { owner: account(7), books: Vec::new() };
    let platform = KareraPlatform::restore(record).unwrap();
    assert_eq!(platform.get_race_count(), 0);
    assert_eq!(platform.get_owner(), account(7));
}

#[test]
fn a_record_with_too_many_races_is_refused() {
    assert!(rejected(|record| {
        let book = record.books[2].clone();
        for id in 3..6u8 {
            let mut more = book.clone();
            more.race.id = id;
            more.total_pool = 0;
            more.horse_pools = vec![0; 6];
            more.ledgers.clear();
            record.books.push(more);
        }
    }));
}

#[test]
fn a_record_with_a_misnumbered_race_is_refused() {
    assert!(rejected(|record| record.books[1].race.id = 2));
    assert!(rejected(|record| record.books.swap(0, 1)));
}

#[test]
fn a_record_with_a_broken_field_is_refused() {
    assert!(rejected(|record| {
        record.books[2].horses.pop();
    }));
    assert!(rejected(|record| record.books[2].horses[3].id = 4));
    assert!(rejected(|record| record.books[1].horses[0].position = 1001));
    assert!(rejected(|record| record.books[0].horses[0].finish_time = None));
    assert!(rejected(|record| record.books[0].horses[0].position = 999));
    assert!(rejected(|record| record.books[2].horses[0].finish_time = Some(1)));
    assert!(rejected(|record| record.books[2].horses[0].position = 1));
}

#[test]
fn a_record_with_a_wrong_ranking_is_refused() {
    assert!(rejected(|record| record.books[0].race.rankings.swap(0, 1)));
    assert!(rejected(|record| record.books[0].race.rankings[5] = 1));
    assert!(rejected(|record| {
        record.books[0].race.rankings.pop();
    }));
    assert!(rejected(|record| record.books[0].race.winner = Some(2)));
    assert!(rejected(|record| record.books[0].race.winner = None));
    assert!(rejected(|record| record.books[2].race.rankings.push(0)));
    assert!(rejected(|record| record.books[1].race.rankings = vec![0]));
    assert!(rejected(|record| record.books[1].race.rankings = vec![6]));
    assert!(rejected(|record| record.books[1].race.winner = Some(0)));
    assert!(rejected(|record| record.books[2].race.winner = Some(0)));
}

#[test]
fn a_record_whose_blocks_disagree_with_its_status_is_refused() {
    assert!(rejected(|record| record.books[2].race.start_block = 1));
    assert!(rejected(|record| record.books[2].race.current_block = 1));
    assert!(rejected(|record| record.books[1].race.start_block = 100));
}

#[test]
fn a_record_with_wrong_pools_is_refused() {
    assert!(rejected(|record| record.books[0].total_pool = 451));
    assert!(rejected(|record| record.books[0].horse_pools[1] = 149));
    assert!(rejected(|record| record.books[0].horse_pools[0] = 1));
    assert!(rejected(|record| {
        record.books[0].horse_pools.push(0);
    }));
    assert!(rejected(|record| record.books[2].ledgers[0].bets[0].amount = 10));
    assert!(rejected(|record| {
        record.books[2].ledgers[0].bets[0].amount = u128::MAX;
        let again = record.books[2].ledgers[0].bets[0];
        record.books[2].ledgers[0].bets.push(again);
    }));
}

#[test]
fn a_record_with_a_broken_ledger_is_refused() {
    assert!(rejected(|record| record.books[0].ledgers[0].bettor = account(3)));
    assert!(rejected(|record| record.books[0].ledgers[0].bets[0].bettor = account(9)));
    assert!(rejected(|record| record.books[0].ledgers[0].bets[0].race_id = 1));
    assert!(rejected(|record| record.books[0].ledgers[0].bets[0].horse_id = 6));
    assert!(rejected(|record| {
        record.books[1].ledgers.push(Ledger { bettor: account(5), bets: Vec::new(), claimed: false });
    }));
    assert!(rejected(|record| {
        record.books[1].ledgers.push(Ledger {
            bettor: account(5),
            bets: vec![Bet { bettor: account(5), race_id: 1, horse_id: 0, amount: 0 }],
            claimed: false,
        });
    }));
    assert!(rejected(|record| record.books[2].ledgers[0].claimed = true));
}

#[test]
fn a_record_with_two_ledgers_of_one_bettor_is_refused() {
    assert!(rejected(|record| {
        let moved = record.books[0].ledgers[0].bets.pop().unwrap();
        record.books[0].ledgers.push(Ledger { bettor: account(2), bets: vec![moved], claimed: true });
    }));
    let mut record = busy().into_record();
    let moved = record.books[0].ledgers[0].bets.pop().unwrap();
    record.books[0].ledgers.push(Ledger { bettor: account(8), bets: vec![moved], claimed: true });
    assert!(KareraPlatform::restore(record).is_none());
}

#[test]
fn a_record_stays_valid_under_harmless_changes() {
    let mut record = busy().into_record();
    record.owner = account(9);
    record.books[0].ledgers[1].claimed = true;
    record.books[0].race.start_block = 3;
    let platform = KareraPlatform::restore(record).unwrap();
    assert_eq!(platform.get_owner(), account(9));
    assert!(platform.has_claimed(&account(3), 0));
}
