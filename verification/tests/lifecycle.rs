use karera_platform::{AccountId, Error, KareraPlatform, RaceStatus};

fn account(tag: u8) -> AccountId {
    AccountId::new([tag; 32])
}

fn stamp(block: u32) -> u64 {
    1_700_000_000_000 + 6000 * block as u64
}

fn rank(status: RaceStatus) -> u8 {
    match status {
        RaceStatus::Pending => 0,
        RaceStatus::Active => 1,
        RaceStatus::Finished => 2,
    }
}

#[test]
fn a_new_platform_has_no_races() {
    let platform = KareraPlatform::new(account(1));
    assert_eq!(platform.get_race_count(), 0);
    assert_eq!(platform.get_owner(), account(1));
    assert!(platform.get_race(0).is_none());
    assert!(platform.get_horse(0, 0).is_none());
    assert!(platform.get_all_horses(0).is_empty());
    assert_eq!(platform.get_total_pool(0), 0);
    assert_eq!(platform.get_horse_pool(0, 0), 0);
}

#[test]
fn a_created_race_is_pending_with_six_horses_at_the_start() {
    let mut platform = KareraPlatform::new(account(1));
    assert_eq!(platform.create_race(), Ok(0));
    assert_eq!(platform.get_race_count(), 1);
    let race = platform.get_race(0).unwrap();
    assert_eq!(race.id, 0);
    assert_eq!(race.status, RaceStatus::Pending);
    assert_eq!(race.start_block, 0);
    assert_eq!(race.current_block, 0);
    assert_eq!(race.winner, None);
    assert!(race.rankings.is_empty());
    let horses = platform.get_all_horses(0);
    assert_eq!(horses.len(), 6);
    for (i, horse) in horses.iter().enumerate() {
        assert_eq!(horse.id as usize, i);
        assert_eq!(horse.position, 0);
        assert!(!horse.finished);
        assert_eq!(horse.finish_time, None);
    }
    assert_eq!(platform.get_horse(0, 5).unwrap().id, 5);
    assert!(platform.get_horse(0, 6).is_none());
    assert!(platform.get_horse(1, 0).is_none());
}

#[test]
fn race_ids_count_up_to_the_cap() {
    let mut platform = KareraPlatform::new(account(1));
    for expected in 0..5u8 {
        assert_eq!(platform.create_race(), Ok(expected));
    }
    assert_eq!(platform.create_race(), Err(Error::MaxRacesReached));
    assert_eq!(platform.create_race(), Err(Error::MaxRacesReached));
    assert_eq!(platform.get_race_count(), 5);
    assert!(platform.get_race(4).is_some());
    assert!(platform.get_race(5).is_none());
}

#[test]
fn only_the_owner_starts_a_race() {
    let mut platform = KareraPlatform::new(account(1));
    platform.create_race().unwrap();
    assert_eq!(platform.start_race(&account(2), 0, 10).unwrap_err(), Error::Unauthorized);
    assert_eq!(platform.get_race(0).unwrap().status, RaceStatus::Pending);
    assert_eq!(platform.start_race(&account(2), 9, 10).unwrap_err(), Error::Unauthorized);
}

#[test]
fn starting_a_missing_race_fails() {
    let mut platform = KareraPlatform::new(account(1));
    assert_eq!(platform.start_race(&account(1), 0, 10).unwrap_err(), Error::RaceNotFound);
    platform.create_race().unwrap();
    assert_eq!(platform.start_race(&account(1), 1, 10).unwrap_err(), Error::RaceNotFound);
}

#[test]
fn starting_records_the_block_and_reports_it() {
    let mut platform = KareraPlatform::new(account(1));
    platform.create_race().unwrap();
    let event = platform.start_race(&account(1), 0, 10).unwrap();
    assert_eq!(event.race_id, 0);
    assert_eq!(event.start_block, 10);
    let race = platform.get_race(0).unwrap();
    assert_eq!(race.status, RaceStatus::Active);
    assert_eq!(race.start_block, 10);
    assert_eq!(race.current_block, 10);
    assert_eq!(race.winner, None);
}

#[test]
fn a_race_starts_only_once() {
    let mut platform = KareraPlatform::new(account(1));
    platform.create_race().unwrap();
    platform.start_race(&account(1), 0, 10).unwrap();
    assert_eq!(platform.start_race(&account(1), 0, 11).unwrap_err(), Error::RaceAlreadyStarted);
    assert_eq!(platform.get_race(0).unwrap().start_block, 10);
    platform.update_race(0, 110, 0).unwrap();
    assert_eq!(platform.get_race(0).unwrap().status, RaceStatus::Finished);
    assert_eq!(platform.start_race(&account(1), 0, 111).unwrap_err(), Error::RaceAlreadyStarted);
    assert_eq!(platform.get_race(0).unwrap().status, RaceStatus::Finished);
}

#[test]
fn only_a_running_race_advances() {
    let mut platform = KareraPlatform::new(account(1));
    assert_eq!(platform.update_race(0, 1, 0).unwrap_err(), Error::RaceNotFound);
    platform.create_race().unwrap();
    assert_eq!(platform.update_race(0, 1, 0).unwrap_err(), Error::RaceNotActive);
    assert_eq!(platform.get_all_horses(0)[0].position, 0);
    platform.start_race(&account(1), 0, 10).unwrap();
    platform.update_race(0, 110, 0).unwrap();
    let before = platform.get_race(0).unwrap();
    assert_eq!(platform.update_race(0, 111, 0).unwrap_err(), Error::RaceNotActive);
    let after = platform.get_race(0).unwrap();
    assert_eq!(after.rankings, before.rankings);
    assert_eq!(after.winner, before.winner);
    assert_eq!(after.current_block, before.current_block);
}

#[test]
fn a_tick_moves_the_horses_and_reports_their_positions() {
    let mut platform = KareraPlatform::new(account(1));
    platform.create_race().unwrap();
    platform.start_race(&account(1), 0, 10).unwrap();
    let progress = platform.update_race(0, 11, stamp(11)).unwrap();
    let update = progress.update.unwrap();
    assert!(progress.finished.is_none());
    assert_eq!(update.race_id, 0);
    assert_eq!(update.block_number, 11);
    assert_eq!(update.positions, vec![(0, 17), (1, 29), (2, 25), (3, 21), (4, 17), (5, 29)]);
    let race = platform.get_race(0).unwrap();
    assert_eq!(race.status, RaceStatus::Active);
    assert_eq!(race.start_block, 10);
    assert_eq!(race.current_block, 11);
    assert!(race.rankings.is_empty());
    assert_eq!(platform.get_horse(0, 1).unwrap().position, 29);
}

#[test]
fn the_time_limit_closes_the_race_without_a_tick() {
    let mut platform = KareraPlatform::new(account(1));
    platform.create_race().unwrap();
    platform.start_race(&account(1), 0, 10).unwrap();
    platform.update_race(0, 11, stamp(11)).unwrap();
    let progress = platform.update_race(0, 110, stamp(110)).unwrap();
    assert!(progress.update.is_none());
    let finished = progress.finished.unwrap();
    assert_eq!(finished.race_id, 0);
    assert_eq!(finished.rankings, vec![1, 5, 2, 3, 0, 4]);
    assert_eq!(finished.winner, 1);
    let race = platform.get_race(0).unwrap();
    assert_eq!(race.status, RaceStatus::Finished);
    assert_eq!(race.winner, Some(1));
    assert_eq!(race.rankings, vec![1, 5, 2, 3, 0, 4]);
    assert_eq!(race.current_block, 11);
    let now: Vec<u32> = platform.get_all_horses(0).iter().map(|h| h.position).collect();
    assert_eq!(now, vec![17, 29, 25, 21, 17, 29]);
}

#[test]
fn the_race_still_ticks_one_block_before_the_limit() {
    let mut platform = KareraPlatform::new(account(1));
    platform.create_race().unwrap();
    platform.start_race(&account(1), 0, 10).unwrap();
    let progress = platform.update_race(0, 109, stamp(109)).unwrap();
    assert!(progress.update.is_some());
    assert!(progress.finished.is_none());
    assert_eq!(platform.get_race(0).unwrap().status, RaceStatus::Active);
    assert_eq!(platform.get_race(0).unwrap().current_block, 109);
}

#[test]
fn a_race_without_a_single_tick_ranks_the_horses_by_id() {
    let mut platform = KareraPlatform::new(account(1));
    platform.create_race().unwrap();
    platform.start_race(&account(1), 0, 0).unwrap();
    let progress = platform.update_race(0, 100, 0).unwrap();
    assert_eq!(progress.finished.unwrap().rankings, vec![0, 1, 2, 3, 4, 5]);
    assert_eq!(platform.get_race(0).unwrap().winner, Some(0));
}

#[test]
fn the_race_closes_when_the_last_horse_is_home() {
    let mut platform = KareraPlatform::new(account(1));
    platform.create_race().unwrap();
    platform.start_race(&account(1), 0, 10).unwrap();
    let mut block: u32 = 10;
    let mut statuses: Vec<u8> = vec![rank(platform.get_race(0).unwrap().status)];
    let mut last_positions: Vec<u32> = vec![0; 6];
    let closing = loop {
        block += 1;
        let progress = platform.update_race(0, block, stamp(block)).unwrap();
        statuses.push(rank(platform.get_race(0).unwrap().status));
        let horses = platform.get_all_horses(0);
        for horse in horses.iter() {
            assert!(horse.position >= last_positions[horse.id as usize]);
            assert!(horse.position <= 1000);
            assert_eq!(horse.finished, horse.position == 1000);
            assert_eq!(horse.finished, horse.finish_time.is_some());
        }
        last_positions = horses.iter().map(|h| h.position).collect();
        let race = platform.get_race(0).unwrap();
        let mut seen = race.rankings.clone();
        seen.sort();
        seen.dedup();
        assert_eq!(seen.len(), race.rankings.len());
        if progress.finished.is_some() {
            break progress;
        }
        assert_eq!(race.current_block, block);
    };
    assert_eq!(block, 52);
    assert!(closing.update.is_some());
    let finished = closing.finished.unwrap();
    assert_eq!(finished.winner, 1);
    assert_eq!(finished.rankings, vec![1, 2, 3, 5, 0, 4]);
    let race = platform.get_race(0).unwrap();
    assert_eq!(race.status, RaceStatus::Finished);
    assert_eq!(race.winner, Some(1));
    assert_eq!(race.rankings, vec![1, 2, 3, 5, 0, 4]);
    let times: Vec<Option<u32>> = platform.get_all_horses(0).iter().map(|h| h.finish_time).collect();
    assert_eq!(times, vec![Some(42), Some(41), Some(41), Some(41), Some(42), Some(41)]);
    for pair in statuses.windows(2) {
        assert!(pair[1] == pair[0] || pair[1] == pair[0] + 1);
    }
    assert_eq!(statuses.last(), Some(&2));
}

#[test]
fn races_do_not_touch_each_other() {
    let mut platform = KareraPlatform::new(account(1));
    platform.create_race().unwrap();
    platform.create_race().unwrap();
    platform.start_race(&account(1), 1, 10).unwrap();
    platform.update_race(1, 11, stamp(11)).unwrap();
    let untouched = platform.get_race(0).unwrap();
    assert_eq!(untouched.status, RaceStatus::Pending);
    assert_eq!(platform.get_all_horses(0).iter().map(|h| h.position).sum::<u32>(), 0);
    assert_eq!(platform.get_race(1).unwrap().id, 1);
    assert_eq!(platform.get_race(1).unwrap().status, RaceStatus::Active);
}
