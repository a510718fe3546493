use karera_platform::ranking::{final_ranking, goes_before};
use karera_platform::Horse;

fn running(id: u8, position: u32) -> Horse {
    Horse { id, position, finished: false, finish_time: None }
}

fn home(id: u8, tick: u32) -> Horse {
    Horse { id, position: 1000, finished: true, finish_time: Some(tick) }
}

#[test]
fn finished_horses_rank_by_finish_time() {
    assert!(goes_before(&home(4, 10), &home(0, 11)));
    assert!(!goes_before(&home(0, 11), &home(4, 10)));
}

#[test]
fn horses_finishing_at_the_same_tick_rank_by_id() {
    assert!(goes_before(&home(1, 10), &home(3, 10)));
    assert!(!goes_before(&home(3, 10), &home(1, 10)));
}

#[test]
fn a_finished_horse_ranks_ahead_of_a_running_one() {
    assert!(goes_before(&home(5, 99), &running(0, 999)));
    assert!(!goes_before(&running(0, 999), &home(5, 99)));
}

#[test]
fn running_horses_rank_by_distance_then_by_id() {
    assert!(goes_before(&running(5, 800), &running(0, 799)));
    assert!(!goes_before(&running(0, 799), &running(5, 800)));
    assert!(goes_before(&running(2, 500), &running(4, 500)));
    assert!(!goes_before(&running(4, 500), &running(2, 500)));
}

#[test]
fn no_horse_ranks_ahead_of_itself() {
    assert!(!goes_before(&home(1, 10), &home(1, 10)));
    assert!(!goes_before(&running(1, 10), &running(1, 10)));
}

#[test]
fn final_ranking_of_finished_horses() {
    let horses = vec![home(0, 42), home(1, 41), home(2, 41), home(3, 41), home(4, 42), home(5, 41)];
    assert_eq!(final_ranking(&horses), vec![1, 2, 3, 5, 0, 4]);
}

#[test]
fn final_ranking_of_running_horses() {
    let horses = vec![
        running(0, 756),
        running(1, 773),
        running(2, 790),
        running(3, 777),
        running(4, 760),
        running(5, 773),
    ];
    assert_eq!(final_ranking(&horses), vec![2, 3, 1, 5, 4, 0]);
}

#[test]
fn final_ranking_of_a_mixed_field() {
    let horses = vec![
        running(0, 999),
        home(1, 98),
        running(2, 999),
        home(3, 97),
        running(4, 0),
        home(5, 98),
    ];
    assert_eq!(final_ranking(&horses), vec![3, 1, 5, 0, 2, 4]);
}

#[test]
fn final_ranking_keeps_id_order_where_all_tie() {
    let horses: Vec<Horse> = (0..6u8).map(|id| running(id, 0)).collect();
    assert_eq!(final_ranking(&horses), vec![0, 1, 2, 3, 4, 5]);
    let horses: Vec<Horse> = (0..6u8).map(|id| home(id, 44)).collect();
    assert_eq!(final_ranking(&horses), vec![0, 1, 2, 3, 4, 5]);
}

#[test]
fn final_ranking_lists_every_horse_once() {
    let horses = vec![running(0, 5), home(1, 3), running(2, 9), home(3, 1)];
    let mut ranking = final_ranking(&horses);
    assert_eq!(ranking, vec![3, 1, 2, 0]);
    ranking.sort();
    assert_eq!(ranking, vec![0, 1, 2, 3]);
}

#[test]
fn final_ranking_of_no_horses_is_empty() {
    let horses: Vec<Horse> = Vec::new();
    assert!(final_ranking(&horses).is_empty());
}
