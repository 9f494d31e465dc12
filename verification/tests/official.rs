use analyzerl_boxcars::official::{
    collapse_duplicate_official_saves, dedupe_official_stats, final_score_from_stats,
    flush_pending_official_stats, linked_shot_row, observed_frame_from_player_contact, record_official_stat, stat_type_name,
    LatestMatchStats, OfficialStatEvent, SaveRow, ShotLinkRow, StatKind,
};
use std::collections::HashMap;

fn s(text: &str) -> String {
    text.to_string()
}

#[test]
fn counters_make_one_credit_per_new_number() {
    let mut official = Vec::new();
    let mut pending = Vec::new();
    let mut latest = LatestMatchStats::new();
    let mut names = HashMap::new();
    names.insert(7, s("alice"));
    names.insert(8, s(""));
    record_official_stat(&mut official, &mut pending, &mut latest, &names, 7, StatKind::Goal, 2, 100);
    assert_eq!(official.len(), 2);
    assert_eq!(official[0].stat_number, 1);
    assert_eq!(official[1].stat_number, 2);
    assert_eq!(official[1].player_name, "alice");
    assert_eq!(official[1].pri_actor_id, Some(7));
    assert_eq!(official[1].frame_number, 100);
    assert_eq!(latest.goals.get(&7), Some(&2));
    // A counter that does not rise credits nothing.
    record_official_stat(&mut official, &mut pending, &mut latest, &names, 7, StatKind::Goal, 2, 150);
    assert_eq!(official.len(), 2);
    // Other kinds are counted apart.
    record_official_stat(&mut official, &mut pending, &mut latest, &names, 7, StatKind::Shot, 1, 160);
    assert_eq!(official.len(), 3);
    assert_eq!(official[2].stat_type, StatKind::Shot);
    // Unknown names wait in the pending list.
    record_official_stat(&mut official, &mut pending, &mut latest, &names, 8, StatKind::Save, 1, 120);
    assert_eq!(official.len(), 3);
    assert_eq!(pending.len(), 1);
    assert_eq!(pending[0].pri_actor_id, 8);
    assert_eq!(pending[0].stat_number, 1);
}

#[test]
fn pending_credits_flush_once_names_are_known() {
    let mut official = Vec::new();
    let mut pending = Vec::new();
    let mut latest = LatestMatchStats::new();
    let mut names = HashMap::new();
    record_official_stat(&mut official, &mut pending, &mut latest, &names, 8, StatKind::Save, 1, 120);
    record_official_stat(&mut official, &mut pending, &mut latest, &names, 9, StatKind::Shot, 1, 130);
    assert_eq!(pending.len(), 2);
    names.insert(8, s("bob"));
    names.insert(9, s("carol"));
    flush_pending_official_stats(&mut official, &mut pending, &names, Some(8));
    assert_eq!(official.len(), 1);
    assert_eq!(official[0].player_name, "bob");
    assert_eq!(official[0].stat_type, StatKind::Save);
    assert_eq!(pending.len(), 1);
    flush_pending_official_stats(&mut official, &mut pending, &names, None);
    assert_eq!(official.len(), 2);
    assert_eq!(official[1].player_name, "carol");
    assert!(pending.is_empty());
}

#[test]
fn final_score_sums_goals_by_team() {
    let players = vec![
        (Some(2), Some(0)),
        (Some(1), Some(1)),
        (None, Some(0)),
        (Some(5), Some(3)),
        (Some(1), None),
    ];
    assert_eq!(final_score_from_stats(&players), (2, 1));
}

#[test]
fn stat_names() {
    assert_eq!(stat_type_name(StatKind::Shot), "shot");
    assert_eq!(stat_type_name(StatKind::Goal), "goal");
    assert_eq!(stat_type_name(StatKind::Assist), "assist");
    assert_eq!(stat_type_name(StatKind::Save), "save");
}

fn credit(frame: i32, name: &str, kind: StatKind, number: i32) -> OfficialStatEvent {
    OfficialStatEvent {
        pri_actor_id: None,
        frame_number: frame,
        player_name: s(name),
        stat_type: kind,
        stat_number: number,
    }
}

fn summary(stats: &[OfficialStatEvent]) -> Vec<(i32, String, StatKind, i32)> {
    stats
        .iter()
        .map(|c| (c.frame_number, c.player_name.clone(), c.stat_type, c.stat_number))
        .collect()
}

#[test]
fn dedupe_sorts_and_keeps_first_credit() {
    let mut stats = vec![
        credit(200, "bob", StatKind::Goal, 1),
        credit(100, "bob", StatKind::Goal, 1),
        credit(100, "alice", StatKind::Shot, 1),
        credit(100, "alice", StatKind::Assist, 1),
        credit(150, "alice", StatKind::Shot, 1),
        credit(150, "alice", StatKind::Shot, 2),
    ];
    dedupe_official_stats(&mut stats);
    assert_eq!(
        summary(&stats),
        vec![
            (100, s("alice"), StatKind::Assist, 1),
            (100, s("alice"), StatKind::Shot, 1),
            (100, s("bob"), StatKind::Goal, 1),
            (150, s("alice"), StatKind::Shot, 2),
        ]
    );
}

#[test]
fn dedupe_of_nothing_is_nothing() {
    let mut stats: Vec<OfficialStatEvent> = Vec::new();
    dedupe_official_stats(&mut stats);
    assert!(stats.is_empty());
}

fn save(official: bool, p1: &str, count: Option<i32>) -> SaveRow {
    SaveRow {
        official_save: official,
        frame_number: Some(10),
        recorded_frame_number: Some(12),
        event_player_1_name: s(p1),
        event_player_2_name: s("b"),
        linked_shot_observed_frame_number: Some(9),
        official_save_count: count,
    }
}

#[test]
fn duplicate_official_saves_fold_into_first() {
    let rows = vec![
        save(true, "a", None),
        save(false, "a", None),
        save(true, "a", Some(2)),
        save(true, "c", None),
        save(true, "a", None),
    ];
    assert_eq!(
        collapse_duplicate_official_saves(&rows),
        vec![Some(Some(4)), Some(None), None, Some(None), None]
    );
}

fn shot(official: bool, team: &str, recorded: Option<i32>) -> ShotLinkRow {
    ShotLinkRow {
        official_shot: official,
        event_player_1_team: s(team),
        recorded_frame_number: recorded,
    }
}

#[test]
fn saves_link_to_latest_recent_opposing_shot() {
    let rows = vec![
        shot(true, "blue", Some(100)),
        shot(true, "orange", Some(150)),
        shot(false, "blue", Some(180)),
        shot(true, "blue", Some(150)),
        shot(true, "blue", Some(10)),
        shot(true, "blue", Some(250)),
    ];
    assert_eq!(linked_shot_row(&rows, Some(1), 200), Some(3));
    assert_eq!(linked_shot_row(&rows, Some(0), 200), Some(1));
    assert_eq!(linked_shot_row(&rows, None, 200), Some(3));
    assert_eq!(linked_shot_row(&rows, None, 1000), None);
}

#[test]
fn kept_saves_are_distinct() {
    let rows = vec![save(true, "a", None), save(true, "a", Some(3)), save(true, "b", None)];
    let fates = collapse_duplicate_official_saves(&rows);
    assert_eq!(fates, vec![Some(Some(4)), None, Some(None)]);
}

#[test]
fn deduped_credits_are_distinct() {
    let mut stats = vec![
        credit(5, "x", StatKind::Save, 1),
        credit(3, "x", StatKind::Save, 1),
        credit(4, "y", StatKind::Save, 1),
        credit(1, "x", StatKind::Save, 2),
        credit(9, "y", StatKind::Save, 1),
    ];
    dedupe_official_stats(&mut stats);
    let keys = summary(&stats);
    for i in 0..keys.len() {
        for j in (i + 1)..keys.len() {
            assert!(!(keys[i].1 == keys[j].1 && keys[i].2 == keys[j].2 && keys[i].3 == keys[j].3));
        }
    }
    assert_eq!(
        keys,
        vec![(1, s("x"), StatKind::Save, 2), (3, s("x"), StatKind::Save, 1), (4, s("y"), StatKind::Save, 1)]
    );
}

#[test]
fn observed_frame_is_last_contact_before_record() {
    let contacts = vec![(90, true), (95, false), (98, true), (105, true)];
    assert_eq!(observed_frame_from_player_contact(&contacts, true, 100, None), 98);
    assert_eq!(observed_frame_from_player_contact(&contacts, true, 100, Some(99)), 100);
    assert_eq!(observed_frame_from_player_contact(&contacts, true, 97, Some(90)), 90);
    assert_eq!(observed_frame_from_player_contact(&contacts, false, 100, None), 100);
    assert_eq!(observed_frame_from_player_contact(&[], true, 100, None), 100);
}
