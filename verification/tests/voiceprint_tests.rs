use meeting_agent::voiceprint::{apply_speaker_assignments, SpeakerAssignment};
use meeting_agent::voiceprint::{
    assign_speakers, display_name_of, group_by_root, guest_name, merge_similar, next_guest_index,
    singleton_forest, try_next_guest_index, uf_find, uf_union, unique_speaker_labels,
};
use std::collections::HashMap;

#[test]
fn within_meeting_uf_merges_pairs() {
    let mut parent = vec![0, 1, 2];
    uf_union(&mut parent, 0, 2);
    assert_eq!(uf_find(&mut parent, 0), uf_find(&mut parent, 2));
    assert_ne!(uf_find(&mut parent, 0), uf_find(&mut parent, 1));
}

#[test]
fn next_guest_index_from_names() {
    let mut m: HashMap<String, String> = HashMap::new();
    m.insert("a".into(), "Alice".into());
    m.insert("b".into(), "Guest-3".into());
    m.insert("c".into(), "Guest-1".into());
    let names: Vec<String> = m.values().cloned().collect();
    assert_eq!(next_guest_index(&names), 4);
    assert_eq!(next_guest_index(&[]), 1);
}

#[test]
fn next_guest_index_ignores_malformed_numbers() {
    let names = vec![
        "Guest-".to_string(),
        "Guest-x".to_string(),
        "guest-9".to_string(),
        "Guest-+7".to_string(),
        "Guest-2".to_string(),
    ];
    assert_eq!(next_guest_index(&names), 8);
}

#[test]
fn guest_names_are_numbered() {
    assert_eq!(guest_name(1), "Guest-1");
    assert_eq!(guest_name(42), "Guest-42");
}

#[test]
fn singleton_forest_keeps_sets_apart() {
    let mut parent = singleton_forest(4);
    assert_eq!(parent, vec![0, 1, 2, 3]);
    for i in 0..4 {
        assert_eq!(uf_find(&mut parent, i), i);
    }
}

#[test]
fn union_is_transitive_and_groups_by_root() {
    let mut parent = singleton_forest(5);
    uf_union(&mut parent, 0, 3);
    uf_union(&mut parent, 3, 4);
    let r0 = uf_find(&mut parent, 0);
    assert_eq!(uf_find(&mut parent, 4), r0);
    assert_ne!(uf_find(&mut parent, 1), r0);
    let groups = group_by_root(&mut parent, &[0, 1, 2, 3, 4]);
    assert_eq!(groups.len(), 3);
    let joined: Vec<&(usize, Vec<usize>)> = groups.iter().filter(|g| g.1.len() == 3).collect();
    assert_eq!(joined.len(), 1);
    assert_eq!(joined[0].1, vec![0, 3, 4]);
    for w in groups.windows(2) {
        assert!(w[0].0 < w[1].0);
    }
}

#[test]
fn unique_labels_trimmed_in_first_order() {
    let speakers = vec![
        Some(" SPEAKER_01 ".to_string()),
        None,
        Some("SPEAKER_00".to_string()),
        Some("   ".to_string()),
        Some("SPEAKER_01".to_string()),
    ];
    assert_eq!(
        unique_speaker_labels(&speakers),
        vec!["SPEAKER_01".to_string(), "SPEAKER_00".to_string()]
    );
}

#[test]
fn similar_clusters_are_merged_pairwise() {
    // clusters 0..5; unmatched are 1, 2, 4; 1~4 similar, 2 alone
    let mut parent = singleton_forest(5);
    let unmatched = vec![1usize, 2, 4];
    let similar = vec![
        vec![false, false, true],
        vec![false, false, false],
        vec![false, false, false],
    ];
    merge_similar(&mut parent, &unmatched, &similar);
    assert_eq!(uf_find(&mut parent, 1), uf_find(&mut parent, 4));
    assert_ne!(uf_find(&mut parent, 1), uf_find(&mut parent, 2));
    assert_eq!(uf_find(&mut parent, 0), 0);
    assert_eq!(uf_find(&mut parent, 3), 3);
    let groups = group_by_root(&mut parent, &unmatched);
    assert_eq!(groups.len(), 2);
}

#[test]
fn speakers_get_bank_matches_and_guests() {
    // label 0 matched Alice; labels 1 and 3 merged into one guest; label 2 alone
    let hits: Vec<Option<(String, u8, String)>> = vec![
        Some(("p-alice".to_string(), 90, "Alice".to_string())),
        None,
        None,
        None,
    ];
    let groups = vec![(1usize, vec![1usize, 3]), (2usize, vec![2usize])];
    let people = vec![Some("p-new".to_string()), None];
    let r = assign_speakers(hits, &groups, &people, 4);
    assert_eq!(r.matched, 1);
    assert_eq!(r.guests, 2);
    assert_eq!(r.unassigned, 0);
    let a0 = r.labels[0].as_ref().unwrap();
    assert_eq!(a0.person_id.as_deref(), Some("p-alice"));
    assert_eq!(a0.confidence, Some(90));
    assert_eq!(a0.display_name, "Alice");
    for i in [1usize, 3] {
        let a = r.labels[i].as_ref().unwrap();
        assert_eq!(a.display_name, "Guest-4");
        assert_eq!(a.person_id.as_deref(), Some("p-new"));
        assert_eq!(a.confidence, None);
    }
    let a2 = r.labels[2].as_ref().unwrap();
    assert_eq!(a2.display_name, "Guest-5");
    assert_eq!(a2.person_id, None);
}

#[test]
fn speakers_left_unassigned_are_counted() {
    let hits: Vec<Option<(String, u8, String)>> = vec![None, None];
    let r = assign_speakers(hits, &[], &[], 1);
    assert_eq!(r.unassigned, 2);
    assert_eq!(r.guests, 0);
    assert!(r.labels.iter().all(|l| l.is_none()));
}

#[test]
fn next_guest_index_checked() {
    assert_eq!(try_next_guest_index(&["Guest-9".to_string()]), Some(10));
    assert_eq!(try_next_guest_index(&[format!("Guest-{}", u32::MAX)]), None);
    assert_eq!(try_next_guest_index(&[]), Some(1));
}

#[test]
fn person_names_by_id() {
    let persons = vec![
        ("p1".to_string(), "Alice".to_string()),
        ("p2".to_string(), "Bob".to_string()),
    ];
    assert_eq!(display_name_of(&persons, "p2"), "Bob");
    assert_eq!(display_name_of(&persons, "p3"), "p3");
}

#[test]
fn people_found_are_written_onto_segments() {
    let speakers = vec![
        Some("SPEAKER_00".to_string()),
        Some("SPEAKER_01".to_string()),
        None,
        Some("SPEAKER_00".to_string()),
        Some("SPEAKER_02".to_string()),
    ];
    let current: Vec<(Option<String>, Option<f32>)> =
        vec![(None, None), (None, None), (Some("old".to_string()), Some(0.5)), (None, None), (None, None)];
    let labels = vec!["SPEAKER_00".to_string(), "SPEAKER_01".to_string(), "SPEAKER_02".to_string()];
    let assignments = vec![
        Some(SpeakerAssignment { person_id: Some("p-alice".to_string()), confidence: Some(0.9f32), display_name: "Alice".to_string() }),
        Some(SpeakerAssignment { person_id: None, confidence: None, display_name: "Guest-3".to_string() }),
        None,
    ];
    let r = apply_speaker_assignments(&speakers, &current, &labels, &assignments);
    assert_eq!(
        r,
        vec![
            (Some("Alice".to_string()), Some("p-alice".to_string()), Some(0.9)),
            (Some("Guest-3".to_string()), None, None),
            (None, Some("old".to_string()), Some(0.5)),
            (Some("Alice".to_string()), Some("p-alice".to_string()), Some(0.9)),
            (Some("SPEAKER_02".to_string()), None, None),
        ]
    );
}
