use series_renamer::{AssignmentState, Episode, LocalFile};

fn ep(title: &str, label: &str) -> Episode {
    Episode::new(title, label, &format!("tt{label}"))
}

fn file(p: &str) -> LocalFile {
    LocalFile::new(p)
}

fn paths(fs: &[LocalFile]) -> Vec<String> {
    fs.iter().map(|f| f.path.clone()).collect()
}

fn plan_pairs(s: &AssignmentState) -> Vec<(String, String)> {
    s.confirmed_plan().iter().map(|(e, f)| (e.title.clone(), f.path.clone())).collect()
}

fn seeded(eps: Vec<Episode>, files: &[&str]) -> AssignmentState {
    let mut s = AssignmentState::new();
    s.seed(eps, files.iter().map(|p| file(p)).collect());
    s
}

/// Every seeded file is in exactly one place, no file is in the plan twice,
/// no episode is in the plan twice, and the pool holds no duplicates.
fn check_invariants(s: &AssignmentState) {
    let plan = s.confirmed_plan();
    let pool = s.unassigned();
    for (i, (e1, f1)) in plan.iter().enumerate() {
        for (e2, f2) in plan.iter().skip(i + 1) {
            assert_ne!(f1, f2, "file twice in the plan");
            assert_ne!(e1, e2, "episode twice in the plan");
        }
        assert!(!pool.contains(f1), "file both assigned and unassigned");
    }
    for (i, f) in pool.iter().enumerate() {
        assert!(!pool[i + 1..].contains(f), "file twice in the pool");
    }
    for f in s.files() {
        let in_plan = plan.iter().filter(|(_, g)| g == f).count();
        let in_pool = pool.iter().filter(|g| *g == f).count();
        assert_eq!(in_plan + in_pool, 1, "seeded file not in exactly one place");
    }
}

#[test]
fn seed_puts_every_file_in_the_pool() {
    let s = seeded(vec![ep("Pilot", "1")], &["a.mkv", "b.mkv"]);
    assert_eq!(paths(s.unassigned()), vec!["a.mkv", "b.mkv"]);
    assert!(s.confirmed_plan().is_empty());
    assert_eq!(s.episodes().len(), 1);
    check_invariants(&s);
}

#[test]
fn seed_drops_repeated_paths() {
    let s = seeded(vec![], &["a.mkv", "b.mkv", "a.mkv"]);
    assert_eq!(paths(s.unassigned()), vec!["a.mkv", "b.mkv"]);
    check_invariants(&s);
}

#[test]
fn seed_replaces_previous_state() {
    let mut s = seeded(vec![ep("Pilot", "1")], &["a.mkv"]);
    s.assign(&file("a.mkv"), &ep("Pilot", "1"));
    s.seed(vec![ep("Other", "9")], vec![file("z.mkv")]);
    assert!(s.confirmed_plan().is_empty());
    assert_eq!(paths(s.unassigned()), vec!["z.mkv"]);
    assert_eq!(s.episodes()[0].title, "Other");
}

#[test]
fn assign_moves_file_out_of_pool() {
    let mut s = seeded(vec![ep("Pilot", "1"), ep("Second", "2")], &["a.mkv", "b.mkv"]);
    s.assign(&file("a.mkv"), &ep("Pilot", "1"));
    assert_eq!(plan_pairs(&s), vec![("Pilot".to_string(), "a.mkv".to_string())]);
    assert_eq!(paths(s.unassigned()), vec!["b.mkv"]);
    check_invariants(&s);
}

#[test]
fn assign_onto_filled_episode_bumps_occupant() {
    let mut s = seeded(vec![ep("Pilot", "1")], &["a.mkv", "b.mkv"]);
    s.assign(&file("a.mkv"), &ep("Pilot", "1"));
    s.assign(&file("b.mkv"), &ep("Pilot", "1"));
    assert_eq!(plan_pairs(&s), vec![("Pilot".to_string(), "b.mkv".to_string())]);
    assert_eq!(paths(s.unassigned()), vec!["a.mkv"]);
    check_invariants(&s);
}

#[test]
fn reassign_moves_file_to_second_episode() {
    let mut s = seeded(vec![ep("Pilot", "1"), ep("Second", "2")], &["a.mkv", "b.mkv"]);
    s.assign(&file("a.mkv"), &ep("Pilot", "1"));
    s.assign(&file("a.mkv"), &ep("Second", "2"));
    assert_eq!(plan_pairs(&s), vec![("Second".to_string(), "a.mkv".to_string())]);
    assert!(s.confirmed_plan().iter().all(|(e, _)| e.title != "Pilot"));
    assert_eq!(paths(s.unassigned()), vec!["b.mkv"]);
    check_invariants(&s);
}

#[test]
fn assign_same_pair_twice_is_stable() {
    let mut s = seeded(vec![ep("Pilot", "1")], &["a.mkv"]);
    s.assign(&file("a.mkv"), &ep("Pilot", "1"));
    s.assign(&file("a.mkv"), &ep("Pilot", "1"));
    assert_eq!(plan_pairs(&s), vec![("Pilot".to_string(), "a.mkv".to_string())]);
    assert!(s.unassigned().is_empty());
}

#[test]
fn unassign_is_idempotent() {
    let mut s = seeded(vec![ep("Pilot", "1")], &["a.mkv", "b.mkv"]);
    s.assign(&file("a.mkv"), &ep("Pilot", "1"));
    s.unassign(&file("a.mkv"));
    let once = (plan_pairs(&s), paths(s.unassigned()));
    s.unassign(&file("a.mkv"));
    let twice = (plan_pairs(&s), paths(s.unassigned()));
    assert_eq!(once, twice);
    assert_eq!(once.1, vec!["b.mkv", "a.mkv"]);
    assert!(once.0.is_empty());
    check_invariants(&s);
}

#[test]
fn unassign_of_waiting_file_changes_nothing() {
    let mut s = seeded(vec![ep("Pilot", "1")], &["a.mkv", "b.mkv"]);
    s.unassign(&file("b.mkv"));
    assert_eq!(paths(s.unassigned()), vec!["a.mkv", "b.mkv"]);
}

#[test]
fn random_edits_keep_invariants() {
    let eps: Vec<Episode> = (1..=4).map(|i| ep(&format!("E{i}"), &i.to_string())).collect();
    let names: Vec<String> = (0..5).map(|i| format!("/d/f{i}.mkv")).collect();
    let refs: Vec<&str> = names.iter().map(|s| s.as_str()).collect();
    let mut seed: u64 = 0x2545F4914F6CDD1D;
    for _round in 0..20 {
        let mut s = seeded(eps.clone(), &refs);
        check_invariants(&s);
        for _step in 0..60 {
            seed = seed.wrapping_mul(6364136223846793005).wrapping_add(1442695040888963407);
            let r = (seed >> 33) as usize;
            let f = file(&names[r % names.len()]);
            if r % 3 == 0 {
                s.unassign(&f);
            } else {
                s.assign(&f, &eps[(r / 7) % eps.len()]);
            }
            check_invariants(&s);
        }
    }
}

#[test]
fn label_names_last_matching_episode() {
    let mut s = seeded(
        vec![ep("Pilot", "1"), ep("Second", "2"), Episode::new("Second bis", "2", "tt9")],
        &["a.mkv"],
    );
    assert_eq!(s.episode_with_label("2").map(|e| e.title.clone()), Some("Second bis".to_string()));
    assert!(s.episode_with_label("7").is_none());
    assert!(!s.assign_label(&file("a.mkv"), ""));
    assert!(!s.assign_label(&file("a.mkv"), "7"));
    assert!(s.confirmed_plan().is_empty());
    assert!(s.assign_label(&file("a.mkv"), "1"));
    assert_eq!(plan_pairs(&s), vec![("Pilot".to_string(), "a.mkv".to_string())]);
}

#[test]
fn clear_forgets_everything() {
    let mut s = seeded(vec![ep("Pilot", "1")], &["a.mkv"]);
    s.assign(&file("a.mkv"), &ep("Pilot", "1"));
    s.clear();
    assert!(s.confirmed_plan().is_empty());
    assert!(s.unassigned().is_empty());
    assert!(s.episodes().is_empty());
    assert!(s.files().is_empty());
}
