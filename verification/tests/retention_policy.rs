use container_reconciler::inventory::{group_records, ContainerRecord};
use container_reconciler::retention::{plan_group, select_survivor_index};

fn rec(id: &str, name: &str, created: i64) -> ContainerRecord {
    ContainerRecord {
        id: id.to_string(),
        name: name.to_string(),
        created,
    }
}

#[test]
fn survivor_is_newest_and_removal_set_is_the_rest() {
    // Two ram containers and one cpu container: the newest of each
    // category survives, the older ram container is removed.
    let records = vec![
        rec("a1", "stress_ram_1", 100),
        rec("a2", "stress_ram_2", 200),
        rec("b1", "stress_cpu_1", 150),
    ];
    let groups = group_records(&records);
    let protected: Vec<String> = Vec::new();

    let ram_plan = plan_group(&groups.ram, &protected);
    assert_eq!(ram_plan.survivor_index, Some(1));
    assert_eq!(groups.ram[1].id, "a2");
    assert_eq!(ram_plan.removals.len(), 1);
    assert_eq!(ram_plan.removals[0].id, "a1");

    let cpu_plan = plan_group(&groups.cpu, &protected);
    assert_eq!(cpu_plan.survivor_index, Some(0));
    assert_eq!(groups.cpu[0].id, "b1");
    assert_eq!(cpu_plan.removals.len(), 0);

    let io_plan = plan_group(&groups.io, &protected);
    assert_eq!(io_plan.survivor_index, None);
    assert_eq!(io_plan.removals.len(), 0);
}

#[test]
fn protected_id_is_never_removed() {
    // The protected container is not the newest of its category, yet the
    // removal set becomes empty.
    let records = vec![
        rec("a1", "stress_ram_1", 100),
        rec("a2", "stress_ram_2", 200),
        rec("b1", "stress_cpu_1", 150),
    ];
    let groups = group_records(&records);
    let protected = vec!["a1".to_string()];

    let ram_plan = plan_group(&groups.ram, &protected);
    assert_eq!(ram_plan.survivor_index, Some(1));
    assert_eq!(ram_plan.removals.len(), 0);

    let cpu_plan = plan_group(&groups.cpu, &protected);
    assert_eq!(cpu_plan.removals.len(), 0);
}

#[test]
fn at_most_one_unprotected_container_survives_a_pass() {
    let group = vec![
        rec("c1", "stress_disk_a", 10),
        rec("c2", "stress_disk_b", 30),
        rec("c3", "stress_disk_c", 20),
        rec("c4", "stress_disk_d", 30),
    ];
    let protected: Vec<String> = Vec::new();
    let plan = plan_group(&group, &protected);
    let survivor = plan.survivor_index.unwrap();
    // Everything except the survivor is in the removal set.
    assert_eq!(plan.removals.len(), group.len() - 1);
    for r in &plan.removals {
        assert_ne!(r.id, group[survivor].id);
    }
}

#[test]
fn rerunning_on_the_survivors_removes_nothing() {
    // First pass over the full group, second pass over what it kept.
    let group = vec![
        rec("x1", "stress_ram_1", 5),
        rec("x2", "stress_ram_2", 9),
        rec("x3", "stress_ram_3", 7),
    ];
    let protected = vec!["x1".to_string()];
    let plan = plan_group(&group, &protected);
    // x2 survives, x1 is protected, x3 is removed.
    assert_eq!(plan.survivor_index, Some(1));
    assert_eq!(plan.removals.len(), 1);
    assert_eq!(plan.removals[0].id, "x3");

    let kept = vec![
        rec("x1", "stress_ram_1", 5),
        rec("x2", "stress_ram_2", 9),
    ];
    let second = plan_group(&kept, &protected);
    assert_eq!(second.survivor_index, Some(1));
    assert_eq!(second.removals.len(), 0);
}

#[test]
fn creation_time_ties_break_towards_greatest_id() {
    let group = vec![
        rec("aaa", "stress_cpu_1", 50),
        rec("zzz", "stress_cpu_2", 50),
        rec("mmm", "stress_cpu_3", 50),
    ];
    let s = select_survivor_index(&group);
    assert_eq!(group[s].id, "zzz");
}

#[test]
fn survivor_selection_prefers_newer_over_greater_id() {
    let group = vec![
        rec("zzz", "stress_cpu_1", 10),
        rec("aaa", "stress_cpu_2", 20),
    ];
    let s = select_survivor_index(&group);
    assert_eq!(group[s].id, "aaa");
}

#[test]
fn full_tie_keeps_the_earliest_listed() {
    let group = vec![
        rec("same", "stress_io_first", 40),
        rec("same", "stress_io_second", 40),
    ];
    let s = select_survivor_index(&group);
    assert_eq!(s, 0);
}

#[test]
fn stopped_and_running_containers_are_treated_alike() {
    // Grouping and planning know nothing of container state: every listed
    // record of the category takes part.
    let group = vec![
        rec("old", "stress_ram_stale", -5),
        rec("new", "stress_ram_live", 60),
    ];
    let protected: Vec<String> = Vec::new();
    let plan = plan_group(&group, &protected);
    assert_eq!(plan.survivor_index, Some(1));
    assert_eq!(plan.removals.len(), 1);
    assert_eq!(plan.removals[0].id, "old");
}
