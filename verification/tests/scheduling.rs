use archetype_ecs::error::Trace;
use archetype_ecs::scheduler::{conflicts, run_mode, Accessor, RunMode, Scheduler};

fn names(scheduler: &Scheduler) -> Vec<Vec<usize>> {
    scheduler
        .execute()
        .into_iter()
        .map(|batch| batch.systems)
        .collect()
}

#[test]
fn read_and_read_do_not_conflict() {
    assert!(!conflicts(&vec![Accessor::Ref(0)], &vec![Accessor::Ref(0)]));
    assert!(!conflicts(
        &vec![Accessor::ResRef(3)],
        &vec![Accessor::ResRef(3)]
    ));
}

#[test]
fn write_conflicts_with_read_and_write_of_the_same_id() {
    assert!(conflicts(&vec![Accessor::Mut(0)], &vec![Accessor::Ref(0)]));
    assert!(conflicts(&vec![Accessor::Ref(0)], &vec![Accessor::Mut(0)]));
    assert!(conflicts(&vec![Accessor::Mut(0)], &vec![Accessor::Mut(0)]));
    assert!(conflicts(
        &vec![Accessor::ResMut(1)],
        &vec![Accessor::ResRef(1)]
    ));
    assert!(conflicts(
        &vec![Accessor::ResRef(1)],
        &vec![Accessor::ResMut(1)]
    ));
    assert!(conflicts(
        &vec![Accessor::ResMut(1)],
        &vec![Accessor::ResMut(1)]
    ));
    assert!(!conflicts(&vec![Accessor::Mut(0)], &vec![Accessor::Mut(1)]));
    assert!(!conflicts(
        &vec![Accessor::Mut(0)],
        &vec![Accessor::ResMut(0)]
    ));
}

#[test]
fn parallel_write_disjointness() {
    let mut scheduler = Scheduler::new("update");
    let s1 = scheduler.register("s1", vec![Accessor::Mut(0)], None);
    let s2 = scheduler.register("s2", vec![Accessor::Mut(1)], None);
    assert!(scheduler.finalize().is_ok());
    let plan = scheduler.execute();
    assert_eq!(plan.len(), 1);
    assert_eq!(plan[0].systems, vec![s1, s2]);
    assert_eq!(plan[0].mode, RunMode::Pair);
}

#[test]
fn conflict_forces_serialization() {
    let mut scheduler = Scheduler::new("update");
    let s1 = scheduler.register("s1", vec![Accessor::Mut(0)], None);
    let s2 = scheduler.register("s2", vec![Accessor::Ref(0)], None);
    assert!(scheduler.finalize().is_ok());
    assert_eq!(names(&scheduler), vec![vec![s1], vec![s2]]);

    let mut scheduler = Scheduler::new("update");
    let reader = scheduler.register("s2", vec![Accessor::Ref(0)], None);
    let writer = scheduler.register("s1", vec![Accessor::Mut(0)], None);
    assert!(scheduler.finalize().is_ok());
    assert_eq!(names(&scheduler), vec![vec![reader], vec![writer]]);
}

#[test]
fn a_failed_declaration_is_reported_at_finalization() {
    let mut scheduler = Scheduler::new("update");
    scheduler.register("fine", vec![Accessor::Ref(0)], None);
    scheduler.register("broken", vec![], Some(String::from("no such resource")));
    scheduler.register("worse", vec![], Some(String::from("nothing at all")));
    match scheduler.finalize() {
        Trace::Pass(_) => panic!("expected a failure"),
        Trace::Fail(report) => assert_eq!(
            report,
            "System Scheduler for stage update encountered error in system broken with trace: \n no such resource"
        ),
    }
    assert_eq!(scheduler.execute().len(), 0);
}

#[test]
fn groups_are_packed_by_first_fit() {
    let mut scheduler = Scheduler::new("update");
    // 0 and 1 conflict, 2 conflicts with 0, 3 is compatible with all
    let a = scheduler.register("a", vec![Accessor::Mut(0)], None);
    let b = scheduler.register("b", vec![Accessor::Ref(0), Accessor::Mut(1)], None);
    let c = scheduler.register("c", vec![Accessor::Ref(0)], None);
    let d = scheduler.register("d", vec![Accessor::ResRef(0)], None);
    assert!(!scheduler.is_full());
    assert!(scheduler.finalize().is_ok());
    // compatible peers: a has 1 (d), b has 2 (c, d), c has 2 (b, d), d has 3.
    // placed from the least flexible: a, then b, then c, then d.
    assert_eq!(names(&scheduler), vec![vec![a, d], vec![b, c]]);
    let plan = scheduler.execute();
    assert_eq!(plan[0].mode, RunMode::Pair);
    assert_eq!(plan[1].mode, RunMode::Pair);
}

#[test]
fn a_group_of_one_runs_inline_and_three_on_the_pool() {
    assert_eq!(run_mode(1), RunMode::Inline);
    assert_eq!(run_mode(2), RunMode::Pair);
    assert_eq!(run_mode(3), RunMode::Pool);
    assert_eq!(run_mode(40), RunMode::Pool);
    let mut scheduler = Scheduler::new("update");
    scheduler.register("a", vec![Accessor::Ref(0)], None);
    scheduler.register("b", vec![Accessor::Ref(0)], None);
    scheduler.register("c", vec![Accessor::Ref(0)], None);
    assert!(scheduler.finalize().is_ok());
    let plan = scheduler.execute();
    assert_eq!(plan.len(), 1);
    assert_eq!(plan[0].mode, RunMode::Pool);
    assert_eq!(plan[0].systems, vec![0, 1, 2]);
    // systems that are registered later join the groups that exist
    let d = scheduler.register("d", vec![Accessor::Mut(0)], None);
    let e = scheduler.register("e", vec![Accessor::Mut(5)], None);
    assert!(scheduler.finalize().is_ok());
    assert_eq!(names(&scheduler), vec![vec![0, 1, 2, e], vec![d]]);
}

#[test]
fn no_two_members_of_a_group_conflict() {
    let lists: Vec<Vec<Accessor>> = vec![
        vec![Accessor::Mut(0), Accessor::Ref(1)],
        vec![Accessor::Mut(1)],
        vec![Accessor::Ref(0), Accessor::ResMut(0)],
        vec![Accessor::ResRef(0), Accessor::Ref(2)],
        vec![Accessor::Mut(2), Accessor::Mut(3)],
        vec![Accessor::Ref(3)],
        vec![],
    ];
    let mut scheduler = Scheduler::new("update");
    for list in lists.iter() {
        scheduler.register("system", list.clone(), None);
    }
    assert!(scheduler.finalize().is_ok());
    let groups = names(&scheduler);
    let mut seen = vec![false; lists.len()];
    for group in groups.iter() {
        for (i, a) in group.iter().enumerate() {
            assert!(!seen[*a]);
            seen[*a] = true;
            for b in group.iter().skip(i + 1) {
                assert!(!conflicts(&lists[*a], &lists[*b]));
            }
        }
    }
    assert!(seen.iter().all(|s| *s));
}

#[test]
fn the_less_flexible_system_is_placed_first() {
    let mut scheduler = Scheduler::new("update");
    // the writer of 0 is registered first, but the system in the middle
    // conflicts with both others: it has no compatible peer and is placed
    // first, before the writer it conflicts with
    let writer = scheduler.register("writer", vec![Accessor::Mut(0)], None);
    let middle = scheduler.register("middle", vec![Accessor::Ref(0), Accessor::Mut(1)], None);
    let reader = scheduler.register("reader", vec![Accessor::Ref(1)], None);
    assert!(scheduler.finalize().is_ok());
    assert_eq!(names(&scheduler), vec![vec![middle], vec![writer, reader]]);
}
