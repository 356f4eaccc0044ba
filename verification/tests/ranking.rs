use timepie::rank::rank;
use timepie::report::{Project, Report, TimeSpan};

fn named(name: &str, time: u64) -> Project {
    Project { name: name.to_string(), tags: vec![format!("tag-{}", name)], time }
}

fn report_of(projects: Vec<Project>) -> Report {
    Report {
        projects,
        time: 1234,
        timespan: TimeSpan { from: "2024-01-01".to_string(), to: "2024-01-31".to_string() },
    }
}

fn names_of(projects: &[Project]) -> Vec<String> {
    projects.iter().map(|p| p.name.clone()).collect()
}

fn times_of(projects: &[Project]) -> Vec<u64> {
    projects.iter().map(|p| p.time).collect()
}

#[test]
fn sort_projects_puts_longest_first() {
    let mut report = report_of(vec![
        named("c", 30),
        named("a", 100),
        named("e", 5),
        named("b", 70),
        named("d", 12),
    ]);
    report.sort_projects();
    assert_eq!(names_of(&report.projects), vec!["a", "b", "c", "d", "e"]);
    assert_eq!(times_of(&report.projects), vec![100, 70, 30, 12, 5]);
}

#[test]
fn sort_projects_never_puts_a_shorter_project_first() {
    let mut seed: u64 = 0x2545_f491_4f6c_dd1d;
    let mut projects: Vec<Project> = Vec::new();
    for i in 0..200usize {
        seed ^= seed << 13;
        seed ^= seed >> 7;
        seed ^= seed << 17;
        projects.push(named(&format!("p{}", i), seed % 50));
    }
    let mut report = report_of(projects);
    report.sort_projects();
    assert_eq!(report.projects.len(), 200);
    for pair in report.projects.windows(2) {
        assert!(pair[0].time >= pair[1].time);
    }
}

#[test]
fn sort_projects_keeps_every_project() {
    let given = vec![named("x", 3), named("y", 9), named("z", 3), named("w", 0), named("v", 9)];
    let mut report = report_of(given.clone());
    report.sort_projects();
    assert_eq!(report.projects.len(), given.len());
    for project in &given {
        let before: usize = given.iter().filter(|p| *p == project).count();
        let after: usize = report.projects.iter().filter(|p| *p == project).count();
        assert_eq!(before, after);
    }
    assert_eq!(report.projects[0].tags, vec!["tag-y".to_string()]);
}

#[test]
fn sort_projects_keeps_equal_times_in_their_order() {
    let mut report = report_of(vec![
        named("first-3", 3),
        named("first-9", 9),
        named("second-3", 3),
        named("only-0", 0),
        named("second-9", 9),
        named("third-3", 3),
    ]);
    report.sort_projects();
    assert_eq!(
        names_of(&report.projects),
        vec!["first-9", "second-9", "first-3", "second-3", "third-3", "only-0"]
    );
}

#[test]
fn sort_projects_twice_is_the_same_as_once() {
    let mut report = report_of(vec![named("a", 4), named("b", 8), named("c", 6), named("d", 7)]);
    report.sort_projects();
    let once = report.clone();
    report.sort_projects();
    assert_eq!(report, once);
}

#[test]
fn sort_projects_leaves_a_ranked_report_alone() {
    let ranked = report_of(vec![named("a", 10), named("b", 9), named("c", 9), named("d", 1)]);
    let mut report = ranked.clone();
    report.sort_projects();
    assert_eq!(report, ranked);
}

#[test]
fn sort_projects_reverses_an_ascending_report() {
    let mut report = report_of(vec![named("a", 1), named("b", 2), named("c", 3), named("d", 4)]);
    report.sort_projects();
    assert_eq!(names_of(&report.projects), vec!["d", "c", "b", "a"]);
}

#[test]
fn sort_projects_keeps_time_and_timespan() {
    let mut report = report_of(vec![named("a", 1), named("b", 2)]);
    report.sort_projects();
    assert_eq!(report.time, 1234);
    assert_eq!(report.timespan.from, "2024-01-01");
    assert_eq!(report.timespan.to, "2024-01-31");
}

#[test]
fn sort_projects_accepts_no_projects() {
    let mut report = report_of(Vec::new());
    report.sort_projects();
    assert!(report.projects.is_empty());
}

#[test]
fn sort_projects_accepts_one_project() {
    let mut report = report_of(vec![named("solo", 42)]);
    report.sort_projects();
    assert_eq!(report.projects, vec![named("solo", 42)]);
}

#[test]
fn sort_projects_orders_the_extremes() {
    let mut report = report_of(vec![named("zero", 0), named("max", u64::MAX), named("one", 1)]);
    report.sort_projects();
    assert_eq!(times_of(&report.projects), vec![u64::MAX, 1, 0]);
}

#[test]
fn rank_orders_a_plain_list() {
    let mut projects = vec![named("b", 2), named("c", 3), named("a", 1), named("d", 3)];
    rank(&mut projects);
    assert_eq!(names_of(&projects), vec!["c", "d", "b", "a"]);
}
