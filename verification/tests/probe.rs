use powertest::probe::ProbeOutcome;
use powertest::probe::ProbeOutcome::AttachFailed;
use powertest::probe::ProbeOutcome::Attached;
use powertest::probe::ProbeOutcome::OpenFailed;
use powertest::probe::ProbeSearch;
use powertest::probe::ProbeStep;

/// Runs a search over probes that behave as `behaviour` says, and returns
/// where it ended and which probes it tried.
fn run(behaviour: &[ProbeOutcome]) -> (ProbeStep, Vec<usize>) {
    let mut search = ProbeSearch::new(behaviour.len());
    let mut tried = Vec::new();
    loop {
        match search.step() {
            ProbeStep::Try(at) => {
                tried.push(at);
                search.record(behaviour[at]);
            }
            done => return (done, tried),
        }
    }
}

#[test]
fn no_probes_is_exhausted() {
    assert_eq!(ProbeSearch::new(0).step(), ProbeStep::Exhausted);
    assert_eq!(run(&[]), (ProbeStep::Exhausted, vec![]));
}

#[test]
fn first_probe_that_attaches_is_kept() {
    assert_eq!(run(&[Attached]), (ProbeStep::Attached(0), vec![0]));
    assert_eq!(run(&[Attached, Attached]), (ProbeStep::Attached(0), vec![0]));
    assert_eq!(run(&[OpenFailed, Attached, Attached]), (ProbeStep::Attached(1), vec![0, 1]));
    assert_eq!(
        run(&[OpenFailed, AttachFailed, OpenFailed, Attached, OpenFailed]),
        (ProbeStep::Attached(3), vec![0, 1, 2, 3])
    );
}

#[test]
fn failing_probes_are_skipped_until_none_remain() {
    assert_eq!(run(&[OpenFailed]), (ProbeStep::Exhausted, vec![0]));
    assert_eq!(run(&[AttachFailed, OpenFailed, AttachFailed]), (ProbeStep::Exhausted, vec![0, 1, 2]));
}

#[test]
fn finished_search_ignores_further_outcomes() {
    let mut search = ProbeSearch::new(2);
    search.record(ProbeOutcome::Attached);
    assert_eq!(search.step(), ProbeStep::Attached(0));
    search.record(ProbeOutcome::OpenFailed);
    search.record(ProbeOutcome::Attached);
    assert_eq!(search.step(), ProbeStep::Attached(0));

    let mut exhausted = ProbeSearch::new(1);
    exhausted.record(ProbeOutcome::AttachFailed);
    assert_eq!(exhausted.step(), ProbeStep::Exhausted);
    exhausted.record(ProbeOutcome::Attached);
    assert_eq!(exhausted.step(), ProbeStep::Exhausted);
}

#[test]
fn search_agrees_with_first_success_on_all_short_enumerations() {
    let outcomes = [ProbeOutcome::OpenFailed, ProbeOutcome::AttachFailed, ProbeOutcome::Attached];
    for length in 0..6usize {
        for code in 0..3usize.pow(length as u32) {
            let behaviour: Vec<ProbeOutcome> =
                (0..length).map(|place| outcomes[(code / 3usize.pow(place as u32)) % 3]).collect();
            let first = behaviour.iter().position(|o| *o == ProbeOutcome::Attached);
            let (step, tried) = run(&behaviour);
            match first {
                Some(at) => {
                    assert_eq!(step, ProbeStep::Attached(at));
                    assert_eq!(tried, (0..=at).collect::<Vec<usize>>());
                }
                None => {
                    assert_eq!(step, ProbeStep::Exhausted);
                    assert_eq!(tried, (0..length).collect::<Vec<usize>>());
                }
            }
        }
    }
}
