use csub::batch::build_jobs;
use csub::batch::stream_map_arg;
use csub::batch::BatchEvent;
use csub::batch::ExtractionInvocationError;
use csub::batch::ExtractionJob;
use csub::batch::JobOutcome;
use csub::batch::Orchestrator;

fn job(track_index: i32, output: &str) -> ExtractionJob {
    ExtractionJob {
        source: "/films/movie.mkv".to_string(),
        track_index,
        output: output.to_string(),
    }
}

fn failure(detail: &str) -> JobOutcome {
    JobOutcome::Failure(ExtractionInvocationError { detail: detail.to_string() })
}

#[test]
fn empty_batch_emits_start_then_finish() {
    let orch = Orchestrator::run_batch(Vec::new(), Vec::new());
    let events = orch.events();
    assert_eq!(events.len(), 2);
    assert!(matches!(events[0], BatchEvent::BatchStarted));
    assert!(matches!(events[1], BatchEvent::BatchFinished));
    assert_eq!(orch.count_failures(), 0);
}

#[test]
fn failed_job_does_not_abort_the_batch() {
    let jobs = vec![job(2, "/out/a.srt"), job(3, "/out/b.srt"), job(5, "/out/c.srt")];
    let outcomes = vec![JobOutcome::Success, failure("no such folder"), JobOutcome::Success];
    let orch = Orchestrator::run_batch(jobs, outcomes);
    let events = orch.events();
    assert_eq!(events.len(), 8);
    assert!(matches!(events[0], BatchEvent::BatchStarted));
    for (pos, index) in [(1, 2), (3, 3), (5, 5)] {
        match &events[pos] {
            BatchEvent::JobStarted(j) => assert_eq!(j.track_index, index),
            _ => panic!("expected a job start"),
        }
    }
    match &events[2] {
        BatchEvent::JobFinished(j, JobOutcome::Success) => assert_eq!(j.track_index, 2),
        _ => panic!("job one should have succeeded"),
    }
    match &events[4] {
        BatchEvent::JobFinished(j, JobOutcome::Failure(e)) => {
            assert_eq!(j.track_index, 3);
            assert_eq!(e.detail, "no such folder");
        },
        _ => panic!("job two should have failed"),
    }
    match &events[6] {
        BatchEvent::JobFinished(j, JobOutcome::Success) => assert_eq!(j.track_index, 5),
        _ => panic!("job three should have succeeded"),
    }
    assert!(matches!(events[7], BatchEvent::BatchFinished));
    assert_eq!(orch.count_failures(), 1);
}

#[test]
fn stepwise_protocol_matches_run_batch() {
    let jobs = vec![job(1, "/out/x.srt"), job(4, "/out/y.srt")];
    let mut orch = Orchestrator::start(jobs);
    assert_eq!(orch.events().len(), 1);
    let mut seen = Vec::new();
    while orch.pending() {
        let k = orch.position();
        orch.begin_job();
        let j = orch.job_at(k);
        seen.push(j.track_index);
        orch.finish_job(JobOutcome::Success);
    }
    orch.finish_batch();
    assert_eq!(seen, vec![1, 4]);
    assert_eq!(orch.events().len(), 6);
    assert!(matches!(orch.events()[5], BatchEvent::BatchFinished));
    assert_eq!(orch.count_failures(), 0);
}

#[test]
fn build_jobs_from_labels() {
    let labels = vec!["#2 Chinese".to_string(), "#3 English - Commentary".to_string()];
    let jobs = build_jobs("/films/movie.mkv", "/out", &labels).unwrap();
    assert_eq!(jobs.len(), 2);
    assert_eq!(jobs[0].source, "/films/movie.mkv");
    assert_eq!(jobs[0].track_index, 2);
    assert_eq!(jobs[0].output, "/out/Chinese.srt");
    assert_eq!(jobs[1].track_index, 3);
    assert_eq!(jobs[1].output, "/out/English - Commentary.srt");
}

#[test]
fn build_jobs_rejects_bad_label() {
    let labels = vec!["#2 Chinese".to_string(), "broken".to_string()];
    assert!(build_jobs("/films/movie.mkv", "/out", &labels).is_err());
}

#[test]
fn build_jobs_of_no_labels() {
    let jobs = build_jobs("/films/movie.mkv", "/out", &Vec::new()).unwrap();
    assert!(jobs.is_empty());
}

#[test]
fn stream_map_argument() {
    assert_eq!(stream_map_arg(0), "0:0");
    assert_eq!(stream_map_arg(12), "0:12");
    assert_eq!(stream_map_arg(2147483647), "0:2147483647");
}
