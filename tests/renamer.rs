use series_renamer::{
    AppSettings, Episode, FetchFailure, FetchMessage, FetchResult, LocalFile, RenameOutcome,
    SeriesRenamer,
};

#[test]
fn defaults() {
    let r = SeriesRenamer::default();
    assert_eq!(r.season_number, 1);
    assert_eq!(r.fetch_status, "Waiting for user input...");
    assert!(!r.show_process_window);
    assert!(!r.fetcher.is_fetching());
    assert_eq!(AppSettings::default().api_key, "YOUR_API_KEY_HERE");
}

#[test]
fn fetch_needs_link_and_directory() {
    let mut r = SeriesRenamer::default();
    r.imdb_link = "https://www.imdb.com/title/tt0903747/".to_string();
    assert!(r.request_fetch().is_none());
    assert_eq!(r.fetch_status, "Please provide both an IMDb link and a directory.");
    assert!(!r.fetcher.is_fetching());
}

#[test]
fn link_without_identifier_starts_nothing() {
    let mut r = SeriesRenamer::default();
    r.imdb_link = "https://example.com/show".to_string();
    r.series_directory = "/tv".to_string();
    assert!(r.request_fetch().is_none());
    assert_eq!(r.fetch_status, "Could not find IMDb ID in link.");
    assert!(!r.fetcher.is_fetching());
}

#[test]
fn full_cycle() {
    let mut r = SeriesRenamer::default();
    r.imdb_link = "https://www.imdb.com/title/tt0903747/".to_string();
    r.series_directory = "/tv".to_string();
    r.season_number = 2;
    r.api_key = "K".to_string();
    let job = r.request_fetch().expect("a job");
    assert_eq!(job.url, "http://www.omdbapi.com/?i=tt0903747&Season=2&apikey=K");
    assert_eq!(job.directory, "/tv");
    assert_eq!(r.fetch_status, "Fetching data...");
    assert!(r.show_process_window);
    assert!(r.request_fetch().is_none());
    assert!(!r.poll_fetch());

    let result = FetchResult::Fetched {
        episodes: vec![Episode::new("Pilot", "1", "tt1"), Episode::new("Second", "2", "tt2")],
        files: vec![LocalFile::new("/tv/a.mkv"), LocalFile::new("/tv/b")],
    };
    job.ticket.sender.send(FetchMessage { generation: job.ticket.generation, result }).unwrap();
    assert!(r.poll_fetch());
    assert_eq!(r.fetch_status, "Fetched 2 episodes and 2 files.");
    assert!(!r.fetcher.is_fetching());
    assert_eq!(r.assignment.unassigned().len(), 2);

    assert!(!r.request_confirmation());
    assert!(!r.show_confirmation_dialog);
    assert!(r.assignment.assign_label(&LocalFile::new("/tv/a.mkv"), "1"));
    r.assignment.assign(&LocalFile::new("/tv/b"), &Episode::new("Second", "2", "tt2"));
    assert!(r.request_confirmation());
    assert!(r.show_confirmation_dialog);

    let steps = r.rename_steps();
    assert_eq!(steps.len(), 2);
    assert_eq!(steps[0].as_ref().unwrap().new_path, "/tv/S02E01 - Pilot.mkv");
    assert!(matches!(&steps[1], Err(RenameOutcome::Failure { reason, .. }) if reason == "missing extension"));

    let outcomes = vec![
        RenameOutcome::Success {
            old_path: "/tv/a.mkv".to_string(),
            new_path: "/tv/S02E01 - Pilot.mkv".to_string(),
        },
        RenameOutcome::Failure { old_path: "/tv/b".to_string(), reason: "missing extension".to_string() },
    ];
    r.finish_renames(&outcomes);
    assert_eq!(
        r.fetch_status,
        "Successfully renamed '/tv/a.mkv' to 'S02E01 - Pilot.mkv'\nERROR renaming /tv/b: missing extension"
    );
    assert!(!r.show_process_window);
    assert!(!r.show_confirmation_dialog);
    assert!(r.assignment.confirmed_plan().is_empty());
    assert!(r.assignment.files().is_empty());
}

#[test]
fn failed_fetch_sets_status() {
    let mut r = SeriesRenamer::default();
    r.apply_fetch_result(FetchResult::Failed(FetchFailure::Api {
        status: 401,
        status_text: "Unauthorized".to_string(),
    }));
    assert_eq!(r.fetch_status, "API Error: 401 Unauthorized");
    r.cancel_confirmation();
    assert!(!r.show_confirmation_dialog);
}
