use series_renamer::{
    catalog_outcome, catalog_request, extract_identifier, fetch_result, files_of_scan,
    format_request_url, Episode, FetchFailure, FetchResult, HttpReply, LocalFile, ScanEntry,
};

#[test]
fn identifier_is_first_tt_segment() {
    let id = extract_identifier("https://www.imdb.com/title/tt0903747/episodes?season=1");
    assert_eq!(id, Ok("tt0903747".to_string()));
    let id = extract_identifier("https://x.org/tt1/tt2/");
    assert_eq!(id, Ok("tt1".to_string()));
    assert_eq!(extract_identifier("tt42"), Ok("tt42".to_string()));
    assert_eq!(extract_identifier("a/ttx/tt9"), Ok("ttx".to_string()));
}

#[test]
fn identifier_needs_a_whole_segment_prefix() {
    assert_eq!(extract_identifier("https://x.org/att1/t/t"), Err(FetchFailure::NoIdentifier));
    assert_eq!(extract_identifier(""), Err(FetchFailure::NoIdentifier));
    assert_eq!(extract_identifier("t/t"), Err(FetchFailure::NoIdentifier));
    assert_eq!(extract_identifier("Tt12"), Err(FetchFailure::NoIdentifier));
}

#[test]
fn request_is_built_only_for_an_identifier() {
    let url = catalog_request("https://www.imdb.com/title/tt0903747/", 3, "KEY");
    assert_eq!(url, Ok("http://www.omdbapi.com/?i=tt0903747&Season=3&apikey=KEY".to_string()));
    assert_eq!(catalog_request("https://example.com/show", 3, "KEY"), Err(FetchFailure::NoIdentifier));
    assert_eq!(
        format_request_url("tt1", 10, ""),
        "http://www.omdbapi.com/?i=tt1&Season=10&apikey="
    );
}

fn reply(ok: bool, status: u16, text: &str) -> Result<HttpReply, String> {
    Ok(HttpReply { ok, status, status_text: text.to_string() })
}

#[test]
fn outcome_of_each_reply() {
    let eps = vec![Episode::new("Pilot", "1", "tt1")];
    assert_eq!(
        catalog_outcome(reply(true, 200, "OK"), Ok(eps.clone())),
        Ok(vec![Episode::new("Pilot", "1", "tt1")])
    );
    assert_eq!(
        catalog_outcome(reply(false, 401, "Unauthorized"), Ok(eps.clone())),
        Err(FetchFailure::Api { status: 401, status_text: "Unauthorized".to_string() })
    );
    assert_eq!(
        catalog_outcome(reply(true, 200, "OK"), Err("bad json".to_string())),
        Err(FetchFailure::Decode { message: "bad json".to_string() })
    );
    assert_eq!(
        catalog_outcome(Err("timed out".to_string()), Ok(eps)),
        Err(FetchFailure::Network { message: "timed out".to_string() })
    );
    assert_eq!(catalog_outcome(reply(true, 200, "OK"), Ok(vec![])), Ok(vec![]));
}

#[test]
fn failure_messages() {
    assert_eq!(FetchFailure::NoIdentifier.message(), "Could not find IMDb ID in link.");
    assert_eq!(
        FetchFailure::Network { message: "down".to_string() }.message(),
        "Network Error: down"
    );
    assert_eq!(
        FetchFailure::Api { status: 404, status_text: "Not Found".to_string() }.message(),
        "API Error: 404 Not Found"
    );
    assert_eq!(
        FetchFailure::Decode { message: "eof".to_string() }.message(),
        "JSON Parse Error: eof"
    );
    assert!(!FetchFailure::ChannelDisconnected.message().is_empty());
}

#[test]
fn fetch_result_pairs_files_with_outcome() {
    let files = vec![LocalFile::new("a.mkv")];
    let r = fetch_result(files.clone(), Ok(vec![Episode::new("Pilot", "1", "tt1")]));
    assert_eq!(
        r,
        FetchResult::Fetched { episodes: vec![Episode::new("Pilot", "1", "tt1")], files }
    );
    let r = fetch_result(vec![], Err(FetchFailure::NoIdentifier));
    assert_eq!(r, FetchResult::Failed(FetchFailure::NoIdentifier));
}

#[test]
fn scan_keeps_each_regular_file_once() {
    let entries = vec![
        ScanEntry::NotFile,
        ScanEntry::File("/r/a.mkv".to_string()),
        ScanEntry::NotFile,
        ScanEntry::File("/r/s/b.mkv".to_string()),
        ScanEntry::Unreadable,
        ScanEntry::File("/r/s/c.txt".to_string()),
    ];
    let files = files_of_scan(&entries);
    let paths: Vec<&str> = files.iter().map(|f| f.path.as_str()).collect();
    assert_eq!(paths, vec!["/r/a.mkv", "/r/s/b.mkv", "/r/s/c.txt"]);
    assert!(files_of_scan(&vec![ScanEntry::NotFile]).is_empty());
}
