//! The state of the tool between ticks of its interactive loop.
//!
//! The loop owns one `SeriesRenamer`. It forwards what the user does to it,
//! runs the fetch work that `request_fetch` hands out, polls for its result,
//! and carries out the renames that the plan asks for.

use vstd::prelude::*;
use crate::assignment::{episode_views, file_views, seeded, AssignmentState};
use crate::catalog::{
    catalog_request, failure_text, link_identifier, request_url, FetchFailure, FetchResult,
};
use crate::coordinator::{FetchCoordinator, FetchTicket};
use crate::rename::{plan_renames, report, report_text, step_matches, PlannedRename, RenameOutcome};
use crate::text::{decimal, push_decimal};

verus! {

/// The work of one fetch attempt, for a worker to carry out: walk
/// `directory`, send the request `url`, and report through `ticket`.
pub struct FetchJob {
    pub url: String,
    pub directory: String,
    pub ticket: FetchTicket,
}

/// The status line after a successful fetch.
pub open spec fn fetched_text(episodes: nat, files: nat) -> Seq<char> {
    "Fetched "@ + decimal(episodes) + " episodes and "@ + decimal(files) + " files."@
}

/// The state of the tool: the user's inputs, the fetch in flight, and the
/// assignment being edited.
pub struct SeriesRenamer {
    pub imdb_link: String,
    pub series_directory: String,
    pub season_number: u32,
    pub show_process_window: bool,
    /// The key that the catalogue asks for.
    pub api_key: String,
    /// The status line shown to the user.
    pub fetch_status: String,
    /// Whether the user is being asked to confirm the renames.
    pub show_confirmation_dialog: bool,
    pub fetcher: FetchCoordinator,
    pub assignment: AssignmentState,
}

impl Default for SeriesRenamer {
    fn default() -> (r: SeriesRenamer)
        ensures
            r.imdb_link@.len() == 0,
            r.series_directory@.len() == 0,
            r.season_number == 1,
            !r.show_process_window,
            r.api_key@.len() == 0,
            r.fetch_status@ == "Waiting for user input..."@,
            !r.show_confirmation_dialog,
            !r.fetcher.in_flight(),
            r.assignment@ == seeded(Seq::empty(), Seq::empty()),
            r.assignment.wf(),
    {
        SeriesRenamer {
            imdb_link: String::new(),
            series_directory: String::new(),
            season_number: 1,
            show_process_window: false,
            api_key: String::new(),
            fetch_status: String::from_str("Waiting for user input..."),
            show_confirmation_dialog: false,
            fetcher: FetchCoordinator::new(),
            assignment: AssignmentState::new(),
        }
    }
}

impl SeriesRenamer {
    /// The user asks to process the inputs. Nothing happens while a fetch is
    /// in flight. Without both a link and a directory, or with a link that
    /// names no show, the status says why and nothing is started. Otherwise
    /// the previous assignment is dropped, an attempt starts, and its work
    /// is handed out.
    pub fn request_fetch(&mut self) -> (r: Option<FetchJob>)
        ensures
            old(self).fetcher.in_flight() ==> r is None && *final(self) == *old(self),
            !old(self).fetcher.in_flight() && (old(self).imdb_link@.len() == 0
                || old(self).series_directory@.len() == 0) ==> r is None
                && final(self).fetch_status@
                == "Please provide both an IMDb link and a directory."@
                && final(self).assignment == old(self).assignment && final(self).fetcher
                == old(self).fetcher && final(self).show_process_window
                == old(self).show_process_window,
            !old(self).fetcher.in_flight() && old(self).imdb_link@.len() > 0
                && old(self).series_directory@.len() > 0 ==> match link_identifier(
                old(self).imdb_link@,
            ) {
                None => r is None && final(self).fetch_status@ == failure_text(
                    FetchFailure::NoIdentifier,
                ) && final(self).fetcher == old(self).fetcher && final(self).assignment
                    == old(self).assignment && final(self).show_process_window,
                Some(id) => r matches Some(job) && job.url@ == request_url(
                    id,
                    old(self).season_number,
                    old(self).api_key@,
                ) && job.directory@ == old(self).series_directory@ && job.ticket.generation
                    == final(self).fetcher.generation() && final(self).fetcher.in_flight()
                    && final(self).fetch_status@ == "Fetching data..."@
                    && final(self).assignment@ == seeded(Seq::empty(), Seq::empty())
                    && final(self).assignment.wf() && final(self).show_process_window,
            },
            final(self).imdb_link == old(self).imdb_link,
            final(self).series_directory == old(self).series_directory,
            final(self).season_number == old(self).season_number,
            final(self).api_key == old(self).api_key,
            final(self).show_confirmation_dialog == old(self).show_confirmation_dialog,
    {
        if self.fetcher.is_fetching() {
            return None;
        }
        if self.imdb_link.as_str().is_empty() || self.series_directory.as_str().is_empty() {
            self.fetch_status = String::from_str(
                "Please provide both an IMDb link and a directory.",
            );
            return None;
        }
        self.show_process_window = true;
        match catalog_request(self.imdb_link.as_str(), self.season_number, self.api_key.as_str()) {
            Err(failure) => {
                self.fetch_status = failure.message();
                None
            },
            Ok(url) => {
                self.fetch_status = String::from_str("Fetching data...");
                self.assignment.clear();
                match self.fetcher.start() {
                    Some(ticket) => Some(
                        FetchJob { url, directory: self.series_directory.clone(), ticket },
                    ),
                    None => None,
                }
            },
        }
    }

    /// Takes in the result of a fetch: the episodes and files seed a fresh
    /// assignment, or the status tells why the fetch failed.
    pub fn apply_fetch_result(&mut self, result: FetchResult)
        requires
            old(self).assignment.wf(),
        ensures
            final(self).assignment.wf(),
            final(self).fetcher == old(self).fetcher,
            final(self).show_process_window == old(self).show_process_window,
            final(self).show_confirmation_dialog == old(self).show_confirmation_dialog,
            match result {
                FetchResult::Fetched { episodes, files } => final(self).assignment@ == seeded(
                    episode_views(episodes@),
                    file_views(files@),
                ) && final(self).fetch_status@ == fetched_text(
                    episodes@.len(),
                    files@.len(),
                ),
                FetchResult::Failed(f) => final(self).fetch_status@ == failure_text(f)
                    && final(self).assignment == old(self).assignment,
            },
    {
        match result {
            FetchResult::Fetched { episodes, files } => {
                let mut text = String::from_str("Fetched ");
                push_decimal(&mut text, episodes.len() as u64);
                text.append(" episodes and ");
                push_decimal(&mut text, files.len() as u64);
                text.append(" files.");
                assert(text@ =~= fetched_text(episodes@.len(), files@.len()));
                self.fetch_status = text;
                self.assignment.seed(episodes, files);
            },
            FetchResult::Failed(f) => {
                self.fetch_status = f.message();
            },
        }
    }

    /// Looks for the result of the fetch in flight, without blocking, and
    /// takes it in if it has come. Tells whether a result came.
    pub fn poll_fetch(&mut self) -> (r: bool)
        requires
            old(self).assignment.wf(),
        ensures
            final(self).assignment.wf(),
            !old(self).fetcher.in_flight() ==> !r && final(self).assignment
                == old(self).assignment && final(self).fetch_status == old(self).fetch_status,
            r ==> !final(self).fetcher.in_flight(),
            !r ==> final(self).assignment == old(self).assignment && final(self).fetch_status
                == old(self).fetch_status,
            final(self).fetcher.generation() == old(self).fetcher.generation(),
            final(self).show_process_window == old(self).show_process_window,
            final(self).show_confirmation_dialog == old(self).show_confirmation_dialog,
    {
        match self.fetcher.poll() {
            Some(result) => {
                self.apply_fetch_result(result);
                true
            },
            None => false,
        }
    }

    /// The renames that the current plan asks for, entry by entry.
    pub fn rename_steps(&self) -> (r: Vec<Result<PlannedRename, RenameOutcome>>)
        ensures
            r@.len() == self.assignment@.plan.len(),
            forall|i: int|
                0 <= i < r@.len() ==> step_matches(
                    (#[trigger] self.assignment@.plan[i]).0,
                    self.assignment@.plan[i].1,
                    self.season_number,
                    r@[i],
                ),
    {
        let plan = self.assignment.confirmed_plan();
        let steps = plan_renames(plan, self.season_number);
        assert forall|i: int| 0 <= i < steps@.len() implies step_matches(
            (#[trigger] self.assignment@.plan[i]).0,
            self.assignment@.plan[i].1,
            self.season_number,
            steps@[i],
        ) by {
            assert(self.assignment@.plan[i] == (plan@[i].0@, plan@[i].1@));
        }
        steps
    }

    /// The user asks to confirm the plan: the question is put only when the
    /// plan holds something. Tells whether it was put.
    pub fn request_confirmation(&mut self) -> (r: bool)
        ensures
            r == (old(self).assignment@.plan.len() > 0),
            final(self).show_confirmation_dialog == (r || old(self).show_confirmation_dialog),
            final(self).assignment == old(self).assignment,
            final(self).fetch_status == old(self).fetch_status,
    {
        let n = self.assignment.confirmed_plan().len();
        if n > 0 {
            self.show_confirmation_dialog = true;
        }
        n > 0
    }

    /// The user declines the renames.
    pub fn cancel_confirmation(&mut self)
        ensures
            !final(self).show_confirmation_dialog,
            final(self).assignment == old(self).assignment,
            final(self).fetch_status == old(self).fetch_status,
    {
        self.show_confirmation_dialog = false;
    }

    /// The renames are done: the status reports each outcome, the windows
    /// close and the assignment is cleared.
    pub fn finish_renames(&mut self, outcomes: &Vec<RenameOutcome>)
        ensures
            final(self).fetch_status@ == report_text(outcomes@),
            !final(self).show_confirmation_dialog,
            !final(self).show_process_window,
            final(self).assignment@ == seeded(Seq::empty(), Seq::empty()),
            final(self).assignment.wf(),
    {
        self.fetch_status = report(outcomes);
        self.show_confirmation_dialog = false;
        self.show_process_window = false;
        self.assignment.clear();
    }
}

} // verus!
