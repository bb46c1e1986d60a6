//! Planning the renames of a confirmed assignment and reporting how they went.
//!
//! The renames themselves are disk work and happen outside the library: each
//! planned move is carried out by the caller, who hands back what the file
//! system answered.

use vstd::prelude::*;
use crate::media::{
    extension, file_name, file_name_of, parent_prefix, sanitize_title, sanitized, Episode,
    EpisodeView, LocalFile,
};
use crate::text::{padded2, parse_u32, push_char, push_padded2, u32_of};

verus! {

/// How an episode's number is written in a file name: a number is
/// zero-padded to two digits, any other label is kept as it is.
pub open spec fn ordinal(label: Seq<char>) -> Seq<char> {
    match u32_of(label) {
        Some(n) => padded2(n as nat),
        None => label,
    }
}

/// `S{season:02}E{ordinal} - {title}.{extension}`.
pub open spec fn target_name(
    season: u32,
    label: Seq<char>,
    title: Seq<char>,
    ext: Seq<char>,
) -> Seq<char> {
    seq!['S'] + padded2(season as nat) + seq!['E'] + ordinal(label) + seq![' ', '-', ' '] + title
        + seq!['.'] + ext
}

/// The name an episode's file takes, if the file has an extension.
pub open spec fn planned_name(ep: EpisodeView, file: Seq<char>, season: u32) -> Option<Seq<char>> {
    match extension(file) {
        Some(ext) => Some(target_name(season, ep.episode, sanitized(ep.title), ext)),
        None => None,
    }
}

/// Writes the target file name from its parts; `title` is taken as given.
pub fn format_target_name(season: u32, label: &str, title: &str, ext: &str) -> (r: String)
    ensures
        r@ == target_name(season, label@, title@, ext@),
{
    let mut out = String::new();
    push_char(&mut out, 'S');
    push_padded2(&mut out, season);
    push_char(&mut out, 'E');
    match parse_u32(label) {
        Some(n) => push_padded2(&mut out, n),
        None => out.append(label),
    }
    push_char(&mut out, ' ');
    push_char(&mut out, '-');
    push_char(&mut out, ' ');
    out.append(title);
    push_char(&mut out, '.');
    out.append(ext);
    assert(out@ =~= target_name(season, label@, title@, ext@));
    out
}

/// The new name of `file` when it stands for `episode`; `None` when the file
/// has no extension.
pub fn plan_name(episode: &Episode, file: &LocalFile, season: u32) -> (r: Option<String>)
    ensures
        match r {
            Some(name) => planned_name(episode@, file@, season) == Some(name@),
            None => planned_name(episode@, file@, season) is None,
        },
{
    match file.extension() {
        Some(ext) => {
            let title = sanitize_title(episode.title.as_str());
            Some(format_target_name(season, episode.episode.as_str(), title.as_str(), ext.as_str()))
        },
        None => None,
    }
}

/// A rename to carry out: both paths lie in the same directory.
#[derive(Debug, PartialEq, Eq)]
pub struct PlannedRename {
    pub old_path: String,
    pub new_path: String,
}

/// How one entry of the plan ended.
#[derive(Debug, PartialEq, Eq)]
pub enum RenameOutcome {
    Success { old_path: String, new_path: String },
    Failure { old_path: String, reason: String },
}

/// The rename planned for one entry, or the failure that stops it.
pub open spec fn step_matches(
    ep: EpisodeView,
    file: Seq<char>,
    season: u32,
    r: Result<PlannedRename, RenameOutcome>,
) -> bool {
    match planned_name(ep, file, season) {
        Some(name) => r matches Ok(p) && p.old_path@ == file && p.new_path@ == parent_prefix(file)
            + name,
        None => r matches Err(RenameOutcome::Failure { old_path, reason }) && old_path@ == file
            && reason@ == "missing extension"@,
    }
}

/// Plans the rename of `file` into the name it takes for `episode`.
pub fn plan_rename(episode: &Episode, file: &LocalFile, season: u32) -> (r: Result<
    PlannedRename,
    RenameOutcome,
>)
    ensures
        step_matches(episode@, file@, season, r),
{
    match plan_name(episode, file, season) {
        Some(name) => Ok(
            PlannedRename { old_path: file.path.clone(), new_path: file.sibling(name.as_str()) },
        ),
        None => Err(
            RenameOutcome::Failure {
                old_path: file.path.clone(),
                reason: String::from_str("missing extension"),
            },
        ),
    }
}

/// Plans every entry of a confirmed plan, in the plan's order.
pub fn plan_renames(plan: &Vec<(Episode, LocalFile)>, season: u32) -> (r: Vec<
    Result<PlannedRename, RenameOutcome>,
>)
    ensures
        r@.len() == plan@.len(),
        forall|i: int|
            0 <= i < plan@.len() ==> step_matches(
                (#[trigger] plan@[i]).0@,
                plan@[i].1@,
                season,
                r@[i],
            ),
{
    let mut out: Vec<Result<PlannedRename, RenameOutcome>> = Vec::new();
    let mut i: usize = 0;
    while i < plan.len()
        invariant
            i <= plan@.len(),
            out@.len() == i,
            forall|k: int|
                0 <= k < i ==> step_matches((#[trigger] plan@[k]).0@, plan@[k].1@, season, out@[k]),
        decreases plan@.len() - i,
    {
        let step = plan_rename(&plan[i].0, &plan[i].1, season);
        out.push(step);
        i = i + 1;
    }
    out
}

/// What the file system answered to a planned rename, as an outcome.
pub fn rename_outcome(step: PlannedRename, io: Result<(), String>) -> (r: RenameOutcome)
    ensures
        match io {
            Ok(()) => r == (RenameOutcome::Success { old_path: step.old_path, new_path: step.new_path }),
            Err(e) => r == (RenameOutcome::Failure { old_path: step.old_path, reason: e }),
        },
{
    match io {
        Ok(()) => RenameOutcome::Success { old_path: step.old_path, new_path: step.new_path },
        Err(e) => RenameOutcome::Failure { old_path: step.old_path, reason: e },
    }
}

/// One line of the report on a batch of renames; a success names the new
/// file by its name alone.
pub open spec fn report_line(o: RenameOutcome) -> Seq<char> {
    match o {
        RenameOutcome::Success { old_path, new_path } => "Successfully renamed '"@ + old_path@
            + "' to '"@ + file_name(new_path@) + "'"@,
        RenameOutcome::Failure { old_path, reason } => "ERROR renaming "@ + old_path@ + ": "@
            + reason@,
    }
}

/// The report on a batch: one line per outcome, separated by newlines.
pub open spec fn report_text(os: Seq<RenameOutcome>) -> Seq<char>
    decreases os.len(),
{
    if os.len() == 0 {
        Seq::empty()
    } else if os.len() == 1 {
        report_line(os[0])
    } else {
        report_text(os.drop_last()) + seq!['\n'] + report_line(os.last())
    }
}

impl RenameOutcome {
    /// The line that reports this outcome.
    pub fn describe(&self) -> (r: String)
        ensures
            r@ == report_line(*self),
    {
        let mut out = String::new();
        match self {
            RenameOutcome::Success { old_path, new_path } => {
                out.append("Successfully renamed '");
                out.append(old_path.as_str());
                out.append("' to '");
                out.append(file_name_of(new_path.as_str()).as_str());
                out.append("'");
            },
            RenameOutcome::Failure { old_path, reason } => {
                out.append("ERROR renaming ");
                out.append(old_path.as_str());
                out.append(": ");
                out.append(reason.as_str());
            },
        }
        assert(out@ =~= report_line(*self));
        out
    }
}

/// The report on a batch of renames, one line per outcome.
pub fn report(outcomes: &Vec<RenameOutcome>) -> (r: String)
    ensures
        r@ == report_text(outcomes@),
{
    let mut out = String::new();
    let mut i: usize = 0;
    while i < outcomes.len()
        invariant
            i <= outcomes@.len(),
            out@ == report_text(outcomes@.take(i as int)),
        decreases outcomes@.len() - i,
    {
        assert(outcomes@.take(i as int + 1).drop_last() =~= outcomes@.take(i as int));
        if i > 0 {
            push_char(&mut out, '\n');
        }
        let line = outcomes[i].describe();
        out.append(line.as_str());
        i = i + 1;
        assert(out@ =~= report_text(outcomes@.take(i as int)));
    }
    assert(outcomes@.take(i as int) =~= outcomes@);
    out
}

} // verus!
