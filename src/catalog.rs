//! Talking to the remote catalogue: which show a link names, what to ask
//! for, and what the answer means. The request itself and the decoding of
//! the body into episodes happen outside the library.

use vstd::prelude::*;
use crate::assignment::file_views;
use crate::media::{Episode, LocalFile};
use crate::text::{chars_of, decimal, push_char, push_chars, push_decimal};

verus! {

/// Why a fetch attempt failed.
#[derive(Debug, PartialEq, Eq)]
pub enum FetchFailure {
    /// The link holds no show identifier; nothing was asked of the network.
    NoIdentifier,
    /// The request did not get an answer.
    Network { message: String },
    /// The catalogue answered with a status other than success.
    Api { status: u16, status_text: String },
    /// The catalogue's answer could not be read.
    Decode { message: String },
    /// The worker ended without handing over any result.
    ChannelDisconnected,
}

/// The terminal result of one fetch attempt.
#[derive(Debug, PartialEq, Eq)]
pub enum FetchResult {
    Fetched { episodes: Vec<Episode>, files: Vec<LocalFile> },
    Failed(FetchFailure),
}

/// The head of a catalogue answer, as the transport reports it.
#[derive(Debug)]
pub struct HttpReply {
    /// Whether the status is a success (2xx).
    pub ok: bool,
    pub status: u16,
    pub status_text: String,
}

/// One entry met while walking a directory tree.
#[derive(Debug)]
pub enum ScanEntry {
    /// A regular file, with its path.
    File(String),
    /// A directory, a link or another kind of entry.
    NotFile,
    /// An entry that could not be read.
    Unreadable,
}

/// The segments of `s` between `/` separators, empty ones included.
pub open spec fn segments(s: Seq<char>) -> Seq<Seq<char>>
    decreases s.len(),
{
    if s.len() == 0 {
        seq![Seq::empty()]
    } else {
        let rest = segments(s.drop_last());
        if s.last() == '/' {
            rest.push(Seq::empty())
        } else {
            rest.update(rest.len() - 1, rest.last().push(s.last()))
        }
    }
}

/// Whether a segment is a show identifier: it starts with `tt`.
pub open spec fn is_identifier(seg: Seq<char>) -> bool {
    seg.len() >= 2 && seg[0] == 't' && seg[1] == 't'
}

/// The first of `segs` that is a show identifier.
pub open spec fn first_identifier(segs: Seq<Seq<char>>) -> Option<Seq<char>>
    decreases segs.len(),
{
    if segs.len() == 0 {
        None
    } else if is_identifier(segs[0]) {
        Some(segs[0])
    } else {
        first_identifier(segs.drop_first())
    }
}

/// The show identifier that a link names: its first `/`-separated segment
/// that starts with `tt`.
pub open spec fn link_identifier(link: Seq<char>) -> Option<Seq<char>> {
    first_identifier(segments(link))
}

/// The catalogue request for one season of a show.
pub open spec fn request_url(id: Seq<char>, season: u32, api_key: Seq<char>) -> Seq<char> {
    "http://www.omdbapi.com/?i="@ + id + "&Season="@ + decimal(season as nat) + "&apikey="@
        + api_key
}

proof fn lemma_first_identifier_push(segs: Seq<Seq<char>>, x: Seq<char>)
    ensures
        first_identifier(segs.push(x)) == match first_identifier(segs) {
            Some(id) => Some(id),
            None => if is_identifier(x) {
                Some(x)
            } else {
                None
            },
        },
    decreases segs.len(),
{
    if segs.len() > 0 {
        assert(segs.push(x).drop_first() =~= segs.drop_first().push(x));
        assert(segs.push(x)[0] == segs[0]);
        lemma_first_identifier_push(segs.drop_first(), x);
    } else {
        assert(segs.push(x).drop_first() =~= Seq::<Seq<char>>::empty());
        assert(first_identifier(Seq::<Seq<char>>::empty()) is None);
    }
}

proof fn lemma_segments_nonempty(s: Seq<char>)
    ensures
        segments(s).len() >= 1,
    decreases s.len(),
{
    if s.len() > 0 {
        lemma_segments_nonempty(s.drop_last());
    }
}

/// Finds the show identifier in a link.
pub fn extract_identifier(link: &str) -> (r: Result<String, FetchFailure>)
    ensures
        match link_identifier(link@) {
            Some(id) => r matches Ok(s) && s@ == id,
            None => r matches Err(FetchFailure::NoIdentifier),
        },
{
    let cs = chars_of(link);
    let n: usize = cs.len();
    let mut current: Vec<char> = Vec::new();
    let mut i: usize = 0;
    while i < n
        invariant
            i <= n,
            n == cs@.len(),
            cs@ == link@,
            first_identifier(segments(cs@.take(i as int)).drop_last()) is None,
            current@ == segments(cs@.take(i as int)).last(),
        decreases n - i,
    {
        let ghost segs = segments(cs@.take(i as int));
        proof {
            lemma_segments_nonempty(cs@.take(i as int));
            assert(segs.drop_last().push(segs.last()) =~= segs);
            lemma_first_identifier_push(segs.drop_last(), segs.last());
        }
        assert(cs@.take(i as int + 1).drop_last() =~= cs@.take(i as int));
        if cs[i] == '/' {
            if current.len() >= 2 && current[0] == 't' && current[1] == 't' {
                proof {
                    lemma_first_identifier_split(cs@, i as int);
                }
                let mut id = String::new();
                push_chars(&mut id, current.as_slice());
                return Ok(id);
            }
            current = Vec::new();
            assert(segments(cs@.take(i as int + 1)).drop_last() =~= segs);
        } else {
            current.push(cs[i]);
            assert(segments(cs@.take(i as int + 1)).drop_last() =~= segs.drop_last());
        }
        i = i + 1;
    }
    let ghost segs = segments(cs@.take(i as int));
    proof {
        lemma_segments_nonempty(cs@.take(i as int));
        assert(segs.drop_last().push(segs.last()) =~= segs);
        lemma_first_identifier_push(segs.drop_last(), segs.last());
        assert(cs@.take(i as int) =~= cs@);
    }
    if current.len() >= 2 && current[0] == 't' && current[1] == 't' {
        let mut id = String::new();
        push_chars(&mut id, current.as_slice());
        return Ok(id);
    }
    Err(FetchFailure::NoIdentifier)
}

/// Segments end at a `/` or at the end: the first identifier among the
/// segments of a prefix ending there is the link's first identifier.
proof fn lemma_first_identifier_split(s: Seq<char>, i: int)
    requires
        0 <= i <= s.len(),
        i == s.len() || s[i] == '/',
        first_identifier(segments(s.take(i))) is Some,
    ensures
        first_identifier(segments(s)) == first_identifier(segments(s.take(i))),
{
    if i < s.len() {
        let t = s.take(i + 1);
        assert(t.drop_last() =~= s.take(i));
        assert(t.last() == s[i]);
        assert(segments(t).drop_last() =~= segments(s.take(i)));
        lemma_first_identifier_prefix(s, i + 1);
    } else {
        assert(s.take(i) =~= s);
    }
}

/// Once the completed segments of a prefix hold an identifier, the first of
/// them is the first identifier of the whole sequence.
proof fn lemma_first_identifier_prefix(s: Seq<char>, i: int)
    requires
        0 <= i <= s.len(),
        first_identifier(segments(s.take(i)).drop_last()) is Some,
    ensures
        first_identifier(segments(s)) == first_identifier(segments(s.take(i)).drop_last()),
    decreases s.len() - i,
{
    let segs = segments(s.take(i));
    lemma_segments_nonempty(s.take(i));
    assert(segs.drop_last().push(segs.last()) =~= segs);
    lemma_first_identifier_push(segs.drop_last(), segs.last());
    if i < s.len() {
        let t = s.take(i + 1);
        assert(t.drop_last() =~= s.take(i));
        assert(t.last() == s[i]);
        if s[i] == '/' {
            assert(segments(t).drop_last() =~= segs);
        } else {
            assert(segments(t).drop_last() =~= segs.drop_last());
        }
        lemma_first_identifier_prefix(s, i + 1);
    } else {
        assert(s.take(i) =~= s);
    }
}

/// Writes the catalogue request for one season of a show.
pub fn format_request_url(id: &str, season: u32, api_key: &str) -> (r: String)
    ensures
        r@ == request_url(id@, season, api_key@),
{
    let mut out = String::from_str("http://www.omdbapi.com/?i=");
    out.append(id);
    out.append("&Season=");
    push_decimal(&mut out, season as u64);
    out.append("&apikey=");
    out.append(api_key);
    assert(out@ =~= request_url(id@, season, api_key@));
    out
}

/// The request to send for a link, or `NoIdentifier` when the link names no
/// show, in which case nothing is to be sent.
pub fn catalog_request(link: &str, season: u32, api_key: &str) -> (r: Result<String, FetchFailure>)
    ensures
        match link_identifier(link@) {
            Some(id) => r matches Ok(url) && url@ == request_url(id, season, api_key@),
            None => r matches Err(FetchFailure::NoIdentifier),
        },
{
    match extract_identifier(link) {
        Ok(id) => Ok(format_request_url(id.as_str(), season, api_key)),
        Err(e) => Err(e),
    }
}

/// What a reply from the catalogue means. A failed transport is a network
/// failure; a status other than success is an API failure whatever the
/// body; otherwise the decoded body gives the episodes, or a decode failure.
pub fn catalog_outcome(reply: Result<HttpReply, String>, decoded: Result<Vec<Episode>, String>) -> (r:
    Result<Vec<Episode>, FetchFailure>)
    ensures
        match reply {
            Err(m) => r matches Err(FetchFailure::Network { message }) && message == m,
            Ok(h) => if !h.ok {
                r matches Err(FetchFailure::Api { status, status_text }) && status == h.status
                    && status_text == h.status_text
            } else {
                match decoded {
                    Ok(episodes) => r == Ok::<Vec<Episode>, FetchFailure>(episodes),
                    Err(m) => r matches Err(FetchFailure::Decode { message }) && message == m,
                }
            },
        },
{
    match reply {
        Err(m) => Err(FetchFailure::Network { message: m }),
        Ok(h) => {
            if !h.ok {
                Err(FetchFailure::Api { status: h.status, status_text: h.status_text })
            } else {
                match decoded {
                    Ok(episodes) => Ok(episodes),
                    Err(m) => Err(FetchFailure::Decode { message: m }),
                }
            }
        },
    }
}

/// The terminal result of a fetch from the scanned files and what the
/// catalogue gave.
pub fn fetch_result(files: Vec<LocalFile>, outcome: Result<Vec<Episode>, FetchFailure>) -> (r:
    FetchResult)
    ensures
        match outcome {
            Ok(episodes) => r == (FetchResult::Fetched { episodes, files }),
            Err(e) => r == FetchResult::Failed(e),
        },
{
    match outcome {
        Ok(episodes) => FetchResult::Fetched { episodes, files },
        Err(e) => FetchResult::Failed(e),
    }
}

/// The paths of the regular files among the entries of a walk, in order.
pub open spec fn scanned_files(entries: Seq<ScanEntry>) -> Seq<Seq<char>>
    decreases entries.len(),
{
    if entries.len() == 0 {
        Seq::empty()
    } else {
        let rest = scanned_files(entries.drop_last());
        match entries.last() {
            ScanEntry::File(p) => rest.push(p@),
            _ => rest,
        }
    }
}

/// The files met by a directory walk: one per regular file, in the order
/// of the walk; directories, other entries and unreadable ones are skipped.
pub fn files_of_scan(entries: &Vec<ScanEntry>) -> (r: Vec<LocalFile>)
    ensures
        file_views(r@) == scanned_files(entries@),
{
    let mut out: Vec<LocalFile> = Vec::new();
    let mut i: usize = 0;
    while i < entries.len()
        invariant
            i <= entries@.len(),
            file_views(out@) == scanned_files(entries@.take(i as int)),
        decreases entries@.len() - i,
    {
        let ghost before = out@;
        assert(entries@.take(i as int + 1).drop_last() =~= entries@.take(i as int));
        assert(entries@.take(i as int + 1).last() == entries@[i as int]);
        match &entries[i] {
            ScanEntry::File(p) => {
                out.push(LocalFile { path: p.clone() });
                assert(file_views(out@) =~= file_views(before).push(p@));
            },
            _ => {},
        }
        i = i + 1;
    }
    assert(entries@.take(i as int) =~= entries@);
    out
}

/// The message that tells the user why a fetch failed.
pub open spec fn failure_text(f: FetchFailure) -> Seq<char> {
    match f {
        FetchFailure::NoIdentifier => "Could not find IMDb ID in link."@,
        FetchFailure::Network { message } => "Network Error: "@ + message@,
        FetchFailure::Api { status, status_text } => "API Error: "@ + decimal(status as nat)
            + seq![' '] + status_text@,
        FetchFailure::Decode { message } => "JSON Parse Error: "@ + message@,
        FetchFailure::ChannelDisconnected => "Internal error: the fetch ended without a result."@,
    }
}

impl FetchFailure {
    /// The message that tells the user why the fetch failed.
    pub fn message(&self) -> (r: String)
        ensures
            r@ == failure_text(*self),
    {
        match self {
            FetchFailure::NoIdentifier => String::from_str("Could not find IMDb ID in link."),
            FetchFailure::Network { message } => {
                let mut out = String::from_str("Network Error: ");
                out.append(message.as_str());
                out
            },
            FetchFailure::Api { status, status_text } => {
                let mut out = String::from_str("API Error: ");
                push_decimal(&mut out, *status as u64);
                push_char(&mut out, ' ');
                out.append(status_text.as_str());
                assert(out@ =~= failure_text(*self));
                out
            },
            FetchFailure::Decode { message } => {
                let mut out = String::from_str("JSON Parse Error: ");
                out.append(message.as_str());
                out
            },
            FetchFailure::ChannelDisconnected => String::from_str(
                "Internal error: the fetch ended without a result.",
            ),
        }
    }
}

} // verus!
