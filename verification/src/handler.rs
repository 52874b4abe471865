//! One connection, from the request to the last byte of the response.
//!
//! The handler is a state machine. It performs no I/O: the caller does, and reports the
//! outcome of each step as an [`Event`]; [`handle_client`] answers with the next state and the
//! next [`Action`] to perform. A connection starts in [`State::ReadRequest`] with the action
//! [`first_action`], and is over when the machine answers [`Action::Close`].
//!
//! ```text
//! ReadRequest -> ResolvePath -> Classify -> ListDirectory -> Respond -> Closed
//!                     |            |  \--> MeasureFile -> LoadFile -> Respond
//!                     |            |             \--> SendChunk <-> ReadChunk -> Closed
//!                     |            \--> Respond (404)
//!                     \--> Respond (403, 404)
//! ```
//!
//! Parsing the request needs no I/O, so it is no state of its own: it is part of the step
//! that takes the request. Every state leads to `Closed` when the step it waits for fails and
//! nothing can be sent, or when an event comes that it does not wait for.

use crate::listing::{
    check_is_file, construct_response_page, fetch_all_files, file_type_of, listed, listing_page,
    EntryProbe, EntryProbeView, FileType,
};
use crate::request::{parse_request, request_parser, target_of};
use crate::resolver::{
    relative_of, relative_target, resolution, resolve, Refusal, ResolvedPath, ServerRoot,
};
use crate::response::{
    directory_response, error_response, file_header, file_response, send_directory_response,
    send_error_response, send_files_response, send_large_file_response,
    send_small_file_response, transfer_for, wire, Transfer, CHUNK_SIZE,
};
use crate::text::{lossy_text, utf8_lossy};
use vstd::prelude::*;
use vstd::string::StrSliceExecFns;

verus! {

/// The number of bytes of a request that are read.
pub const REQUEST_LIMIT: usize = 1024;

/// Where the handling of a connection stands: what it waits for.
#[derive(Clone, Debug, PartialEq, Eq)]
pub enum State {
    /// Waits for the bytes of the request.
    ReadRequest,
    /// Waits for the canonical form of the requested path.
    ResolvePath { requested: String },
    /// Waits to learn what the resolved path is.
    Classify { requested: String, resolved: ResolvedPath },
    /// Waits for the entries of the directory.
    ListDirectory { requested: String },
    /// Waits for the size of the file.
    MeasureFile { resolved: ResolvedPath },
    /// Waits for the whole content of the file.
    LoadFile,
    /// Waits for the header or a chunk of the file to be written.
    SendChunk { resolved: ResolvedPath },
    /// Waits for the next chunk of the file.
    ReadChunk { resolved: ResolvedPath },
    /// Waits for the response to be written.
    Respond,
    /// The connection is over.
    Closed,
}

/// The outcome of the action that the handler asked for last.
#[derive(Clone, Debug, PartialEq, Eq)]
pub enum Event {
    /// The request buffer as it stands after one read: the bytes received, and zeros after
    /// them up to the limit.
    Request { bytes: Vec<u8> },
    /// The canonical form of the joined path, as its components below the filesystem root.
    Canonical { path: Vec<String> },
    /// What the filesystem says of the probed path.
    Probed { found: bool, is_file: bool, is_dir: bool },
    /// The entries of the listed directory.
    Entries { entries: Vec<EntryProbe> },
    /// The size of the measured file in bytes.
    Size { len: u64 },
    /// The bytes that were read: a whole file, or its next chunk, empty at the end of the file.
    Data { bytes: Vec<u8> },
    /// The bytes were written.
    Written,
    /// The action failed.
    Failed,
}

/// What the caller is to do next on behalf of the connection.
#[derive(Clone, Debug, PartialEq, Eq)]
pub enum Action {
    /// Read the request once, into a buffer of `limit` zero bytes; answer with `Request`.
    Read { limit: usize },
    /// Join `relative` onto the served root and canonicalize the result; answer with
    /// `Canonical`, or with `Failed` where nothing exists there.
    Canonicalize { relative: String },
    /// Find out whether `path` exists, is a plain file, is a directory; answer with `Probed`.
    Probe { path: ResolvedPath },
    /// Read the entries of the directory `path`; answer with `Entries`.
    List { path: ResolvedPath },
    /// Find out the size of the file `path`; answer with `Size`.
    Measure { path: ResolvedPath },
    /// Read the file `path` to its end; answer with `Data`.
    Load { path: ResolvedPath },
    /// Read the next `limit` bytes at most of the file `path`; answer with `Data`.
    ReadChunk { path: ResolvedPath, limit: usize },
    /// Write `bytes` to the client; answer with `Written`.
    Write { bytes: Vec<u8> },
    /// Close the connection.
    Close,
}

/// The value of a [`State`].
pub ghost enum StateView {
    ReadRequest,
    ResolvePath { requested: Seq<char> },
    Classify { requested: Seq<char>, resolved: Seq<Seq<char>> },
    ListDirectory { requested: Seq<char> },
    MeasureFile { resolved: Seq<Seq<char>> },
    LoadFile,
    SendChunk { resolved: Seq<Seq<char>> },
    ReadChunk { resolved: Seq<Seq<char>> },
    Respond,
    Closed,
}

/// The value of an [`Event`].
pub ghost enum EventView {
    Request { bytes: Seq<u8> },
    Canonical { path: Seq<Seq<char>> },
    Probed { found: bool, is_file: bool, is_dir: bool },
    Entries { entries: Seq<EntryProbeView> },
    Size { len: u64 },
    Data { bytes: Seq<u8> },
    Written,
    Failed,
}

/// The value of an [`Action`].
pub ghost enum ActionView {
    Read { limit: usize },
    Canonicalize { relative: Seq<char> },
    Probe { path: Seq<Seq<char>> },
    List { path: Seq<Seq<char>> },
    Measure { path: Seq<Seq<char>> },
    Load { path: Seq<Seq<char>> },
    ReadChunk { path: Seq<Seq<char>>, limit: usize },
    Write { bytes: Seq<u8> },
    Close,
}

impl View for State {
    type V = StateView;

    open spec fn view(&self) -> StateView {
        match *self {
            State::ReadRequest => StateView::ReadRequest,
            State::ResolvePath { requested } => StateView::ResolvePath { requested: requested@ },
            State::Classify { requested, resolved } => StateView::Classify {
                requested: requested@,
                resolved: resolved@,
            },
            State::ListDirectory { requested } => StateView::ListDirectory {
                requested: requested@,
            },
            State::MeasureFile { resolved } => StateView::MeasureFile { resolved: resolved@ },
            State::LoadFile => StateView::LoadFile,
            State::SendChunk { resolved } => StateView::SendChunk { resolved: resolved@ },
            State::ReadChunk { resolved } => StateView::ReadChunk { resolved: resolved@ },
            State::Respond => StateView::Respond,
            State::Closed => StateView::Closed,
        }
    }
}

impl View for Event {
    type V = EventView;

    open spec fn view(&self) -> EventView {
        match *self {
            Event::Request { bytes } => EventView::Request { bytes: bytes@ },
            Event::Canonical { path } => EventView::Canonical { path: path.deep_view() },
            Event::Probed { found, is_file, is_dir } => EventView::Probed {
                found,
                is_file,
                is_dir,
            },
            Event::Entries { entries } => EventView::Entries { entries: entries.deep_view() },
            Event::Size { len } => EventView::Size { len },
            Event::Data { bytes } => EventView::Data { bytes: bytes@ },
            Event::Written => EventView::Written,
            Event::Failed => EventView::Failed,
        }
    }
}

impl View for Action {
    type V = ActionView;

    open spec fn view(&self) -> ActionView {
        match *self {
            Action::Read { limit } => ActionView::Read { limit },
            Action::Canonicalize { relative } => ActionView::Canonicalize { relative: relative@ },
            Action::Probe { path } => ActionView::Probe { path: path@ },
            Action::List { path } => ActionView::List { path: path@ },
            Action::Measure { path } => ActionView::Measure { path: path@ },
            Action::Load { path } => ActionView::Load { path: path@ },
            Action::ReadChunk { path, limit } => ActionView::ReadChunk { path: path@, limit },
            Action::Write { bytes } => ActionView::Write { bytes: bytes@ },
            Action::Close => ActionView::Close,
        }
    }
}

/// The end of a connection on which nothing more can be sent.
pub open spec fn closing() -> (StateView, ActionView) {
    (StateView::Closed, ActionView::Close)
}

/// The last step of a connection that answers with the text `response`.
pub open spec fn responding(response: Seq<char>) -> (StateView, ActionView) {
    (StateView::Respond, ActionView::Write { bytes: wire(response) })
}

/// The last step of a connection whose path is refused.
pub open spec fn refusing(refusal: Refusal) -> (StateView, ActionView) {
    responding(error_response(refusal.code(), refusal.phrase()))
}

/// The step after the request was read.
pub open spec fn after_request(bytes: Seq<u8>) -> (StateView, ActionView) {
    let requested = target_of(parse_request(utf8_lossy(bytes)));
    (StateView::ResolvePath { requested }, ActionView::Canonicalize {
        relative: relative_of(requested),
    })
}

/// The step after canonicalization: on to classification for a path inside the root, a
/// refusal otherwise.
pub open spec fn after_canonical(
    root: Seq<Seq<char>>,
    requested: Seq<char>,
    canonical: Option<Seq<Seq<char>>>,
) -> (StateView, ActionView) {
    match resolution(root, canonical) {
        Ok(resolved) => (StateView::Classify { requested, resolved }, ActionView::Probe {
            path: resolved,
        }),
        Err(refusal) => refusing(refusal),
    }
}

/// The step after classification.
pub open spec fn after_probe(requested: Seq<char>, resolved: Seq<Seq<char>>, kind: FileType) -> (
    StateView,
    ActionView,
) {
    match kind {
        FileType::Directory => (StateView::ListDirectory { requested }, ActionView::List {
            path: resolved,
        }),
        FileType::File => (StateView::MeasureFile { resolved }, ActionView::Measure {
            path: resolved,
        }),
        FileType::NotFound => refusing(Refusal::NotFound),
    }
}

/// The step after the directory was read.
pub open spec fn after_entries(requested: Seq<char>, entries: Seq<EntryProbeView>) -> (
    StateView,
    ActionView,
) {
    responding(directory_response(listing_page(listed(entries), requested)))
}

/// The step after the file was measured.
pub open spec fn after_size(resolved: Seq<Seq<char>>, len: u64) -> (StateView, ActionView) {
    match transfer_for(len) {
        Transfer::Whole => (StateView::LoadFile, ActionView::Load { path: resolved }),
        Transfer::Chunked => (StateView::SendChunk { resolved }, ActionView::Write {
            bytes: wire(file_header(len as nat)),
        }),
    }
}

/// The step after a chunk was read: the chunk is sent on, and an empty chunk ends the
/// transfer.
pub open spec fn after_chunk(resolved: Seq<Seq<char>>, bytes: Seq<u8>) -> (StateView, ActionView) {
    if bytes.len() == 0 {
        closing()
    } else {
        (StateView::SendChunk { resolved }, ActionView::Write { bytes })
    }
}

/// The next state and the action to perform, for a connection in `state` whose last action
/// had the outcome `event`. An event that the state does not wait for closes the connection.
pub open spec fn step(root: Seq<Seq<char>>, state: StateView, event: EventView) -> (
    StateView,
    ActionView,
) {
    match state {
        StateView::ReadRequest => match event {
            EventView::Request { bytes } => after_request(bytes),
            _ => closing(),
        },
        StateView::ResolvePath { requested } => match event {
            EventView::Canonical { path } => after_canonical(root, requested, Some(path)),
            EventView::Failed => after_canonical(root, requested, None),
            _ => closing(),
        },
        StateView::Classify { requested, resolved } => match event {
            EventView::Probed { found, is_file, is_dir } => after_probe(
                requested,
                resolved,
                file_type_of(found, is_file, is_dir),
            ),
            EventView::Failed => after_probe(requested, resolved, FileType::NotFound),
            _ => closing(),
        },
        StateView::ListDirectory { requested } => match event {
            EventView::Entries { entries } => after_entries(requested, entries),
            EventView::Failed => after_entries(requested, Seq::empty()),
            _ => closing(),
        },
        StateView::MeasureFile { resolved } => match event {
            EventView::Size { len } => after_size(resolved, len),
            _ => closing(),
        },
        StateView::LoadFile => match event {
            EventView::Data { bytes } => (StateView::Respond, ActionView::Write {
                bytes: file_response(bytes),
            }),
            _ => closing(),
        },
        StateView::SendChunk { resolved } => match event {
            EventView::Written => (StateView::ReadChunk { resolved }, ActionView::ReadChunk {
                path: resolved,
                limit: CHUNK_SIZE,
            }),
            _ => closing(),
        },
        StateView::ReadChunk { resolved } => match event {
            EventView::Data { bytes } => after_chunk(resolved, bytes),
            _ => closing(),
        },
        StateView::Respond => closing(),
        StateView::Closed => closing(),
    }
}

/// The action that opens a connection in [`State::ReadRequest`]: read the request.
pub fn first_action() -> (action: Action)
    ensures
        action@ == (ActionView::Read { limit: REQUEST_LIMIT }),
{
    Action::Read { limit: REQUEST_LIMIT }
}

fn respond(response: String) -> (out: (State, Action))
    ensures
        (out.0@, out.1@) == responding(response@),
{
    (State::Respond, Action::Write { bytes: response.as_str().as_bytes_vec() })
}

fn refuse(refusal: Refusal) -> (out: (State, Action))
    ensures
        (out.0@, out.1@) == refusing(refusal),
{
    respond(send_error_response(refusal.status_code(), refusal.reason()))
}

fn classified(requested: String, resolved: ResolvedPath, kind: FileType) -> (out: (State, Action))
    ensures
        (out.0@, out.1@) == after_probe(requested@, resolved@, kind),
{
    match kind {
        FileType::Directory => (State::ListDirectory { requested }, Action::List {
            path: resolved,
        }),
        FileType::File => {
            let path = resolved.duplicate();
            (State::MeasureFile { resolved }, Action::Measure { path })
        },
        FileType::NotFound => refuse(Refusal::NotFound),
    }
}

fn canonicalized(root: &ServerRoot, requested: String, canonical: Option<Vec<String>>) -> (out: (
    State,
    Action,
))
    ensures
        (out.0@, out.1@) == after_canonical(
            root@,
            requested@,
            crate::resolver::canonical_view(canonical),
        ),
{
    match resolve(root, canonical) {
        Ok(resolved) => {
            let path = resolved.duplicate();
            (State::Classify { requested, resolved }, Action::Probe { path })
        },
        Err(refusal) => refuse(refusal),
    }
}

fn listing(requested: String, entries: Vec<EntryProbe>) -> (out: (State, Action))
    ensures
        (out.0@, out.1@) == after_entries(requested@, entries.deep_view()),
{
    let files = fetch_all_files(entries);
    let page = construct_response_page(&files, requested.as_str());
    respond(send_directory_response(page.as_str()))
}

/// Advances the handling of one connection: takes the state it is in and the outcome of the
/// action performed last, and gives the next state and the next action.
///
/// The request is parsed and its path resolved against `root`; a path that does not exist is
/// answered with 404, one outside `root` with 403. A directory is answered with its listing,
/// a file with its bytes, whole or in chunks by its size, anything else with 404. A failure to
/// read the request, to read the file or to write ends the connection without a word.
pub fn handle_client(root: &ServerRoot, state: State, event: Event) -> (out: (State, Action))
    ensures
        (out.0@, out.1@) == step(root@, state@, event@),
{
    match state {
        State::ReadRequest => match event {
            Event::Request { bytes } => {
                let text = lossy_text(bytes.as_slice());
                let requested = request_parser(text.as_str()).target();
                let relative = relative_target(requested.as_str());
                (State::ResolvePath { requested }, Action::Canonicalize { relative })
            },
            _ => (State::Closed, Action::Close),
        },
        State::ResolvePath { requested } => match event {
            Event::Canonical { path } => canonicalized(root, requested, Some(path)),
            Event::Failed => canonicalized(root, requested, None),
            _ => (State::Closed, Action::Close),
        },
        State::Classify { requested, resolved } => match event {
            Event::Probed { found, is_file, is_dir } => classified(
                requested,
                resolved,
                check_is_file(found, is_file, is_dir),
            ),
            Event::Failed => classified(requested, resolved, FileType::NotFound),
            _ => (State::Closed, Action::Close),
        },
        State::ListDirectory { requested } => match event {
            Event::Entries { entries } => listing(requested, entries),
            Event::Failed => listing(requested, Vec::new()),
            _ => (State::Closed, Action::Close),
        },
        State::MeasureFile { resolved } => match event {
            Event::Size { len } => match send_files_response(len) {
                Transfer::Whole => (State::LoadFile, Action::Load { path: resolved }),
                Transfer::Chunked => (State::SendChunk { resolved }, Action::Write {
                    bytes: send_large_file_response(len),
                }),
            },
            _ => (State::Closed, Action::Close),
        },
        State::LoadFile => match event {
            Event::Data { bytes } => (State::Respond, Action::Write {
                bytes: send_small_file_response(bytes),
            }),
            _ => (State::Closed, Action::Close),
        },
        State::SendChunk { resolved } => match event {
            Event::Written => {
                let path = resolved.duplicate();
                (State::ReadChunk { resolved }, Action::ReadChunk { path, limit: CHUNK_SIZE })
            },
            _ => (State::Closed, Action::Close),
        },
        State::ReadChunk { resolved } => match event {
            Event::Data { bytes } => {
                if bytes.len() == 0 {
                    (State::Closed, Action::Close)
                } else {
                    (State::SendChunk { resolved }, Action::Write { bytes })
                }
            },
            _ => (State::Closed, Action::Close),
        },
        State::Respond => (State::Closed, Action::Close),
        State::Closed => (State::Closed, Action::Close),
    }
}

} // verus!
