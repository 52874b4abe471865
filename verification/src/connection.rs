//! A connection as a whole: what it sends, and what it reads, over a course of events.
//!
//! The functions here fold [`step`] over a sequence of events. The laws say what every
//! connection does: it reads nothing outside the root, it answers a path outside the root with
//! 403 and a missing one with 404, it answers a path inside the root with 200, and it sends the
//! same bytes whether a file goes out whole or in chunks.

use crate::handler::{step, ActionView, EventView, StateView};
use crate::listing::{listed, listing_page, EntryProbeView};
use crate::request::{parse_request, target_of};
use crate::resolver::within;
use crate::response::{
    directory_response, error_response, file_header, file_response, has_status,
    lemma_file_header_has_status_ok, lemma_response_has_its_status, lemma_status_is_told_apart,
    wire, CHUNK_SIZE,
};
use crate::text::utf8_lossy;
use vstd::prelude::*;

verus! {

/// The state of a connection that was in `state` and then saw `events`, one after the other.
pub open spec fn state_after(root: Seq<Seq<char>>, state: StateView, events: Seq<EventView>) -> StateView
    decreases events.len(),
{
    if events.len() == 0 {
        state
    } else {
        step(root, state_after(root, state, events.drop_last()), events.last()).0
    }
}

/// The action that answers the last of `events`, for a connection that was in `state` before
/// the first of them.
pub open spec fn action_after(root: Seq<Seq<char>>, state: StateView, events: Seq<EventView>) -> ActionView
    recommends
        events.len() > 0,
{
    step(root, state_after(root, state, events.drop_last()), events.last()).1
}

/// The bytes that `action` hands to the client.
pub open spec fn written(action: ActionView) -> Seq<u8> {
    match action {
        ActionView::Write { bytes } => bytes,
        _ => Seq::empty(),
    }
}

/// All the bytes handed to the client in answer to `events`, in order.
pub open spec fn sent(root: Seq<Seq<char>>, state: StateView, events: Seq<EventView>) -> Seq<u8>
    decreases events.len(),
{
    if events.len() == 0 {
        Seq::empty()
    } else {
        sent(root, state, events.drop_last()) + written(action_after(root, state, events))
    }
}

/// The path that `state` keeps for the actions to come.
pub open spec fn held(state: StateView) -> Option<Seq<Seq<char>>> {
    match state {
        StateView::Classify { resolved, .. } => Some(resolved),
        StateView::MeasureFile { resolved } => Some(resolved),
        StateView::SendChunk { resolved } => Some(resolved),
        StateView::ReadChunk { resolved } => Some(resolved),
        _ => None,
    }
}

/// The path in the filesystem that `action` reads.
pub open spec fn touched(action: ActionView) -> Option<Seq<Seq<char>>> {
    match action {
        ActionView::Probe { path } => Some(path),
        ActionView::List { path } => Some(path),
        ActionView::Measure { path } => Some(path),
        ActionView::Load { path } => Some(path),
        ActionView::ReadChunk { path, .. } => Some(path),
        _ => None,
    }
}

/// Whether `path`, if there is one, is the root or lies below it.
pub open spec fn confined(root: Seq<Seq<char>>, path: Option<Seq<Seq<char>>>) -> bool {
    match path {
        Some(p) => within(root, p),
        None => true,
    }
}

/// One more event: the state and the bytes sent after `events.push(event)` are those after
/// `events`, advanced by one step.
pub proof fn lemma_one_more_event(
    root: Seq<Seq<char>>,
    state: StateView,
    events: Seq<EventView>,
    event: EventView,
)
    ensures
        state_after(root, state, events.push(event)) == step(
            root,
            state_after(root, state, events),
            event,
        ).0,
        action_after(root, state, events.push(event)) == step(
            root,
            state_after(root, state, events),
            event,
        ).1,
        sent(root, state, events.push(event)) == sent(root, state, events) + written(
            step(root, state_after(root, state, events), event).1,
        ),
{
    assert(events.push(event).drop_last() =~= events);
}

/// Events in sequence: a connection that sees `first` and then `second` ends where a
/// connection ends that starts after `first` and sees `second`, and has sent what both sent.
pub proof fn lemma_events_in_sequence(
    root: Seq<Seq<char>>,
    state: StateView,
    first: Seq<EventView>,
    second: Seq<EventView>,
)
    ensures
        state_after(root, state, first + second) == state_after(
            root,
            state_after(root, state, first),
            second,
        ),
        sent(root, state, first + second) == sent(root, state, first) + sent(
            root,
            state_after(root, state, first),
            second,
        ),
    decreases second.len(),
{
    let middle = state_after(root, state, first);
    if second.len() == 0 {
        assert(first + second =~= first);
        assert(sent(root, state, first) + sent(root, middle, second) =~= sent(root, state, first));
    } else {
        lemma_events_in_sequence(root, state, first, second.drop_last());
        assert((first + second).drop_last() =~= first + second.drop_last());
        assert((first + second).last() == second.last());
        assert(sent(root, state, first + second) =~= sent(root, state, first) + sent(
            root,
            middle,
            second,
        ));
    }
}

/// A step keeps the connection inside the root: where the path that the state holds is
/// inside, so are the path that the next state holds and the path that the action reads.
pub proof fn lemma_step_stays_in_root(root: Seq<Seq<char>>, state: StateView, event: EventView)
    requires
        confined(root, held(state)),
    ensures
        confined(root, held(step(root, state, event).0)),
        confined(root, touched(step(root, state, event).1)),
{
}

/// Nothing outside the root is ever read: whatever the events, every action of a connection
/// that started by reading its request reads a path inside the root, if it reads one.
pub proof fn lemma_connection_stays_in_root(root: Seq<Seq<char>>, events: Seq<EventView>)
    ensures
        confined(root, held(state_after(root, StateView::ReadRequest, events))),
        events.len() > 0 ==> confined(
            root,
            touched(action_after(root, StateView::ReadRequest, events)),
        ),
    decreases events.len(),
{
    if events.len() > 0 {
        lemma_connection_stays_in_root(root, events.drop_last());
        lemma_step_stays_in_root(
            root,
            state_after(root, StateView::ReadRequest, events.drop_last()),
            events.last(),
        );
    }
}

/// The events of a connection up to the outcome of canonicalization.
pub open spec fn resolving(request: Seq<u8>, outcome: EventView) -> Seq<EventView> {
    seq![EventView::Request { bytes: request }, outcome]
}

/// A request whose path canonicalizes to a place outside the root is answered with
/// `403 Forbidden` and nothing else, and that answer does not pass for a success.
pub proof fn lemma_outside_root_is_forbidden(
    root: Seq<Seq<char>>,
    request: Seq<u8>,
    canonical: Seq<Seq<char>>,
)
    requires
        !within(root, canonical),
    ensures
        state_after(
            root,
            StateView::ReadRequest,
            resolving(request, EventView::Canonical { path: canonical }),
        ) == StateView::Respond,
        sent(
            root,
            StateView::ReadRequest,
            resolving(request, EventView::Canonical { path: canonical }),
        ) == wire(error_response(403, "Forbidden"@)),
        has_status(error_response(403, "Forbidden"@), 403, "Forbidden"@),
        !has_status(error_response(403, "Forbidden"@), 200, "OK"@),
{
    let first = seq![EventView::Request { bytes: request }];
    let outcome = EventView::Canonical { path: canonical };
    lemma_one_more_event(root, StateView::ReadRequest, Seq::empty(), first[0]);
    assert(Seq::<EventView>::empty().push(first[0]) =~= first);
    lemma_one_more_event(root, StateView::ReadRequest, first, outcome);
    assert(first.push(outcome) =~= resolving(request, outcome));
    assert(sent(root, StateView::ReadRequest, resolving(request, outcome)) =~= wire(
        error_response(403, "Forbidden"@),
    ));
    lemma_response_has_its_status(403, "Forbidden"@, Seq::empty());
    lemma_status_is_told_apart(error_response(403, "Forbidden"@), 403, "Forbidden"@, 200, "OK"@);
}

/// A request whose path does not exist is answered with `404 Not Found` and nothing else.
pub proof fn lemma_missing_path_is_not_found(root: Seq<Seq<char>>, request: Seq<u8>)
    ensures
        state_after(root, StateView::ReadRequest, resolving(request, EventView::Failed))
            == StateView::Respond,
        sent(root, StateView::ReadRequest, resolving(request, EventView::Failed)) == wire(
            error_response(404, "Not Found"@),
        ),
        has_status(error_response(404, "Not Found"@), 404, "Not Found"@),
        !has_status(error_response(404, "Not Found"@), 200, "OK"@),
{
    let first = seq![EventView::Request { bytes: request }];
    lemma_one_more_event(root, StateView::ReadRequest, Seq::empty(), first[0]);
    assert(Seq::<EventView>::empty().push(first[0]) =~= first);
    lemma_one_more_event(root, StateView::ReadRequest, first, EventView::Failed);
    assert(first.push(EventView::Failed) =~= resolving(request, EventView::Failed));
    assert(sent(root, StateView::ReadRequest, resolving(request, EventView::Failed)) =~= wire(
        error_response(404, "Not Found"@),
    ));
    lemma_response_has_its_status(404, "Not Found"@, Seq::empty());
    lemma_status_is_told_apart(error_response(404, "Not Found"@), 404, "Not Found"@, 200, "OK"@);
}

/// The state of a connection whose request named `requested` (by the bytes `request`) and
/// whose path resolved to `resolved`, inside the root: it waits to learn what the path is,
/// and has sent nothing yet.
pub proof fn lemma_inside_root_is_classified(
    root: Seq<Seq<char>>,
    request: Seq<u8>,
    canonical: Seq<Seq<char>>,
)
    requires
        within(root, canonical),
    ensures
        state_after(
            root,
            StateView::ReadRequest,
            resolving(request, EventView::Canonical { path: canonical }),
        ) == (StateView::Classify {
            requested: target_of(parse_request(utf8_lossy(request))),
            resolved: canonical,
        }),
        sent(
            root,
            StateView::ReadRequest,
            resolving(request, EventView::Canonical { path: canonical }),
        ) == Seq::<u8>::empty(),
{
    let first = seq![EventView::Request { bytes: request }];
    let outcome = EventView::Canonical { path: canonical };
    lemma_one_more_event(root, StateView::ReadRequest, Seq::empty(), first[0]);
    assert(Seq::<EventView>::empty().push(first[0]) =~= first);
    lemma_one_more_event(root, StateView::ReadRequest, first, outcome);
    assert(first.push(outcome) =~= resolving(request, outcome));
    assert(sent(root, StateView::ReadRequest, resolving(request, outcome)) =~= Seq::<u8>::empty());
}

/// A request whose path resolves inside the root to something that is neither a plain file
/// nor a directory, or that exists no more when it is looked at, is answered with
/// `404 Not Found` and nothing else.
pub proof fn lemma_neither_file_nor_directory_is_not_found(
    root: Seq<Seq<char>>,
    request: Seq<u8>,
    canonical: Seq<Seq<char>>,
    found: bool,
    is_file: bool,
    is_dir: bool,
)
    requires
        within(root, canonical),
        !found || (!is_file && !is_dir),
    ensures
        state_after(
            root,
            StateView::ReadRequest,
            resolving(request, EventView::Canonical { path: canonical }).push(
                EventView::Probed { found, is_file, is_dir },
            ),
        ) == StateView::Respond,
        sent(
            root,
            StateView::ReadRequest,
            resolving(request, EventView::Canonical { path: canonical }).push(
                EventView::Probed { found, is_file, is_dir },
            ),
        ) == wire(error_response(404, "Not Found"@)),
{
    let first = resolving(request, EventView::Canonical { path: canonical });
    lemma_inside_root_is_classified(root, request, canonical);
    lemma_one_more_event(
        root,
        StateView::ReadRequest,
        first,
        EventView::Probed { found, is_file, is_dir },
    );
    assert(Seq::<u8>::empty() + wire(error_response(404, "Not Found"@)) =~= wire(
        error_response(404, "Not Found"@),
    ));
}

/// A resolved path that is a directory is answered with `200 OK` and its listing.
pub proof fn lemma_directory_is_listed(
    root: Seq<Seq<char>>,
    requested: Seq<char>,
    resolved: Seq<Seq<char>>,
    entries: Seq<EntryProbeView>,
)
    ensures
        sent(
            root,
            StateView::Classify { requested, resolved },
            seq![
                EventView::Probed { found: true, is_file: false, is_dir: true },
                EventView::Entries { entries },
            ],
        ) == wire(directory_response(listing_page(listed(entries), requested))),
        has_status(directory_response(listing_page(listed(entries), requested)), 200, "OK"@),
{
    let start = StateView::Classify { requested, resolved };
    let probed = EventView::Probed { found: true, is_file: false, is_dir: true };
    let listed_event = EventView::Entries { entries };
    lemma_one_more_event(root, start, Seq::empty(), probed);
    assert(Seq::<EventView>::empty().push(probed) =~= seq![probed]);
    lemma_one_more_event(root, start, seq![probed], listed_event);
    assert(seq![probed].push(listed_event) =~= seq![probed, listed_event]);
    assert(sent(root, start, seq![probed, listed_event]) =~= wire(
        directory_response(listing_page(listed(entries), requested)),
    ));
    lemma_response_has_its_status(200, "OK"@, listing_page(listed(entries), requested));
}

/// The bytes of `chunks`, one chunk after the other.
pub open spec fn joined(chunks: Seq<Seq<u8>>) -> Seq<u8>
    decreases chunks.len(),
{
    if chunks.len() == 0 {
        Seq::empty()
    } else {
        joined(chunks.drop_last()) + chunks.last()
    }
}

/// The events of a transfer in chunks, after the header was handed over: each write
/// completes and the next chunk is read.
pub open spec fn chunk_events(chunks: Seq<Seq<u8>>) -> Seq<EventView>
    decreases chunks.len(),
{
    if chunks.len() == 0 {
        Seq::empty()
    } else {
        chunk_events(chunks.drop_last()).push(EventView::Written).push(
            EventView::Data { bytes: chunks.last() },
        )
    }
}

/// The events of a whole transfer of the file with the bytes `contents`, measured as `len`.
pub open spec fn whole_transfer(len: u64, contents: Seq<u8>) -> Seq<EventView> {
    seq![EventView::Size { len }, EventView::Data { bytes: contents }]
}

/// The events of a transfer in `chunks` of a file measured as `len`, to the end of the file.
pub open spec fn chunked_transfer(len: u64, chunks: Seq<Seq<u8>>) -> Seq<EventView> {
    (seq![EventView::Size { len }] + chunk_events(chunks)).push(EventView::Written).push(
        EventView::Data { bytes: Seq::empty() },
    )
}

/// A transfer in chunks, as far as `chunks`: the header and the chunks have been sent, and
/// the last of them is being written.
pub proof fn lemma_chunks_are_sent_on(
    root: Seq<Seq<char>>,
    resolved: Seq<Seq<char>>,
    len: u64,
    chunks: Seq<Seq<u8>>,
)
    requires
        len >= CHUNK_SIZE,
        forall|i: int| 0 <= i < chunks.len() ==> (#[trigger] chunks[i]).len() > 0,
    ensures
        state_after(
            root,
            StateView::MeasureFile { resolved },
            seq![EventView::Size { len }] + chunk_events(chunks),
        ) == (StateView::SendChunk { resolved }),
        sent(
            root,
            StateView::MeasureFile { resolved },
            seq![EventView::Size { len }] + chunk_events(chunks),
        ) == wire(file_header(len as nat)) + joined(chunks),
    decreases chunks.len(),
{
    let start = StateView::MeasureFile { resolved };
    let measured = seq![EventView::Size { len }];
    if chunks.len() == 0 {
        lemma_one_more_event(root, start, Seq::empty(), measured[0]);
        assert(Seq::<EventView>::empty().push(measured[0]) =~= measured);
        assert(measured + chunk_events(chunks) =~= measured);
        assert(sent(root, start, measured) =~= wire(file_header(len as nat)) + joined(chunks));
    } else {
        let before = chunks.drop_last();
        lemma_chunks_are_sent_on(root, resolved, len, before);
        let so_far = measured + chunk_events(before);
        let data = EventView::Data { bytes: chunks.last() };
        lemma_one_more_event(root, start, so_far, EventView::Written);
        lemma_one_more_event(root, start, so_far.push(EventView::Written), data);
        assert(measured + chunk_events(chunks) =~= so_far.push(EventView::Written).push(data));
        assert(sent(root, start, measured + chunk_events(chunks)) =~= wire(
            file_header(len as nat),
        ) + joined(chunks));
    }
}

/// The choice between the two transfers does not show on the wire: a file sent in chunks and
/// a file with the same bytes sent whole reach the client as the same bytes, header and body,
/// with the status `200 OK`.
pub proof fn lemma_transfers_agree(
    root: Seq<Seq<char>>,
    resolved: Seq<Seq<char>>,
    small: u64,
    large: u64,
    chunks: Seq<Seq<u8>>,
)
    requires
        small < CHUNK_SIZE <= large,
        forall|i: int| 0 <= i < chunks.len() ==> (#[trigger] chunks[i]).len() > 0,
        joined(chunks).len() == large,
    ensures
        sent(root, StateView::MeasureFile { resolved }, chunked_transfer(large, chunks)) == sent(
            root,
            StateView::MeasureFile { resolved },
            whole_transfer(small, joined(chunks)),
        ),
        sent(root, StateView::MeasureFile { resolved }, chunked_transfer(large, chunks))
            == file_response(joined(chunks)),
        has_status(file_header(joined(chunks).len()), 200, "OK"@),
{
    let start = StateView::MeasureFile { resolved };
    let contents = joined(chunks);
    // the whole transfer
    let measured = EventView::Size { len: small };
    let loaded = EventView::Data { bytes: contents };
    lemma_one_more_event(root, start, Seq::empty(), measured);
    assert(Seq::<EventView>::empty().push(measured) =~= seq![measured]);
    lemma_one_more_event(root, start, seq![measured], loaded);
    assert(seq![measured].push(loaded) =~= whole_transfer(small, contents));
    assert(sent(root, start, whole_transfer(small, contents)) =~= file_response(contents));
    // the transfer in chunks
    lemma_chunks_are_sent_on(root, resolved, large, chunks);
    let so_far = seq![EventView::Size { len: large }] + chunk_events(chunks);
    let end = EventView::Data { bytes: Seq::empty() };
    lemma_one_more_event(root, start, so_far, EventView::Written);
    lemma_one_more_event(root, start, so_far.push(EventView::Written), end);
    assert(sent(root, start, chunked_transfer(large, chunks)) =~= file_response(contents));
    lemma_file_header_has_status_ok(contents.len());
}

/// The events of a connection whose path resolves to `canonical` and is then found to be a
/// directory with the entries `entries`.
pub open spec fn listing_directory(
    request: Seq<u8>,
    canonical: Seq<Seq<char>>,
    entries: Seq<EntryProbeView>,
) -> Seq<EventView> {
    resolving(request, EventView::Canonical { path: canonical }) + seq![
        EventView::Probed { found: true, is_file: false, is_dir: true },
        EventView::Entries { entries },
    ]
}

/// The events of a connection whose path resolves to `canonical` and is then found to be a
/// plain file, followed by the events `transfer` of its transfer.
pub open spec fn sending_file(
    request: Seq<u8>,
    canonical: Seq<Seq<char>>,
    is_dir: bool,
    transfer: Seq<EventView>,
) -> Seq<EventView> {
    resolving(request, EventView::Canonical { path: canonical }) + (seq![
        EventView::Probed { found: true, is_file: true, is_dir },
    ] + transfer)
}

/// A request whose path canonicalizes to a directory inside the root is answered with
/// `200 OK` and the listing, whatever the request looked like (a path that climbs with `..`
/// and comes back inside is served like any other).
pub proof fn lemma_directory_inside_root_is_served(
    root: Seq<Seq<char>>,
    request: Seq<u8>,
    canonical: Seq<Seq<char>>,
    entries: Seq<EntryProbeView>,
)
    requires
        within(root, canonical),
    ensures
        sent(root, StateView::ReadRequest, listing_directory(request, canonical, entries)) == wire(
            directory_response(
                listing_page(listed(entries), target_of(parse_request(utf8_lossy(request)))),
            ),
        ),
        has_status(
            directory_response(
                listing_page(listed(entries), target_of(parse_request(utf8_lossy(request)))),
            ),
            200,
            "OK"@,
        ),
{
    let requested = target_of(parse_request(utf8_lossy(request)));
    let first = resolving(request, EventView::Canonical { path: canonical });
    let second = seq![
        EventView::Probed { found: true, is_file: false, is_dir: true },
        EventView::Entries { entries },
    ];
    lemma_inside_root_is_classified(root, request, canonical);
    lemma_directory_is_listed(root, requested, canonical, entries);
    lemma_events_in_sequence(root, StateView::ReadRequest, first, second);
    assert(Seq::<u8>::empty() + sent(
        root,
        StateView::Classify { requested, resolved: canonical },
        second,
    ) =~= sent(root, StateView::Classify { requested, resolved: canonical }, second));
}

/// A request whose path canonicalizes to a plain file inside the root is answered with
/// `200 OK` and the bytes of the file, whichever way the file is transferred.
pub proof fn lemma_file_inside_root_is_served(
    root: Seq<Seq<char>>,
    request: Seq<u8>,
    canonical: Seq<Seq<char>>,
    is_dir: bool,
    small: u64,
    large: u64,
    chunks: Seq<Seq<u8>>,
)
    requires
        within(root, canonical),
        small < CHUNK_SIZE <= large,
        forall|i: int| 0 <= i < chunks.len() ==> (#[trigger] chunks[i]).len() > 0,
        joined(chunks).len() == large,
    ensures
        sent(
            root,
            StateView::ReadRequest,
            sending_file(request, canonical, is_dir, whole_transfer(small, joined(chunks))),
        ) == file_response(joined(chunks)),
        sent(
            root,
            StateView::ReadRequest,
            sending_file(request, canonical, is_dir, chunked_transfer(large, chunks)),
        ) == file_response(joined(chunks)),
        has_status(file_header(joined(chunks).len()), 200, "OK"@),
{
    let requested = target_of(parse_request(utf8_lossy(request)));
    let first = resolving(request, EventView::Canonical { path: canonical });
    let probed = seq![EventView::Probed { found: true, is_file: true, is_dir }];
    let classify = StateView::Classify { requested, resolved: canonical };
    let measure = StateView::MeasureFile { resolved: canonical };
    lemma_inside_root_is_classified(root, request, canonical);
    lemma_one_more_event(root, classify, Seq::empty(), probed[0]);
    assert(Seq::<EventView>::empty().push(probed[0]) =~= probed);
    assert(state_after(root, classify, probed) == measure);
    assert(sent(root, classify, probed) =~= Seq::<u8>::empty());
    lemma_transfers_agree(root, canonical, small, large, chunks);
    let whole = whole_transfer(small, joined(chunks));
    let chunked = chunked_transfer(large, chunks);
    lemma_events_in_sequence(root, classify, probed, whole);
    lemma_events_in_sequence(root, classify, probed, chunked);
    lemma_events_in_sequence(root, StateView::ReadRequest, first, probed + whole);
    lemma_events_in_sequence(root, StateView::ReadRequest, first, probed + chunked);
    assert(Seq::<u8>::empty() + (Seq::<u8>::empty() + file_response(joined(chunks)))
        =~= file_response(joined(chunks)));
}

} // verus!
