//! The registry of live sessions.
//!
//! A session is one process on a pseudo-terminal. The registry keeps, for
//! each, what callers are told of it and the output collected since the
//! last read. The drain loop of a session works on an inbox of its own, so
//! that it never waits for the registry; the registry collects from the
//! inbox when a caller asks. The terminal itself travels through the
//! registry as a handle of a type that the embedding program chooses: the
//! registry owns it from registration until the session is closed, and
//! never looks inside.

use vstd::prelude::*;
use vstd::string::StringExecFns;
use vstd::utf8::{decode_utf8, encode_utf8, valid_utf8};

use crate::buffer::{retained_tail, DrainInbox, OutputBuffer, SESSION_BUFFER_CAPACITY};
use crate::error::SessionError;
use crate::output::{captured_text, show_output, shown_text};

verus! {

/// A point in time: whole seconds since the start of 1970 in UTC, and the
/// nanoseconds into that second.
#[derive(Clone, Copy, Debug, PartialEq, Eq, Structural)]
pub struct Timestamp {
    pub secs: i64,
    pub nanos: u32,
}

/// What a caller is told of a session.
#[derive(Clone, Debug, PartialEq, Eq)]
pub struct SessionInfo {
    pub session_id: String,
    pub project: Option<String>,
    pub cwd: String,
    pub is_alive: bool,
    pub created_at: Timestamp,
}

/// One registered session as the contracts see it.
pub struct SessionState<H> {
    pub id: Seq<char>,
    pub project: Option<Seq<char>>,
    pub cwd: Seq<char>,
    pub created_at: Timestamp,
    /// Captured and not yet read, oldest byte first.
    pub output: Seq<u8>,
    /// False once the output stream of the process has ended.
    pub is_alive: bool,
    pub handle: H,
}

/// The text of an optional string.
pub open spec fn text_of(value: Option<String>) -> Option<Seq<char>> {
    match value {
        Some(text) => Some(text@),
        None => None,
    }
}

/// The text of an optional string slice.
pub open spec fn slice_text_of(value: Option<&str>) -> Option<Seq<char>> {
    match value {
        Some(text) => Some(text@),
        None => None,
    }
}

/// The index of the first session with this identifier; the number of
/// sessions if there is none.
pub open spec fn position_of<H>(sessions: Seq<SessionState<H>>, id: Seq<char>) -> int
    decreases sessions.len(),
{
    if sessions.len() == 0 || sessions[0].id == id {
        0
    } else {
        1 + position_of(sessions.skip(1), id)
    }
}

/// Whether a session with this identifier is registered.
pub open spec fn has_session<H>(sessions: Seq<SessionState<H>>, id: Seq<char>) -> bool {
    position_of(sessions, id) < sessions.len()
}

/// The session with this identifier. Meaningful where there is one.
pub open spec fn session_of<H>(sessions: Seq<SessionState<H>>, id: Seq<char>) -> SessionState<H> {
    sessions[position_of(sessions, id)]
}

/// No two sessions share an identifier.
pub open spec fn distinct_ids<H>(sessions: Seq<SessionState<H>>) -> bool {
    forall|i: int, j: int|
        0 <= i < j < sessions.len() ==> (#[trigger] sessions[i]).id != (#[trigger] sessions[j]).id
}

/// A session as it is registered: alive, with nothing captured yet.
pub open spec fn fresh_state<H>(
    id: Seq<char>,
    created_at: Timestamp,
    handle: H,
    cwd: Seq<char>,
    project: Option<Seq<char>>,
) -> SessionState<H> {
    SessionState { id, project, cwd, created_at, output: Seq::empty(), is_alive: true, handle }
}

/// The registry without the session of this identifier.
pub open spec fn without<H>(sessions: Seq<SessionState<H>>, id: Seq<char>) -> Seq<
    SessionState<H>,
> {
    if has_session(sessions, id) {
        sessions.remove(position_of(sessions, id))
    } else {
        sessions
    }
}

/// Whether the character is a decimal digit or one of `a` to `f`.
pub open spec fn is_lower_hex(c: char) -> bool {
    ('0' <= c && c <= '9') || ('a' <= c && c <= 'f')
}

/// The shape of a generated identifier: 36 characters, hyphens at the
/// indices 8, 13, 18 and 23, lower-case hexadecimal digits elsewhere.
pub open spec fn well_formed_identifier(id: Seq<char>) -> bool {
    &&& id.len() == 36
    &&& forall|i: int|
        0 <= i < 36 ==> if i == 8 || i == 13 || i == 18 || i == 23 {
            id[i] == '-'
        } else {
            is_lower_hex(#[trigger] id[i])
        }
}

/// A time as the clock gives it: not before 1970, and with less than a
/// second of nanoseconds.
pub open spec fn is_clock_time(time: Timestamp) -> bool {
    time.secs >= 0 && time.nanos < 1_000_000_000
}

/// The registry after the captured output of one session was read out.
pub open spec fn drained<H>(sessions: Seq<SessionState<H>>, id: Seq<char>) -> Seq<SessionState<H>> {
    if has_session(sessions, id) {
        sessions.update(
            position_of(sessions, id),
            (SessionState { output: Seq::empty(), ..session_of(sessions, id) }),
        )
    } else {
        sessions
    }
}

/// One session after the registry collected what its drain loop had
/// captured: the bytes are appended under the capacity of a session
/// buffer, and the end of the stream clears the liveness flag.
pub open spec fn state_after_collect<H>(
    state: SessionState<H>,
    bytes: Seq<u8>,
    ended: bool,
) -> SessionState<H> {
    SessionState {
        output: retained_tail(state.output + bytes, SESSION_BUFFER_CAPACITY as nat),
        is_alive: state.is_alive && !ended,
        ..state
    }
}

/// The registry after it collected what the drain loop of one session had
/// captured.
pub open spec fn after_collect<H>(
    sessions: Seq<SessionState<H>>,
    id: Seq<char>,
    bytes: Seq<u8>,
    ended: bool,
) -> Seq<SessionState<H>> {
    if has_session(sessions, id) {
        sessions.update(
            position_of(sessions, id),
            state_after_collect(session_of(sessions, id), bytes, ended),
        )
    } else {
        sessions
    }
}

/// Whether a session passes the project filter: every session passes the
/// absent filter, and a given project only the sessions tagged with exactly it.
pub open spec fn in_project<H>(state: SessionState<H>, project: Option<Seq<char>>) -> bool {
    match project {
        None => true,
        Some(name) => state.project == Some(name),
    }
}

/// The project filter as a predicate on sessions.
pub open spec fn project_filter<H>(project: Option<Seq<char>>) -> spec_fn(SessionState<H>) -> bool {
    |state: SessionState<H>| in_project(state, project)
}

/// The sessions that pass the project filter, in registry order.
pub open spec fn listed<H>(sessions: Seq<SessionState<H>>, project: Option<Seq<char>>) -> Seq<
    SessionState<H>,
> {
    sessions.filter(project_filter(project))
}

impl SessionInfo {
    /// The record tells of `state` what a caller is told of a session.
    pub open spec fn describes<H>(self, state: SessionState<H>) -> bool {
        &&& self.session_id@ == state.id
        &&& text_of(self.project) == state.project
        &&& self.cwd@ == state.cwd
        &&& self.is_alive == state.is_alive
        &&& self.created_at == state.created_at
    }
}

/// Where the first session with an identifier stands.
pub proof fn lemma_position_of<H>(sessions: Seq<SessionState<H>>, id: Seq<char>)
    ensures
        0 <= position_of(sessions, id) <= sessions.len(),
        has_session(sessions, id) ==> session_of(sessions, id).id == id,
        forall|j: int| 0 <= j < position_of(sessions, id) ==> (#[trigger] sessions[j]).id != id,
    decreases sessions.len(),
{
    if sessions.len() > 0 && sessions[0].id != id {
        let rest = sessions.skip(1);
        lemma_position_of(rest, id);
        assert forall|j: int| 0 <= j < position_of(sessions, id) implies (
        #[trigger] sessions[j]).id != id by {
            if j > 0 {
                assert(sessions[j] == rest[j - 1]);
            }
        }
    }
}

/// The first match is where no earlier session matches.
pub proof fn lemma_first_match<H>(sessions: Seq<SessionState<H>>, id: Seq<char>, at: int)
    requires
        0 <= at <= sessions.len(),
        forall|j: int| 0 <= j < at ==> (#[trigger] sessions[j]).id != id,
        at == sessions.len() || sessions[at].id == id,
    ensures
        position_of(sessions, id) == at,
    decreases at,
{
    if at > 0 {
        let rest = sessions.skip(1);
        assert(sessions[0].id != id);
        assert forall|j: int| 0 <= j < at - 1 implies (#[trigger] rest[j]).id != id by {
            assert(rest[j] == sessions[j + 1]);
        }
        lemma_first_match(rest, id, at - 1);
    }
}

/// An identifier names one session: among distinct identifiers, what is
/// found under the identifier of a registered session is that session.
pub proof fn lemma_found_at<H>(sessions: Seq<SessionState<H>>, at: int)
    requires
        distinct_ids(sessions),
        0 <= at < sessions.len(),
    ensures
        position_of(sessions, sessions[at].id) == at,
{
    lemma_first_match(sessions, sessions[at].id, at);
}

/// Sessions that agree on their identifiers index by index are found at
/// the same place.
proof fn lemma_same_ids_same_position<H>(
    a: Seq<SessionState<H>>,
    b: Seq<SessionState<H>>,
    id: Seq<char>,
)
    requires
        a.len() == b.len(),
        forall|i: int| 0 <= i < a.len() ==> (#[trigger] a[i]).id == b[i].id,
    ensures
        position_of(a, id) == position_of(b, id),
{
    lemma_position_of(a, id);
    let at = position_of(a, id);
    assert forall|j: int| 0 <= j < at implies (#[trigger] b[j]).id != id by {
        assert(a[j].id != id);
    }
    lemma_first_match(b, id, at);
}

/// Reading out and collecting both leave every session in its place.
proof fn lemma_updates_keep_place<H>(
    sessions: Seq<SessionState<H>>,
    id: Seq<char>,
    other: Seq<char>,
    bytes: Seq<u8>,
    ended: bool,
)
    ensures
        position_of(drained(sessions, id), other) == position_of(sessions, other),
        position_of(after_collect(sessions, id, bytes, ended), other) == position_of(
            sessions,
            other,
        ),
        drained(sessions, id).len() == sessions.len(),
        after_collect(sessions, id, bytes, ended).len() == sessions.len(),
{
    lemma_position_of(sessions, id);
    lemma_same_ids_same_position(sessions, drained(sessions, id), other);
    lemma_same_ids_same_position(sessions, after_collect(sessions, id, bytes, ended), other);
}

/// A second read that follows a first with no output in between finds
/// nothing: it returns the empty text with the liveness flag as it was, and
/// changes nothing.
pub proof fn lemma_second_read_finds_nothing<H>(
    sessions: Seq<SessionState<H>>,
    id: Seq<char>,
    max_lines: Option<u32>,
)
    requires
        has_session(sessions, id),
    ensures
        has_session(drained(sessions, id), id),
        session_of(drained(sessions, id), id).output == Seq::<u8>::empty(),
        shown_text(captured_text(session_of(drained(sessions, id), id).output), max_lines)
            == Seq::<char>::empty(),
        session_of(drained(sessions, id), id).is_alive == session_of(sessions, id).is_alive,
        drained(drained(sessions, id), id) == drained(sessions, id),
{
    let once = drained(sessions, id);
    lemma_position_of(sessions, id);
    lemma_updates_keep_place(sessions, id, id, Seq::empty(), false);
    crate::output::lemma_nothing_shown_of_nothing(max_lines);
    assert(drained(once, id) =~= once);
}

/// A closed session is gone: among distinct identifiers, the registry
/// without a session has none of that identifier, so that reading from it,
/// collecting for it and closing it again all find nothing and change
/// nothing.
pub proof fn lemma_closed_session_is_gone<H>(sessions: Seq<SessionState<H>>, id: Seq<char>)
    requires
        distinct_ids(sessions),
    ensures
        !has_session(without(sessions, id), id),
        distinct_ids(without(sessions, id)),
        without(without(sessions, id), id) == without(sessions, id),
        drained(without(sessions, id), id) == without(sessions, id),
        forall|bytes: Seq<u8>, ended: bool| #[trigger]
            after_collect(without(sessions, id), id, bytes, ended) == without(sessions, id),
{
    lemma_position_of(sessions, id);
    let kept = without(sessions, id);
    if has_session(sessions, id) {
        let at = position_of(sessions, id);
        assert forall|j: int| 0 <= j < kept.len() implies (#[trigger] kept[j]).id != id by {
            if j < at {
                assert(kept[j] == sessions[j]);
            } else {
                assert(kept[j] == sessions[j + 1]);
            }
        }
        assert forall|i: int, j: int| 0 <= i < j < kept.len() implies (#[trigger] kept[i]).id != (
        #[trigger] kept[j]).id by {
            let a = if i < at { i } else { i + 1 };
            let b = if j < at { j } else { j + 1 };
            assert(kept[i] == sessions[a]);
            assert(kept[j] == sessions[b]);
        }
        lemma_first_match(kept, id, kept.len() as int);
    }
}

/// Closing one session leaves every other one registered as it was.
pub proof fn lemma_close_keeps_others<H>(
    sessions: Seq<SessionState<H>>,
    id: Seq<char>,
    other: Seq<char>,
)
    requires
        distinct_ids(sessions),
        other != id,
        has_session(sessions, other),
    ensures
        has_session(without(sessions, id), other),
        session_of(without(sessions, id), other) == session_of(sessions, other),
{
    lemma_position_of(sessions, id);
    lemma_position_of(sessions, other);
    let kept = without(sessions, id);
    if has_session(sessions, id) {
        let at = position_of(sessions, id);
        let there = position_of(sessions, other);
        let here = if there < at { there } else { there - 1 };
        assert forall|j: int| 0 <= j < here implies (#[trigger] kept[j]).id != other by {
            if j < at {
                assert(kept[j] == sessions[j]);
            } else {
                assert(kept[j] == sessions[j + 1]);
            }
        }
        assert(kept[here] == sessions[there]);
        lemma_first_match(kept, other, here);
    }
}

/// The listing holds only sessions that pass the filter, holds every
/// session that passes it, and without a filter is the whole registry.
pub proof fn lemma_listing<H>(sessions: Seq<SessionState<H>>, project: Option<Seq<char>>)
    ensures
        listed(sessions, None) == sessions,
        listed(sessions, project).len() <= sessions.len(),
        forall|k: int|
            0 <= k < listed(sessions, project).len() ==> in_project(
                #[trigger] listed(sessions, project)[k],
                project,
            ) && sessions.contains(listed(sessions, project)[k]),
        forall|i: int|
            0 <= i < sessions.len() && in_project(sessions[i], project) ==> listed(
                sessions,
                project,
            ).contains(#[trigger] sessions[i]),
{
    let filter = project_filter::<H>(project);
    #[allow(deprecated)]
    sessions.filter_lemma(filter);
    assert forall|k: int| 0 <= k < listed(sessions, project).len() implies in_project(
        #[trigger] listed(sessions, project)[k],
        project,
    ) && sessions.contains(listed(sessions, project)[k]) by {
        let state = listed(sessions, project)[k];
        assert(filter(state));
        assert(sessions.filter(filter).contains(state));
        sessions.lemma_filter_contains_rev(filter, state);
    }
    assert forall|i: int| 0 <= i < sessions.len() && in_project(sessions[i], project) implies listed(
        sessions,
        project,
    ).contains(#[trigger] sessions[i]) by {
        assert(filter(sessions[i]));
    }
    lemma_unfiltered(sessions);
}

proof fn lemma_unfiltered<H>(sessions: Seq<SessionState<H>>)
    ensures
        listed(sessions, None) == sessions,
    decreases sessions.len(),
{
    let filter = project_filter::<H>(None);
    if sessions.len() == 0 {
        sessions.lemma_filter_len(filter);
        assert(sessions.filter(filter) =~= sessions);
    } else {
        lemma_unfiltered(sessions.drop_last());
        sessions.drop_last().lemma_filter_push(sessions.last(), filter);
        assert(sessions.drop_last().push(sessions.last()) =~= sessions);
    }
}

/// The liveness flag only ever falls: after a collection a session is
/// alive only if it was alive before and its stream has not ended. Reading
/// out its output does not touch the flag.
pub proof fn lemma_liveness_only_falls<H>(
    sessions: Seq<SessionState<H>>,
    id: Seq<char>,
    bytes: Seq<u8>,
    ended: bool,
)
    requires
        has_session(sessions, id),
    ensures
        has_session(after_collect(sessions, id, bytes, ended), id),
        session_of(after_collect(sessions, id, bytes, ended), id).is_alive == (session_of(
            sessions,
            id,
        ).is_alive && !ended),
        session_of(drained(sessions, id), id).is_alive == session_of(sessions, id).is_alive,
{
    lemma_position_of(sessions, id);
    lemma_updates_keep_place(sessions, id, id, bytes, ended);
}

/// A read-out takes exactly what was collected up to it: what a session
/// collects after one read-out is all that the next one finds, in the order
/// in which it came.
pub proof fn lemma_read_out_takes_all<H>(
    sessions: Seq<SessionState<H>>,
    id: Seq<char>,
    bytes: Seq<u8>,
    ended: bool,
)
    requires
        has_session(sessions, id),
    ensures
        session_of(after_collect(drained(sessions, id), id, bytes, ended), id).output
            == retained_tail(bytes, SESSION_BUFFER_CAPACITY as nat),
        session_of(drained(after_collect(sessions, id, bytes, ended), id), id).output
            == Seq::<u8>::empty(),
{
    lemma_position_of(sessions, id);
    lemma_updates_keep_place(sessions, id, id, bytes, ended);
    lemma_updates_keep_place(drained(sessions, id), id, id, bytes, ended);
    lemma_updates_keep_place(after_collect(sessions, id, bytes, ended), id, id, bytes, ended);
    assert(Seq::<u8>::empty() + bytes =~= bytes);
}

/// Collecting in two parts gives what collecting the whole at once gives.
pub proof fn lemma_collect_in_parts<H>(
    sessions: Seq<SessionState<H>>,
    id: Seq<char>,
    first: Seq<u8>,
    second: Seq<u8>,
    ended: bool,
)
    requires
        has_session(sessions, id),
    ensures
        after_collect(after_collect(sessions, id, first, false), id, second, ended)
            == after_collect(sessions, id, first + second, ended),
{
    lemma_position_of(sessions, id);
    lemma_updates_keep_place(sessions, id, id, first, false);
    let capacity = SESSION_BUFFER_CAPACITY as nat;
    let output = session_of(sessions, id).output;
    crate::buffer::lemma_retained_tail_absorbs(output + first, second, capacity);
    assert(output + first + second =~= output + (first + second));
    assert(after_collect(after_collect(sessions, id, first, false), id, second, ended)
        =~= after_collect(sessions, id, first + second, ended));
}

struct Session<H> {
    id: String,
    project: Option<String>,
    cwd: String,
    created_at: Timestamp,
    output: OutputBuffer,
    is_alive: bool,
    handle: H,
}

impl<H> Session<H> {
    spec fn state(&self) -> SessionState<H> {
        SessionState {
            id: self.id@,
            project: text_of(self.project),
            cwd: self.cwd@,
            created_at: self.created_at,
            output: self.output@,
            is_alive: self.is_alive,
            handle: self.handle,
        }
    }
}

spec fn states<H>(sessions: Seq<Session<H>>) -> Seq<SessionState<H>> {
    Seq::new(sessions.len(), |i: int| sessions[i].state())
}

spec fn session_limits<H>(sessions: Seq<Session<H>>) -> bool {
    forall|i: int|
        0 <= i < sessions.len() ==> (#[trigger] sessions[i]).output.limit()
            == SESSION_BUFFER_CAPACITY
}

fn find_in<H>(sessions: &Vec<Session<H>>, id: &String) -> (at: usize)
    ensures
        at == position_of(states(sessions@), id@),
        at <= sessions@.len(),
{
    let mut at: usize = 0;
    while at < sessions.len()
        invariant
            at <= sessions@.len(),
            forall|j: int| 0 <= j < at ==> (#[trigger] states(sessions@)[j]).id != id@,
        decreases sessions@.len() - at,
    {
        if sessions[at].id == *id {
            proof {
                lemma_first_match(states(sessions@), id@, at as int);
            }
            return at;
        }
        at += 1;
    }
    proof {
        lemma_first_match(states(sessions@), id@, at as int);
    }
    at
}

/// The registry of live sessions, each with a handle of type `H`.
pub struct SessionManager<H> {
    sessions: Vec<Session<H>>,
}

impl<H> View for SessionManager<H> {
    type V = Seq<SessionState<H>>;

    closed spec fn view(&self) -> Seq<SessionState<H>> {
        states(self.sessions@)
    }
}

impl<H> SessionManager<H> {
    #[verifier::type_invariant]
    spec fn well_formed(&self) -> bool {
        &&& distinct_ids(states(self.sessions@))
        &&& session_limits(self.sessions@)
    }

    /// A registry without sessions.
    pub fn new() -> (manager: Self)
        ensures
            manager@ == Seq::<SessionState<H>>::empty(),
    {
        let manager = SessionManager { sessions: Vec::new() };
        assert(manager@ =~= Seq::<SessionState<H>>::empty());
        manager
    }

    /// The number of registered sessions.
    pub fn len(&self) -> (count: usize)
        ensures
            count == self@.len(),
            distinct_ids(self@),
    {
        proof {
            use_type_invariant(self);
        }
        self.sessions.len()
    }

    /// Whether a session of this identifier is registered.
    pub fn contains(&self, session_id: &str) -> (found: bool)
        ensures
            found == has_session(self@, session_id@),
            distinct_ids(self@),
    {
        proof {
            use_type_invariant(self);
        }
        let id = String::from_str(session_id);
        find_in(&self.sessions, &id) < self.sessions.len()
    }

    /// Registers a session under an identifier and a creation time that the
    /// caller supplies. Fails, changes nothing and drops the handle, if the
    /// identifier is registered already.
    pub fn insert_session(
        &mut self,
        session_id: String,
        created_at: Timestamp,
        handle: H,
        cwd: String,
        project: Option<String>,
    ) -> (result: Result<(), SessionError>)
        ensures
            match result {
                Ok(_) => {
                    &&& !has_session(old(self)@, session_id@)
                    &&& final(self)@ == old(self)@.push(
                        fresh_state(session_id@, created_at, handle, cwd@, text_of(project)),
                    )
                    &&& session_of(final(self)@, session_id@) == fresh_state(
                        session_id@,
                        created_at,
                        handle,
                        cwd@,
                        text_of(project),
                    )
                },
                Err(error) => {
                    &&& has_session(old(self)@, session_id@)
                    &&& error.is_in_use(session_id@)
                    &&& final(self)@ == old(self)@
                },
            },
            distinct_ids(final(self)@),
    {
        proof {
            use_type_invariant(&*self);
        }
        let ghost before = states(self.sessions@);
        let ghost state = fresh_state(session_id@, created_at, handle, cwd@, text_of(project));
        // The sessions are worked on outside `self` and put back whole, so
        // that `self` is well formed whenever it is whole.
        let mut sessions: Vec<Session<H>> = Vec::new();
        std::mem::swap(&mut self.sessions, &mut sessions);
        let at = find_in(&sessions, &session_id);
        if at < sessions.len() {
            self.sessions = sessions;
            return Err(SessionError::IdentifierInUse { session_id });
        }
        proof {
            lemma_position_of(before, session_id@);
        }
        let session = Session {
            id: session_id,
            project,
            cwd,
            created_at,
            output: OutputBuffer::new(SESSION_BUFFER_CAPACITY),
            is_alive: true,
            handle,
        };
        assert(session.state() == state);
        sessions.push(session);
        assert(states(sessions@) =~= before.push(state));
        proof {
            lemma_first_match(states(sessions@), state.id, before.len() as int);
        }
        self.sessions = sessions;
        Ok(())
    }

    /// Closes a session: takes it out of the registry and drops its handle.
    /// Fails, and changes nothing, if no such session is registered.
    pub fn close_session(&mut self, session_id: &str) -> (result: Result<(), SessionError>)
        ensures
            match result {
                Ok(_) => has_session(old(self)@, session_id@),
                Err(error) => !has_session(old(self)@, session_id@) && error.is_not_found(
                    session_id@,
                ),
            },
            final(self)@ == without(old(self)@, session_id@),
            !has_session(final(self)@, session_id@),
            distinct_ids(final(self)@),
    {
        proof {
            use_type_invariant(&*self);
        }
        let ghost before = states(self.sessions@);
        let id = String::from_str(session_id);
        let mut sessions: Vec<Session<H>> = Vec::new();
        std::mem::swap(&mut self.sessions, &mut sessions);
        let at = find_in(&sessions, &id);
        proof {
            lemma_position_of(before, id@);
        }
        if at >= sessions.len() {
            self.sessions = sessions;
            return Err(SessionError::NotFound { session_id: id });
        }
        let _closed = sessions.remove(at);
        proof {
            assert(states(sessions@) =~= before.remove(at as int));
            lemma_closed_session_is_gone(before, id@);
        }
        self.sessions = sessions;
        Ok(())
    }

    /// Reads out what a session has captured since the last read, and leaves
    /// its buffer empty. The text is sanitized and cut to its last
    /// `max_lines` lines where a limit is given; with it comes the liveness
    /// flag as it stands. Fails, and changes nothing, if no such session is
    /// registered.
    pub fn read_output(&mut self, session_id: &str, max_lines: Option<u32>) -> (result: Result<
        (String, bool),
        SessionError,
    >)
        ensures
            match result {
                Ok((text, is_alive)) => {
                    &&& has_session(old(self)@, session_id@)
                    &&& text@ == shown_text(
                        captured_text(session_of(old(self)@, session_id@).output),
                        max_lines,
                    )
                    &&& valid_utf8(session_of(old(self)@, session_id@).output) ==> text@
                        == shown_text(
                        decode_utf8(session_of(old(self)@, session_id@).output),
                        max_lines,
                    )
                    &&& is_alive == session_of(old(self)@, session_id@).is_alive
                },
                Err(error) => !has_session(old(self)@, session_id@) && error.is_not_found(
                    session_id@,
                ),
            },
            final(self)@ == drained(old(self)@, session_id@),
            distinct_ids(final(self)@),
    {
        proof {
            use_type_invariant(&*self);
        }
        let ghost before = states(self.sessions@);
        let id = String::from_str(session_id);
        let mut sessions: Vec<Session<H>> = Vec::new();
        std::mem::swap(&mut self.sessions, &mut sessions);
        let at = find_in(&sessions, &id);
        if at >= sessions.len() {
            self.sessions = sessions;
            return Err(SessionError::NotFound { session_id: id });
        }
        let session = &mut sessions[at];
        let raw = session.output.take();
        let is_alive = session.is_alive;
        assert(states(sessions@) =~= drained(before, id@));
        assert(session_limits(sessions@));
        assert(distinct_ids(states(sessions@)));
        self.sessions = sessions;
        let text = show_output(raw.as_slice(), max_lines);
        Ok((text, is_alive))
    }

    /// Collects for a session what its drain loop has captured: the bytes
    /// move from the inbox to the buffer of the session, and an ended stream
    /// clears its liveness flag for good. For a session that is not
    /// registered nothing changes, the inbox included.
    pub fn collect(&mut self, session_id: &str, inbox: &mut DrainInbox) -> (found: bool)
        ensures
            found == has_session(old(self)@, session_id@),
            final(self)@ == after_collect(
                old(self)@,
                session_id@,
                old(inbox).captured(),
                old(inbox).has_ended(),
            ),
            final(inbox).captured() == if found {
                Seq::<u8>::empty()
            } else {
                old(inbox).captured()
            },
            final(inbox).has_ended() == old(inbox).has_ended(),
            final(inbox).limit() == old(inbox).limit(),
            distinct_ids(final(self)@),
    {
        proof {
            use_type_invariant(&*self);
        }
        let ghost before = states(self.sessions@);
        let id = String::from_str(session_id);
        let mut sessions: Vec<Session<H>> = Vec::new();
        std::mem::swap(&mut self.sessions, &mut sessions);
        let at = find_in(&sessions, &id);
        if at >= sessions.len() {
            self.sessions = sessions;
            return false;
        }
        let ghost collected = inbox.captured();
        let ended = inbox.ended();
        let bytes = inbox.take();
        let session = &mut sessions[at];
        session.output.append(bytes.as_slice());
        if ended {
            session.is_alive = false;
        }
        assert(states(sessions@) =~= after_collect(before, id@, collected, ended));
        assert(session_limits(sessions@));
        assert(distinct_ids(states(sessions@)));
        self.sessions = sessions;
        true
    }

    /// The handle of a session. Fails if no such session is registered.
    pub fn handle(&self, session_id: &str) -> (result: Result<&H, SessionError>)
        ensures
            match result {
                Ok(handle) => has_session(self@, session_id@) && *handle == session_of(
                    self@,
                    session_id@,
                ).handle,
                Err(error) => !has_session(self@, session_id@) && error.is_not_found(session_id@),
            },
            distinct_ids(self@),
    {
        proof {
            use_type_invariant(self);
        }
        let id = String::from_str(session_id);
        let at = find_in(&self.sessions, &id);
        if at >= self.sessions.len() {
            return Err(SessionError::NotFound { session_id: id });
        }
        Ok(&self.sessions[at].handle)
    }

    /// Looks up where input for a session goes: its handle, and the exact
    /// bytes of `input`, to which nothing is added. Fails if no such session
    /// is registered. A session whose process has ended is still a target.
    pub fn send_input<'a, 'b>(&'a self, session_id: &str, input: &'b str) -> (result: Result<
        (&'a H, &'b [u8]),
        SessionError,
    >)
        ensures
            match result {
                Ok((handle, bytes)) => {
                    &&& has_session(self@, session_id@)
                    &&& *handle == session_of(self@, session_id@).handle
                    &&& bytes@ == encode_utf8(input@)
                },
                Err(error) => !has_session(self@, session_id@) && error.is_not_found(session_id@),
            },
            distinct_ids(self@),
    {
        match self.handle(session_id) {
            Ok(handle) => Ok((handle, input.as_bytes())),
            Err(error) => Err(error),
        }
    }

    /// A snapshot of the registered sessions in registry order: all of them,
    /// or those tagged with exactly the given project.
    pub fn list_sessions(&self, project: Option<&str>) -> (infos: Vec<SessionInfo>)
        ensures
            infos@.len() == listed(self@, slice_text_of(project)).len(),
            forall|k: int|
                0 <= k < infos@.len() ==> (#[trigger] infos@[k]).describes(
                    listed(self@, slice_text_of(project))[k],
                ),
            distinct_ids(self@),
    {
        proof {
            use_type_invariant(self);
        }
        let wanted: Option<String> = match project {
            Some(name) => Some(String::from_str(name)),
            None => None,
        };
        let ghost all = states(self.sessions@);
        let ghost filter = project_filter::<H>(slice_text_of(project));
        let mut infos: Vec<SessionInfo> = Vec::new();
        let mut i: usize = 0;
        assert(all.take(0) =~= Seq::<SessionState<H>>::empty());
        assert(all.take(0).filter(filter) =~= Seq::<SessionState<H>>::empty()) by {
            all.take(0).lemma_filter_len(filter);
        }
        while i < self.sessions.len()
            invariant
                i <= self.sessions@.len(),
                all == states(self.sessions@),
                filter == project_filter::<H>(slice_text_of(project)),
                text_of(wanted) == slice_text_of(project),
                infos@.len() == all.take(i as int).filter(filter).len(),
                forall|k: int|
                    0 <= k < infos@.len() ==> (#[trigger] infos@[k]).describes(
                        all.take(i as int).filter(filter)[k],
                    ),
            decreases self.sessions@.len() - i,
        {
            let session = &self.sessions[i];
            let passes = match &wanted {
                None => true,
                Some(name) => match &session.project {
                    Some(tag) => *tag == *name,
                    None => false,
                },
            };
            proof {
                assert(all.take(i + 1) =~= all.take(i as int).push(all[i as int]));
                all.take(i as int).lemma_filter_push(all[i as int], filter);
                assert(passes == filter(all[i as int]));
            }
            if passes {
                let tag = match &session.project {
                    Some(tag) => Some(tag.clone()),
                    None => None,
                };
                infos.push(
                    SessionInfo {
                        session_id: session.id.clone(),
                        project: tag,
                        cwd: session.cwd.clone(),
                        is_alive: session.is_alive,
                        created_at: session.created_at,
                    },
                );
            }
            i += 1;
        }
        assert(all.take(i as int) =~= all);
        infos
    }

    /// Registers a new session under a random identifier, stamped with the
    /// current time, and returns the identifier. The session starts alive
    /// with nothing captured. Fails, changes nothing and drops the handle,
    /// if the identifier drawn is registered already.
    pub fn create_session(
        &mut self,
        handle: H,
        cwd: String,
        project: Option<String>,
    ) -> (result: Result<String, SessionError>)
        ensures
            match result {
                Ok(session_id) => {
                    &&& well_formed_identifier(session_id@)
                    &&& !has_session(old(self)@, session_id@)
                    &&& final(self)@ == old(self)@.push(
                        fresh_state(
                            session_id@,
                            session_of(final(self)@, session_id@).created_at,
                            handle,
                            cwd@,
                            text_of(project),
                        ),
                    )
                    &&& is_clock_time(session_of(final(self)@, session_id@).created_at)
                },
                Err(error) => {
                    &&& final(self)@ == old(self)@
                    &&& error matches SessionError::IdentifierInUse { session_id }
                    &&& well_formed_identifier(session_id@)
                    &&& has_session(old(self)@, session_id@)
                },
            },
            distinct_ids(final(self)@),
    {
        let session_id = fresh_session_id();
        let created_at = current_time();
        match self.insert_session(session_id.clone(), created_at, handle, cwd, project) {
            Ok(_) => Ok(session_id),
            Err(error) => Err(error),
        }
    }
}

/// Draws an identifier from `uuid::Uuid::new_v4` and writes it out through
/// its `Display`. Believed, not proved: the text is 36 characters long, 32
/// lower-case hexadecimal digits in groups of 8, 4, 4, 4 and 12 with a
/// hyphen between each two. Which digits come is left open. The outside
/// function panics where the system cannot supply random bytes.
#[verifier::external_body]
fn fresh_session_id() -> (id: String)
    ensures
        well_formed_identifier(id@),
{
    uuid::Uuid::new_v4().to_string()
}

/// Reads the clock with `chrono::Utc::now` and splits the result with
/// `DateTime::timestamp` and `DateTime::timestamp_subsec_nanos`. Believed,
/// not proved: the seconds are not negative and the nanoseconds stay under
/// one second. The outside function panics where the system clock stands
/// before 1970.
#[verifier::external_body]
fn current_time() -> (now: Timestamp)
    ensures
        is_clock_time(now),
{
    let now = chrono::Utc::now();
    Timestamp { secs: now.timestamp(), nanos: now.timestamp_subsec_nanos() }
}

} // verus!
