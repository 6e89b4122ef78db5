//! The sessions of the connected devices.

use crate::clock::hex_number;
use crate::clock::id_after;
use crate::clock::id_of;
use crate::clock::is_id;
use crate::clock::is_reading;
use crate::clock::later_id;
use crate::clock::law_id_is_the_time;
use crate::clock::lemma_ids_in_use;
use crate::clock::lemma_later_id;
use crate::clock::read_clock;
use crate::clock::seconds_at;
use crate::clock::seconds_of;
use crate::map::StringMap;
use crate::text::same;
use vstd::prelude::*;

verus! {

/// A device that has registered.
pub struct DeviceSession {
    pub device_id: String,
    pub client_id: String,
    pub created_at_unix: u64,
    pub hello_done: bool,
}

/// What a session holds.
pub struct SessionView {
    pub device_id: Seq<char>,
    pub client_id: Seq<char>,
    pub created_at_unix: u64,
    pub hello_done: bool,
}

impl View for DeviceSession {
    type V = SessionView;

    open spec fn view(&self) -> SessionView {
        SessionView {
            device_id: self.device_id@,
            client_id: self.client_id@,
            created_at_unix: self.created_at_unix,
            hello_done: self.hello_done,
        }
    }
}

impl Clone for DeviceSession {
    fn clone(&self) -> (r: Self)
        ensures
            r@ == self@,
    {
        DeviceSession {
            device_id: self.device_id.clone(),
            client_id: self.client_id.clone(),
            created_at_unix: self.created_at_unix,
            hello_done: self.hello_done,
        }
    }
}

/// The state of the server: the sessions by their identifiers.
pub struct AppState {
    sessions: StringMap<DeviceSession>,
}

impl View for AppState {
    type V = Map<Seq<char>, SessionView>;

    closed spec fn view(&self) -> Map<Seq<char>, SessionView> {
        self.sessions@
    }
}

/// The session that a device starts with.
pub open spec fn fresh_session(
    device_id: Seq<char>,
    client_id: Seq<char>,
    created_at_unix: u64,
) -> SessionView {
    SessionView { device_id, client_id, created_at_unix, hello_done: false }
}

/// The session once the device has said hello.
pub open spec fn greeted(session: SessionView) -> SessionView {
    SessionView { hello_done: true, ..session }
}

/// The sessions once the device of session `id` has said hello.
pub open spec fn with_hello(
    sessions: Map<Seq<char>, SessionView>,
    id: Seq<char>,
) -> Map<Seq<char>, SessionView> {
    if sessions.contains_key(id) {
        sessions.insert(id, greeted(sessions[id]))
    } else {
        sessions
    }
}

/// Session `id` belongs to the device and the client.
pub open spec fn belongs_to(
    sessions: Map<Seq<char>, SessionView>,
    id: Seq<char>,
    device_id: Seq<char>,
    client_id: Seq<char>,
) -> bool {
    &&& sessions.contains_key(id)
    &&& sessions[id].device_id == device_id
    &&& sessions[id].client_id == client_id
}

/// `id` is the identifier for a reading of the clock, or the first one after it that no session
/// has.
pub open spec fn names_new_session(
    sessions: Map<Seq<char>, SessionView>,
    reading: Option<(u64, u32)>,
    id: Seq<char>,
) -> bool {
    &&& !sessions.contains_key(id)
    &&& exists|k: nat|
        id == #[trigger] later_id(reading, k) && forall|j: nat|
            j < k ==> sessions.contains_key(#[trigger] later_id(reading, j))
}

/// A session that is started at the time `now` can be given the identifier `id`: one reading of
/// the clock gives both.
pub open spec fn starts_at(
    sessions: Map<Seq<char>, SessionView>,
    id: Seq<char>,
    now: u64,
) -> bool {
    exists|reading: Option<(u64, u32)>|
        is_reading(reading) && now == seconds_of(reading) && #[trigger] names_new_session(
            sessions,
            reading,
            id,
        )
}

impl Default for AppState {
    fn default() -> (r: Self)
        ensures
            r@ == Map::<Seq<char>, SessionView>::empty(),
    {
        AppState { sessions: StringMap::new() }
    }
}

impl AppState {
    /// The identifier for a reading of the clock, or the next one that no session has.
    pub fn fresh_id(&self, reading: Option<(u64, u32)>) -> (id: String)
        ensures
            is_id(id@),
            !self@.contains_key(id@),
            is_reading(reading) && !self@.contains_key(id_of(reading)) ==> id@ == id_of(reading),
            names_new_session(self@, reading, id@),
    {
        let len: usize = self.session_count();
        let mut k: usize = 0;
        let mut id = id_after(reading, 0);
        while self.sessions.get(id.as_str()).is_some()
            invariant
                k <= len,
                len == self@.len(),
                self@ == self.sessions@,
                self@.dom().finite(),
                id@ == later_id(reading, k as nat),
                forall|j: nat| j < k ==> self@.contains_key(#[trigger] later_id(reading, j)),
            decreases len - k,
        {
            proof {
                lemma_ids_in_use(self@.dom(), reading, (k + 1) as nat);
            }
            k = k + 1;
            id = id_after(reading, k);
        }
        proof {
            lemma_later_id(reading, k as nat);
            lemma_later_id(reading, 0);
        }
        id
    }

    /// Starts a session for a device, with a new identifier and the present time.
    pub fn create_session(&mut self, device_id: String, client_id: String) -> (id: String)
        ensures
            is_id(id@),
            !old(self)@.contains_key(id@),
            exists|now: u64|
                final(self)@ == old(self)@.insert(
                    id@,
                    #[trigger] fresh_session(device_id@, client_id@, now),
                ) && starts_at(old(self)@, id@, now),
    {
        let reading = read_clock();
        let id = self.fresh_id(reading);
        let now: u64 = seconds_at(reading);
        self.insert_session(id.as_str(), device_id, client_id, now);
        id
    }

    /// Starts a session for a device under the given identifier.
    pub fn insert_session(&mut self, id: &str, device_id: String, client_id: String, now: u64)
        ensures
            final(self)@ == old(self)@.insert(id@, fresh_session(device_id@, client_id@, now)),
    {
        self.sessions.insert(
            id.to_owned(),
            DeviceSession { device_id, client_id, created_at_unix: now, hello_done: false },
        );
    }

    /// Ends a session.
    pub fn remove_session(&mut self, session_id: &str)
        ensures
            final(self)@ == old(self)@.remove(session_id@),
    {
        self.sessions.remove(session_id);
    }

    /// The number of sessions.
    pub fn session_count(&self) -> (n: usize)
        ensures
            n == self@.len(),
            self@.dom().finite(),
    {
        self.sessions.len()
    }

    /// A session of the device and the client, where there is one. Where there are several, any
    /// of them may be given.
    pub fn find_by_device_client(&self, device_id: &str, client_id: &str) -> (r: Option<String>)
        ensures
            match r {
                Some(id) => belongs_to(self@, id@, device_id@, client_id@),
                None => forall|id: Seq<char>| !belongs_to(self@, id, device_id@, client_id@),
            },
    {
        let len: usize = self.sessions.len();
        let mut i: usize = 0;
        while i < len
            invariant
                i <= len,
                len == self@.len(),
                self@ == self.sessions@,
                forall|k: int| #![trigger self.sessions.key_at(k)]
                    0 <= k < i ==> !belongs_to(
                        self@,
                        self.sessions.key_at(k),
                        device_id@,
                        client_id@,
                    ),
            decreases len - i,
        {
            let (id, session) = self.sessions.entry(i);
            if same(session.device_id.as_str(), device_id) && same(
                session.client_id.as_str(),
                client_id,
            ) {
                return Some(id.to_owned());
            }
            i = i + 1;
        }
        None
    }

    /// The session with the given identifier.
    pub fn get_session(&self, session_id: &str) -> (r: Option<DeviceSession>)
        ensures
            match r {
                Some(session) => self@.contains_key(session_id@) && session@ == self@[session_id@],
                None => !self@.contains_key(session_id@),
            },
    {
        match self.sessions.get(session_id) {
            Some(session) => Some(session.clone()),
            None => None,
        }
    }

    /// Notes that the device of a session has said hello.
    pub fn mark_hello_done(&mut self, session_id: &str)
        ensures
            final(self)@ == with_hello(old(self)@, session_id@),
    {
        if let Some(session) = self.get_session(session_id) {
            let mut marked = session;
            marked.hello_done = true;
            self.sessions.insert(session_id.to_owned(), marked);
        }
    }
}

/// The time of a session is that of its identifier: the nanoseconds that the identifier stands for
/// lie in the second in which the session was started, but for the times that were taken. This
/// holds up to the last time that the clock can tell.
pub proof fn law_session_time(
    sessions: Map<Seq<char>, SessionView>,
    id: Seq<char>,
    now: u64,
)
    requires
        sessions.dom().finite(),
        starts_at(sessions, id, now),
        now + 1 + sessions.len() < 0x1_0000_0000_0000_0000,
    ensures
        !sessions.contains_key(id),
        now * 1_000_000_000 <= hex_number(id) < (now + 1) * 1_000_000_000 + sessions.len(),
{
    let reading = choose|reading: Option<(u64, u32)>|
        is_reading(reading) && now == seconds_of(reading) && #[trigger] names_new_session(
            sessions,
            reading,
            id,
        );
    let k = choose|k: nat|
        id == #[trigger] later_id(reading, k) && forall|j: nat|
            j < k ==> sessions.contains_key(#[trigger] later_id(reading, j));
    if k > sessions.len() {
        lemma_ids_in_use(sessions.dom(), reading, sessions.len() + 1);
    }
    match reading {
        Some((secs, nanos)) => {
            law_id_is_the_time(secs, nanos, k);
        },
        None => {
            law_id_is_the_time(0, 0, k);
        },
    }
}

/// A session holds what its fields hold.
pub proof fn law_session_view(session: DeviceSession)
    ensures
        session@.device_id == session.device_id@,
        session@.client_id == session.client_id@,
        session@.created_at_unix == session.created_at_unix,
        session@.hello_done == session.hello_done,
{
}

/// A session starts with its device, its client and its time, and without a hello.
pub proof fn law_fresh_session(device: Seq<char>, client: Seq<char>, now: u64)
    ensures
        fresh_session(device, client, now).device_id == device,
        fresh_session(device, client, now).client_id == client,
        fresh_session(device, client, now).created_at_unix == now,
        !fresh_session(device, client, now).hello_done,
{
}

/// A hello is marked in its session and changes nothing else, of that session or of others; where
/// there is no such session it changes nothing at all.
pub proof fn law_hello_is_marked(
    sessions: Map<Seq<char>, SessionView>,
    id: Seq<char>,
    other: Seq<char>,
)
    ensures
        with_hello(sessions, id).dom() == sessions.dom(),
        sessions.contains_key(id) ==> with_hello(sessions, id)[id] == (SessionView {
            device_id: sessions[id].device_id,
            client_id: sessions[id].client_id,
            created_at_unix: sessions[id].created_at_unix,
            hello_done: true,
        }),
        other != id ==> with_hello(sessions, id)[other] == sessions[other],
        !sessions.contains_key(id) ==> with_hello(sessions, id) == sessions,
{
    assert(with_hello(sessions, id).dom() =~= sessions.dom());
}

/// A session belongs to the device and the client that it was started for, and to no others.
pub proof fn law_belongs_to(
    sessions: Map<Seq<char>, SessionView>,
    id: Seq<char>,
    device: Seq<char>,
    client: Seq<char>,
)
    ensures
        belongs_to(sessions, id, device, client) <==> sessions.contains_key(id)
            && sessions[id].device_id == device && sessions[id].client_id == client,
{
}

} // verus!
