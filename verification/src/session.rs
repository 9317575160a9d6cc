//! The session registry: two coupled mappings, connection identity to
//! optional connect code, and connect code to session record. At most one
//! live session exists per connect code; binding a code evicts whatever
//! session the same connection had bound before.
//!
//! The registry is generic over the handle `S` used to push outbound
//! commands toward a connection; the registry stores it and hands it back
//! without looking inside.

use vstd::hash_map::StringHashMap;
use vstd::prelude::*;

verus! {

/// One authenticated identity bound to one connection: the connection
/// identity assigned at accept time, the connect code presented at auth
/// time, and the handle for delivering outbound commands. The fields are
/// immutable once created; only registry membership changes.
pub struct SessionImpl<S> {
    /// The opaque identity of the connection.
    pub client_id: String,
    /// The externally meaningful identity presented at auth time.
    pub connect_code: String,
    /// The handle for pushing outbound commands to the connection.
    pub sender: S,
}

impl<S> SessionImpl<S> {
    /// The connection identity this session is bound to.
    pub fn client_id(&self) -> (r: &String)
        ensures
            *r == self.client_id,
    {
        &self.client_id
    }

    /// The connect code this session was created for.
    pub fn connect_code(&self) -> (r: &String)
        ensures
            *r == self.connect_code,
    {
        &self.connect_code
    }

    /// The command handle of this session.
    pub fn sender(&self) -> (r: &S)
        ensures
            *r == self.sender,
    {
        &self.sender
    }
}

impl<S> PartialEq for SessionImpl<S> {
    /// Two sessions are the same when they bind the same identities; the
    /// command handle does not enter the comparison.
    fn eq(&self, other: &Self) -> (r: bool) {
        self.connect_code == other.connect_code && self.client_id == other.client_id
    }
}

impl<S> vstd::std_specs::cmp::PartialEqSpecImpl for SessionImpl<S> {
    open spec fn obeys_eq_spec() -> bool {
        true
    }

    open spec fn eq_spec(&self, other: &Self) -> bool {
        self.connect_code@ == other.connect_code@ && self.client_id@ == other.client_id@
    }
}

/// The connection map after a connection binds a connect code.
pub open spec fn bind_clients(
    clients: Map<Seq<char>, Option<String>>,
    id: Seq<char>,
    code: String,
) -> Map<Seq<char>, Option<String>> {
    clients.insert(id, Some(code))
}

/// The session map after a connection binds a new session record: the code
/// the connection had bound before, if any, is evicted first, then the
/// record is installed under its own connect code.
pub open spec fn bind_sessions<S>(
    clients: Map<Seq<char>, Option<String>>,
    sessions: Map<Seq<char>, SessionImpl<S>>,
    id: Seq<char>,
    record: SessionImpl<S>,
) -> Map<Seq<char>, SessionImpl<S>> {
    let evicted = if clients.contains_key(id) && clients[id] is Some {
        sessions.remove((clients[id]->0)@)
    } else {
        sessions
    };
    evicted.insert(record.connect_code@, record)
}

/// The connection map after a connection is unbound.
pub open spec fn unbind_clients(clients: Map<Seq<char>, Option<String>>, id: Seq<char>) -> Map<
    Seq<char>,
    Option<String>,
> {
    clients.remove(id)
}

/// The session map after a connection is unbound: the session reached
/// through the connection's bound code, if any, is removed. The lookup goes
/// through the identity-to-code mapping, never by querying the code-keyed
/// table with a connection identity.
pub open spec fn unbind_sessions<S>(
    clients: Map<Seq<char>, Option<String>>,
    sessions: Map<Seq<char>, SessionImpl<S>>,
    id: Seq<char>,
) -> Map<Seq<char>, SessionImpl<S>> {
    if clients.contains_key(id) && clients[id] is Some {
        sessions.remove((clients[id]->0)@)
    } else {
        sessions
    }
}

/// Whether some entry of `codes` reads as the characters `c`.
pub open spec fn has_view(codes: Seq<String>, c: Seq<char>) -> bool {
    exists|i: int| 0 <= i < codes.len() && (#[trigger] codes[i])@ == c
}

/// Whether no two entries of `codes` read as the same characters.
pub open spec fn distinct_views(codes: Seq<String>) -> bool {
    forall|i: int, j: int| 0 <= i < j < codes.len() ==> codes[i]@ != codes[j]@
}

/// Removes the one entry of `codes` that reads as `code`, if present.
fn remove_code(codes: &mut Vec<String>, code: &String)
    requires
        distinct_views(old(codes)@),
    ensures
        distinct_views(final(codes)@),
        forall|c: Seq<char>|
            has_view(final(codes)@, c) <==> (has_view(old(codes)@, c) && c != code@),
{
    let mut j: usize = 0;
    while j < codes.len()
        invariant
            0 <= j <= codes@.len(),
            codes@ == old(codes)@,
            distinct_views(old(codes)@),
            forall|k: int| 0 <= k < j ==> (#[trigger] old(codes)@[k])@ != code@,
        decreases codes@.len() - j,
    {
        if codes[j] == *code {
            proof {
                assert(old(codes)@[j as int]@ == code@);
            }
            codes.remove(j);
            proof {
                let ji = j as int;
                assert(codes@ == old(codes)@.remove(ji));
                assert(codes@ =~= old(codes)@.subrange(0, ji) + old(codes)@.subrange(ji + 1, old(codes)@.len() as int));
                assert forall|c: Seq<char>|
                    has_view(codes@, c) <==> (has_view(old(codes)@, c) && c != code@) by {
                    if has_view(codes@, c) {
                        let k = choose|k: int| 0 <= k < codes@.len() && (#[trigger] codes@[k])@ == c;
                        if k < ji {
                            assert(codes@[k] == old(codes)@[k]);
                            assert((old(codes)@[k])@ == c);
                        } else {
                            assert(codes@[k] == old(codes)@[k + 1]);
                            assert((old(codes)@[k + 1])@ == c);
                        }
                        assert(has_view(old(codes)@, c) && c != code@);
                    }
                    if has_view(old(codes)@, c) && c != code@ {
                        let k = choose|k: int| 0 <= k < old(codes)@.len() && (#[trigger] old(codes)@[k])@ == c;
                        if k < ji {
                            assert(codes@[k] == old(codes)@[k]);
                            assert(has_view(codes@, c));
                        } else {
                            assert(k != ji);
                            assert(codes@[k - 1] == old(codes)@[k]);
                            assert(has_view(codes@, c));
                        }
                    }
                };
                assert forall|i1: int, j1: int| 0 <= i1 < j1 < codes@.len() implies codes@[i1]@
                    != codes@[j1]@ by {
                    if i1 < ji {
                        assert(codes@[i1] == old(codes)@[i1]);
                    } else {
                        assert(codes@[i1] == old(codes)@[i1 + 1]);
                    }
                    if j1 < ji {
                        assert(codes@[j1] == old(codes)@[j1]);
                    } else {
                        assert(codes@[j1] == old(codes)@[j1 + 1]);
                    }
                };
            }
            return;
        }
        j += 1;
    }
}

/// The registry: the canonical owner of the session entries. All reads and
/// writes go through its methods, which keep the two mappings coupled.
#[verifier::reject_recursive_types(S)]
pub struct SessionManagerImpl<S> {
    client_map: StringHashMap<Option<String>>,
    session_map: StringHashMap<SessionImpl<S>>,
    codes: Vec<String>,
}

impl<S> SessionManagerImpl<S> {
    /// The connection-identity mapping: which connections are registered,
    /// and which connect code, if any, each has bound.
    pub closed spec fn clients(&self) -> Map<Seq<char>, Option<String>> {
        self.client_map@
    }

    /// The session mapping: the live session record of each bound connect
    /// code. At most one session per code is structural: it is a map.
    pub closed spec fn sessions(&self) -> Map<Seq<char>, SessionImpl<S>> {
        self.session_map@
    }

    /// The registry's internal coherence: the code list mirrors the session
    /// map's keys exactly and without repetition; every session sits under
    /// its own connect code; and every session's connection is registered
    /// with that very code bound.
    pub closed spec fn wf(&self) -> bool {
        &&& forall|i: int|
            0 <= i < self.codes@.len() ==> self.session_map@.contains_key(
                (#[trigger] self.codes@[i])@,
            )
        &&& forall|c: Seq<char>|
            #[trigger] self.session_map@.contains_key(c) ==> has_view(self.codes@, c)
        &&& distinct_views(self.codes@)
        &&& forall|c: Seq<char>|
            #[trigger] self.session_map@.contains_key(c) ==> self.session_map@[c].connect_code@
                == c
        &&& forall|c: Seq<char>|
            #[trigger] self.session_map@.contains_key(c) ==> {
                let id = self.session_map@[c].client_id@;
                &&& self.client_map@.contains_key(id)
                &&& self.client_map@[id] matches Some(code) && code@ == c
            }
    }

    /// An empty registry.
    pub fn new() -> (r: Self)
        ensures
            r.wf(),
            r.clients() == Map::<Seq<char>, Option<String>>::empty(),
            r.sessions() == Map::<Seq<char>, SessionImpl<S>>::empty(),
    {
        SessionManagerImpl {
            client_map: StringHashMap::new(),
            session_map: StringHashMap::new(),
            codes: Vec::new(),
        }
    }

    /// Registers a connection that has not authenticated yet. Registering
    /// the same identity again changes nothing.
    pub fn new_client(&mut self, client_id: String)
        requires
            old(self).wf(),
        ensures
            final(self).wf(),
            final(self).sessions() == old(self).sessions(),
            final(self).clients() == if old(self).clients().contains_key(client_id@) {
                old(self).clients()
            } else {
                old(self).clients().insert(client_id@, None::<String>)
            },
    {
        if !self.client_map.contains_key(client_id.as_str()) {
            self.client_map.insert(client_id, None);
        }
    }

    /// Creates the session binding `client_id` to `connect_code`, evicting
    /// first whatever session the same connection had bound before, so a
    /// reconnect with a new code or a duplicate auth leaves exactly one
    /// binding for the connection.
    pub fn create_session(&mut self, client_id: String, connect_code: String, sender: S)
        requires
            old(self).wf(),
        ensures
            final(self).wf(),
            final(self).clients() == bind_clients(old(self).clients(), client_id@, connect_code),
            final(self).sessions() == bind_sessions(
                old(self).clients(),
                old(self).sessions(),
                client_id@,
                (SessionImpl { client_id, connect_code, sender }),
            ),
    {
        let ghost cm0 = self.client_map@;
        let ghost sm0 = self.session_map@;
        let ghost id = client_id@;
        let ghost code = connect_code@;
        let evict: Option<String> = match self.client_map.get(client_id.as_str()) {
            Some(binding) => match binding.as_ref() {
                Some(v) => Some(v.clone()),
                None => None,
            },
            None => None,
        };
        let ghost ev = evict;
        proof {
            assert(ev is Some <==> (cm0.contains_key(id) && cm0[id] is Some));
            assert(ev is Some ==> ev->0 == cm0[id]->0);
        }
        match evict {
            Some(v) => {
                self.session_map.remove(v.as_str());
                remove_code(&mut self.codes, &v);
            },
            None => {},
        }
        let ghost sm1 = self.session_map@;
        let ghost cds1 = self.codes@;
        proof {
            let cds0 = old(self).codes@;
            assert forall|i: int| 0 <= i < cds1.len() implies sm1.contains_key(
                (#[trigger] cds1[i])@,
            ) by {
                let c = cds1[i]@;
                assert(has_view(cds1, c));
                assert(has_view(cds0, c));
                let k = choose|k: int| 0 <= k < cds0.len() && (#[trigger] cds0[k])@ == c;
                assert(sm0.contains_key(c));
                if ev is Some {
                    assert(c != (ev->0)@);
                }
            }
            assert forall|c: Seq<char>| #[trigger] sm1.contains_key(c) implies has_view(
                cds1,
                c,
            ) by {
                assert(sm0.contains_key(c));
                assert(has_view(cds0, c));
                if ev is Some {
                    assert(c != (ev->0)@);
                }
            }
            assert(distinct_views(cds1));
        }
        let code_for_client = connect_code.clone();
        let code_key = connect_code.clone();
        let record = SessionImpl { client_id: client_id.clone(), connect_code, sender };
        if !self.session_map.contains_key(code_key.as_str()) {
            self.codes.push(code_key.clone());
        }
        self.session_map.insert(code_key, record);
        self.client_map.insert(client_id, Some(code_for_client));
        proof {
            let smf = self.session_map@;
            let cmf = self.client_map@;
            let cdsf = self.codes@;
            assert(smf == sm1.insert(code, record));
            assert(cmf == cm0.insert(id, Some(code_for_client)));
            assert forall|i: int| 0 <= i < cdsf.len() implies smf.contains_key(
                (#[trigger] cdsf[i])@,
            ) by {
                if i < cds1.len() {
                    assert(cdsf[i] == cds1[i]);
                    assert(has_view(cds1, cds1[i]@));
                    assert(sm1.contains_key(cds1[i]@));
                } else {
                    assert(cdsf[i]@ == code);
                }
            }
            assert forall|c: Seq<char>| #[trigger] smf.contains_key(c) implies has_view(
                cdsf,
                c,
            ) by {
                if c == code {
                    if sm1.contains_key(code) {
                        let k = choose|k: int| 0 <= k < cds1.len() && (#[trigger] cds1[k])@ == c;
                        assert(cdsf[k]@ == c);
                    } else {
                        assert(cdsf[cdsf.len() - 1]@ == c);
                    }
                } else {
                    assert(sm1.contains_key(c));
                    let k = choose|k: int| 0 <= k < cds1.len() && (#[trigger] cds1[k])@ == c;
                    assert(cdsf[k]@ == c);
                }
            }
            assert forall|i1: int, j1: int| 0 <= i1 < j1 < cdsf.len() implies cdsf[i1]@
                != cdsf[j1]@ by {
                if j1 < cds1.len() {
                    assert(cdsf[i1] == cds1[i1]);
                    assert(cdsf[j1] == cds1[j1]);
                } else {
                    assert(cdsf[j1]@ == code);
                    assert(cdsf[i1] == cds1[i1]);
                    assert(!sm1.contains_key(code));
                    if cds1[i1]@ == code {
                        assert(has_view(cds1, code));
                        assert(sm1.contains_key(code));
                    }
                }
            }
            assert forall|c: Seq<char>| #[trigger] smf.contains_key(c) implies {
                let sid = smf[c].client_id@;
                &&& smf[c].connect_code@ == c
                &&& cmf.contains_key(sid)
                &&& cmf[sid] matches Some(cd) && cd@ == c
            } by {
                if c == code {
                    assert(smf[c] == record);
                    assert(cmf[id] == Some(code_for_client));
                } else {
                    assert(sm1.contains_key(c));
                    assert(sm0.contains_key(c));
                    let s = sm0[c];
                    assert(s.connect_code@ == c);
                    if s.client_id@ == id {
                        assert(cm0[id] matches Some(cd) && cd@ == c);
                        assert(ev is Some);
                        assert((ev->0)@ == c);
                        assert(!sm1.contains_key(c));
                    }
                    assert(cmf[s.client_id@] == cm0[s.client_id@]);
                }
            }
        }
    }

    /// Removes the connection's registration and, through its bound connect
    /// code, the session that code resolves to. The lookup goes identity to
    /// code to session; the code-keyed table is never queried with a
    /// connection identity.
    pub fn remove_session(&mut self, client_id: &str)
        requires
            old(self).wf(),
        ensures
            final(self).wf(),
            final(self).clients() == unbind_clients(old(self).clients(), client_id@),
            final(self).sessions() == unbind_sessions(
                old(self).clients(),
                old(self).sessions(),
                client_id@,
            ),
    {
        let ghost cm0 = self.client_map@;
        let ghost sm0 = self.session_map@;
        let ghost cds0 = self.codes@;
        let ghost id = client_id@;
        let code: Option<String> = match self.client_map.get(client_id) {
            Some(binding) => match binding.as_ref() {
                Some(v) => Some(v.clone()),
                None => None,
            },
            None => None,
        };
        let ghost ev = code;
        proof {
            assert(ev is Some <==> (cm0.contains_key(id) && cm0[id] is Some));
            assert(ev is Some ==> ev->0 == cm0[id]->0);
        }
        match code {
            Some(v) => {
                self.session_map.remove(v.as_str());
                remove_code(&mut self.codes, &v);
            },
            None => {},
        }
        self.client_map.remove(client_id);
        proof {
            let sm1 = self.session_map@;
            let cds1 = self.codes@;
            let cmf = self.client_map@;
            assert forall|i: int| 0 <= i < cds1.len() implies sm1.contains_key(
                (#[trigger] cds1[i])@,
            ) by {
                let c = cds1[i]@;
                assert(has_view(cds1, c));
                assert(has_view(cds0, c));
                let k = choose|k: int| 0 <= k < cds0.len() && (#[trigger] cds0[k])@ == c;
                assert(sm0.contains_key(c));
                if ev is Some {
                    assert(c != (ev->0)@);
                }
            }
            assert forall|c: Seq<char>| #[trigger] sm1.contains_key(c) implies has_view(
                cds1,
                c,
            ) by {
                assert(sm0.contains_key(c));
                assert(has_view(cds0, c));
                if ev is Some {
                    assert(c != (ev->0)@);
                }
            }
            assert(distinct_views(cds1));
            assert forall|c: Seq<char>| #[trigger] sm1.contains_key(c) implies {
                let sid = sm1[c].client_id@;
                &&& sm1[c].connect_code@ == c
                &&& cmf.contains_key(sid)
                &&& cmf[sid] matches Some(cd) && cd@ == c
            } by {
                assert(sm0.contains_key(c));
                let s = sm0[c];
                assert(sm1[c] == s);
                if s.client_id@ == id {
                    assert(cm0[id] matches Some(cd) && cd@ == c);
                    assert(ev is Some);
                    assert((ev->0)@ == c);
                    assert(!sm1.contains_key(c));
                }
                assert(cmf[s.client_id@] == cm0[s.client_id@]);
            }
        }
    }

    /// The session a connect code currently resolves to, if any.
    pub fn get_session(&self, connect_code: &str) -> (r: Option<&SessionImpl<S>>)
        ensures
            match r {
                Some(s) => self.sessions().contains_key(connect_code@) && *s
                    == self.sessions()[connect_code@],
                None => !self.sessions().contains_key(connect_code@),
            },
    {
        self.session_map.get(connect_code)
    }

    /// A snapshot of the currently bound connect codes: one entry for each
    /// key of the session map, in no promised order.
    pub fn connect_codes(&self) -> (r: Vec<String>)
        requires
            self.wf(),
        ensures
            forall|i: int|
                0 <= i < r@.len() ==> self.sessions().contains_key((#[trigger] r@[i])@),
            forall|c: Seq<char>| self.sessions().contains_key(c) ==> has_view(r@, c),
            distinct_views(r@),
    {
        let mut r: Vec<String> = Vec::new();
        let mut i: usize = 0;
        while i < self.codes.len()
            invariant
                0 <= i <= self.codes@.len(),
                r@.len() == i,
                forall|k: int| 0 <= k < i ==> #[trigger] r@[k] == self.codes@[k],
            decreases self.codes@.len() - i,
        {
            r.push(self.codes[i].clone());
            i += 1;
        }
        proof {
            assert(r@ =~= self.codes@);
        }
        r
    }
}

impl<S> Default for SessionManagerImpl<S> {
    /// An empty registry.
    fn default() -> (r: Self)
        ensures
            r.wf(),
            r.clients() == Map::<Seq<char>, Option<String>>::empty(),
            r.sessions() == Map::<Seq<char>, SessionImpl<S>>::empty(),
    {
        Self::new()
    }
}

/// Session rebind: binding one connect code and then another on the same
/// connection makes the first code unresolvable and leaves the second
/// resolving to the second record.
pub proof fn lemma_session_rebind<S>(
    clients: Map<Seq<char>, Option<String>>,
    sessions: Map<Seq<char>, SessionImpl<S>>,
    id: Seq<char>,
    r1: SessionImpl<S>,
    r2: SessionImpl<S>,
)
    requires
        r1.connect_code@ != r2.connect_code@,
    ensures
        ({
            let c1 = bind_clients(clients, id, r1.connect_code);
            let m1 = bind_sessions(clients, sessions, id, r1);
            let m2 = bind_sessions(c1, m1, id, r2);
            &&& !m2.contains_key(r1.connect_code@)
            &&& m2.contains_key(r2.connect_code@)
            &&& m2[r2.connect_code@] == r2
        }),
{
}

/// Removal by connection: after binding a session, unbinding by the same
/// connection identity leaves the bound connect code resolving to nothing.
pub proof fn lemma_removal_by_connection<S>(
    clients: Map<Seq<char>, Option<String>>,
    sessions: Map<Seq<char>, SessionImpl<S>>,
    id: Seq<char>,
    record: SessionImpl<S>,
)
    ensures
        ({
            let c1 = bind_clients(clients, id, record.connect_code);
            let m1 = bind_sessions(clients, sessions, id, record);
            let m2 = unbind_sessions(c1, m1, id);
            !m2.contains_key(record.connect_code@)
        }),
{
}

} // verus!
