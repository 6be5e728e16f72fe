//! The session manager: the handshake state machine and token validation.
//!
//! A session is created when a proposal is accepted (inbound) or when a
//! proposal of ours is acknowledged by a remote peer (outbound). Each file of
//! a session carries a token minted for exactly that (session, file) pair;
//! byte transfers are accepted only against the right token of an active
//! session. Cancellation is one-way and idempotent. The tracked session set
//! is capped: admitting a session at the cap evicts the least recently
//! created one.

use vstd::prelude::*;
use crate::model::{DeviceInfo, DeviceInfoV, FileMetadata, FileMetadataV, SessionStatus};
use crate::idgen::new_uuid_string;
use crate::strutil::str_eq;
use crate::TransferError;

verus! {

/// Upper bound on tracked sessions; admitting one more evicts the oldest.
pub const MAX_SESSIONS: usize = 256;

/// One session record.
pub struct Session {
    /// Generator-assigned identifier.
    pub session_id: String,
    /// The proposed files.
    pub files: Vec<FileMetadata>,
    /// Per-file transfer tokens, aligned index-by-index with `files`.
    pub file_tokens: Vec<(String, String)>,
    /// Identity of the proposing side.
    pub sender: DeviceInfo,
    /// Identity of the receiving side.
    pub receiver: DeviceInfo,
    /// Transport address bound to this session.
    pub addr: String,
    /// Protocol scheme for reaching that address.
    pub protocol: String,
    /// Active or cancelled.
    pub status: SessionStatus,
}

/// View of a [`Session`].
pub struct SessionV {
    pub session_id: Seq<char>,
    pub files: Seq<FileMetadataV>,
    pub file_tokens: Seq<(Seq<char>, Seq<char>)>,
    pub sender: DeviceInfoV,
    pub receiver: DeviceInfoV,
    pub addr: Seq<char>,
    pub protocol: Seq<char>,
    pub status: SessionStatus,
}

impl DeepView for Session {
    type V = SessionV;

    open spec fn deep_view(&self) -> SessionV {
        SessionV {
            session_id: self.session_id@,
            files: self.files.deep_view(),
            file_tokens: self.file_tokens.deep_view(),
            sender: self.sender.deep_view(),
            receiver: self.receiver.deep_view(),
            addr: self.addr@,
            protocol: self.protocol@,
            status: self.status,
        }
    }
}

/// No two files of `fs` share an id.
pub open spec fn unique_file_ids(fs: Seq<FileMetadataV>) -> bool {
    forall|i: int, j: int| 0 <= i < j < fs.len() ==> fs[i].id != fs[j].id
}

/// A session is well formed when its file ids are unique and its token list
/// is aligned with its file list: one token per file, in the same order.
pub open spec fn session_wf(sv: SessionV) -> bool {
    &&& unique_file_ids(sv.files)
    &&& sv.file_tokens.len() == sv.files.len()
    &&& forall|i: int| 0 <= i < sv.files.len() ==> #[trigger] sv.file_tokens[i].0
        == sv.files[i].id
}

/// First session of `s` with id `sid`, if any.
pub open spec fn find_session(s: Seq<SessionV>, sid: Seq<char>) -> Option<SessionV>
    decreases s.len(),
{
    if s.len() == 0 {
        None
    } else if s[0].session_id == sid {
        Some(s[0])
    } else {
        find_session(s.drop_first(), sid)
    }
}

/// First value of `s` under key `k`, if any.
pub open spec fn find_value(s: Seq<(Seq<char>, Seq<char>)>, k: Seq<char>) -> Option<Seq<char>>
    decreases s.len(),
{
    if s.len() == 0 {
        None
    } else if s[0].0 == k {
        Some(s[0].1)
    } else {
        find_value(s.drop_first(), k)
    }
}

/// First file of `fs` with id `fid`, if any.
pub open spec fn find_file(fs: Seq<FileMetadataV>, fid: Seq<char>) -> Option<FileMetadataV>
    decreases fs.len(),
{
    if fs.len() == 0 {
        None
    } else if fs[0].id == fid {
        Some(fs[0])
    } else {
        find_file(fs.drop_first(), fid)
    }
}

/// The token minted for `fid` in session `sv`, if any.
pub open spec fn token_for(sv: SessionV, fid: Seq<char>) -> Option<Seq<char>> {
    find_value(sv.file_tokens, fid)
}

/// What `accept_bytes` must decide: success exactly when the session exists,
/// is active, and the supplied token is the token minted for that file.
pub open spec fn accept_outcome(
    s: Seq<SessionV>,
    sid: Seq<char>,
    fid: Seq<char>,
    token: Seq<char>,
) -> Result<FileMetadataV, TransferError> {
    match find_session(s, sid) {
        None => Err(TransferError::SessionNotFound),
        Some(sv) => {
            if sv.status != SessionStatus::Active {
                Err(TransferError::SessionInactive)
            } else if token_for(sv, fid) != Some(token) {
                Err(TransferError::InvalidToken)
            } else {
                // With a matching token the file exists in every well-formed
                // session; the fallback only keeps the spec total.
                match find_file(sv.files, fid) {
                    Some(m) => Ok(m),
                    None => Err(TransferError::InvalidToken),
                }
            }
        },
    }
}

/// `s` with its first session of id `sid` removed, if one exists.
pub open spec fn remove_first(s: Seq<SessionV>, sid: Seq<char>) -> Seq<SessionV>
    decreases s.len(),
{
    if s.len() == 0 {
        s
    } else if s[0].session_id == sid {
        s.drop_first()
    } else {
        seq![s[0]] + remove_first(s.drop_first(), sid)
    }
}

/// `s` with its first session of id `sid` set to cancelled, if one exists.
pub open spec fn cancel_first(s: Seq<SessionV>, sid: Seq<char>) -> Seq<SessionV>
    decreases s.len(),
{
    if s.len() == 0 {
        s
    } else if s[0].session_id == sid {
        seq![with_cancelled(s[0])] + s.drop_first()
    } else {
        seq![s[0]] + cancel_first(s.drop_first(), sid)
    }
}

/// The same session, cancelled.
pub open spec fn with_cancelled(sv: SessionV) -> SessionV {
    SessionV {
        session_id: sv.session_id,
        files: sv.files,
        file_tokens: sv.file_tokens,
        sender: sv.sender,
        receiver: sv.receiver,
        addr: sv.addr,
        protocol: sv.protocol,
        status: SessionStatus::Cancelled,
    }
}

/// Eviction step of the admission policy: drop oldest entries until one slot
/// is free.
pub open spec fn evict_to_fit(s: Seq<SessionV>) -> Seq<SessionV> {
    if s.len() >= MAX_SESSIONS {
        s.skip(s.len() - (MAX_SESSIONS - 1))
    } else {
        s
    }
}

/// Admission of a session: any session under the same id goes, the oldest
/// entry is evicted if the set is at its cap, and the new session is
/// appended as the most recently created one.
pub open spec fn admit_spec(s: Seq<SessionV>, nv: SessionV) -> Seq<SessionV> {
    evict_to_fit(remove_first(s, nv.session_id)).push(nv)
}

/// Session ids are unique.
pub open spec fn unique_session_ids(s: Seq<SessionV>) -> bool {
    forall|i: int, j: int| 0 <= i < j < s.len() ==> s[i].session_id != s[j].session_id
}

/// Answer of an accepted proposal: the minted session id, and one token per
/// proposed file id.
pub struct PrepareUploadResponse {
    /// Generator-assigned session id.
    pub session_id: String,
    /// Pairs of file id and the token minted for it.
    pub files: Vec<(String, String)>,
}

/// An incoming proposal: who proposes, and what.
pub struct PrepareUploadRequest {
    /// Identity of the proposing device.
    pub info: DeviceInfo,
    /// The proposed files.
    pub files: Vec<FileMetadata>,
}

/// Owner of the session set.
pub struct SessionManager {
    sessions: Vec<Session>,
}

impl SessionManager {
    /// The tracked sessions, oldest first.
    pub closed spec fn view(&self) -> Seq<SessionV> {
        self.sessions.deep_view()
    }

    /// Well-formedness: unique ids, aligned tokens, bounded count.
    pub open spec fn wf(&self) -> bool {
        &&& unique_session_ids(self@)
        &&& forall|i: int| 0 <= i < self@.len() ==> session_wf(#[trigger] self@[i])
        &&& self@.len() <= MAX_SESSIONS
    }

    /// An empty manager.
    pub fn new() -> (r: SessionManager)
        ensures
            r.wf(),
            r@ == Seq::<SessionV>::empty(),
    {
        let r = SessionManager { sessions: Vec::new() };
        proof {
            assert(r@ =~= Seq::<SessionV>::empty());
        }
        r
    }

    /// Number of tracked sessions.
    pub fn len(&self) -> (r: usize)
        ensures
            r == self@.len(),
    {
        self.sessions.len()
    }

    /// Index of the session with id `sid`, if any.
    fn index_of(&self, sid: &str) -> (r: Option<usize>)
        ensures
            match r {
                Some(i) => i < self@.len() && self@[i as int].session_id == sid@ && forall|j: int|
                    0 <= j < i ==> self@[j].session_id != sid@,
                None => forall|j: int| 0 <= j < self@.len() ==> self@[j].session_id != sid@,
            },
    {
        let n = self.sessions.len();
        let mut i: usize = 0;
        while i < n
            invariant
                n == self@.len(),
                n == self.sessions.len(),
                i <= n,
                forall|j: int| 0 <= j < i ==> self@[j].session_id != sid@,
            decreases n - i,
        {
            assert(self@[i as int] == self.sessions[i as int].deep_view());
            if str_eq(self.sessions[i].session_id.as_str(), sid) {
                return Some(i);
            }
            i += 1;
        }
        None
    }

    /// The protocol scheme and transport address bound to session `sid`.
    pub fn route_of(&self, sid: &str) -> (r: Option<(String, String)>)
        ensures
            match find_session(self@, sid@) {
                Some(sv) => r matches Some(t) && t.0@ == sv.protocol && t.1@ == sv.addr,
                None => r is None,
            },
    {
        match self.index_of(sid) {
            Some(i) => {
                proof {
                    lemma_find_session_at(self@, sid@, i as int);
                }
                Some((self.sessions[i].protocol.clone(), self.sessions[i].addr.clone()))
            },
            None => {
                proof {
                    lemma_find_session_none(self@, sid@);
                }
                None
            },
        }
    }

    /// Validates a byte transfer and hands back the file's metadata for
    /// routing. Succeeds exactly when the session exists, is still active,
    /// and `token` equals the token minted for (`sid`, `fid`).
    pub fn accept_bytes(&self, sid: &str, fid: &str, token: &str) -> (r: Result<
        FileMetadata,
        TransferError,
    >)
        requires
            self.wf(),
        ensures
            match r {
                Ok(m) => accept_outcome(self@, sid@, fid@, token@) == Ok::<
                    FileMetadataV,
                    TransferError,
                >(m.deep_view()),
                Err(e) => accept_outcome(self@, sid@, fid@, token@) == Err::<
                    FileMetadataV,
                    TransferError,
                >(e),
            },
            r is Ok <==> {
                &&& find_session(self@, sid@) is Some
                &&& find_session(self@, sid@).unwrap().status == SessionStatus::Active
                &&& token_for(find_session(self@, sid@).unwrap(), fid@) == Some(token@)
            },
    {
        let i = match self.index_of(sid) {
            Some(i) => i,
            None => {
                proof {
                    lemma_find_session_none(self@, sid@);
                }
                return Err(TransferError::SessionNotFound);
            },
        };
        proof {
            lemma_find_session_at(self@, sid@, i as int);
        }
        let session = &self.sessions[i];
        assert(session.deep_view() == self@[i as int]);
        if session.status != SessionStatus::Active {
            return Err(TransferError::SessionInactive);
        }
        let ghost sv = session.deep_view();
        proof {
            assert(session_wf(self@[i as int]));
        }
        // Look the token up, aligned with the file list.
        let n = session.file_tokens.len();
        let mut k: usize = 0;
        while k < n
            invariant
                n == session.file_tokens.len(),
                n == sv.file_tokens.len(),
                sv == session.deep_view(),
                k <= n,
                session_wf(sv),
                find_session(self@, sid@) == Some(sv),
                sv.status == SessionStatus::Active,
                forall|j: int| 0 <= j < k ==> sv.file_tokens[j].0 != fid@,
            decreases n - k,
        {
            assert(sv.file_tokens[k as int] == (
                session.file_tokens[k as int].0@,
                session.file_tokens[k as int].1@,
            ));
            if str_eq(session.file_tokens[k].0.as_str(), fid) {
                proof {
                    assert(sv.file_tokens[k as int].0 == fid@);
                    lemma_find_value_at(sv.file_tokens, fid@, k as int);
                }
                if str_eq(session.file_tokens[k].1.as_str(), token) {
                    proof {
                        assert(sv.file_tokens[k as int].1 == token@);
                        assert(token_for(sv, fid@) == Some(token@));
                    }
                    let m = session.files[k].duplicate();
                    proof {
                        assert(sv.files[k as int] == session.files[k as int].deep_view());
                        assert(sv.files[k as int].id == sv.file_tokens[k as int].0);
                        assert(sv.files[k as int].id == fid@);
                        assert forall|j: int| 0 <= j < k implies sv.files[j].id != fid@ by {
                            assert(sv.file_tokens[j].0 == sv.files[j].id);
                        }
                        lemma_find_file_at(sv.files, fid@, k as int);
                    }
                    return Ok(m);
                } else {
                    return Err(TransferError::InvalidToken);
                }
            }
            k += 1;
        }
        proof {
            lemma_find_value_none(sv.file_tokens, fid@);
        }
        Err(TransferError::InvalidToken)
    }

    /// Cancels a session: fails only when the id is unknown; otherwise sets
    /// the status to cancelled, idempotently.
    pub fn cancel(&mut self, sid: &str) -> (r: Result<(), TransferError>)
        requires
            old(self).wf(),
        ensures
            final(self).wf(),
            r is Ok <==> find_session(old(self)@, sid@) is Some,
            r matches Err(e) ==> e == TransferError::SessionNotFound && final(self)@ == old(
                self,
            )@,
            r is Ok ==> final(self)@ == cancel_first(old(self)@, sid@),
    {
        match self.index_of(sid) {
            Some(i) => {
                proof {
                    lemma_find_session_at(old(self)@, sid@, i as int);
                }
                let entry = &mut self.sessions[i];
                entry.status = SessionStatus::Cancelled;
                proof {
                    assert(self@ =~= old(self)@.update(
                        i as int,
                        with_cancelled(old(self)@[i as int]),
                    ));
                    lemma_cancel_first_at(old(self)@, sid@, i as int);
                    assert(final(self).wf()) by {
                        assert(forall|j: int| 0 <= j < self@.len() && j != i ==> self@[j]
                            == old(self)@[j]);
                    }
                }
                Ok(())
            },
            None => {
                proof {
                    lemma_find_session_none(old(self)@, sid@);
                }
                Err(TransferError::SessionNotFound)
            },
        }
    }

    /// Admits `session`: removes any session under the same id, evicts the
    /// oldest entry if the set is at its cap, and appends `session`.
    pub fn record(&mut self, session: Session)
        requires
            old(self).wf(),
            session_wf(session.deep_view()),
        ensures
            final(self).wf(),
            final(self)@ == admit_spec(old(self)@, session.deep_view()),
            find_session(final(self)@, session.deep_view().session_id) == Some(
                session.deep_view(),
            ),
    {
        let ghost nv = session.deep_view();
        match self.index_of(session.session_id.as_str()) {
            Some(i) => {
                let _ = self.sessions.remove(i);
                proof {
                    assert(self@ =~= old(self)@.remove(i as int));
                    lemma_remove_first_at(old(self)@, nv.session_id, i as int);
                    assert(self@ == remove_first(old(self)@, nv.session_id));
                }
            },
            None => {
                proof {
                    lemma_remove_first_absent(old(self)@, nv.session_id);
                }
            },
        }
        let ghost removed = self@;
        proof {
            assert(unique_session_ids(removed) && forall|j: int|
                0 <= j < removed.len() ==> session_wf(#[trigger] removed[j])) by {
                lemma_remove_first_frame(old(self)@, nv.session_id);
            }
            assert(forall|j: int| 0 <= j < removed.len() ==> #[trigger] removed[j].session_id
                != nv.session_id) by {
                lemma_remove_first_frame(old(self)@, nv.session_id);
            }
        }
        if self.sessions.len() >= MAX_SESSIONS {
            let _ = self.sessions.remove(0);
            proof {
                assert(self@ =~= removed.skip(1));
                assert(removed.len() == MAX_SESSIONS);
                assert(self@ =~= evict_to_fit(removed));
            }
        } else {
            proof {
                assert(self@ =~= evict_to_fit(removed));
            }
        }
        let ghost evicted = self@;
        self.sessions.push(session);
        proof {
            assert(self@ =~= evicted.push(nv));
            assert(self@ == admit_spec(old(self)@, nv));
            assert(forall|j: int| 0 <= j < evicted.len() ==> #[trigger] self@[j] == evicted[j]);
            assert(final(self).wf());
            lemma_find_session_at(self@, nv.session_id, evicted.len() as int);
        }
    }

    /// Accepts a proposal: mints a session id and one token per file, stores
    /// the session as active, and returns the id-to-token answer for the
    /// proposer. The minted identifiers are random: whatever they are, the
    /// stored session holds exactly the proposed files, one fresh token per
    /// file, and is active.
    pub fn create(
        &mut self,
        files: Vec<FileMetadata>,
        sender: DeviceInfo,
        receiver: DeviceInfo,
        addr: String,
        protocol: String,
    ) -> (r: PrepareUploadResponse)
        requires
            old(self).wf(),
            unique_file_ids(files.deep_view()),
        ensures
            final(self).wf(),
            r.files.deep_view().len() == files.deep_view().len(),
            forall|i: int| 0 <= i < files.deep_view().len() ==> #[trigger] r.files.deep_view()[i].0
                == files.deep_view()[i].id,
            final(self)@ == admit_spec(
                old(self)@,
                (SessionV {
                    session_id: r.session_id@,
                    files: files.deep_view(),
                    file_tokens: r.files.deep_view(),
                    sender: sender.deep_view(),
                    receiver: receiver.deep_view(),
                    addr: addr@,
                    protocol: protocol@,
                    status: SessionStatus::Active,
                }),
            ),
            find_session(final(self)@, r.session_id@) == Some(
                (SessionV {
                    session_id: r.session_id@,
                    files: files.deep_view(),
                    file_tokens: r.files.deep_view(),
                    sender: sender.deep_view(),
                    receiver: receiver.deep_view(),
                    addr: addr@,
                    protocol: protocol@,
                    status: SessionStatus::Active,
                }),
            ),
    {
        let session_id = new_uuid_string();
        let n = files.len();
        let mut tokens: Vec<(String, String)> = Vec::new();
        let mut answer: Vec<(String, String)> = Vec::new();
        let mut i: usize = 0;
        while i < n
            invariant
                n == files.len(),
                i <= n,
                tokens.deep_view().len() == i,
                answer.deep_view().len() == i,
                forall|j: int| 0 <= j < i ==> #[trigger] tokens.deep_view()[j]
                    == answer.deep_view()[j],
                forall|j: int| 0 <= j < i ==> #[trigger] tokens.deep_view()[j].0
                    == files.deep_view()[j].id,
            decreases n - i,
        {
            let ghost tprev = tokens.deep_view();
            let ghost aprev = answer.deep_view();
            let token = new_uuid_string();
            assert(files.deep_view()[i as int] == files[i as int].deep_view());
            let fid = files[i].id.clone();
            let fid2 = files[i].id.clone();
            let token2 = token.clone();
            tokens.push((fid, token));
            answer.push((fid2, token2));
            i += 1;
            proof {
                assert(tokens.deep_view() =~= tprev.push(
                    (files.deep_view()[i - 1].id, token2@),
                ));
                assert(answer.deep_view() =~= aprev.push(
                    (files.deep_view()[i - 1].id, token2@),
                ));
            }
        }
        let ghost fv = files.deep_view();
        let ghost tv = tokens.deep_view();
        proof {
            assert(tv =~= answer.deep_view());
            assert(fv.len() == n);
        }
        let session = Session {
            session_id: session_id.clone(),
            files,
            file_tokens: tokens,
            sender,
            receiver,
            addr,
            protocol,
            status: SessionStatus::Active,
        };
        proof {
            assert(session.deep_view().files == fv);
            assert(session.deep_view().file_tokens == tv);
            assert(session_wf(session.deep_view()));
        }
        self.record(session);
        let r = PrepareUploadResponse { session_id, files: answer };
        proof {
            assert(r.files.deep_view() == tv);
            assert(r.session_id@ == session.deep_view().session_id);
        }
        r
    }
}

/// Checks that no two of the proposed files share an id.
pub fn file_ids_unique(files: &Vec<FileMetadata>) -> (r: bool)
    ensures
        r == unique_file_ids(files.deep_view()),
{
    let n = files.len();
    let mut i: usize = 0;
    while i < n
        invariant
            n == files.len(),
            i <= n,
            forall|a: int, b: int|
                0 <= a < b < n && a < i ==> files.deep_view()[a].id != files.deep_view()[b].id,
        decreases n - i,
    {
        let mut j: usize = i + 1;
        while j < n
            invariant
                n == files.len(),
                i < n,
                i < j <= n,
                forall|b: int| i < b < j ==> files.deep_view()[i as int].id
                    != files.deep_view()[b].id,
            decreases n - j,
        {
            assert(files.deep_view()[i as int] == files[i as int].deep_view());
            assert(files.deep_view()[j as int] == files[j as int].deep_view());
            if str_eq(files[i].id.as_str(), files[j].id.as_str()) {
                assert(files.deep_view()[i as int].id == files.deep_view()[j as int].id);
                return false;
            }
            j += 1;
        }
        i += 1;
    }
    true
}

/// If the first `k` sessions do not match, the find skips them.
proof fn lemma_find_session_skip(s: Seq<SessionV>, sid: Seq<char>, k: int)
    requires
        0 <= k <= s.len(),
        forall|j: int| 0 <= j < k ==> s[j].session_id != sid,
    ensures
        find_session(s, sid) == find_session(s.skip(k), sid),
    decreases k,
{
    if k > 0 {
        assert(s.skip(k) =~= s.drop_first().skip(k - 1));
        lemma_find_session_skip(s.drop_first(), sid, k - 1);
    } else {
        assert(s.skip(0) =~= s);
    }
}

/// A matching session at `i`, with no match before it, is the find.
pub proof fn lemma_find_session_at(s: Seq<SessionV>, sid: Seq<char>, i: int)
    requires
        0 <= i < s.len(),
        s[i].session_id == sid,
        forall|j: int| 0 <= j < i ==> s[j].session_id != sid,
    ensures
        find_session(s, sid) == Some(s[i]),
{
    lemma_find_session_skip(s, sid, i);
    assert(s.skip(i)[0] == s[i]);
}

/// With no matching session, the find is `None`.
pub proof fn lemma_find_session_none(s: Seq<SessionV>, sid: Seq<char>)
    requires
        forall|j: int| 0 <= j < s.len() ==> s[j].session_id != sid,
    ensures
        find_session(s, sid) is None,
{
    lemma_find_session_skip(s, sid, s.len() as int);
    assert(s.skip(s.len() as int) =~= Seq::<SessionV>::empty());
}

/// If the first `k` keys do not match, the find skips them.
proof fn lemma_find_value_skip(s: Seq<(Seq<char>, Seq<char>)>, k: Seq<char>, n: int)
    requires
        0 <= n <= s.len(),
        forall|j: int| 0 <= j < n ==> s[j].0 != k,
    ensures
        find_value(s, k) == find_value(s.skip(n), k),
    decreases n,
{
    if n > 0 {
        assert(s.skip(n) =~= s.drop_first().skip(n - 1));
        lemma_find_value_skip(s.drop_first(), k, n - 1);
    } else {
        assert(s.skip(0) =~= s);
    }
}

/// A matching key at `i`, with no match before it, gives that value.
pub proof fn lemma_find_value_at(s: Seq<(Seq<char>, Seq<char>)>, k: Seq<char>, i: int)
    requires
        0 <= i < s.len(),
        s[i].0 == k,
        forall|j: int| 0 <= j < i ==> s[j].0 != k,
    ensures
        find_value(s, k) == Some(s[i].1),
{
    lemma_find_value_skip(s, k, i);
    assert(s.skip(i)[0] == s[i]);
}

/// With no matching key, the find is `None`.
pub proof fn lemma_find_value_none(s: Seq<(Seq<char>, Seq<char>)>, k: Seq<char>)
    requires
        forall|j: int| 0 <= j < s.len() ==> s[j].0 != k,
    ensures
        find_value(s, k) is None,
{
    lemma_find_value_skip(s, k, s.len() as int);
    assert(s.skip(s.len() as int) =~= Seq::<(Seq<char>, Seq<char>)>::empty());
}

/// If the first `k` files do not match, the find skips them.
proof fn lemma_find_file_skip(fs: Seq<FileMetadataV>, fid: Seq<char>, k: int)
    requires
        0 <= k <= fs.len(),
        forall|j: int| 0 <= j < k ==> fs[j].id != fid,
    ensures
        find_file(fs, fid) == find_file(fs.skip(k), fid),
    decreases k,
{
    if k > 0 {
        assert(fs.skip(k) =~= fs.drop_first().skip(k - 1));
        lemma_find_file_skip(fs.drop_first(), fid, k - 1);
    } else {
        assert(fs.skip(0) =~= fs);
    }
}

/// A matching file at `i`, with no match before it, is the find.
pub proof fn lemma_find_file_at(fs: Seq<FileMetadataV>, fid: Seq<char>, i: int)
    requires
        0 <= i < fs.len(),
        fs[i].id == fid,
        forall|j: int| 0 <= j < i ==> fs[j].id != fid,
    ensures
        find_file(fs, fid) == Some(fs[i]),
{
    lemma_find_file_skip(fs, fid, i);
    assert(fs.skip(i)[0] == fs[i]);
}

/// Removing the first match at index `i` is removing index `i`.
proof fn lemma_remove_first_at(s: Seq<SessionV>, sid: Seq<char>, i: int)
    requires
        0 <= i < s.len(),
        s[i].session_id == sid,
        forall|j: int| 0 <= j < i ==> s[j].session_id != sid,
    ensures
        remove_first(s, sid) == s.remove(i),
    decreases i,
{
    if i == 0 {
        assert(s.remove(0) =~= s.drop_first());
    } else {
        lemma_remove_first_at(s.drop_first(), sid, i - 1);
        assert(remove_first(s, sid) == seq![s[0]] + remove_first(s.drop_first(), sid));
        assert(s.remove(i) =~= seq![s[0]] + s.drop_first().remove(i - 1));
    }
}

/// Removing an id that is absent changes nothing.
proof fn lemma_remove_first_absent(s: Seq<SessionV>, sid: Seq<char>)
    requires
        forall|j: int| 0 <= j < s.len() ==> s[j].session_id != sid,
    ensures
        remove_first(s, sid) == s,
    decreases s.len(),
{
    if s.len() > 0 {
        lemma_remove_first_absent(s.drop_first(), sid);
        assert(remove_first(s, sid) =~= seq![s[0]] + s.drop_first());
        assert(seq![s[0]] + s.drop_first() =~= s);
    } else {
        assert(remove_first(s, sid) =~= s);
    }
}

/// Every entry of the removal's result is an entry of `s`; uniqueness and
/// per-session well-formedness carry over, and no entry under `sid` is left
/// when ids were unique.
proof fn lemma_remove_first_frame(s: Seq<SessionV>, sid: Seq<char>)
    requires
        unique_session_ids(s),
        forall|i: int| 0 <= i < s.len() ==> session_wf(#[trigger] s[i]),
    ensures
        remove_first(s, sid).len() <= s.len(),
        unique_session_ids(remove_first(s, sid)),
        forall|i: int|
            0 <= i < remove_first(s, sid).len() ==> session_wf(#[trigger] remove_first(s, sid)[i]),
        forall|i: int| 0 <= i < remove_first(s, sid).len() ==> #[trigger] remove_first(
            s,
            sid,
        )[i].session_id != sid,
    decreases s.len(),
{
    if s.len() > 0 {
        if s[0].session_id == sid {
            assert(forall|j: int| 0 <= j < s.drop_first().len() ==> s.drop_first()[j] == s[j + 1]);
        } else {
            lemma_remove_first_frame(s.drop_first(), sid);
            let r = remove_first(s, sid);
            let r1 = remove_first(s.drop_first(), sid);
            assert(r == seq![s[0]] + r1);
            assert(r[0] == s[0]);
            assert(forall|j: int| 0 <= j < r1.len() ==> r[j + 1] == r1[j]);
            // An entry of the tail's removal came from the tail.
            lemma_remove_first_subset(s.drop_first(), sid);
        }
    }
}

/// Each entry of the removal's result occurs in `s`.
proof fn lemma_remove_first_subset(s: Seq<SessionV>, sid: Seq<char>)
    ensures
        forall|i: int| 0 <= i < remove_first(s, sid).len() ==> exists|j: int|
            0 <= j < s.len() && #[trigger] remove_first(s, sid)[i] == s[j],
    decreases s.len(),
{
    if s.len() > 0 {
        if s[0].session_id == sid {
            assert forall|i: int| 0 <= i < remove_first(s, sid).len() implies exists|j: int|
                0 <= j < s.len() && #[trigger] remove_first(s, sid)[i] == s[j] by {
                assert(remove_first(s, sid)[i] == s[i + 1]);
            }
        } else {
            lemma_remove_first_subset(s.drop_first(), sid);
            let r = remove_first(s, sid);
            let r1 = remove_first(s.drop_first(), sid);
            assert(r == seq![s[0]] + r1);
            assert forall|i: int| 0 <= i < r.len() implies exists|j: int|
                0 <= j < s.len() && #[trigger] r[i] == s[j] by {
                if i == 0 {
                    assert(r[0] == s[0]);
                } else {
                    assert(r[i] == r1[i - 1]);
                    let j1 = choose|j: int| 0 <= j < s.drop_first().len() && r1[i - 1]
                        == s.drop_first()[j];
                    assert(r[i] == s[j1 + 1]);
                }
            }
        }
    }
}

/// Cancelling the first match at index `i` is updating index `i`.
proof fn lemma_cancel_first_at(s: Seq<SessionV>, sid: Seq<char>, i: int)
    requires
        0 <= i < s.len(),
        s[i].session_id == sid,
        forall|j: int| 0 <= j < i ==> s[j].session_id != sid,
    ensures
        cancel_first(s, sid) == s.update(i, with_cancelled(s[i])),
    decreases i,
{
    if i == 0 {
        assert(cancel_first(s, sid) =~= s.update(0, with_cancelled(s[0])));
    } else {
        lemma_cancel_first_at(s.drop_first(), sid, i - 1);
        assert(cancel_first(s, sid) == seq![s[0]] + cancel_first(s.drop_first(), sid));
        assert(s.update(i, with_cancelled(s[i])) =~= seq![s[0]] + s.drop_first().update(
            i - 1,
            with_cancelled(s[i]),
        ));
    }
}

/// Cancelling a session is idempotent: after a successful cancel, the same
/// session is still found, its status is cancelled, and cancelling again
/// succeeds without changing anything.
pub proof fn lemma_cancel_idempotent(s: Seq<SessionV>, sid: Seq<char>)
    requires
        find_session(s, sid) is Some,
    ensures
        find_session(cancel_first(s, sid), sid) == Some(
            with_cancelled(find_session(s, sid).unwrap()),
        ),
        find_session(cancel_first(s, sid), sid).unwrap().status == SessionStatus::Cancelled,
        cancel_first(cancel_first(s, sid), sid) == cancel_first(s, sid),
    decreases s.len(),
{
    if s.len() > 0 {
        if s[0].session_id == sid {
            let c = cancel_first(s, sid);
            assert(c == seq![with_cancelled(s[0])] + s.drop_first());
            assert(c[0] == with_cancelled(s[0]));
            assert(c[0].session_id == sid);
            assert(find_session(c, sid) == Some(c[0]));
            assert(cancel_first(c, sid) =~= seq![with_cancelled(c[0])] + c.drop_first());
            assert(with_cancelled(c[0]) == c[0]);
            assert(seq![c[0]] + c.drop_first() =~= c);
        } else {
            lemma_cancel_idempotent(s.drop_first(), sid);
            let c = cancel_first(s, sid);
            let c1 = cancel_first(s.drop_first(), sid);
            assert(c == seq![s[0]] + c1);
            assert(c[0] == s[0]);
            assert(c.drop_first() =~= c1);
            assert(find_session(c, sid) == find_session(c1, sid));
            assert(cancel_first(c, sid) =~= seq![s[0]] + cancel_first(c1, sid));
        }
    }
}

} // verus!
