//! The request dispatcher: one pass from a request kind and target path to
//! exactly one response.
//!
//! The dispatcher extracts the final path segment as the candidate key
//! (rejecting paths with no extractable segment), performs the store
//! operation, and builds the outbound response: status, declared length,
//! and a body that is either fixed text or the chunk sequence of a stored
//! value.

use vstd::prelude::*;
use vstd::string::StrSliceExecFns;
use vstd::string::StringExecFns;
use vstd::utf8::encode_utf8;

use crate::cache::{Database, GetResult};
use crate::chunk::ChunkedReader;

verus! {

/// The closed set of request kinds the dispatcher understands. The
/// transport maps its verbs onto these; adding a kind is a compile-time
/// decision, matched exhaustively below.
pub enum RequestKind {
    /// Retrieve the value stored under the key.
    Fetch,
    /// Store the request body as the value under the key.
    Store,
    /// Remove the entry under the key.
    Remove,
    /// Any other verb.
    Unsupported,
}

/// The path with its trailing separators dropped.
pub open spec fn trim_separators(path: Seq<char>) -> Seq<char>
    decreases path.len(),
{
    if path.len() > 0 && path.last() == '/' {
        trim_separators(path.drop_last())
    } else {
        path
    }
}

/// The suffix after the last separator.
pub open spec fn last_segment(path: Seq<char>) -> Seq<char>
    decreases path.len(),
{
    if path.len() == 0 {
        Seq::empty()
    } else if path.last() == '/' {
        Seq::empty()
    } else {
        last_segment(path.drop_last()).push(path.last())
    }
}

/// The candidate key of a request path: its last non-empty segment, so a
/// path ending in separators still names the component before them, and a
/// path made of separators alone names nothing.
pub open spec fn key_of(path: Seq<char>) -> Seq<char> {
    last_segment(trim_separators(path))
}

proof fn lemma_last_segment_no_separator(path: Seq<char>)
    ensures
        forall|j: int| 0 <= j < last_segment(path).len() ==> last_segment(path)[j] != '/',
    decreases path.len(),
{
    if path.len() > 0 && path.last() != '/' {
        lemma_last_segment_no_separator(path.drop_last());
        let k = last_segment(path);
        let kp = last_segment(path.drop_last());
        assert(k == kp.push(path.last()));
        assert forall|j: int| 0 <= j < k.len() implies k[j] != '/' by {
            if j < k.len() - 1 {
                assert(k[j] == kp[j]);
            } else {
                assert(k[j] == path.last());
            }
        }
    }
}

/// A key never contains a path separator: the dispatcher strips every
/// directory component before a key reaches the store.
pub proof fn lemma_key_no_separator(path: Seq<char>)
    ensures
        forall|j: int| 0 <= j < key_of(path).len() ==> key_of(path)[j] != '/',
{
    lemma_last_segment_no_separator(trim_separators(path));
}

proof fn lemma_trim_take(path: Seq<char>, e: int)
    requires
        0 <= e <= path.len(),
        forall|j: int| e <= j < path.len() ==> path[j] == '/',
        e > 0 ==> path[e - 1] != '/',
    ensures
        trim_separators(path) == path.take(e),
    decreases path.len(),
{
    if path.len() == e {
        assert(trim_separators(path) =~= path.take(e));
    } else {
        lemma_trim_take(path.drop_last(), e);
        assert(path.drop_last().take(e) =~= path.take(e));
    }
}

proof fn lemma_last_segment_suffix(path: Seq<char>, i: int)
    requires
        0 <= i <= path.len(),
        forall|j: int| i <= j < path.len() ==> path[j] != '/',
        i > 0 ==> path[i - 1] == '/',
    ensures
        last_segment(path) == path.subrange(i, path.len() as int),
    decreases path.len(),
{
    if path.len() == i {
        assert(last_segment(path) =~= path.subrange(i, path.len() as int));
    } else {
        lemma_last_segment_suffix(path.drop_last(), i);
        assert(path.drop_last().subrange(i, path.len() - 1).push(path.last()) =~= path.subrange(
            i,
            path.len() as int,
        ));
    }
}

/// Extract the candidate key from a request path: its last non-empty
/// segment, or nothing when the path has no extractable segment.
pub fn extract_key(path: &str) -> (r: Option<String>)
    ensures
        r matches Some(k) ==> k@ == key_of(path@) && k@.len() > 0,
        r is None <==> key_of(path@).len() == 0,
{
    let n = path.unicode_len();
    let mut e = n;
    while e > 0 && path.get_char(e - 1) == '/'
        invariant
            e <= n,
            n == path@.len(),
            forall|j: int| e <= j < n ==> path@[j] == '/',
        decreases e,
    {
        e -= 1;
    }
    proof {
        lemma_trim_take(path@, e as int);
    }
    let mut i = e;
    while i > 0 && path.get_char(i - 1) != '/'
        invariant
            i <= e,
            e <= n,
            n == path@.len(),
            forall|j: int| i <= j < e ==> path@[j] != '/',
        decreases i,
    {
        i -= 1;
    }
    proof {
        lemma_last_segment_suffix(path@.take(e as int), i as int);
        assert(path@.take(e as int).subrange(i as int, e as int) =~= path@.subrange(
            i as int,
            e as int,
        ));
    }
    if i == e {
        None
    } else {
        let segment = path.substring_char(i, e);
        Some(String::from_str(segment))
    }
}

/// The confirmation body of a successful store.
pub open spec fn stored_body(k: Seq<char>) -> Seq<char> {
    "file successfully saved! "@ + k
}

/// The confirmation body of a successful removal.
pub open spec fn removed_body(k: Seq<char>) -> Seq<char> {
    "file successfully deleted! "@ + k
}

/// The one response a request produces. Exactly one is built per request;
/// the dispatcher never partially responds and then takes another branch.
pub enum CacheResponse {
    /// Success: the stored value, streamed as a chunk sequence with its
    /// exact total length declared up front.
    Payload(ChunkedReader),
    /// Success: short confirmation naming the stored key.
    Stored(String),
    /// Success: short confirmation naming the removed key.
    Removed(String),
    /// The key is absent, or the request kind is unsupported.
    NotFound(String),
    /// No key could be extracted from the request path.
    BadRequest,
    /// The engine failed the operation; its message is the body.
    EngineFailure(String),
}

/// The response's status code.
pub open spec fn spec_status(r: &CacheResponse) -> u16 {
    match r {
        CacheResponse::Payload(_) => 200,
        CacheResponse::Stored(_) => 200,
        CacheResponse::Removed(_) => 200,
        CacheResponse::NotFound(_) => 404,
        CacheResponse::BadRequest => 400,
        CacheResponse::EngineFailure(_) => 500,
    }
}

impl CacheResponse {
    /// The status code the transport sends: success is 200, a miss or an
    /// unsupported verb 404, an unusable path 400, an engine failure 500.
    pub fn status_code(&self) -> (c: u16)
        ensures
            c == spec_status(self),
    {
        match self {
            CacheResponse::Payload(_) => 200,
            CacheResponse::Stored(_) => 200,
            CacheResponse::Removed(_) => 200,
            CacheResponse::NotFound(_) => 404,
            CacheResponse::BadRequest => 400,
            CacheResponse::EngineFailure(_) => 500,
        }
    }

    /// The exact byte length a streamed response declares before its first
    /// chunk is emitted; nothing for the fixed text responses.
    pub fn declared_length(&self) -> (n: Option<usize>)
        ensures
            self matches CacheResponse::Payload(rd) ==> n == Some(rd.value@.len() as usize),
            !(self is Payload) ==> n is None,
    {
        match self {
            CacheResponse::Payload(rd) => Some(rd.total_len()),
            _ => None,
        }
    }
}

/// The fixed not-found response.
pub fn not_found() -> (r: CacheResponse)
    ensures
        r matches CacheResponse::NotFound(b) && b@ == "Not Found"@,
{
    CacheResponse::NotFound(String::from_str("Not Found"))
}

/// The retrieval response for a read outcome: a found value is streamed
/// from its start in chunks of at most `chunk_size` bytes; a miss is the
/// fixed not-found response; an engine failure is surfaced as the server
/// error carrying the engine's message.
pub fn fetch_response(outcome: GetResult, chunk_size: usize) -> (r: CacheResponse)
    requires
        chunk_size >= 1,
    ensures
        outcome matches GetResult::Found(v) ==> (r matches CacheResponse::Payload(rd)
            && rd.value@ == v@ && rd.offset == 0 && rd.chunk_size == chunk_size),
        outcome is NotFound ==> (r matches CacheResponse::NotFound(b) && b@ == "Not Found"@),
        outcome matches GetResult::EngineError(e) ==> (r matches CacheResponse::EngineFailure(m)
            && m@ == e.message@),
{
    match outcome {
        GetResult::Found(v) => CacheResponse::Payload(ChunkedReader::new(v, chunk_size)),
        GetResult::NotFound => not_found(),
        GetResult::EngineError(e) => CacheResponse::EngineFailure(e.message),
    }
}

/// Retrieval: read the value stored under the file name and build the
/// response that streams it, with its exact length declared; a miss gets
/// the fixed not-found body.
pub fn get_file_from_cache(db: &Database, filename: &str, chunk_size: usize) -> (r: CacheResponse)
    requires
        chunk_size >= 1,
    ensures
        db@.contains_key(encode_utf8(filename@)) ==> (r matches CacheResponse::Payload(rd)
            && rd.value@ == db@[encode_utf8(filename@)] && rd.offset == 0 && rd.chunk_size
            == chunk_size),
        !db@.contains_key(encode_utf8(filename@)) ==> (r matches CacheResponse::NotFound(b)
            && b@ == "Not Found"@),
{
    let kb = filename.as_bytes_vec();
    fetch_response(db.get(&kb), chunk_size)
}

/// Store: associate the file name with the request body, then
/// confirm, naming the key.
pub fn save_to_cache(db: &mut Database, filename: &str, value: &Vec<u8>) -> (r: CacheResponse)
    ensures
        final(db)@ == old(db)@.insert(encode_utf8(filename@), value@),
        r matches CacheResponse::Stored(b) && b@ == stored_body(filename@),
{
    let kb = filename.as_bytes_vec();
    match db.put(&kb, value) {
        Ok(()) => {
            let mut message = String::from_str("file successfully saved! ");
            message.append(filename);
            CacheResponse::Stored(message)
        },
        Err(e) => CacheResponse::EngineFailure(e.message),
    }
}

/// Removal: drop the entry under the file name, then confirm, naming the
/// key; removing an absent key confirms all the same.
pub fn delete_from_cache(db: &mut Database, filename: &str) -> (r: CacheResponse)
    ensures
        final(db)@ == old(db)@.remove(encode_utf8(filename@)),
        r matches CacheResponse::Removed(b) && b@ == removed_body(filename@),
{
    let kb = filename.as_bytes_vec();
    match Database::delete(db, &kb) {
        Ok(()) => {
            let mut message = String::from_str("file successfully deleted! ");
            message.append(filename);
            CacheResponse::Removed(message)
        },
        Err(e) => CacheResponse::EngineFailure(e.message),
    }
}

/// One request, one response. The key is the final segment of the path;
/// a path without one is rejected. A fetch leaves the store as it is and
/// streams the value or misses; a store writes the body under the key; a
/// removal drops the key; any other kind is answered not-found.
pub fn handle_request(
    db: &mut Database,
    kind: RequestKind,
    path: &str,
    body: &Vec<u8>,
    chunk_size: usize,
) -> (r: CacheResponse)
    requires
        chunk_size >= 1,
    ensures
        kind is Unsupported ==> final(db)@ == old(db)@ && (r matches CacheResponse::NotFound(b)
            && b@ == "Not Found"@),
        !(kind is Unsupported) && key_of(path@).len() == 0 ==> final(db)@ == old(db)@
            && r is BadRequest,
        kind is Fetch && key_of(path@).len() > 0 ==> {
            &&& final(db)@ == old(db)@
            &&& old(db)@.contains_key(encode_utf8(key_of(path@))) ==> (r matches
                CacheResponse::Payload(rd) && rd.value@ == old(db)@[encode_utf8(key_of(path@))]
                && rd.offset == 0 && rd.chunk_size == chunk_size)
            &&& !old(db)@.contains_key(encode_utf8(key_of(path@))) ==> (r matches
                CacheResponse::NotFound(b) && b@ == "Not Found"@)
        },
        kind is Store && key_of(path@).len() > 0 ==> {
            &&& final(db)@ == old(db)@.insert(encode_utf8(key_of(path@)), body@)
            &&& (r matches CacheResponse::Stored(b) && b@ == stored_body(key_of(path@)))
        },
        kind is Remove && key_of(path@).len() > 0 ==> {
            &&& final(db)@ == old(db)@.remove(encode_utf8(key_of(path@)))
            &&& (r matches CacheResponse::Removed(b) && b@ == removed_body(key_of(path@)))
        },
{
    match kind {
        RequestKind::Unsupported => not_found(),
        RequestKind::Fetch => match extract_key(path) {
            None => CacheResponse::BadRequest,
            Some(key) => get_file_from_cache(db, key.as_str(), chunk_size),
        },
        RequestKind::Store => match extract_key(path) {
            None => CacheResponse::BadRequest,
            Some(key) => save_to_cache(db, key.as_str(), body),
        },
        RequestKind::Remove => match extract_key(path) {
            None => CacheResponse::BadRequest,
            Some(key) => delete_from_cache(db, key.as_str()),
        },
    }
}

} // verus!
