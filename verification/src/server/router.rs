//! Turns requests into storage operations and their results into responses.

use crate::protocol::error::error_message;
use crate::protocol::{
    DeleteRequest, Error, GetRequest, Request, RequestView, Response, ResponseCode, SetRequest,
};
use crate::storage::clock::now_nanos;
use crate::storage::model::{expiry_fits, Row};
use crate::storage::{
    delete_effect, get_outcome, put_effect, read_effect, swept,
    MaxMemoryStrategy, Storage, StorageError,
};
use vstd::prelude::*;
use vstd::string::StrSliceExecFns;
use vstd::utf8::encode_utf8;

verus! {

/// A response as plain values.
pub type Reply = (ResponseCode, Seq<u8>);

/// A handling result as plain values.
pub open spec fn reply_view(r: Result<Response, Error>) -> Result<Reply, Error> {
    match r {
        Ok(resp) => Ok((resp.code, resp.value@)),
        Err(e) => Err(e),
    }
}

/// Handling `request` at clock reading `now` took the storage from `before`
/// to `after` and gave `r`.
pub open spec fn handled(
    before: Storage,
    after: Storage,
    request: RequestView,
    r: Result<Reply, Error>,
    now: i128,
) -> bool {
    &&& after.wf()
    &&& after.capacity() == before.capacity()
    &&& after.engine().kind() == before.engine().kind()
    &&& match request {
        RequestView::Get { key } => {
            &&& read_effect(before, after, key, now)
            &&& r == match get_outcome(before.rows(), key, now) {
                Ok(v) => Ok::<Reply, Error>((ResponseCode::Success, v)),
                Err(e) => Err(Error::IO(e)),
            }
        },
        RequestView::Put { key, value, ttl } => if value.len() > before.capacity() {
            &&& r == Err::<Reply, Error>(Error::IO(StorageError::OutOfMemory))
            &&& after == before
        } else {
            &&& r == Ok::<Reply, Error>((ResponseCode::Success, Seq::empty()))
            &&& put_effect(before, after, key, value, ttl, now)
        },
        RequestView::Delete { key } => {
            &&& r == Ok::<Reply, Error>((ResponseCode::Success, Seq::empty()))
            &&& delete_effect(before, after, key)
        },
    }
}

/// The response sent for a handling result: the result itself, or a failure
/// carrying the error's message in UTF-8.
pub open spec fn reply_for(r: Result<Reply, Error>) -> Reply {
    match r {
        Ok(reply) => reply,
        Err(e) => (ResponseCode::Fail, encode_utf8(error_message(e))),
    }
}

/// The storage can count the bytes of `request`'s value.
pub open spec fn countable(storage: Storage, request: RequestView) -> bool {
    match request {
        RequestView::Put { value, .. } => storage.used() + value.len() <= usize::MAX,
        _ => true,
    }
}

/// A store that `request` asks for at clock reading `now` makes a page whose
/// expiry time the clock's integer type can hold.
pub open spec fn storable_at(request: RequestView, now: i128) -> bool {
    match request {
        RequestView::Put { ttl, .. } => expiry_fits(ttl, now),
        _ => true,
    }
}

/// Serves requests from one storage.
pub struct RequestRouter {
    storage: Storage,
}

impl RequestRouter {
    /// The storage behind the router.
    pub closed spec fn storage(&self) -> Storage {
        self.storage
    }

    /// A router over an empty storage of `storage_size` bytes run by
    /// `max_memory_strategy`.
    pub fn new(storage_size: usize, max_memory_strategy: MaxMemoryStrategy) -> (r: RequestRouter)
        ensures
            r.storage().wf(),
            r.storage().rows() == Seq::<Row>::empty(),
            r.storage().capacity() == storage_size,
            r.storage().used() == 0,
            r.storage().engine().kind() == max_memory_strategy,
    {
        RequestRouter { storage: Storage::new(storage_size, max_memory_strategy) }
    }

    /// Whether the storage can count the bytes of `request`'s value, which
    /// `handle` needs.
    pub fn can_count(&self, request: &Request) -> (b: bool)
        ensures
            b == countable(self.storage(), request@),
    {
        match request {
            Request::Put(s) => s.value.len() <= usize::MAX - self.storage.allocated(),
            _ => true,
        }
    }

    /// Handles `request` at clock reading `now`.
    pub fn handle_at(&mut self, request: Request, now: i128) -> (r: Result<Response, Error>)
        requires
            old(self).storage().wf(),
            countable(old(self).storage(), request@),
            storable_at(request@, now),
        ensures
            handled(old(self).storage(), final(self).storage(), request@, reply_view(r), now),
    {
        match request {
            Request::Get(request) => self.get(request, now),
            Request::Put(request) => self.set(request, now),
            Request::Delete(request) => self.delete(request, now),
        }
    }

    /// Handles `request` by the clock's current reading.
    pub fn handle(&mut self, request: Request) -> (r: Result<Response, Error>)
        requires
            old(self).storage().wf(),
            countable(old(self).storage(), request@),
        ensures
            exists|now: i128|
                #[trigger] handled(
                    old(self).storage(),
                    final(self).storage(),
                    request@,
                    reply_view(r),
                    now,
                ),
    {
        let now = now_nanos();
        self.handle_at(request, now)
    }

    /// Handles `request` and always answers: a failure becomes a response
    /// with the failure code and the error's message.
    pub fn answer(&mut self, request: Request) -> (resp: Response)
        requires
            old(self).storage().wf(),
            countable(old(self).storage(), request@),
        ensures
            exists|now: i128, out: Result<Reply, Error>|
                #[trigger] handled(old(self).storage(), final(self).storage(), request@, out, now)
                    && reply_for(out) == (resp.code, resp.value@),
    {
        let now = now_nanos();
        let r = self.handle_at(request, now);
        let ghost out = reply_view(r);
        let resp = match r {
            Ok(response) => response,
            Err(error) => {
                let message = error.to_string();
                Response { code: ResponseCode::Fail, value: message.as_str().as_bytes_vec() }
            },
        };
        assert(handled(old(self).storage(), self.storage(), request@, out, now));
        resp
    }

    /// Sweeps expired pages out of the storage, as `Storage::sweep`.
    pub fn sweep(&mut self)
        requires
            old(self).storage().wf(),
        ensures
            final(self).storage().wf(),
            final(self).storage().contents().submap_of(old(self).storage().contents()),
            final(self).storage().capacity() == old(self).storage().capacity(),
            final(self).storage().engine().kind() == old(self).storage().engine().kind(),
            exists|now: i128| #[trigger] swept(old(self).storage(), final(self).storage(), now),
    {
        self.storage.sweep();
    }

    fn get(&mut self, req: GetRequest, now: i128) -> (r: Result<Response, Error>)
        requires
            old(self).storage().wf(),
        ensures
            handled(
                old(self).storage(),
                final(self).storage(),
                RequestView::Get { key: req.key@ },
                reply_view(r),
                now,
            ),
    {
        match self.storage.get_at(&req.key, now) {
            Ok(value) => Ok(Response::success(value)),
            Err(e) => Err(Error::IO(e)),
        }
    }

    fn set(&mut self, req: SetRequest, now: i128) -> (r: Result<Response, Error>)
        requires
            old(self).storage().wf(),
            old(self).storage().used() + req.value@.len() <= usize::MAX,
            expiry_fits(req.ttl, now),
        ensures
            handled(
                old(self).storage(),
                final(self).storage(),
                RequestView::Put { key: req.key@, value: req.value@, ttl: req.ttl },
                reply_view(r),
                now,
            ),
    {
        let ghost key = req.key@;
        let ghost value = req.value@;
        match self.storage.put_at(req.key, req.value, req.ttl, now) {
            Ok(()) => {
                let r = Ok(Response::success(Vec::new()));
                assert(reply_view(r) == Ok::<Reply, Error>((ResponseCode::Success, Seq::empty())));
                r
            },
            Err(e) => Err(Error::IO(e)),
        }
    }

    fn delete(&mut self, req: DeleteRequest, now: i128) -> (r: Result<Response, Error>)
        requires
            old(self).storage().wf(),
        ensures
            handled(
                old(self).storage(),
                final(self).storage(),
                RequestView::Delete { key: req.key@ },
                reply_view(r),
                now,
            ),
    {
        match self.storage.del(&req.key) {
            Ok(()) => {
                let r = Ok(Response::success(Vec::new()));
                assert(reply_view(r) == Ok::<Reply, Error>((ResponseCode::Success, Seq::empty())));
                r
            },
            Err(e) => Err(Error::IO(e)),
        }
    }
}

} // verus!
