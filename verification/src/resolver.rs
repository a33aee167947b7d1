//! The two-source artifact resolver as a sequence of decisions: the local
//! file first, the remote endpoint only where the local file could not be
//! read, one attempt at each. The caller reads and fetches; this module says
//! what to try and how the resolution ends.

use vstd::prelude::*;
use vstd::string::StringExecFns;
use crate::artifact::{ArtifactView, NpyData};
use crate::codec::{decode, decoding, CodecError};

verus! {

/// The path of the local file of the artifact `name`: `{name}.npy`.
pub open spec fn local_path(name: Seq<char>) -> Seq<char> {
    name + ".npy"@
}

/// The address of the artifact `name` at the endpoint `base`:
/// `{base}/simulations/{name}/npy`.
pub open spec fn remote_url(base: Seq<char>, name: Seq<char>) -> Seq<char> {
    base + "/simulations/"@ + name + "/npy"@
}

/// A response status that counts as success: 200 up to 299.
pub open spec fn is_success(status: u16) -> bool {
    200 <= status <= 299
}

/// Why the remote endpoint gave no bytes.
#[derive(Clone, Debug, PartialEq, Eq)]
pub enum RemoteFailure {
    /// The endpoint answered with a status that is no success.
    Status(u16),
    /// No answer came; the text is the caller's description.
    Transport(String),
}

/// Both sources failed.
#[derive(Clone, Debug, PartialEq, Eq)]
pub struct ResolveError {
    /// Why the local file could not be read.
    pub local: String,
    /// Why the remote endpoint gave no bytes.
    pub remote: RemoteFailure,
}

/// What the caller reports.
#[derive(Clone, Debug, PartialEq, Eq)]
pub enum Response {
    /// The bytes of the local file.
    LocalRead(Vec<u8>),
    /// The local file could not be read.
    LocalFailed(String),
    /// The endpoint answered.
    RemoteAnswered { status: u16, body: Vec<u8> },
    /// The endpoint could not be reached, or its answer not read.
    RemoteFailed(String),
}

/// What the caller is to do next.
#[derive(Debug, PartialEq, Eq)]
pub enum Request {
    /// Read the file at this path.
    ReadLocal(String),
    /// Send one GET request to this address.
    FetchRemote(String),
    /// The resolution is over.
    Done(Result<Vec<u8>, ResolveError>),
    /// The response was not acted on; the resolution stands where it stood.
    Rejected,
}

/// Where a resolution stands.
#[derive(Debug, PartialEq, Eq)]
pub enum Resolver {
    /// The local read is awaited; the address is kept for the fallback.
    Local { remote: String },
    /// The remote fetch is awaited; the local failure is kept for the error.
    Remote { local_error: String },
    /// The resolution is over.
    Done,
}

/// The step that follows `response` in state `state`.
pub open spec fn next_request(state: Resolver, response: Response) -> (Resolver, Request) {
    match (state, response) {
        (Resolver::Local { remote }, Response::LocalRead(bytes)) => (
            Resolver::Done,
            Request::Done(Ok(bytes)),
        ),
        (Resolver::Local { remote }, Response::LocalFailed(local_error)) => (
            Resolver::Remote { local_error },
            Request::FetchRemote(remote),
        ),
        (Resolver::Remote { local_error }, Response::RemoteAnswered { status, body }) => (
            Resolver::Done,
            if is_success(status) {
                Request::Done(Ok(body))
            } else {
                Request::Done(
                    Err(ResolveError { local: local_error, remote: RemoteFailure::Status(status) }),
                )
            },
        ),
        (Resolver::Remote { local_error }, Response::RemoteFailed(detail)) => (
            Resolver::Done,
            Request::Done(
                Err(ResolveError { local: local_error, remote: RemoteFailure::Transport(detail) }),
            ),
        ),
        _ => (state, Request::Rejected),
    }
}

impl Resolver {
    /// Starts the resolution of the artifact `name` with the remote endpoint
    /// `base`: the local file is to be read first.
    pub fn start(name: &str, base: &str) -> (r: (Resolver, Request))
        ensures
            r.0 matches Resolver::Local { remote } && remote@ == remote_url(base@, name@),
            r.1 matches Request::ReadLocal(path) && path@ == local_path(name@),
    {
        let mut path = String::from_str(name);
        path.append(".npy");
        let mut remote = String::from_str(base);
        remote.append("/simulations/");
        remote.append(name);
        remote.append("/npy");
        (Resolver::Local { remote }, Request::ReadLocal(path))
    }

    /// Takes the outcome of the attempt that the last request asked for and
    /// says what comes next.
    pub fn advance(self, response: Response) -> (r: (Resolver, Request))
        ensures
            r == next_request(self, response),
    {
        match (self, response) {
            (Resolver::Local { remote }, Response::LocalRead(bytes)) => (
                Resolver::Done,
                Request::Done(Ok(bytes)),
            ),
            (Resolver::Local { remote }, Response::LocalFailed(local_error)) => (
                Resolver::Remote { local_error },
                Request::FetchRemote(remote),
            ),
            (Resolver::Remote { local_error }, Response::RemoteAnswered { status, body }) => {
                if 200 <= status && status <= 299 {
                    (Resolver::Done, Request::Done(Ok(body)))
                } else {
                    (
                        Resolver::Done,
                        Request::Done(
                            Err(
                                ResolveError {
                                    local: local_error,
                                    remote: RemoteFailure::Status(status),
                                },
                            ),
                        ),
                    )
                }
            },
            (Resolver::Remote { local_error }, Response::RemoteFailed(detail)) => (
                Resolver::Done,
                Request::Done(
                    Err(
                        ResolveError {
                            local: local_error,
                            remote: RemoteFailure::Transport(detail),
                        },
                    ),
                ),
            ),
            (state, _) => (state, Request::Rejected),
        }
    }
}

/// Why an artifact could not be loaded.
#[derive(Clone, Debug, PartialEq, Eq)]
pub enum LoadError {
    /// Neither source gave its bytes.
    Resolve(ResolveError),
    /// The bytes are no array file.
    Codec(CodecError),
}

/// What the outcome of a resolution denotes.
pub open spec fn loading(resolved: Result<Vec<u8>, ResolveError>) -> Result<
    ArtifactView,
    LoadError,
> {
    match resolved {
        Ok(bytes) => match decoding(bytes@) {
            Ok(artifact) => Ok(artifact),
            Err(e) => Err(LoadError::Codec(e)),
        },
        Err(e) => Err(LoadError::Resolve(e)),
    }
}

/// The artifact that a resolution ends with: the bytes are decoded, and a
/// failure of the resolution or of the decoding is passed on as it is.
pub fn load_npy(resolved: Result<Vec<u8>, ResolveError>) -> (r: Result<NpyData, LoadError>)
    ensures
        match loading(resolved) {
            Ok(a) => r matches Ok(artifact) && artifact@ == a,
            Err(e) => r matches Err(found) && found == e,
        },
{
    match resolved {
        Ok(bytes) => match decode(bytes.as_slice()) {
            Ok(artifact) => Ok(artifact),
            Err(e) => Err(LoadError::Codec(e)),
        },
        Err(e) => Err(LoadError::Resolve(e)),
    }
}

/// The local file has precedence: where it was read, its bytes are the
/// result and the remote endpoint is not asked.
pub proof fn lemma_local_first(remote: String, bytes: Vec<u8>)
    ensures
        next_request(Resolver::Local { remote }, Response::LocalRead(bytes)) == (
            Resolver::Done,
            Request::Done(Ok(bytes)),
        ),
{
}

/// Where the local file could not be read, the remote endpoint is asked
/// once, and a successful answer gives the result.
pub proof fn lemma_remote_fallback(remote: String, local_error: String, status: u16, body: Vec<u8>)
    requires
        is_success(status),
    ensures
        ({
            let first = next_request(
                Resolver::Local { remote },
                Response::LocalFailed(local_error),
            );
            &&& first.1 == Request::FetchRemote(remote)
            &&& next_request(first.0, Response::RemoteAnswered { status, body }) == (
                Resolver::Done,
                Request::Done(Ok(body)),
            )
        }),
{
}

/// Where both sources fail, the error names both causes, and no further
/// attempt is made.
pub proof fn lemma_total_failure(
    remote: String,
    local_error: String,
    status: u16,
    body: Vec<u8>,
    detail: String,
)
    requires
        !is_success(status),
    ensures
        ({
            let first = next_request(
                Resolver::Local { remote },
                Response::LocalFailed(local_error),
            );
            &&& next_request(first.0, Response::RemoteAnswered { status, body }) == (
                Resolver::Done,
                Request::Done(
                    Err(ResolveError { local: local_error, remote: RemoteFailure::Status(status) }),
                ),
            )
            &&& next_request(first.0, Response::RemoteFailed(detail)) == (
                Resolver::Done,
                Request::Done(
                    Err(
                        ResolveError {
                            local: local_error,
                            remote: RemoteFailure::Transport(detail),
                        },
                    ),
                ),
            )
        }),
{
}

/// One attempt at each source: the local file is not read a second time,
/// and the remote endpoint is asked only once, right after the local read
/// has failed.
pub proof fn lemma_single_attempt(state: Resolver, response: Response)
    ensures
        !(next_request(state, response).1 is ReadLocal),
        next_request(state, response).1 is FetchRemote <==> state is Local && response
            is LocalFailed,
        next_request(state, response).1 is Done ==> next_request(state, response).0
            == Resolver::Done,
{
}

} // verus!
