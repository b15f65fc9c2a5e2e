//! The `mev_` API over a bundle pool.
use jsonrpsee_types::{ErrorObject, ErrorObjectOwned};
use std::sync::Arc;
use vstd::prelude::*;
use vstd::string::*;

use crate::bundle::{body_encoding, keccak256_digest, PoolBundle, SendBundleRequest, B256};
use crate::pending::LatestBlock;
use crate::share::BundleIntake;

verus! {

/// `jsonrpsee_types::ErrorObject`: a code, a message and optional data. Opaque.
#[verifier::external_type_specification]
#[verifier::external_body]
pub struct ExErrorObject<'a>(ErrorObject<'a>);

/// The answer to a bundle that was taken.
#[derive(Clone, Copy, Debug, PartialEq, Eq)]
pub struct SendBundleResponse {
    /// The hash of the bundle's body.
    pub bundle_hash: B256,
}

/// Errors of the `mev_` API.
#[derive(Debug)]
pub enum MevError {
    /// Thrown if the bundle body has no entries.
    EmptyBundleBody,
    /// Inserting the bundle into the pool failed.
    InsertionError(String),
}

/// The error object that `ErrorObject::owned` makes of a code and a message, without data.
pub uninterp spec fn error_object(code: i32, message: Seq<char>) -> ErrorObjectOwned;

/// Calls `jsonrpsee_types::ErrorObject::owned` without data.
///
/// Claims that the object depends on nothing but the code and the message.
#[verifier::external_body]
fn owned_error(code: i32, message: String) -> (object: ErrorObjectOwned)
    ensures
        object == error_object(code, message@),
{
    ErrorObject::owned(code, message, None::<()>)
}

/// Reads `jsonrpsee_types::error::INVALID_PARAMS_CODE`, which is -32602.
#[verifier::external_body]
fn invalid_params_code() -> (code: i32)
    ensures
        code == -32602,
{
    jsonrpsee_types::error::INVALID_PARAMS_CODE
}

impl MevError {
    /// The JSON-RPC code of the error.
    pub open spec fn spec_code(self) -> i32 {
        -32602i32
    }

    /// The text of the error.
    pub open spec fn spec_message(self) -> Seq<char> {
        match self {
            MevError::EmptyBundleBody => "Bundle body must not be empty"@,
            MevError::InsertionError(reason) => "Failed to insert bundle into pool: "@ + reason@,
        }
    }

    /// The JSON-RPC code of the error: that of invalid parameters.
    pub fn code(&self) -> (code: i32)
        ensures
            code == self.spec_code(),
    {
        invalid_params_code()
    }

    /// The text of the error.
    pub fn message(&self) -> (message: String)
        ensures
            message@ == self.spec_message(),
    {
        match self {
            MevError::EmptyBundleBody => "Bundle body must not be empty".to_owned(),
            MevError::InsertionError(reason) => {
                let mut message = "Failed to insert bundle into pool: ".to_owned();
                message.append(reason.as_str());
                message
            },
        }
    }
}

impl From<MevError> for ErrorObjectOwned {
    fn from(err: MevError) -> (object: Self) {
        owned_error(err.code(), err.message())
    }
}

impl vstd::std_specs::convert::FromSpecImpl<MevError> for ErrorObjectOwned {
    open spec fn obeys_from_spec() -> bool {
        true
    }

    open spec fn from_spec(err: MevError) -> Self {
        error_object(err.spec_code(), err.spec_message())
    }
}

/// Whether `reply` is the answer to a sender whose bundle has the hash `bundle_hash`, once the
/// pool was offered the bundle and gave `answer`.
pub open spec fn replies(
    reply: Result<SendBundleResponse, MevError>,
    bundle_hash: Seq<u8>,
    answer: Result<(), String>,
) -> bool {
    match answer {
        Ok(()) => reply is Ok && reply->Ok_0.bundle_hash@ == bundle_hash,
        Err(reason) => reply == Err::<SendBundleResponse, MevError>(
            MevError::InsertionError(reason),
        ),
    }
}

/// Turns the pool's answer into the reply to the sender.
pub fn reply_to(bundle_hash: B256, answer: Result<(), String>) -> (reply: Result<
    SendBundleResponse,
    MevError,
>)
    ensures
        replies(reply, bundle_hash@, answer),
{
    match answer {
        Ok(()) => Ok(SendBundleResponse { bundle_hash }),
        Err(reason) => Err(MevError::InsertionError(reason)),
    }
}

/// The reply that can be given to a sender before the chain is looked at, once the pool gave
/// `answer` on the room for the bundle: an error, or none if the chain has to be read.
pub open spec fn early_reply(answer: Result<(), String>) -> Result<(), MevError> {
    match answer {
        Ok(()) => Ok(()),
        Err(reason) => Err(MevError::InsertionError(reason)),
    }
}

/// Turns the pool's answer on the room for a bundle into what the sender is told, if anything.
pub fn early_reply_to(answer: Result<(), String>) -> (reply: Result<(), MevError>)
    ensures
        reply == early_reply(answer),
{
    match answer {
        Ok(()) => Ok(()),
        Err(reason) => Err(MevError::InsertionError(reason)),
    }
}

/// The `mev_` API: receives MEV Share bundles. Clones share the pool.
pub struct MevApi<Pool> {
    pool: Arc<Pool>,
}

impl<Pool> MevApi<Pool> {
    /// The pool that the API works with.
    pub closed spec fn pool(self) -> Pool {
        *self.pool
    }

    /// Creates the API over `pool`.
    pub fn new(pool: Pool) -> (api: Self)
        ensures
            api.pool() == pool,
    {
        Self { pool: Arc::new(pool) }
    }
}

impl<Pool> MevApi<Pool> where Pool: BundleIntake<Offered = SendBundleRequest> {
    /// Decides whether the chain has to be read for `bundle`: `Ok` if so, and otherwise the error
    /// that the sender is told at once.
    pub fn check_bundle(&self, bundle: &SendBundleRequest) -> (reply: Result<(), MevError>)
        ensures
            bundle.bundle_body@.len() == 0 ==> reply == Err::<(), MevError>(
                MevError::EmptyBundleBody,
            ),
            bundle.bundle_body@.len() > 0 ==> exists|answer: Result<(), String>|
                {
                    &&& #[trigger] self.pool().may_answer_room(*bundle, answer)
                    &&& reply == early_reply(answer)
                },
    {
        if bundle.bundle_body.is_empty() {
            return Err(MevError::EmptyBundleBody);
        }
        let answer = self.pool.ask_room(bundle);
        assert(self.pool().may_answer_room(*bundle, answer));
        early_reply_to(answer)
    }

    /// Accepts a bundle and attempts to insert it into the bundle pool.
    ///
    /// A bundle with an empty body is turned away before the pool is offered it. Further validation
    /// is performed by the pool, which is offered the bundle once: all that the API can do to a pool
    /// is hand a bundle over.
    pub fn send_bundle(&self, bundle: SendBundleRequest, latest: LatestBlock) -> (reply: Result<
        SendBundleResponse,
        MevError,
    >)
        ensures
            bundle.bundle_body@.len() == 0 ==> reply == Err::<SendBundleResponse, MevError>(
                MevError::EmptyBundleBody,
            ),
            bundle.bundle_body@.len() > 0 ==> exists|answer: Result<(), String>|
                {
                    &&& #[trigger] self.pool().may_answer(bundle, latest, answer)
                    &&& replies(reply, bundle.body_hash(), answer)
                    &&& match reply {
                        Ok(response) => {
                            &&& answer is Ok
                            &&& response.bundle_hash@ == keccak256_digest(
                                body_encoding(bundle.bundle_body@),
                            )
                        },
                        Err(err) => {
                            &&& answer is Err
                            &&& err == MevError::InsertionError(answer->Err_0)
                        },
                    }
                },
    {
        if bundle.bundle_body.is_empty() {
            return Err(MevError::EmptyBundleBody);
        }
        let bundle_hash = bundle.hash();
        let answer = self.pool.offer(bundle, latest);
        assert(self.pool().may_answer(bundle, latest, answer));
        reply_to(bundle_hash, answer)
    }
}

impl<Pool> Clone for MevApi<Pool> {
    fn clone(&self) -> (api: Self)
        ensures
            api == *self,
            api.pool() == self.pool(),
    {
        Self { pool: Arc::clone(&self.pool) }
    }
}

} // verus!
