use vstd::prelude::*;

verus! {

#[verifier::external_type_specification]
#[verifier::external_body]
pub struct ExS3Client(aws_sdk_s3::Client);

#[verifier::external_type_specification]
#[verifier::external_body]
pub struct ExS3Error(aws_sdk_s3::Error);

#[verifier::external_type_specification]
#[verifier::external_body]
pub struct ExByteStreamError(aws_sdk_s3::primitives::ByteStreamError);

/// Failure of an object-store call.
#[derive(Debug)]
pub enum ObjectStoreError {
    /// The request itself failed.
    S3(aws_sdk_s3::Error),
    /// The request succeeded but its body could not be read.
    Body(aws_sdk_s3::primitives::ByteStreamError),
}

/// What a fetch came to: the request failed, or it succeeded and collecting its body
/// failed or produced these bytes.
#[derive(Debug)]
pub enum GetOutcome {
    RequestFailed(aws_sdk_s3::Error),
    BodyFailed(aws_sdk_s3::primitives::ByteStreamError),
    Collected(Vec<u8>),
}

/// Handle on the object store that holds externally stored payloads. Only `get` and `put`
/// are offered; the network calls themselves are made by the host.
pub struct S3Impl {
    inner: aws_sdk_s3::Client,
}

impl S3Impl {
    /// The client this handle sends its requests through.
    pub closed spec fn client_spec(&self) -> aws_sdk_s3::Client {
        self.inner
    }

    pub fn new(inner: aws_sdk_s3::Client) -> (r: S3Impl)
        ensures
            r.client_spec() == inner,
    {
        S3Impl { inner }
    }

    pub fn client(&self) -> (r: &aws_sdk_s3::Client)
        ensures
            *r == self.client_spec(),
    {
        &self.inner
    }

    /// The result of `get`: the collected bytes, or the failure of the request or of its
    /// body. A missing object is a request failure like any other: a key that the job
    /// table refers to implies an earlier successful `put`.
    pub fn finish_get(outcome: GetOutcome) -> (r: Result<Vec<u8>, ObjectStoreError>)
        ensures
            match outcome {
                GetOutcome::RequestFailed(e) => r == Err::<Vec<u8>, ObjectStoreError>(ObjectStoreError::S3(e)),
                GetOutcome::BodyFailed(e) => r == Err::<Vec<u8>, ObjectStoreError>(ObjectStoreError::Body(e)),
                GetOutcome::Collected(b) => r == Ok::<Vec<u8>, ObjectStoreError>(b),
            },
    {
        match outcome {
            GetOutcome::RequestFailed(e) => Err(ObjectStoreError::S3(e)),
            GetOutcome::BodyFailed(e) => Err(ObjectStoreError::Body(e)),
            GetOutcome::Collected(b) => Ok(b),
        }
    }

    /// The result of `put`: success once the request succeeded, whatever it returned.
    pub fn finish_put(sent: Result<(), aws_sdk_s3::Error>) -> (r: Result<(), ObjectStoreError>)
        ensures
            match sent {
                Ok(_) => r == Ok::<(), ObjectStoreError>(()),
                Err(e) => r == Err::<(), ObjectStoreError>(ObjectStoreError::S3(e)),
            },
    {
        match sent {
            Ok(_) => Ok(()),
            Err(e) => Err(ObjectStoreError::S3(e)),
        }
    }
}

} // verus!
