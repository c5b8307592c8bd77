//! What a data source needs from its environment.
//!
//! The address and the key of the vector index and the bucket of the blob
//! archive come from environment variables. The caller reads them; whether
//! what it found is enough is decided here.

use crate::error::Error;
use vstd::prelude::*;

verus! {

/// A setting that is read from the environment.
#[derive(Clone, Copy, Debug, PartialEq, Eq, Structural)]
pub enum Setting {
    /// The address of the vector index.
    VectorDbUrl,
    /// The key that the vector index asks for.
    VectorDbApiKey,
    /// The bucket of the blob archive.
    BlobBucket,
}

impl Setting {
    /// The environment variable that holds the setting.
    pub open spec fn variable_of(self) -> Seq<char> {
        match self {
            Setting::VectorDbUrl => "VECTOR_DB_URL"@,
            Setting::VectorDbApiKey => "VECTOR_DB_API_KEY"@,
            Setting::BlobBucket => "BLOB_BUCKET"@,
        }
    }

    /// The environment variable that holds the setting.
    pub fn variable(&self) -> (name: &'static str)
        ensures
            name@ == self.variable_of(),
    {
        match self {
            Setting::VectorDbUrl => "VECTOR_DB_URL",
            Setting::VectorDbApiKey => "VECTOR_DB_API_KEY",
            Setting::BlobBucket => "BLOB_BUCKET",
        }
    }
}

/// How to reach the vector index.
#[derive(Debug)]
pub struct VectorDbSettings {
    pub url: String,
    pub api_key: String,
}

/// How to reach the vector index, from what the environment holds. The
/// address is looked at first; the key is needed once the address is there.
pub fn vector_db_settings(url: Option<String>, api_key: Option<String>) -> (r: Result<
    VectorDbSettings,
    Error,
>)
    ensures
        match (url, api_key) {
            (Some(u), Some(k)) => r matches Ok(s) && s.url == u && s.api_key == k,
            (Some(_), None) => r matches Err(Error::NotConfigured { setting }) && setting
                == Setting::VectorDbApiKey,
            (None, _) => r matches Err(Error::NotConfigured { setting }) && setting
                == Setting::VectorDbUrl,
        },
{
    match url {
        Some(url) => match api_key {
            Some(api_key) => Ok(VectorDbSettings { url, api_key }),
            None => Err(Error::NotConfigured { setting: Setting::VectorDbApiKey }),
        },
        None => Err(Error::NotConfigured { setting: Setting::VectorDbUrl }),
    }
}

/// The bucket of the blob archive, from what the environment holds.
pub fn blob_bucket(bucket: Option<String>) -> (r: Result<String, Error>)
    ensures
        match bucket {
            Some(b) => r == Ok::<String, Error>(b),
            None => r matches Err(Error::NotConfigured { setting }) && setting
                == Setting::BlobBucket,
        },
{
    match bucket {
        Some(bucket) => Ok(bucket),
        None => Err(Error::NotConfigured { setting: Setting::BlobBucket }),
    }
}

} // verus!
