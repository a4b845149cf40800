//! The address from which the body of a file is fetched.

use crate::client::check_status;
use crate::client::ClientError;
use crate::client::STATUS_OK;
use vstd::prelude::*;

verus! {

/// The address that an answer holds for a file: the answer must have the
/// status [`STATUS_OK`] and hold a text under the identifier of the file.
pub open spec fn download_url_of(status_code: i32, url: Option<Seq<char>>) -> Result<
    Seq<char>,
    ClientError,
> {
    if status_code != STATUS_OK {
        Err(ClientError::Status(status_code))
    } else {
        match url {
            Some(u) => Ok(u),
            None => Err(ClientError::NoUrl),
        }
    }
}

/// The address that an answer holds for a file; `url` is the text that the
/// answer holds under the identifier of the file, if it holds one.
pub fn get_download_url(status_code: i32, url: Option<String>) -> (r: Result<String, ClientError>)
    ensures
        match r {
            Ok(u) => download_url_of(status_code, crate::client::auth::text_of(url)) == Ok::<
                Seq<char>,
                ClientError,
            >(u@),
            Err(e) => download_url_of(status_code, crate::client::auth::text_of(url)) == Err::<
                Seq<char>,
                ClientError,
            >(e),
        },
{
    match check_status(status_code) {
        Err(e) => Err(e),
        Ok(_) => match url {
            Some(u) => Ok(u),
            None => Err(ClientError::NoUrl),
        },
    }
}

} // verus!
