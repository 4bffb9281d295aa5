use vstd::prelude::*;
use vstd::string::*;

use crate::decimal::same_text;
use crate::error::MirrorError;
use crate::jobs::PageJob;
use crate::paths::{page_file, with_extension};

verus! {

/// The file extension for an image media type on the allow-list.
pub open spec fn extension_for(media_type: Seq<char>) -> Option<Seq<char>> {
    if media_type == "image/jpeg"@ {
        Some("jpeg"@)
    } else if media_type == "image/png"@ {
        Some("png"@)
    } else if media_type == "image/gif"@ {
        Some("gif"@)
    } else {
        None
    }
}

/// A response status in the success class, 200 to 299.
pub open spec fn is_success(status: u16) -> bool {
    200 <= status <= 299
}

/// The extension for a media type, if it is on the allow-list.
pub fn media_extension(media_type: &str) -> (r: Option<&'static str>)
    ensures
        r matches Some(e) ==> extension_for(media_type@) == Some(e@),
        r is None ==> extension_for(media_type@) is None,
{
    if same_text(media_type, "image/jpeg") {
        Some("jpeg")
    } else if same_text(media_type, "image/png") {
        Some("png")
    } else if same_text(media_type, "image/gif") {
        Some("gif")
    } else {
        None
    }
}

/// Decides what a worker does with a response to one page job: a status
/// outside the success class and a media type outside the allow-list each end
/// the run; otherwise the page is written to its destination with the
/// extension that its media type gives.
pub fn page_destination(job: &PageJob, status: u16, media_type: Option<&str>) -> (r: Result<
    String,
    MirrorError,
>)
    ensures
        !is_success(status) ==> r == Err::<String, MirrorError>(MirrorError::UpstreamFailure(status)),
        is_success(status) && media_type is None ==> (r matches Err(MirrorError::UnsupportedMediaType(
            t,
        )) && t@.len() == 0),
        is_success(status) && media_type is Some && extension_for(media_type.unwrap()@) is Some ==> (r matches Ok(
            p,
        ) && p@ == with_extension(job.dest@, extension_for(media_type.unwrap()@).unwrap())),
        is_success(status) && media_type is Some && extension_for(media_type.unwrap()@) is None ==> (r matches Err(
            MirrorError::UnsupportedMediaType(t),
        ) && t@ == media_type.unwrap()@),
{
    if status < 200 || status > 299 {
        return Err(MirrorError::UpstreamFailure(status));
    }
    match media_type {
        None => Err(MirrorError::UnsupportedMediaType(String::new())),
        Some(m) => match media_extension(m) {
            Some(ext) => Ok(page_file(job.dest.as_str(), ext)),
            None => Err(MirrorError::UnsupportedMediaType(String::from_str(m))),
        },
    }
}

} // verus!
