//! The greeting replies of the sample sub-routes.

use vstd::prelude::*;
use crate::reply::{message, text_reply, Reply, Status};
use crate::text::concat;

verus! {

/// The greeting of the on-disk sub-route, naming the parameter where one came.
pub fn on_disk_greeting(param: Option<&str>) -> (r: Reply)
    ensures
        r@ == text_reply(Status::Success, match param {
            Some(p) => "Hello, on disk subroute with param: "@ + p@,
            None => "Hello, on disk subroute without param"@,
        }),
{
    match param {
        Some(p) => message(Status::Success, concat("Hello, on disk subroute with param: ", p)),
        None => message(Status::Success, "Hello, on disk subroute without param".to_owned()),
    }
}

/// The greeting of the cloud sub-route, naming the parameter where one came.
pub fn google_cloud_greeting(param: Option<&str>) -> (r: Reply)
    ensures
        r@ == text_reply(Status::Success, match param {
            Some(p) => "Hello, Google Cloud subroute with param: "@ + p@,
            None => "Hello, Google Cloud subroute without param"@,
        }),
{
    match param {
        Some(p) => message(Status::Success, concat("Hello, Google Cloud subroute with param: ", p)),
        None => message(Status::Success, "Hello, Google Cloud subroute without param".to_owned()),
    }
}

/// The reply of the cloud provider's image sub-route.
pub fn cloud_images_reply() -> (r: Reply)
    ensures
        r@ == text_reply(Status::Success, "Hello, on disk subroute without param"@),
{
    message(Status::Success, "Hello, on disk subroute without param".to_owned())
}

/// The reply of the cloud provider's short sub-route.
pub fn cloud_img_reply() -> (r: Reply)
    ensures
        r@ == text_reply(Status::Success, "Hello, "@),
{
    message(Status::Success, "Hello, ".to_owned())
}

} // verus!
