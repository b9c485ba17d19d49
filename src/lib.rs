use vstd::prelude::*;

pub mod counter;
pub mod locator;
pub mod logout;
pub mod rooms;
pub mod sealed;
pub mod timeline;

verus! {

/// Which inbound source the locator serves next.
#[derive(Clone, Copy, Debug, PartialEq, Eq, Structural)]
pub enum Inbound {
    Request,
    Edit,
}

/// The priority rule between the two inbound sources: requests are served before
/// edits whenever both are ready.
pub fn next_inbound(request_ready: bool, edit_ready: bool) -> (r: Option<Inbound>)
    ensures
        request_ready ==> r == Some(Inbound::Request),
        !request_ready && edit_ready ==> r == Some(Inbound::Edit),
        !request_ready && !edit_ready ==> r is None,
{
    if request_ready {
        Some(Inbound::Request)
    } else if edit_ready {
        Some(Inbound::Edit)
    } else {
        None
    }
}

} // verus!
