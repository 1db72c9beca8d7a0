use vstd::prelude::*;

verus! {

/// A listener, with the factory of the services that its connections are
/// answered by. Accepting and answering connections is the host's part.
pub struct Serve<L, M> {
    pub listener: L,
    pub make_service: M,
}

pub fn serve<L, M>(listener: L, make_service: M) -> (r: Serve<L, M>)
    ensures
        r.listener == listener,
        r.make_service == make_service,
{
    Serve { listener, make_service }
}

} // verus!
