//! The shell that owns a handshake-completed connection. It has no further
//! protocol capability of its own; issuing requests over the negotiated
//! transport is outside this core.
use vstd::prelude::*;

verus! {

use crate::xinterface::{XInterface, XInterfaceError};

/// How constructing the application fails: only through the handshake.
#[derive(Debug)]
pub enum ApplicationError {
    XInterfaceError(XInterfaceError),
}

impl From<XInterfaceError> for ApplicationError {
    fn from(x: XInterfaceError) -> (r: Self) {
        ApplicationError::XInterfaceError(x)
    }
}

impl vstd::std_specs::convert::FromSpecImpl<XInterfaceError> for ApplicationError {
    open spec fn obeys_from_spec() -> bool {
        true
    }

    open spec fn from_spec(x: XInterfaceError) -> Self {
        ApplicationError::XInterfaceError(x)
    }
}

/// Holds a successfully negotiated connection.
pub struct Application {
    _x_interface: XInterface,
}

impl Application {
    /// Take ownership of a negotiated connection.
    pub fn new(x_interface: XInterface) -> (r: Application)
        ensures
            r.interface().x_socket@ == x_interface.x_socket@,
    {
        Application { _x_interface: x_interface }
    }

    /// The negotiated connection this application holds.
    pub closed spec fn interface(&self) -> &XInterface {
        &self._x_interface
    }
}

} // verus!
