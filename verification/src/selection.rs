//! The device route selection: the manifest `[device] backend` spellings and
//! the resolved backends.
use vstd::prelude::*;
use crate::naming::owned;
use crate::naming::text_eq;

verus! {

broadcast use vstd::string::group_string_axioms;

/// The requested device route: automatic, or a named backend.
#[derive(Clone, Copy, Debug, PartialEq, Eq, Structural)]
pub enum DeviceSelection {
    Auto,
    Metal,
    Cuda,
}

/// A resolved device backend.
#[derive(Clone, Copy, Debug, PartialEq, Eq, Structural)]
pub enum DeviceBackend {
    Metal,
    Cuda,
}

pub open spec fn auto_text() -> Seq<char> {
    seq!['a', 'u', 't', 'o']
}

pub open spec fn metal_text() -> Seq<char> {
    seq!['m', 'e', 't', 'a', 'l']
}

pub open spec fn cuda_text() -> Seq<char> {
    seq!['c', 'u', 'd', 'a']
}

/// The selection a spelling names, if any.
pub open spec fn selection_named(s: Seq<char>) -> Option<DeviceSelection> {
    if s == auto_text() {
        Some(DeviceSelection::Auto)
    } else if s == metal_text() {
        Some(DeviceSelection::Metal)
    } else if s == cuda_text() {
        Some(DeviceSelection::Cuda)
    } else {
        None
    }
}

/// The spelling of a backend.
pub open spec fn backend_text(b: DeviceBackend) -> Seq<char> {
    match b {
        DeviceBackend::Metal => metal_text(),
        DeviceBackend::Cuda => cuda_text(),
    }
}

impl DeviceSelection {
    /// Parse a manifest `[device] backend` spelling; unknown spellings fail
    /// closed (never silently guessed).
    pub fn from_spelling(spelling: &str) -> (r: Option<DeviceSelection>)
        ensures
            r == selection_named(spelling@),
    {
        proof {
            reveal_strlit("auto");
            reveal_strlit("metal");
            reveal_strlit("cuda");
        }
        assert("auto"@ =~= auto_text());
        assert("metal"@ =~= metal_text());
        assert("cuda"@ =~= cuda_text());
        if text_eq(spelling, "auto") {
            Some(DeviceSelection::Auto)
        } else if text_eq(spelling, "metal") {
            Some(DeviceSelection::Metal)
        } else if text_eq(spelling, "cuda") {
            Some(DeviceSelection::Cuda)
        } else {
            None
        }
    }
}

impl DeviceBackend {
    /// The backend's spelling.
    pub fn spelling(&self) -> (s: String)
        ensures
            s@ == backend_text(*self),
    {
        proof {
            reveal_strlit("metal");
            reveal_strlit("cuda");
        }
        assert("metal"@ =~= metal_text());
        assert("cuda"@ =~= cuda_text());
        match self {
            DeviceBackend::Metal => owned("metal"),
            DeviceBackend::Cuda => owned("cuda"),
        }
    }

    /// The selection that names this backend.
    pub fn selection(&self) -> (s: DeviceSelection)
        ensures
            s == (match *self {
                DeviceBackend::Metal => DeviceSelection::Metal,
                DeviceBackend::Cuda => DeviceSelection::Cuda,
            }),
    {
        match self {
            DeviceBackend::Metal => DeviceSelection::Metal,
            DeviceBackend::Cuda => DeviceSelection::Cuda,
        }
    }
}

/// Every backend spelling parses back to the selection naming that backend.
pub proof fn law_backend_spelling_round_trips(b: DeviceBackend)
    ensures
        selection_named(backend_text(b)) == Some(match b {
            DeviceBackend::Metal => DeviceSelection::Metal,
            DeviceBackend::Cuda => DeviceSelection::Cuda,
        }),
{
    assert(metal_text() != auto_text());
    assert(cuda_text() != auto_text());
    assert(cuda_text() != metal_text());
}

} // verus!
