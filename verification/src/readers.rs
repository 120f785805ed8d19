//! Declaration of the in-memory reader type the backends hand to the
//! archive crates.  The library never touches the file system: a container
//! is a byte vector, and archives read it through a cursor.

use vstd::prelude::*;

verus! {

#[verifier::external_type_specification]
#[verifier::external_body]
#[verifier::reject_recursive_types(T)]
pub struct ExCursor<T>(std::io::Cursor<T>);

} // verus!
