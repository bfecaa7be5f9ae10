//! The form in which a `SharedByteString` shows itself under `Debug`: its
//! bytes as a slice, under the type's name, however they are stored.

use vstd::prelude::*;

verus! {

/// The bytes of a `SharedByteString`, borrowed; its derived `Debug` writes
/// `SharedByteString([..])` and honours the alternate (`{:#?}`) form.
#[derive(Debug)]
pub struct SharedByteString<'a>(pub &'a [u8]);

} // verus!
