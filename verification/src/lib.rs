//! Core of a stenography engine: the key/stroke chord model with its
//! canonical text grammar, the outline model, the raw device frame decoder,
//! the dictionary annotation token grammar, and a dictionary lookup over an
//! injected read-only mapping.

use vstd::prelude::*;

pub mod dictionary;
pub mod keys;
pub mod machine;
pub mod outline;
pub mod plover_dict;
pub mod protocol;
pub mod roundtrip;
pub mod stroke;
mod text;

pub use dictionary::Dictionary;
pub use keys::Key;
pub use machine::Machine;
pub use outline::Outline;
pub use plover_dict::DictionaryEntry;
pub use plover_dict::Token;
pub use protocol::decode_frame;
pub use stroke::ParseError;
pub use stroke::Stroke;

verus! {

} // verus!
