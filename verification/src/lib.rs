//! Inspector for GLB-style binary model containers: a fixed header followed
//! by length-prefixed, type-tagged chunks.  The parser decodes the header and
//! the chunk sequence with exact offset bookkeeping; the renderer produces a
//! human-readable dump, pretty-printing the JSON chunk payload.

pub mod gltf;
pub mod json;
pub mod le;
pub mod render;
