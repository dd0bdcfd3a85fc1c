pub mod array;
pub mod canonical;
pub mod chunk;
pub mod codec;
pub mod container;
pub mod laws;
pub mod rows;
pub mod stream;

pub use array::{ChArrayElement, ChSparseArrayElement};
pub use chunk::{ChunkType, ChunkValue};
pub use container::{
    chunk_reader, chunk_writer, compress_save, decode, decompress_save, encode, is_written_plain,
    CompressionType, OuterSave, Save,
};
pub use stream::{Chunk, Chunks};
