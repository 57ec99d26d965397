//! Reading and writing utilities for Datum, a human-writable S-expression-like
//! data format.
//!
//! The crate is organised as a pipeline of small state machines. Each stage
//! turns one kind of input unit into zero or more output units:
//!
//! * [`DatumDecoder`](decoder::DatumDecoder): raw characters into classified
//!   characters, resolving backslash escapes;
//! * [`DatumUTF8Decoder`](byte_decoder::DatumUTF8Decoder): raw bytes into
//!   characters;
//! * [`DatumTokenizer`](token_core::DatumTokenizer): classified characters
//!   into lexical actions, and
//!   [`DatumPipeTokenizer`](token::DatumPipeTokenizer): classified characters
//!   into finished tokens;
//! * [`DatumParser`](ast::DatumParser): tokens into trees.
//!
//! The writer half ([`DatumWriter`](writer::DatumWriter) and the `write_*`
//! methods of tokens and atoms) emits text that reads back as the value it was
//! given. Every stage is specified by a pure step function of
//! (state, next input or end of input), and the executable code is verified
//! against that function. The [`laws`] module states and proves what the
//! pipeline guarantees: streaming equivalence, escape idempotence, the
//! classification of truncated input, numeric fidelity, and the round trip
//! from values to tokens to text and back.

pub mod ast;
pub mod atom;
pub mod byte_decoder;
pub mod char_classes;
pub mod decoder;
pub mod errors;
pub mod laws;
pub mod numbers;
pub mod pipe;
pub mod pipelines;
pub mod token;
pub mod token_core;
pub mod writer;

pub use ast::DatumParser;
pub use ast::DatumValue;
pub use ast::DatumValueView;
pub use atom::DatumAtom;
pub use atom::DatumAtomView;
pub use byte_decoder::DatumUTF8Decoder;
pub use char_classes::DatumChar;
pub use char_classes::DatumCharClass;
pub use char_classes::datum_write_byte_hex_escape;
pub use decoder::DatumDecoder;
pub use decoder::DatumDecoderState;
pub use errors::DatumError;
pub use errors::DatumErrorKind;
pub use errors::DatumOffset;
pub use errors::DatumResult;
pub use pipe::DatumBoundedPipe;
pub use pipe::DatumComposePipe;
pub use pipe::DatumPipe;
pub use pipe::PipeStep;
pub use pipe::feed_iter_to_vec;
pub use pipelines::DatumByteToTokenPipeline;
pub use pipelines::DatumByteToValuePipeline;
pub use pipelines::DatumCharToTokenPipeline;
pub use pipelines::DatumCharToValuePipeline;
pub use pipelines::DatumLineNumberTracker;
pub use pipelines::datum_byte_to_token_pipeline;
pub use pipelines::datum_byte_to_value_pipeline;
pub use pipelines::datum_char_to_token_pipeline;
pub use pipelines::datum_char_to_value_pipeline;
pub use token::DatumPipeTokenizer;
pub use token::DatumToken;
pub use token::DatumTokenView;
pub use token_core::DatumTokenType;
pub use token_core::DatumTokenizer;
pub use token_core::DatumTokenizerAction;
pub use token_core::DatumTokenizerState;
pub use writer::DatumWriter;
pub use writer::DatumWriterState;
