//! A streaming XML writer: elements, attributes, text, comments and CDATA are
//! written straight to a byte sink, without building a document in memory.
//!
//! Every operation is verified against a model of the writer: the stack of
//! open elements, the namespace prefix each was opened under, whether a start
//! tag still awaits its `>`, and the text handed to the sink so far.

mod escape;
mod laws;
mod sink;
mod writer;

pub use escape::{
    count, entity_at, escape_char, escaped, is_special, lemma_count_append, lemma_encode_utf8_append, lemma_escape_backslashes,
    lemma_escape_correct,
    lemma_escape_plain, lemma_escaped_ampersands, lemma_escaped_append, lemma_escaped_push,
};
pub use laws::{
    lemma_end_after_attrs, lemma_indent_of_begin, lemma_last_opened_first_closed,
    lemma_namespace_round_trip, lemma_text_after_attrs,
};
pub use sink::Sink;
pub use writer::{
    attr_text, closings, decl_view, declaration, end_tag, indentation, ns_decls, ns_view,
    prefix_text, spaces, tag_end_if, xmlns_name, XmlError, XmlWriter,
};
