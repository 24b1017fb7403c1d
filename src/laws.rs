use vstd::prelude::*;

use crate::escape::escaped;
use crate::sink::Sink;
use crate::writer::{closings, end_tag, indentation, prefix_text, spaces, tag_end_if, XmlWriter};

verus! {

/// Nesting is balanced: the element opened last is the first that `close()`
/// closes, under the prefix it was opened with, and the ones open before
/// follow in their own order.
pub proof fn lemma_last_opened_first_closed<'a, W: Sink>(
    w0: XmlWriter<'a, W>,
    w1: XmlWriter<'a, W>,
    name: Seq<char>,
)
    requires
        w0.begun(&w1, name),
    ensures
        w1.depth() == w0.depth() + 1,
        closings(w1.elements(), w1.prefixes()) == end_tag(w0.current_prefix(), name) + closings(
            w0.elements(),
            w0.prefixes(),
        ),
{
    assert(w1.elements().drop_last() =~= w0.elements());
    assert(w1.prefixes().drop_last() =~= w0.prefixes());
}

/// After attributes, `text()` ends the start tag with exactly one `>` before
/// the escaped text.
pub proof fn lemma_text_after_attrs<'a, W: Sink>(
    w0: XmlWriter<'a, W>,
    w1: XmlWriter<'a, W>,
    text: Seq<char>,
)
    requires
        w0.is_open(),
        w0.tag_ended(&w1),
        w1.output() == w0.output() + tag_end_if(w0.is_open()) + escaped(text, false),
    ensures
        w1.output() == w0.output() + ">"@ + escaped(text, false),
        !w1.is_open(),
{
}

/// After attributes, `end_elem()` ends the start tag with exactly one `>`
/// before the closing tag.
pub proof fn lemma_end_after_attrs<'a, W: Sink>(w0: XmlWriter<'a, W>, w1: XmlWriter<'a, W>)
    requires
        w0.is_open(),
        w0.ended(&w1),
    ensures
        w1.output() == w0.output() + ">"@ + end_tag(w0.prefixes().last(), w0.elements().last()),
        !w1.is_open(),
{
}

/// An element opened under a prefix is closed under that prefix, whatever
/// the current namespace was changed to in between.
pub proof fn lemma_namespace_round_trip<'a, W: Sink>(
    w0: XmlWriter<'a, W>,
    w1: XmlWriter<'a, W>,
    w2: XmlWriter<'a, W>,
    w3: XmlWriter<'a, W>,
    name: Seq<char>,
)
    requires
        w0.begun(&w1, name),
        w2.elements() == w1.elements(),
        w2.prefixes() == w1.prefixes(),
        w2.is_open() == w1.is_open(),
        w2.output() == w1.output(),
        w2.ended(&w3),
    ensures
        w3.output() == w2.output() + ">"@ + "</"@ + prefix_text(w0.current_prefix()) + name + ">"@,
{
    assert(w3.output() =~= w2.output() + ">"@ + "</"@ + prefix_text(w0.current_prefix()) + name
        + ">"@);
}

/// With pretty printing on, a start tag below the root is preceded by one
/// newline and two spaces per level of nesting at the time it is opened; at
/// the root by nothing.
pub proof fn lemma_indent_of_begin<'a, W: Sink>(
    w0: XmlWriter<'a, W>,
    w1: XmlWriter<'a, W>,
    name: Seq<char>,
)
    requires
        w0.is_pretty(),
        w0.begun(&w1, name),
    ensures
        w1.output() == w0.output() + tag_end_if(w0.is_open()) + indentation(true, w0.depth()) + "<"@
            + prefix_text(w0.current_prefix()) + name,
        w0.depth() == 0 ==> indentation(true, w0.depth()).len() == 0,
        w0.depth() > 0 ==> indentation(true, w0.depth()).len() == 2 * w0.depth() + 1,
        w0.depth() > 0 ==> indentation(true, w0.depth())[0] == '\n',
        forall|i: int|
            1 <= i < indentation(true, w0.depth()).len() ==> #[trigger] indentation(
                true,
                w0.depth(),
            )[i] == ' ',
{
    reveal_strlit("\n");
    let d = w0.depth();
    if d > 0 {
        let ind = indentation(true, d);
        assert(ind == "\n"@ + spaces(2 * d));
        assert forall|i: int| 1 <= i < ind.len() implies #[trigger] ind[i] == ' ' by {
            assert(ind[i] == spaces(2 * d)[i - 1]);
        }
    }
}

} // verus!
