use vstd::prelude::*;
use vstd::slice::slice_subrange;
use vstd::utf8::encode_utf8;

use crate::escape::{escape_char, escaped, lemma_encode_utf8_append, lemma_escaped_push};
use crate::sink::{char_utf8, Sink};

verus! {

/// Why an operation of the writer did not complete.
#[derive(Debug)]
pub enum XmlError {
    /// The sink failed; the stream may hold part of what was being written.
    Io(std::io::Error),
    /// An attribute or namespace declaration was written while no start tag
    /// was open.
    NoOpenElement,
    /// An element was closed while none was open.
    NothingToClose,
}

/// The characters of an optional namespace prefix.
pub open spec fn ns_view(ns: Option<&str>) -> Option<Seq<char>> {
    match ns {
        Some(p) => Some(p@),
        None => None,
    }
}

/// `prefix:` in front of a name, or nothing without a prefix.
pub open spec fn prefix_text(ns: Option<Seq<char>>) -> Seq<char> {
    match ns {
        Some(p) => p + ":"@,
        None => Seq::empty(),
    }
}

/// The `>` that ends a start tag still open, or nothing.
pub open spec fn tag_end_if(open: bool) -> Seq<char> {
    if open {
        ">"@
    } else {
        Seq::empty()
    }
}

/// `n` spaces.
pub open spec fn spaces(n: nat) -> Seq<char> {
    Seq::new(n, |i: int| ' ')
}

/// What goes before a start tag or a comment at `depth`: with pretty
/// printing and below the root, a newline and two spaces per level.
pub open spec fn indentation(pretty: bool, depth: nat) -> Seq<char> {
    if pretty && depth > 0 {
        "\n"@ + spaces(2 * depth)
    } else {
        Seq::empty()
    }
}

/// The closing tag `</prefix:name>`.
pub open spec fn end_tag(ns: Option<Seq<char>>, name: Seq<char>) -> Seq<char> {
    "</"@ + prefix_text(ns) + name + ">"@
}

/// The closing tags of all the given frames, innermost first.
pub open spec fn closings(names: Seq<Seq<char>>, prefixes: Seq<Option<Seq<char>>>) -> Seq<char>
    decreases names.len(),
{
    if names.len() == 0 {
        Seq::empty()
    } else {
        end_tag(prefixes.last(), names.last()) + closings(names.drop_last(), prefixes.drop_last())
    }
}

/// ` name="value"`, as an attribute is written into a start tag.
pub open spec fn attr_text(name: Seq<char>, value: Seq<char>) -> Seq<char> {
    " "@ + name + "=\""@ + value + "\""@
}

/// The attribute name that declares a namespace: `xmlns`, or `xmlns:prefix`.
pub open spec fn xmlns_name(prefix: Option<Seq<char>>) -> Seq<char> {
    match prefix {
        Some(p) => "xmlns"@ + ":"@ + p,
        None => "xmlns"@,
    }
}

/// A namespace declaration as its characters: an optional prefix and a URI.
pub open spec fn decl_view(item: (Option<&str>, &str)) -> (Option<Seq<char>>, Seq<char>) {
    (ns_view(item.0), item.1@)
}

/// The attributes that declare the given namespaces, in order. URIs are
/// written as they are.
pub open spec fn ns_decls(items: Seq<(Option<Seq<char>>, Seq<char>)>) -> Seq<char>
    decreases items.len(),
{
    if items.len() == 0 {
        Seq::empty()
    } else {
        ns_decls(items.drop_last()) + attr_text(xmlns_name(items.last().0), items.last().1)
    }
}

/// The XML declaration naming `encoding`.
pub open spec fn declaration(encoding: Seq<char>) -> Seq<char> {
    "<?xml version=\"1.0\" encoding=\""@ + encoding + "\" ?>\n"@
}

/// Writes XML to a sink as it goes: nothing is held back but the names of
/// the elements still open.
pub struct XmlWriter<'a, W: Sink> {
    stack: Vec<&'a str>,
    ns_stack: Vec<Option<&'a str>>,
    writer: W,
    opened: bool,
    /// When set, each start tag and comment below the root goes on a new,
    /// indented line.
    pub pretty: bool,
    /// The prefix given to every element opened from now on, if any.
    pub namespace: Option<&'a str>,
    text: Ghost<Seq<char>>,
    bytes: Ghost<Seq<u8>>,
    initial: Ghost<Seq<u8>>,
}

impl<'a, W: Sink> XmlWriter<'a, W> {
    /// The stacks run in step, an open start tag belongs to an open element,
    /// the sink has been handed exactly the UTF-8 encoding of `output()`, and
    /// a sink that never fails holds what it held at the start followed by
    /// all that was sent.
    pub closed spec fn wf(&self) -> bool {
        &&& self.stack.len() == self.ns_stack.len()
        &&& self.opened ==> self.stack.len() > 0
        &&& self.bytes@ == encode_utf8(self.text@)
        &&& self.writer.never_fails() ==> self.writer.contents() == self.initial@ + self.bytes@
    }

    /// Names of the open elements, outermost first.
    pub closed spec fn elements(&self) -> Seq<Seq<char>> {
        self.stack@.map_values(|s: &str| s@)
    }

    /// For each open element, the prefix it was opened under.
    pub closed spec fn prefixes(&self) -> Seq<Option<Seq<char>>> {
        self.ns_stack@.map_values(|o: Option<&str>| ns_view(o))
    }

    /// Whether the last start tag still waits for its `>`.
    pub closed spec fn is_open(&self) -> bool {
        self.opened
    }

    /// All the text handed to the sink so far.
    pub closed spec fn output(&self) -> Seq<char> {
        self.text@
    }

    /// All the bytes handed to the sink so far.
    pub closed spec fn sent(&self) -> Seq<u8> {
        self.bytes@
    }

    /// The sink that the writer owns.
    pub closed spec fn sink(&self) -> W {
        self.writer
    }

    /// What the sink held when the writer was made.
    pub closed spec fn initial(&self) -> Seq<u8> {
        self.initial@
    }

    /// Whether the sink is known never to fail.
    pub open spec fn infallible(&self) -> bool {
        self.sink().never_fails()
    }

    /// What every operation keeps: the sink's starting contents, and a sink
    /// that never fails.
    pub open spec fn keeps(&self, next: &Self) -> bool {
        &&& next.initial() == self.initial()
        &&& self.infallible() ==> next.infallible()
    }

    /// Whether pretty printing is on.
    pub closed spec fn is_pretty(&self) -> bool {
        self.pretty
    }

    /// The prefix that an element opened now would get.
    pub closed spec fn current_prefix(&self) -> Option<Seq<char>> {
        ns_view(self.namespace)
    }

    /// How many elements are open.
    pub open spec fn depth(&self) -> nat {
        self.elements().len()
    }

    /// Everything but the output is as in `other`.
    pub open spec fn same_state(&self, other: &Self) -> bool {
        &&& self.elements() == other.elements()
        &&& self.prefixes() == other.prefixes()
        &&& self.is_open() == other.is_open()
        &&& self.is_pretty() == other.is_pretty()
        &&& self.current_prefix() == other.current_prefix()
    }

    /// `next` is this writer after `begin_elem(name)` succeeded.
    pub open spec fn begun(&self, next: &Self, name: Seq<char>) -> bool {
        &&& next.elements() == self.elements().push(name)
        &&& next.prefixes() == self.prefixes().push(self.current_prefix())
        &&& next.is_open()
        &&& next.is_pretty() == self.is_pretty()
        &&& next.current_prefix() == self.current_prefix()
        &&& next.output() == self.output() + tag_end_if(self.is_open()) + indentation(
            self.is_pretty(),
            self.depth(),
        ) + "<"@ + prefix_text(self.current_prefix()) + name
    }

    /// `next` has the same open elements as this writer, with no start tag
    /// left open.
    pub open spec fn tag_ended(&self, next: &Self) -> bool {
        &&& next.elements() == self.elements()
        &&& next.prefixes() == self.prefixes()
        &&& !next.is_open()
        &&& next.is_pretty() == self.is_pretty()
        &&& next.current_prefix() == self.current_prefix()
    }

    /// What a leaf element or comment is preceded by: the `>` of an open
    /// start tag, then the indentation for the current depth.
    pub open spec fn lead(&self) -> Seq<char> {
        tag_end_if(self.is_open()) + indentation(self.is_pretty(), self.depth())
    }

    /// `next` is this writer after `end_elem()` succeeded.
    pub open spec fn ended(&self, next: &Self) -> bool {
        &&& self.depth() > 0
        &&& next.elements() == self.elements().drop_last()
        &&& next.prefixes() == self.prefixes().drop_last()
        &&& !next.is_open()
        &&& next.is_pretty() == self.is_pretty()
        &&& next.current_prefix() == self.current_prefix()
        &&& next.output() == self.output() + tag_end_if(self.is_open()) + end_tag(
            self.prefixes().last(),
            self.elements().last(),
        )
    }

    /// The sink of a well-formed writer has been handed exactly the UTF-8
    /// encoding of its output, in order.
    pub proof fn lemma_sent_is_utf8(&self)
        requires
            self.wf(),
        ensures
            self.sent() == encode_utf8(self.output()),
    {
    }

    /// The element stack and the namespace stack have the same length, and a
    /// start tag is open only inside an open element.
    pub proof fn lemma_frames(&self)
        requires
            self.wf(),
        ensures
            self.elements().len() == self.prefixes().len(),
            self.is_open() ==> self.depth() > 0,
    {
    }

    /// A sink that never fails holds what it held at the start followed by
    /// every byte the writer sent.
    pub proof fn lemma_sink_holds_sent(&self)
        requires
            self.wf(),
        ensures
            self.infallible() ==> self.sink().contents() == self.initial() + self.sent(),
    {
    }

    /// Creates a writer onto `writer`, with no element open, pretty printing
    /// on and no namespace.
    pub fn new(writer: W) -> (r: XmlWriter<'a, W>)
        ensures
            r.wf(),
            r.elements() == Seq::<Seq<char>>::empty(),
            r.prefixes() == Seq::<Option<Seq<char>>>::empty(),
            !r.is_open(),
            r.output() == Seq::<char>::empty(),
            r.sent() == Seq::<u8>::empty(),
            r.sink() == writer,
            r.initial() == writer.contents(),
            r.is_pretty(),
            r.current_prefix() is None,
    {
        let ghost start = writer.contents();
        assert(start == start + Seq::<u8>::empty());
        XmlWriter {
            stack: Vec::new(),
            ns_stack: Vec::new(),
            writer,
            opened: false,
            pretty: true,
            namespace: None,
            text: Ghost(Seq::empty()),
            bytes: Ghost(Seq::empty()),
            initial: Ghost(start),
        }
    }

    /// Hands `bytes` to the sink and records them as the text `chars`.
    fn put(&mut self, bytes: &[u8], chars: Ghost<Seq<char>>) -> (r: Result<(), XmlError>)
        requires
            old(self).wf(),
            bytes@ == encode_utf8(chars@),
        ensures
            final(self).wf(),
            old(self).keeps(final(self)),
            final(self).same_state(old(self)),
            final(self).stack == old(self).stack,
            final(self).ns_stack == old(self).ns_stack,
            final(self).opened == old(self).opened,
            final(self).pretty == old(self).pretty,
            final(self).namespace == old(self).namespace,
            old(self).infallible() ==> r is Ok,
            r is Ok ==> final(self).output() == old(self).output() + chars@,
            r is Err ==> final(self).output() == old(self).output() && r->Err_0 is Io,
    {
        match self.writer.write_bytes(bytes) {
            Ok(()) => {
                proof {
                    lemma_encode_utf8_append(self.text@, chars@);
                }
                proof {
                    assert(self.initial@ + (old(self).bytes@ + bytes@) =~= self.initial@ + old(
                        self,
                    ).bytes@ + bytes@);
                }
                self.text = Ghost(self.text@ + chars@);
                self.bytes = Ghost(self.bytes@ + bytes@);
                Ok(())
            },
            Err(e) => Err(XmlError::Io(e)),
        }
    }

    /// Hands the UTF-8 bytes of `s` to the sink.
    fn put_str(&mut self, s: &str) -> (r: Result<(), XmlError>)
        requires
            old(self).wf(),
        ensures
            final(self).wf(),
            old(self).keeps(final(self)),
            old(self).infallible() ==> r is Ok,
            final(self).same_state(old(self)),
            final(self).stack == old(self).stack,
            final(self).ns_stack == old(self).ns_stack,
            final(self).opened == old(self).opened,
            final(self).pretty == old(self).pretty,
            final(self).namespace == old(self).namespace,
            r is Ok ==> final(self).output() == old(self).output() + s@,
            r is Err ==> final(self).output() == old(self).output() && r->Err_0 is Io,
    {
        self.put(s.as_bytes(), Ghost(s@))
    }

    /// Hands the UTF-8 bytes of one character to the sink, in one piece.
    fn put_char(&mut self, c: char) -> (r: Result<(), XmlError>)
        requires
            old(self).wf(),
        ensures
            final(self).wf(),
            old(self).keeps(final(self)),
            old(self).infallible() ==> r is Ok,
            final(self).same_state(old(self)),
            final(self).stack == old(self).stack,
            final(self).ns_stack == old(self).ns_stack,
            final(self).opened == old(self).opened,
            final(self).pretty == old(self).pretty,
            final(self).namespace == old(self).namespace,
            r is Ok ==> final(self).output() == old(self).output() + seq![c],
            r is Err ==> final(self).output() == old(self).output() && r->Err_0 is Io,
    {
        let (buf, n) = char_utf8(c);
        let b = slice_subrange(buf.as_slice(), 0, n);
        let ghost cs = seq![c];
        self.put(b, Ghost(cs))
    }

    /// Ends an open start tag with `>`; does nothing otherwise.
    fn close_elem(&mut self) -> (r: Result<(), XmlError>)
        requires
            old(self).wf(),
        ensures
            final(self).wf(),
            old(self).keeps(final(self)),
            old(self).infallible() ==> r is Ok,
            !old(self).opened ==> r is Ok && final(self).output() == old(self).output(),
            final(self).stack == old(self).stack,
            final(self).ns_stack == old(self).ns_stack,
            final(self).pretty == old(self).pretty,
            final(self).namespace == old(self).namespace,
            r is Ok ==> !final(self).opened && final(self).output() == old(self).output()
                + tag_end_if(old(self).opened),
            r is Err ==> r->Err_0 is Io,
    {
        if self.opened {
            self.put_str(">")?;
            self.opened = false;
        } else {
            assert(self.text@ + tag_end_if(false) =~= self.text@);
        }
        Ok(())
    }

    /// Writes the indentation for the current depth.
    fn indent(&mut self) -> (r: Result<(), XmlError>)
        requires
            old(self).wf(),
        ensures
            final(self).wf(),
            old(self).keeps(final(self)),
            old(self).infallible() ==> r is Ok,
            !(old(self).pretty && old(self).stack@.len() > 0) ==> r is Ok && final(self).output() == old(self).output(),
            final(self).stack == old(self).stack,
            final(self).ns_stack == old(self).ns_stack,
            final(self).opened == old(self).opened,
            final(self).pretty == old(self).pretty,
            final(self).namespace == old(self).namespace,
            r is Ok ==> final(self).output() == old(self).output() + indentation(
                old(self).pretty,
                old(self).stack@.len(),
            ),
            r is Err ==> r->Err_0 is Io,
    {
        if self.pretty && self.stack.len() > 0 {
            self.put_str("\n")?;
            let depth = self.stack.len();
            let mut i: usize = 0;
            while i < depth
                invariant
                    self.wf(),
                    old(self).keeps(self),
                    self.stack == old(self).stack,
                    self.ns_stack == old(self).ns_stack,
                    self.opened == old(self).opened,
                    self.pretty == old(self).pretty,
                    self.namespace == old(self).namespace,
                    i <= depth,
                    old(self).pretty,
                    depth > 0,
                    depth == self.stack@.len(),
                    self.output() == old(self).output() + "\n"@ + spaces(2 * i as nat),
                decreases depth - i,
            {
                self.put_str("  ")?;
                proof {
                    reveal_strlit("  ");
                    assert(spaces(2 * i as nat) + "  "@ =~= spaces(2 * (i + 1) as nat));
                    assert(old(self).output() + "\n"@ + spaces(2 * i as nat) + "  "@ =~= old(
                        self,
                    ).output() + "\n"@ + spaces(2 * (i + 1) as nat));
                }
                i += 1;
            }
            assert(self.output() =~= old(self).output() + ("\n"@ + spaces(2 * depth as nat)));
        } else {
            assert(self.text@ + Seq::<char>::empty() =~= self.text@);
        }
        Ok(())
    }

    /// Writes `prefix:` for the given namespace, or nothing without one.
    fn ns_prefix(&mut self, namespace: Option<&'a str>) -> (r: Result<(), XmlError>)
        requires
            old(self).wf(),
        ensures
            final(self).wf(),
            old(self).keeps(final(self)),
            old(self).infallible() ==> r is Ok,
            namespace is None ==> r is Ok && final(self).output() == old(self).output(),
            final(self).stack == old(self).stack,
            final(self).ns_stack == old(self).ns_stack,
            final(self).opened == old(self).opened,
            final(self).pretty == old(self).pretty,
            final(self).namespace == old(self).namespace,
            r is Ok ==> final(self).output() == old(self).output() + prefix_text(ns_view(namespace)),
            r is Err ==> r->Err_0 is Io,
    {
        match namespace {
            Some(ns) => {
                self.put_str(ns)?;
                self.put_str(":")?;
                assert(self.text@ =~= old(self).text@ + (ns@ + ":"@));
            },
            None => {
                assert(self.text@ + Seq::<char>::empty() =~= self.text@);
            },
        }
        Ok(())
    }

    /// Writes `text` through the escaper, identifier mode or not.
    fn escape(&mut self, text: &str, ident: bool) -> (r: Result<(), XmlError>)
        requires
            old(self).wf(),
        ensures
            final(self).wf(),
            old(self).keeps(final(self)),
            old(self).infallible() ==> r is Ok,
            text@.len() == 0 ==> r is Ok && final(self).output() == old(self).output(),
            final(self).stack == old(self).stack,
            final(self).ns_stack == old(self).ns_stack,
            final(self).opened == old(self).opened,
            final(self).pretty == old(self).pretty,
            final(self).namespace == old(self).namespace,
            r is Ok ==> final(self).output() == old(self).output() + escaped(text@, ident),
            r is Err ==> r->Err_0 is Io,
    {
        for c in it: text.chars()
            invariant
                self.wf(),
                old(self).keeps(self),
                self.stack == old(self).stack,
                self.ns_stack == old(self).ns_stack,
                self.opened == old(self).opened,
                self.pretty == old(self).pretty,
                self.namespace == old(self).namespace,
                it.seq() == text@,
                self.output() == old(self).output() + escaped(it.seq().take(it.index() as int), ident),
        {
            if c == '"' {
                self.put_str("&quot;")?;
            } else if c == '\'' {
                self.put_str("&apos;")?;
            } else if c == '&' {
                self.put_str("&amp;")?;
            } else if c == '<' {
                self.put_str("&lt;")?;
            } else if c == '>' {
                self.put_str("&gt;")?;
            } else if c == '\\' && ident {
                self.put_str("\\\\")?;
            } else {
                self.put_char(c)?;
            }
            proof {
                let done = it.seq().take(it.index() as int);
                assert(it.seq().take(it.index() + 1) =~= done.push(c));
                lemma_escaped_push(done, c, ident);
            }
        }
        assert(text@.take(text@.len() as int) =~= text@);
        Ok(())
    }

    /// Opens an element: ends an open start tag, indents, and writes `<`,
    /// the current prefix and `name`. The start tag stays open for attributes.
    pub fn begin_elem(&mut self, name: &'a str) -> (r: Result<(), XmlError>)
        requires
            old(self).wf(),
        ensures
            final(self).wf(),
            old(self).keeps(final(self)),
            old(self).infallible() ==> r is Ok,
            final(self).is_pretty() == old(self).is_pretty(),
            final(self).current_prefix() == old(self).current_prefix(),
            r is Ok ==> old(self).begun(final(self), name@),
            r is Err ==> r->Err_0 is Io,
    {
        self.close_elem()?;
        self.indent()?;
        self.stack.push(name);
        let ns = self.namespace;
        self.ns_stack.push(ns);
        self.put_str("<")?;
        self.opened = true;
        self.ns_prefix(ns)?;
        self.put_str(name)?;
        proof {
            assert(self.elements() =~= old(self).elements().push(name@));
            assert(self.prefixes() =~= old(self).prefixes().push(old(self).current_prefix()));
        }
        Ok(())
    }

    /// Closes the innermost open element: ends an open start tag, then
    /// writes `</prefix:name>` with the prefix it was opened under.
    pub fn end_elem(&mut self) -> (r: Result<(), XmlError>)
        requires
            old(self).wf(),
        ensures
            final(self).wf(),
            old(self).keeps(final(self)),
            old(self).infallible() && old(self).depth() > 0 ==> r is Ok,
            final(self).is_pretty() == old(self).is_pretty(),
            final(self).current_prefix() == old(self).current_prefix(),
            old(self).depth() == 0 ==> r is Err && r->Err_0 is NothingToClose,
            old(self).depth() == 0 ==> final(self).same_state(old(self)),
            old(self).depth() == 0 ==> final(self).output() == old(self).output(),
            old(self).depth() > 0 && r is Ok ==> old(self).ended(final(self)),
            old(self).depth() > 0 && r is Err ==> r->Err_0 is Io,
    {
        if self.stack.len() == 0 {
            return Err(XmlError::NothingToClose);
        }
        self.close_elem()?;
        let ns = self.ns_stack.pop().unwrap();
        let name = self.stack.pop().unwrap();
        self.put_str("</")?;
        self.ns_prefix(ns)?;
        self.put_str(name)?;
        self.put_str(">")?;
        proof {
            assert(self.elements() =~= old(self).elements().drop_last());
            assert(self.prefixes() =~= old(self).prefixes().drop_last());
            assert(self.output() =~= old(self).output() + tag_end_if(old(self).is_open()) + end_tag(
                old(self).prefixes().last(),
                old(self).elements().last(),
            ));
        }
        Ok(())
    }

    /// Writes the XML declaration naming `encoding`. It belongs before the
    /// first element; nothing enforces that.
    pub fn dtd(&mut self, encoding: &str) -> (r: Result<(), XmlError>)
        requires
            old(self).wf(),
        ensures
            final(self).wf(),
            old(self).keeps(final(self)),
            old(self).infallible() ==> r is Ok,
            final(self).same_state(old(self)),
            r is Ok ==> final(self).output() == old(self).output() + declaration(encoding@),
            r is Err ==> r->Err_0 is Io,
    {
        self.put_str("<?xml version=\"1.0\" encoding=\"")?;
        self.put_str(encoding)?;
        self.put_str("\" ?>\n")?;
        assert(self.output() =~= old(self).output() + declaration(encoding@));
        Ok(())
    }

    /// Writes one namespace declaration into the open start tag.
    fn ns_attr(&mut self, prefix: Option<&'a str>, uri: &'a str) -> (r: Result<(), XmlError>)
        requires
            old(self).wf(),
        ensures
            final(self).wf(),
            old(self).keeps(final(self)),
            old(self).infallible() ==> r is Ok,
            final(self).stack == old(self).stack,
            final(self).ns_stack == old(self).ns_stack,
            final(self).opened == old(self).opened,
            final(self).pretty == old(self).pretty,
            final(self).namespace == old(self).namespace,
            r is Ok ==> final(self).output() == old(self).output() + attr_text(
                xmlns_name(ns_view(prefix)),
                uri@,
            ),
            r is Err ==> r->Err_0 is Io,
    {
        self.put_str(" ")?;
        self.put_str("xmlns")?;
        match prefix {
            Some(p) => {
                self.put_str(":")?;
                self.put_str(p)?;
            },
            None => {},
        }
        self.put_str("=\"")?;
        self.put_str(uri)?;
        self.put_str("\"")?;
        assert(self.output() =~= old(self).output() + attr_text(xmlns_name(ns_view(prefix)), uri@));
        Ok(())
    }

    /// Writes an `xmlns` or `xmlns:prefix` attribute for each pair into the
    /// open start tag; the URIs are not escaped.
    pub fn ns_decl(&mut self, ns_map: &Vec<(Option<&'a str>, &'a str)>) -> (r: Result<(), XmlError>)
        requires
            old(self).wf(),
        ensures
            final(self).wf(),
            old(self).keeps(final(self)),
            old(self).infallible() && old(self).is_open() ==> r is Ok,
            old(self).is_open() && ns_map@.len() == 0 ==> r is Ok && final(self).output() == old(self).output(),
            final(self).same_state(old(self)),
            !old(self).is_open() ==> r is Err && r->Err_0 is NoOpenElement,
            !old(self).is_open() ==> final(self).output() == old(self).output(),
            old(self).is_open() && r is Ok ==> final(self).output() == old(self).output() + ns_decls(
                ns_map@.map_values(|item: (Option<&'a str>, &'a str)| decl_view(item)),
            ),
            old(self).is_open() && r is Err ==> r->Err_0 is Io,
    {
        if !self.opened {
            return Err(XmlError::NoOpenElement);
        }
        let ghost items = ns_map@.map_values(|item: (Option<&'a str>, &'a str)| decl_view(item));
        let mut i: usize = 0;
        while i < ns_map.len()
            invariant
                self.wf(),
                old(self).keeps(self),
                self.stack == old(self).stack,
                self.ns_stack == old(self).ns_stack,
                self.opened == old(self).opened,
                self.pretty == old(self).pretty,
                self.namespace == old(self).namespace,
                self.opened,
                i <= ns_map@.len(),
                items == ns_map@.map_values(|item: (Option<&'a str>, &'a str)| decl_view(item)),
                self.output() == old(self).output() + ns_decls(items.take(i as int)),
            decreases ns_map@.len() - i,
        {
            let item = ns_map[i];
            self.ns_attr(item.0, item.1)?;
            proof {
                assert(items.take(i + 1).drop_last() =~= items.take(i as int));
            }
            i += 1;
        }
        assert(items.take(ns_map@.len() as int) =~= items);
        Ok(())
    }

    /// Writes a self-closing element `<prefix:name/>`, after ending an open
    /// start tag and indenting.
    pub fn elem(&mut self, name: &str) -> (r: Result<(), XmlError>)
        requires
            old(self).wf(),
        ensures
            final(self).wf(),
            old(self).keeps(final(self)),
            final(self).elements() == old(self).elements(),
            final(self).prefixes() == old(self).prefixes(),
            old(self).infallible() ==> r is Ok,
            r is Ok ==> old(self).tag_ended(final(self)),
            r is Ok ==> final(self).output() == old(self).output() + old(self).lead() + "<"@
                + prefix_text(old(self).current_prefix()) + name@ + "/>"@,
            r is Err ==> r->Err_0 is Io,
    {
        self.close_elem()?;
        self.indent()?;
        self.put_str("<")?;
        let ns = self.namespace;
        self.ns_prefix(ns)?;
        self.put_str(name)?;
        self.put_str("/>")?;
        assert(self.output() =~= old(self).output() + old(self).lead() + "<"@ + prefix_text(
            old(self).current_prefix(),
        ) + name@ + "/>"@);
        Ok(())
    }

    /// Writes `<prefix:name>text</name>` with the text escaped, after ending
    /// an open start tag and indenting. The closing tag carries no prefix.
    pub fn elem_text(&mut self, name: &str, text: &str) -> (r: Result<(), XmlError>)
        requires
            old(self).wf(),
        ensures
            final(self).wf(),
            old(self).keeps(final(self)),
            final(self).elements() == old(self).elements(),
            final(self).prefixes() == old(self).prefixes(),
            old(self).infallible() ==> r is Ok,
            r is Ok ==> old(self).tag_ended(final(self)),
            r is Ok ==> final(self).output() == old(self).output() + old(self).lead() + "<"@
                + prefix_text(old(self).current_prefix()) + name@ + ">"@ + escaped(text@, false)
                + "</"@ + name@ + ">"@,
            r is Err ==> r->Err_0 is Io,
    {
        self.close_elem()?;
        self.indent()?;
        self.put_str("<")?;
        let ns = self.namespace;
        self.ns_prefix(ns)?;
        self.put_str(name)?;
        self.put_str(">")?;
        self.escape(text, false)?;
        self.put_str("</")?;
        self.put_str(name)?;
        self.put_str(">")?;
        assert(self.output() =~= old(self).output() + old(self).lead() + "<"@ + prefix_text(
            old(self).current_prefix(),
        ) + name@ + ">"@ + escaped(text@, false) + "</"@ + name@ + ">"@);
        Ok(())
    }

    /// Writes an empty element `<prefix:name/>`, as `elem` does.
    pub fn empty_elem(&mut self, name: &'a str) -> (r: Result<(), XmlError>)
        requires
            old(self).wf(),
        ensures
            final(self).wf(),
            old(self).keeps(final(self)),
            final(self).elements() == old(self).elements(),
            final(self).prefixes() == old(self).prefixes(),
            old(self).infallible() ==> r is Ok,
            r is Ok ==> old(self).tag_ended(final(self)),
            r is Ok ==> final(self).output() == old(self).output() + old(self).lead() + "<"@
                + prefix_text(old(self).current_prefix()) + name@ + "/>"@,
            r is Err ==> r->Err_0 is Io,
    {
        self.elem(name)
    }

    /// Writes ` name="value"` into the open start tag, as given.
    pub fn attr(&mut self, name: &str, value: &str) -> (r: Result<(), XmlError>)
        requires
            old(self).wf(),
        ensures
            final(self).wf(),
            old(self).keeps(final(self)),
            old(self).infallible() && old(self).is_open() ==> r is Ok,
            final(self).same_state(old(self)),
            !old(self).is_open() ==> r is Err && r->Err_0 is NoOpenElement,
            !old(self).is_open() ==> final(self).output() == old(self).output(),
            old(self).is_open() && r is Ok ==> final(self).output() == old(self).output()
                + attr_text(name@, value@),
            old(self).is_open() && r is Err ==> r->Err_0 is Io,
    {
        if !self.opened {
            return Err(XmlError::NoOpenElement);
        }
        self.put_str(" ")?;
        self.put_str(name)?;
        self.put_str("=\"")?;
        self.put_str(value)?;
        self.put_str("\"")?;
        assert(self.output() =~= old(self).output() + attr_text(name@, value@));
        Ok(())
    }

    /// Writes ` name="value"` into the open start tag, the name escaped as an
    /// identifier and the value as text.
    pub fn attr_esc(&mut self, name: &str, value: &str) -> (r: Result<(), XmlError>)
        requires
            old(self).wf(),
        ensures
            final(self).wf(),
            old(self).keeps(final(self)),
            old(self).infallible() && old(self).is_open() ==> r is Ok,
            final(self).same_state(old(self)),
            !old(self).is_open() ==> r is Err && r->Err_0 is NoOpenElement,
            !old(self).is_open() ==> final(self).output() == old(self).output(),
            old(self).is_open() && r is Ok ==> final(self).output() == old(self).output()
                + attr_text(escaped(name@, true), escaped(value@, false)),
            old(self).is_open() && r is Err ==> r->Err_0 is Io,
    {
        if !self.opened {
            return Err(XmlError::NoOpenElement);
        }
        self.put_str(" ")?;
        self.escape(name, true)?;
        self.put_str("=\"")?;
        self.escape(value, false)?;
        self.put_str("\"")?;
        assert(self.output() =~= old(self).output() + attr_text(
            escaped(name@, true),
            escaped(value@, false),
        ));
        Ok(())
    }

    /// Writes `text` escaped, after ending an open start tag.
    pub fn text(&mut self, text: &str) -> (r: Result<(), XmlError>)
        requires
            old(self).wf(),
        ensures
            final(self).wf(),
            old(self).keeps(final(self)),
            old(self).infallible() ==> r is Ok,
            !old(self).is_open() && text@.len() == 0 ==> r is Ok && final(self).output() == old(self).output(),
            final(self).elements() == old(self).elements(),
            final(self).prefixes() == old(self).prefixes(),
            r is Ok ==> old(self).tag_ended(final(self)),
            r is Ok ==> final(self).output() == old(self).output() + tag_end_if(old(self).is_open())
                + escaped(text@, false),
            r is Err ==> r->Err_0 is Io,
    {
        self.close_elem()?;
        self.escape(text, false)
    }

    /// Writes `text` as it is: no escaping, and an open start tag stays open.
    pub fn write(&mut self, text: &str) -> (r: Result<(), XmlError>)
        requires
            old(self).wf(),
        ensures
            final(self).wf(),
            old(self).keeps(final(self)),
            old(self).infallible() ==> r is Ok,
            final(self).same_state(old(self)),
            r is Ok ==> final(self).output() == old(self).output() + text@,
            r is Err ==> r->Err_0 is Io,
    {
        self.put_str(text)
    }

    /// Writes `<![CDATA[cdata]]>` after ending an open start tag; `cdata` is
    /// written as it is.
    pub fn cdata(&mut self, cdata: &str) -> (r: Result<(), XmlError>)
        requires
            old(self).wf(),
        ensures
            final(self).wf(),
            old(self).keeps(final(self)),
            final(self).elements() == old(self).elements(),
            final(self).prefixes() == old(self).prefixes(),
            old(self).infallible() ==> r is Ok,
            r is Ok ==> old(self).tag_ended(final(self)),
            r is Ok ==> final(self).output() == old(self).output() + tag_end_if(old(self).is_open())
                + "<![CDATA["@ + cdata@ + "]]>"@,
            r is Err ==> r->Err_0 is Io,
    {
        self.close_elem()?;
        self.put_str("<![CDATA[")?;
        self.put_str(cdata)?;
        self.put_str("]]>")?;
        assert(self.output() =~= old(self).output() + tag_end_if(old(self).is_open())
            + "<![CDATA["@ + cdata@ + "]]>"@);
        Ok(())
    }

    /// Writes `<!-- comment -->` with the comment escaped, after ending an
    /// open start tag and indenting.
    pub fn comment(&mut self, comment: &str) -> (r: Result<(), XmlError>)
        requires
            old(self).wf(),
        ensures
            final(self).wf(),
            old(self).keeps(final(self)),
            final(self).elements() == old(self).elements(),
            final(self).prefixes() == old(self).prefixes(),
            old(self).infallible() ==> r is Ok,
            r is Ok ==> old(self).tag_ended(final(self)),
            r is Ok ==> final(self).output() == old(self).output() + old(self).lead() + "<!-- "@
                + escaped(comment@, false) + " -->"@,
            r is Err ==> r->Err_0 is Io,
    {
        self.close_elem()?;
        self.indent()?;
        self.put_str("<!-- ")?;
        self.escape(comment, false)?;
        self.put_str(" -->")?;
        assert(self.output() =~= old(self).output() + old(self).lead() + "<!-- "@ + escaped(
            comment@,
            false,
        ) + " -->"@);
        Ok(())
    }

    /// Closes every open element, innermost first.
    pub fn close(&mut self) -> (r: Result<(), XmlError>)
        requires
            old(self).wf(),
        ensures
            final(self).wf(),
            old(self).keeps(final(self)),
            old(self).infallible() ==> r is Ok,
            old(self).depth() == 0 ==> r is Ok && final(self).same_state(old(self)) && final(self).output() == old(self).output(),
            final(self).is_pretty() == old(self).is_pretty(),
            final(self).current_prefix() == old(self).current_prefix(),
            r is Ok ==> final(self).depth() == 0 && final(self).prefixes().len() == 0,
            r is Ok ==> !final(self).is_open(),
            r is Ok ==> final(self).output() == old(self).output() + tag_end_if(old(self).is_open())
                + closings(old(self).elements(), old(self).prefixes()),
            r is Err ==> r->Err_0 is Io,
    {
        let n = self.stack.len();
        let mut i: usize = 0;
        while i < n
            invariant
                self.wf(),
                old(self).keeps(self),
                i <= n,
                n == old(self).stack@.len(),
                self.stack@.len() == n - i,
                i == 0 ==> self.output() == old(self).output() && self.same_state(old(self)),
                self.is_pretty() == old(self).is_pretty(),
                self.current_prefix() == old(self).current_prefix(),
                self.output() + tag_end_if(self.is_open()) + closings(self.elements(), self.prefixes())
                    == old(self).output() + tag_end_if(old(self).is_open()) + closings(
                    old(self).elements(),
                    old(self).prefixes(),
                ),
            decreases n - i,
        {
            let ghost before = *self;
            self.end_elem()?;
            proof {
                assert(before.elements().len() == before.stack@.len());
                assert(before.prefixes().len() == before.ns_stack@.len());
                let ts = closings(before.elements(), before.prefixes());
                assert(ts == end_tag(before.prefixes().last(), before.elements().last()) + closings(
                    self.elements(),
                    self.prefixes(),
                ));
                assert(self.output() + tag_end_if(self.is_open()) + closings(
                    self.elements(),
                    self.prefixes(),
                ) =~= before.output() + tag_end_if(before.is_open()) + ts);
            }
            i += 1;
        }
        proof {
            assert(self.elements().len() == 0);
            assert(self.output() + tag_end_if(self.is_open()) + closings(self.elements(), self.prefixes())
                =~= self.output());
        }
        Ok(())
    }

    /// Asks the sink to flush.
    pub fn flush(&mut self) -> (r: Result<(), XmlError>)
        requires
            old(self).wf(),
        ensures
            final(self).wf(),
            old(self).keeps(final(self)),
            old(self).infallible() ==> r is Ok,
            final(self).same_state(old(self)),
            final(self).output() == old(self).output(),
            r is Err ==> r->Err_0 is Io,
    {
        match self.writer.flush() {
            Ok(()) => Ok(()),
            Err(e) => Err(XmlError::Io(e)),
        }
    }

    /// Sets the prefix for elements opened from now on; elements already
    /// open keep the prefix they were opened under.
    pub fn set_namespace(&mut self, namespace: Option<&'a str>)
        requires
            old(self).wf(),
        ensures
            final(self).wf(),
            old(self).keeps(final(self)),
            final(self).sink() == old(self).sink(),
            final(self).current_prefix() == ns_view(namespace),
            final(self).elements() == old(self).elements(),
            final(self).prefixes() == old(self).prefixes(),
            final(self).is_open() == old(self).is_open(),
            final(self).is_pretty() == old(self).is_pretty(),
            final(self).output() == old(self).output(),
            final(self).sent() == old(self).sent(),
    {
        self.namespace = namespace;
    }

    /// Turns pretty printing on or off for what is written from now on.
    pub fn set_pretty(&mut self, pretty: bool)
        requires
            old(self).wf(),
        ensures
            final(self).wf(),
            old(self).keeps(final(self)),
            final(self).sink() == old(self).sink(),
            final(self).is_pretty() == pretty,
            final(self).current_prefix() == old(self).current_prefix(),
            final(self).elements() == old(self).elements(),
            final(self).prefixes() == old(self).prefixes(),
            final(self).is_open() == old(self).is_open(),
            final(self).output() == old(self).output(),
            final(self).sent() == old(self).sent(),
    {
        self.pretty = pretty;
    }

    /// Gives the sink back. Elements still open are not closed.
    pub fn into_inner(self) -> (r: W)
        ensures
            r == self.sink(),
    {
        self.writer
    }
}

} // verus!
