use vstd::prelude::*;

verus! {

/// What one character of text becomes: the five XML specials turn into
/// entities, and a backslash is doubled when an identifier is escaped.
pub open spec fn escape_char(c: char, ident: bool) -> Seq<char> {
    if c == '"' {
        "&quot;"@
    } else if c == '\'' {
        "&apos;"@
    } else if c == '&' {
        "&amp;"@
    } else if c == '<' {
        "&lt;"@
    } else if c == '>' {
        "&gt;"@
    } else if c == '\\' && ident {
        "\\\\"@
    } else {
        seq![c]
    }
}

/// The escaped form of a text: each character replaced by its `escape_char`.
pub open spec fn escaped(s: Seq<char>, ident: bool) -> Seq<char>
    decreases s.len(),
{
    if s.len() == 0 {
        Seq::empty()
    } else {
        escaped(s.drop_last(), ident) + escape_char(s.last(), ident)
    }
}

/// Escaping one more character appends its escaped form.
pub proof fn lemma_escaped_push(s: Seq<char>, c: char, ident: bool)
    ensures
        escaped(s.push(c), ident) == escaped(s, ident) + escape_char(c, ident),
{
    assert(s.push(c).drop_last() =~= s);
}

/// UTF-8 encoding distributes over concatenation.
pub proof fn lemma_encode_utf8_append(a: Seq<char>, b: Seq<char>)
    ensures
        vstd::utf8::encode_utf8(a + b) == vstd::utf8::encode_utf8(a) + vstd::utf8::encode_utf8(b),
    decreases a.len(),
{
    if a.len() == 0 {
        assert(a + b =~= b);
        assert(vstd::utf8::encode_utf8(a) + vstd::utf8::encode_utf8(b) =~= vstd::utf8::encode_utf8(b));
    } else {
        assert((a + b).drop_first() =~= a.drop_first() + b);
        lemma_encode_utf8_append(a.drop_first(), b);
        assert(vstd::utf8::encode_utf8(a + b) =~= vstd::utf8::encode_scalar(a[0] as u32)
            + vstd::utf8::encode_utf8(a.drop_first() + b));
    }
}

/// Whether `c` is one of the five characters that XML text must not hold as
/// they are.
pub open spec fn is_special(c: char) -> bool {
    c == '"' || c == '\'' || c == '&' || c == '<' || c == '>'
}

/// Escaping a concatenation escapes each part.
pub proof fn lemma_escaped_append(a: Seq<char>, b: Seq<char>, ident: bool)
    ensures
        escaped(a + b, ident) == escaped(a, ident) + escaped(b, ident),
    decreases b.len(),
{
    if b.len() == 0 {
        assert(a + b =~= a);
        assert(escaped(a, ident) + escaped(b, ident) =~= escaped(a, ident));
    } else {
        let b0 = b.drop_last();
        assert((a + b).drop_last() =~= a + b0);
        lemma_escaped_append(a, b0, ident);
        assert(escaped(a, ident) + escaped(b0, ident) + escape_char(b.last(), ident) =~= escaped(a, ident)
            + (escaped(b0, ident) + escape_char(b.last(), ident)));
    }
}

/// No escaped character is a quote, an apostrophe or an angle bracket.
proof fn lemma_escape_char_plain(c: char, ident: bool)
    ensures
        forall|j: int|
            0 <= j < escape_char(c, ident).len() ==> {
                let d = #[trigger] escape_char(c, ident)[j];
                d != '"' && d != '\'' && d != '<' && d != '>'
            },
        !is_special(c) && !(c == '\\' && ident) ==> escape_char(c, ident) == seq![c],
{
    reveal_strlit("&quot;");
    reveal_strlit("&apos;");
    reveal_strlit("&amp;");
    reveal_strlit("&lt;");
    reveal_strlit("&gt;");
    reveal_strlit("\\\\");
}

/// Escaping is correct: the output holds no quote, apostrophe or angle
/// bracket; each character of the input stands in the output as its own
/// escaped form, between the escaped text before it and after it; each
/// special becomes its entity; a backslash is doubled in identifier mode and
/// kept as it is otherwise.
#[verifier::rlimit(50)]
pub proof fn lemma_escape_correct(s: Seq<char>, ident: bool)
    ensures
        forall|j: int|
            0 <= j < escaped(s, ident).len() ==> {
                let d = #[trigger] escaped(s, ident)[j];
                d != '"' && d != '\'' && d != '<' && d != '>'
            },
        forall|i: int|
            0 <= i < s.len() ==> escaped(s, ident) == escaped(s.take(i), ident) + #[trigger] escape_char(
                s[i],
                ident,
            ) + escaped(s.skip(i + 1), ident),
        escape_char('"', ident) == "&quot;"@,
        escape_char('\'', ident) == "&apos;"@,
        escape_char('&', ident) == "&amp;"@,
        escape_char('<', ident) == "&lt;"@,
        escape_char('>', ident) == "&gt;"@,
        escape_char('\\', true) == seq!['\\', '\\'],
        escape_char('\\', false) == seq!['\\'],
    decreases s.len(),
{
    reveal_strlit("\\\\");
    if s.len() > 0 {
        lemma_escape_correct(s.drop_last(), ident);
        lemma_escape_char_plain(s.last(), ident);
        let e = escaped(s, ident);
        let p = escaped(s.drop_last(), ident);
        assert forall|j: int| 0 <= j < e.len() implies {
            let d = #[trigger] e[j];
            d != '"' && d != '\'' && d != '<' && d != '>'
        } by {
            if j >= p.len() {
                assert(e[j] == escape_char(s.last(), ident)[j - p.len()]);
            }
        }
        assert forall|i: int| 0 <= i < s.len() implies escaped(s, ident) == escaped(s.take(i), ident)
            + #[trigger] escape_char(s[i], ident) + escaped(s.skip(i + 1), ident) by {
            assert(s =~= s.take(i) + (seq![s[i]] + s.skip(i + 1)));
            lemma_escaped_append(s.take(i), seq![s[i]] + s.skip(i + 1), ident);
            lemma_escaped_append(seq![s[i]], s.skip(i + 1), ident);
            assert(seq![s[i]] =~= Seq::<char>::empty().push(s[i]));
            lemma_escaped_push(Seq::<char>::empty(), s[i], ident);
            assert(escaped(Seq::<char>::empty(), ident) + escape_char(s[i], ident) =~= escape_char(
                s[i],
                ident,
            ));
        }
    }
}

/// Whether one of the five entities starts at position `j` of `e`.
pub open spec fn entity_at(e: Seq<char>, j: int) -> bool {
    ||| (j + 6 <= e.len() && e.subrange(j, j + 6) == "&quot;"@)
    ||| (j + 6 <= e.len() && e.subrange(j, j + 6) == "&apos;"@)
    ||| (j + 5 <= e.len() && e.subrange(j, j + 5) == "&amp;"@)
    ||| (j + 4 <= e.len() && e.subrange(j, j + 4) == "&lt;"@)
    ||| (j + 4 <= e.len() && e.subrange(j, j + 4) == "&gt;"@)
}

/// Every ampersand in escaped text begins an entity: no ampersand of the
/// input is left standing on its own.
pub proof fn lemma_escaped_ampersands(s: Seq<char>, ident: bool)
    ensures
        forall|j: int|
            0 <= j < escaped(s, ident).len() && #[trigger] escaped(s, ident)[j] == '&' ==> entity_at(
                escaped(s, ident),
                j,
            ),
    decreases s.len(),
{
    reveal_strlit("&quot;");
    reveal_strlit("&apos;");
    reveal_strlit("&amp;");
    reveal_strlit("&lt;");
    reveal_strlit("&gt;");
    reveal_strlit("\\\\");
    if s.len() > 0 {
        let p = escaped(s.drop_last(), ident);
        let c = s.last();
        let t = escape_char(c, ident);
        let e = escaped(s, ident);
        lemma_escaped_ampersands(s.drop_last(), ident);
        assert(e == p + t);
        assert forall|j: int| 0 <= j < e.len() && #[trigger] e[j] == '&' implies entity_at(e, j) by {
            if j < p.len() {
                assert(p[j] == '&');
                assert(entity_at(p, j));
                assert forall|k: int, m: int| 0 <= k <= m <= p.len() implies e.subrange(k, m)
                    == p.subrange(k, m) by {
                    assert(e.subrange(k, m) =~= p.subrange(k, m));
                }
            } else {
                assert(t[j - p.len()] == '&');
                assert(e.subrange(p.len() as int, e.len() as int) =~= t);
                if c == '"' {
                    assert(e.subrange(j, j + 6) =~= t);
                } else if c == '\'' {
                    assert(e.subrange(j, j + 6) =~= t);
                } else if c == '&' {
                    assert(e.subrange(j, j + 5) =~= t);
                } else if c == '<' {
                    assert(e.subrange(j, j + 4) =~= t);
                } else if c == '>' {
                    assert(e.subrange(j, j + 4) =~= t);
                } else if c == '\\' && ident {
                    assert(false);
                } else {
                    assert(t == seq![c]);
                    assert(false);
                }
            }
        }
    }
}

/// Text without specials, and without backslashes in identifier mode, is
/// left as it is.
pub proof fn lemma_escape_plain(s: Seq<char>, ident: bool)
    requires
        forall|i: int| 0 <= i < s.len() ==> !is_special(#[trigger] s[i]) && !(s[i] == '\\' && ident),
    ensures
        escaped(s, ident) == s,
    decreases s.len(),
{
    if s.len() > 0 {
        lemma_escape_plain(s.drop_last(), ident);
        lemma_escape_char_plain(s.last(), ident);
        assert(s.drop_last().push(s.last()) =~= s);
    }
}

/// How many times `c` occurs in `s`.
pub open spec fn count(s: Seq<char>, c: char) -> nat
    decreases s.len(),
{
    if s.len() == 0 {
        0
    } else {
        count(s.drop_last(), c) + if s.last() == c {
            1nat
        } else {
            0nat
        }
    }
}

/// Counting over a concatenation adds the counts of the parts.
pub proof fn lemma_count_append(a: Seq<char>, b: Seq<char>, c: char)
    ensures
        count(a + b, c) == count(a, c) + count(b, c),
    decreases b.len(),
{
    if b.len() == 0 {
        assert(a + b =~= a);
    } else {
        assert((a + b).drop_last() =~= a + b.drop_last());
        lemma_count_append(a, b.drop_last(), c);
    }
}

/// A text without `c` counts no `c`.
proof fn lemma_count_absent(s: Seq<char>, c: char)
    requires
        forall|i: int| 0 <= i < s.len() ==> s[i] != c,
    ensures
        count(s, c) == 0,
    decreases s.len(),
{
    if s.len() > 0 {
        lemma_count_absent(s.drop_last(), c);
    }
}

/// The backslashes in one escaped character.
proof fn lemma_count_escape_char(c: char, ident: bool)
    ensures
        count(escape_char(c, ident), '\\') == if c == '\\' {
            if ident {
                2nat
            } else {
                1nat
            }
        } else {
            0nat
        },
{
    reveal_strlit("&quot;");
    reveal_strlit("&apos;");
    reveal_strlit("&amp;");
    reveal_strlit("&lt;");
    reveal_strlit("&gt;");
    reveal_strlit("\\\\");
    let t = escape_char(c, ident);
    if c == '\\' && ident {
        assert(t.drop_last() =~= seq!['\\']);
        assert(t.drop_last().drop_last() =~= Seq::<char>::empty());
        assert(count(t.drop_last().drop_last(), '\\') == 0);
        assert(count(t.drop_last(), '\\') == 1);
        assert(count(t, '\\') == 2);
    } else if is_special(c) {
        lemma_count_absent(t, '\\');
    } else {
        assert(t.drop_last() =~= Seq::<char>::empty());
        assert(count(t.drop_last(), '\\') == 0);
    }
}

/// Backslashes: identifier mode writes two for each one of the input, text
/// mode keeps them as they are.
pub proof fn lemma_escape_backslashes(s: Seq<char>)
    ensures
        count(escaped(s, true), '\\') == 2 * count(s, '\\'),
        count(escaped(s, false), '\\') == count(s, '\\'),
    decreases s.len(),
{
    if s.len() > 0 {
        let c = s.last();
        lemma_escape_backslashes(s.drop_last());
        lemma_count_append(escaped(s.drop_last(), true), escape_char(c, true), '\\');
        lemma_count_append(escaped(s.drop_last(), false), escape_char(c, false), '\\');
        lemma_count_escape_char(c, true);
        lemma_count_escape_char(c, false);
    }
}

} // verus!
