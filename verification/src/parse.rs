use vstd::prelude::*;

use crate::model::{DocModel, EntryModel, Timestamp};
use crate::render::{
    doc_wf, rendered_doc, rendered_entries, rendered_entry, rfc3339_of, ts_of_rfc3339,
};
use crate::xml_escape::{escape_char, escaped, unescaped};

verus! {

/// The position of the first occurrence of `c` in `s`; `s.len()` when `c`
/// does not occur.
pub open spec fn idx_of(s: Seq<char>, c: char) -> nat
    decreases s.len(),
{
    if s.len() == 0 {
        0
    } else if s[0] == c {
        0
    } else {
        1 + idx_of(s.drop_first(), c)
    }
}

/// When `p` is free of `c` and `q` opens with `c`, the first `c` of `p + q`
/// stands exactly where `p` ends.
proof fn lemma_idx_of_concat(p: Seq<char>, q: Seq<char>, c: char)
    requires
        forall|i: int| 0 <= i < p.len() ==> p[i] != c,
        q.len() > 0,
        q[0] == c,
    ensures
        idx_of(p + q, c) == p.len(),
    decreases p.len(),
{
    if p.len() == 0 {
        assert(p + q =~= q);
    } else {
        lemma_idx_of_concat(p.drop_first(), q, c);
        assert((p + q).drop_first() =~= p.drop_first() + q);
        assert((p + q)[0] == p[0]);
    }
}

/// Escaped text never holds a raw `<` or `"`: both are always written as
/// entities, and the entities themselves use neither character.
proof fn lemma_escaped_no_special(s: Seq<char>)
    ensures
        forall|i: int|
            0 <= i < escaped(s).len() ==> (#[trigger] escaped(s)[i]) != '<' && escaped(s)[i]
                != '"',
    decreases s.len(),
{
    if s.len() > 0 {
        lemma_escaped_no_special(s.drop_first());
        let h = escape_char(s[0]);
        assert(forall|i: int| 0 <= i < h.len() ==> (#[trigger] h[i]) != '<' && h[i] != '"');
        assert(forall|i: int|
            0 <= i < escaped(s).len() ==> escaped(s)[i] == if i < h.len() {
                h[i]
            } else {
                escaped(s.drop_first())[i - h.len()]
            });
    }
}

/// Concatenation re-associates.
proof fn lemma_assoc(a: Seq<char>, b: Seq<char>, c: Seq<char>)
    ensures
        (a + b) + c == a + (b + c),
{
    assert((a + b) + c =~= a + (b + c));
}

/// Taking or skipping exactly the head of a concatenation peels it off.
proof fn lemma_peel(p: Seq<char>, q: Seq<char>, n: int)
    requires
        n == p.len(),
    ensures
        (p + q).take(n) == p,
        (p + q).skip(n) == q,
{
    assert((p + q).take(n) =~= p);
    assert((p + q).skip(n) =~= q);
}

/// The fields of one entry as serialization must preserve them.
#[verifier::ext_equal]
pub ghost struct EntryFields {
    pub id: Seq<char>,
    pub title: Seq<char>,
    pub link: Seq<char>,
    pub updated: Timestamp,
}

/// The preserved fields of an entry model.
pub open spec fn fields_of(e: EntryModel) -> EntryFields {
    EntryFields { id: e.id, title: e.title, link: e.link, updated: e.updated }
}

/// Reads one delimited field: the text must open with `tag` (of length
/// `taglen`); the field is everything up to the first `delim` after it.
/// Hands back the raw field and the remainder from that `delim` on.
pub open spec fn split_field(
    s: Seq<char>,
    taglen: int,
    tag: Seq<char>,
    delim: char,
) -> Option<(Seq<char>, Seq<char>)> {
    if taglen == tag.len() && s.len() >= taglen && s.take(taglen) == tag {
        let r = s.skip(taglen);
        Some((r.take(idx_of(r, delim) as int), r.skip(idx_of(r, delim) as int)))
    } else {
        None
    }
}

/// On a text of the shape `tag + body + w`, with `body` free of the
/// delimiter and `w` opening with it, `split_field` reads back exactly
/// `body` and `w`.
proof fn lemma_split_field(tag: Seq<char>, body: Seq<char>, w: Seq<char>, delim: char)
    requires
        forall|i: int| 0 <= i < body.len() ==> body[i] != delim,
        w.len() > 0,
        w[0] == delim,
    ensures
        split_field(tag + (body + w), tag.len() as int, tag, delim) == Some((body, w)),
{
    let s = tag + (body + w);
    lemma_peel(tag, body + w, tag.len() as int);
    lemma_idx_of_concat(body, w, delim);
    lemma_peel(body, w, body.len() as int);
}

/// Reads past an optional summary element: hands back the remainder, which
/// must open with the entry's closing tag, or `None` when the text fits
/// neither shape.
pub open spec fn skip_summary(r: Seq<char>) -> Option<Seq<char>> {
    if r.len() >= 8 && r.take(8) == "</entry>"@ {
        Some(r)
    } else if r.len() >= 21 && r.take(21) == "<summary type=\"html\">"@ {
        let a = r.skip(21);
        let b = a.skip(idx_of(a, '<') as int);
        if b.len() >= 10 && b.take(10) == "</summary>"@ {
            Some(b.skip(10))
        } else {
            None
        }
    } else {
        None
    }
}

/// The wire form of an optional summary followed by `w` reads past to
/// exactly `w`, which opens with the entry's closing tag.
proof fn lemma_skip_summary(summary: Option<Seq<char>>, rest: Seq<char>)
    ensures
        skip_summary(
            (match summary {
                Some(sm) => "<summary type=\"html\">"@ + escaped(sm) + "</summary>"@,
                None => Seq::<char>::empty(),
            }) + ("</entry>"@ + rest),
        ) == Some("</entry>"@ + rest),
{
    reveal_strlit("<summary type=\"html\">");
    reveal_strlit("</summary>");
    reveal_strlit("</entry>");
    let t6 = "</entry>"@;
    let w1 = t6 + rest;
    lemma_peel(t6, rest, 8);
    match summary {
        Some(sm) => {
            let ts1 = "<summary type=\"html\">"@;
            let ts2 = "</summary>"@;
            let r9 = (ts1 + escaped(sm) + ts2) + w1;
            lemma_assoc(ts1 + escaped(sm), ts2, w1);
            lemma_assoc(ts1, escaped(sm), ts2 + w1);
            assert(r9 == ts1 + (escaped(sm) + (ts2 + w1)));
            assert(r9[1] == 's');
            if r9.len() >= 8 && r9.take(8) == t6 {
                assert(r9.take(8)[1] == r9[1]);
                assert(false);
            }
            lemma_peel(ts1, escaped(sm) + (ts2 + w1), 21);
            let a = r9.skip(21);
            lemma_escaped_no_special(sm);
            assert((ts2 + w1)[0] == '<');
            lemma_idx_of_concat(escaped(sm), ts2 + w1, '<');
            lemma_peel(escaped(sm), ts2 + w1, escaped(sm).len() as int);
            let b = a.skip(idx_of(a, '<') as int);
            assert(b == ts2 + w1);
            lemma_peel(ts2, w1, 10);
            assert(skip_summary(r9) == Some(w1));
        },
        None => {
            assert(Seq::<char>::empty() + w1 =~= w1);
            assert(w1.take(8) == t6);
            assert(skip_summary(w1) == Some(w1));
        },
    }
}

/// Reads the wire form of one entry at the head of the text: each field
/// between its fixed tags, escaped text undone and the timestamp decoded.
/// Hands back the fields and the remainder after the entry's closing tag,
/// or `None` when the text does not open with such an entry.
pub open spec fn parse_one(s: Seq<char>) -> Option<(EntryFields, Seq<char>)> {
    match split_field(s, 11, "<entry><id>"@, '<') {
        Some(p1) => match split_field(p1.1, 12, "</id><title>"@, '<') {
            Some(p2) => {
                let r4 = p2.1;
                if r4.len() >= 37 && r4.take(17) == "</title><updated>"@ {
                    let updated = ts_of_rfc3339(r4.skip(17).take(20));
                    match split_field(r4.skip(37), 22, "</updated><link href=\""@, '"') {
                        Some(p3) => {
                            let r8 = p3.1;
                            if r8.len() >= 19 && r8.take(19) == "\" rel=\"alternate\"/>"@ {
                                match skip_summary(r8.skip(19)) {
                                    Some(r10) => if r10.len() >= 8 && r10.take(8) == "</entry>"@ {
                                        Some(
                                            (
                                                EntryFields {
                                                    id: unescaped(p1.0),
                                                    title: unescaped(p2.0),
                                                    link: unescaped(p3.0),
                                                    updated,
                                                },
                                                r10.skip(8),
                                            ),
                                        )
                                    } else {
                                        None
                                    },
                                    None => None,
                                }
                            } else {
                                None
                            }
                        },
                        None => None,
                    }
                } else {
                    None
                }
            },
            None => None,
        },
        None => None,
    }
}

/// Reads the wire form of an entry sequence back: entries in turn, then the
/// feed's closing tag. `None` when the text is not such a rendering.
pub open spec fn parse_entries(s: Seq<char>) -> Option<Seq<EntryFields>>
    decreases s.len(),
{
    if s == "</feed>"@ {
        Some(Seq::empty())
    } else {
        match parse_one(s) {
            Some(p) => if p.1.len() < s.len() {
                match parse_entries(p.1) {
                    Some(tail) => Some(seq![p.0] + tail),
                    None => None,
                }
            } else {
                None
            },
            None => None,
        }
    }
}

/// One rendered entry at the head of the text reads back as its fields,
/// with the remainder untouched.
#[verifier::rlimit(100)]
proof fn lemma_parse_one_entry(e: EntryModel, rest: Seq<char>)
    requires
        e.updated.wf(),
    ensures
        parse_one(rendered_entry(e) + rest) == Some((fields_of(e), rest)),
        rendered_entry(e) + rest != "</feed>"@,
        (rendered_entry(e) + rest).len() > rest.len(),
{
    reveal_strlit("<entry><id>");
    reveal_strlit("</id><title>");
    reveal_strlit("</title><updated>");
    reveal_strlit("</updated><link href=\"");
    reveal_strlit("\" rel=\"alternate\"/>");
    reveal_strlit("</entry>");
    reveal_strlit("</feed>");

    let t1 = "<entry><id>"@;
    let t2 = "</id><title>"@;
    let t3 = "</title><updated>"@;
    let t4 = "</updated><link href=\""@;
    let t5 = "\" rel=\"alternate\"/>"@;
    let t6 = "</entry>"@;
    let idf = escaped(e.id);
    let tit = escaped(e.title);
    let lnk = escaped(e.link);
    let stamp = rfc3339_of(e.updated);
    let smy = match e.summary {
        Some(sm) => "<summary type=\"html\">"@ + escaped(sm) + "</summary>"@,
        None => Seq::<char>::empty(),
    };
    let s = rendered_entry(e) + rest;

    // re-associate the rendering to the right, one layer at a time
    let c1 = t1 + idf;
    let c2 = c1 + t2;
    let c3 = c2 + tit;
    let c4 = c3 + t3;
    let c5 = c4 + stamp;
    let c6 = c5 + t4;
    let c7 = c6 + lnk;
    let c8 = c7 + t5;
    let c9 = c8 + smy;
    assert(rendered_entry(e) == c9 + t6);
    let w1 = t6 + rest;
    lemma_assoc(c9, t6, rest);
    let w2 = smy + w1;
    lemma_assoc(c8, smy, w1);
    let w3 = t5 + w2;
    lemma_assoc(c7, t5, w2);
    let w4 = lnk + w3;
    lemma_assoc(c6, lnk, w3);
    let w5 = t4 + w4;
    lemma_assoc(c5, t4, w4);
    let w6 = stamp + w5;
    lemma_assoc(c4, stamp, w5);
    let w7 = t3 + w6;
    lemma_assoc(c3, t3, w6);
    let w8 = tit + w7;
    lemma_assoc(c2, tit, w7);
    let w9 = t2 + w8;
    lemma_assoc(c1, t2, w8);
    lemma_assoc(t1, idf, w9);
    assert(s == t1 + (idf + w9));

    // not the feed's closing tag, and strictly longer than the remainder
    assert(s[1] == 'e');
    assert(s != "</feed>"@);
    assert(s.len() > rest.len());

    // the id and the title
    lemma_escaped_no_special(e.id);
    assert(w9[0] == '<');
    lemma_split_field(t1, idf, w9, '<');
    assert(split_field(s, 11, t1, '<') == Some((idf, w9)));
    lemma_escaped_no_special(e.title);
    assert(w7[0] == '<');
    lemma_split_field(t2, tit, w7, '<');
    assert(split_field(w9, 12, t2, '<') == Some((tit, w7)));

    // the timestamp
    crate::render::lemma_rfc3339_roundtrip(e.updated);
    assert(stamp.len() == 20);
    lemma_peel(t3, w6, 17);
    lemma_peel(stamp, w5, 20);
    assert(w7.take(17) == t3);
    assert(w7.skip(17).take(20) == stamp);
    assert(w7.skip(17) == w6);
    assert(w6.skip(20) == w5);
    assert(w7.skip(37) == w5) by {
        assert(w7.skip(37) =~= w7.skip(17).skip(20));
    }

    // the link
    lemma_escaped_no_special(e.link);
    assert(w3[0] == '"');
    lemma_split_field(t4, lnk, w3, '"');
    assert(split_field(w5, 22, t4, '"') == Some((lnk, w3)));

    // the link element's closing text, the summary, the closing tag
    lemma_peel(t5, w2, 19);
    assert(w3.take(19) == t5);
    assert(w3.skip(19) == w2);
    lemma_skip_summary(e.summary, rest);
    assert(skip_summary(w2) == Some(w1));
    lemma_peel(t6, rest, 8);
    assert(w1.take(8) == t6);
    assert(w1.skip(8) == rest);

    crate::xml_escape::lemma_unescape_escape(e.id);
    crate::xml_escape::lemma_unescape_escape(e.title);
    crate::xml_escape::lemma_unescape_escape(e.link);
    assert(parse_one(s) == Some((fields_of(e), rest)));
}

/// Serializing and re-parsing preserves every entry: the wire form of an
/// entry sequence, followed by the feed's closing tag, reads back to
/// exactly the entries' ids, titles, links and timestamps, in order.
#[verifier::rlimit(60)]
pub proof fn lemma_entries_roundtrip(es: Seq<EntryModel>)
    requires
        forall|i: int| 0 <= i < es.len() ==> (#[trigger] es[i]).updated.wf(),
    ensures
        parse_entries(rendered_entries(es) + "</feed>"@) == Some(
            es.map_values(|e: EntryModel| fields_of(e)),
        ),
    decreases es.len(),
{
    let close = "</feed>"@;
    if es.len() == 0 {
        assert(rendered_entries(es) + close =~= close);
        assert(es.map_values(|e: EntryModel| fields_of(e)) =~= Seq::<EntryFields>::empty());
    } else {
        let tail = es.drop_first();
        lemma_entries_roundtrip(tail);
        let rest = rendered_entries(tail) + close;
        assert(rendered_entries(es) == rendered_entry(es[0]) + rendered_entries(tail));
        lemma_assoc(rendered_entry(es[0]), rendered_entries(tail), close);
        let s = rendered_entries(es) + close;
        assert(s == rendered_entry(es[0]) + rest);
        lemma_parse_one_entry(es[0], rest);
        assert(seq![fields_of(es[0])] + tail.map_values(|e: EntryModel| fields_of(e))
            =~= es.map_values(|e: EntryModel| fields_of(e)));
        assert(parse_entries(s) == Some(es.map_values(|e: EntryModel| fields_of(e))));
    }
}

/// Everything of the document's wire form that stands before its entries.
pub open spec fn rendered_header(d: DocModel) -> Seq<char> {
    "<?xml version=\"1.0\" encoding=\"utf-8\"?>"@ + "<feed xmlns=\"http://www.w3.org/2005/Atom\">"@
        + "<id>"@ + escaped(d.id) + "</id>"@ + "<title>"@ + escaped(d.title) + "</title>"@
        + "<updated>"@ + rfc3339_of(d.updated) + "</updated>"@ + "<author><name>"@ + escaped(
        d.author,
    ) + "</name></author>"@ + "<link href=\""@ + escaped(d.link) + "\" rel=\"alternate\"/>"@
        + "<icon>"@ + escaped(d.icon) + "</icon>"@
}

/// Serializing a well-formed document and re-parsing its entry region
/// round-trips every entry's id, title, link and timestamp unchanged, in
/// order.
pub proof fn lemma_doc_roundtrip(d: DocModel)
    requires
        doc_wf(d),
    ensures
        parse_entries(rendered_doc(d).skip(rendered_header(d).len() as int)) == Some(
            d.entries.map_values(|e: EntryModel| fields_of(e)),
        ),
{
    let close = "</feed>"@;
    assert(rendered_doc(d) == (rendered_header(d) + rendered_entries(d.entries)) + close);
    lemma_assoc(rendered_header(d), rendered_entries(d.entries), close);
    lemma_peel(
        rendered_header(d),
        rendered_entries(d.entries) + close,
        rendered_header(d).len() as int,
    );
    lemma_entries_roundtrip(d.entries);
}

} // verus!
