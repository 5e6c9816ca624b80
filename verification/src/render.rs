use vstd::prelude::*;
use vstd::string::StrSliceExecFns;
use vstd::utf8::encode_utf8;

use crate::model::{
    doc_of, DocModel, EntryModel, FeedDocument, FeedEntry, KemonoFeed, KemonoPost, Timestamp,
};
use crate::xml_escape::{escape_char, escaped};

verus! {

/// The decimal digit character of a value below ten.
pub open spec fn dig(d: int) -> char {
    if d == 0 {
        '0'
    } else if d == 1 {
        '1'
    } else if d == 2 {
        '2'
    } else if d == 3 {
        '3'
    } else if d == 4 {
        '4'
    } else if d == 5 {
        '5'
    } else if d == 6 {
        '6'
    } else if d == 7 {
        '7'
    } else {
        if d == 8 {
            '8'
        } else {
            '9'
        }
    }
}

/// A value below one hundred, zero-padded to two decimal digits.
pub open spec fn two_digits(n: int) -> Seq<char> {
    seq![dig(n / 10), dig(n % 10)]
}

/// A value below ten thousand, zero-padded to four decimal digits.
pub open spec fn four_digits(n: int) -> Seq<char> {
    seq![dig(n / 1000), dig((n / 100) % 10), dig((n / 10) % 10), dig(n % 10)]
}

/// A timestamp in RFC 3339 form, UTC: `YYYY-MM-DDTHH:MM:SSZ`.
pub open spec fn rfc3339_of(t: Timestamp) -> Seq<char> {
    four_digits(t.year as int) + seq!['-'] + two_digits(t.month as int) + seq!['-'] + two_digits(
        t.day as int,
    ) + seq!['T'] + two_digits(t.hour as int) + seq![':'] + two_digits(t.minute as int)
        + seq![':'] + two_digits(t.second as int) + seq!['Z']
}

/// One entry in its wire form.
pub open spec fn rendered_entry(e: EntryModel) -> Seq<char> {
    "<entry><id>"@ + escaped(e.id) + "</id><title>"@ + escaped(e.title) + "</title><updated>"@
        + rfc3339_of(e.updated) + "</updated><link href=\""@ + escaped(e.link)
        + "\" rel=\"alternate\"/>"@ + (match e.summary {
        Some(s) => "<summary type=\"html\">"@ + escaped(s) + "</summary>"@,
        None => Seq::<char>::empty(),
    }) + "</entry>"@
}

/// A sequence of entries in wire form, in order.
pub open spec fn rendered_entries(es: Seq<EntryModel>) -> Seq<char>
    decreases es.len(),
{
    if es.len() == 0 {
        Seq::empty()
    } else {
        rendered_entry(es[0]) + rendered_entries(es.drop_first())
    }
}

/// A whole feed document in its wire form.
pub open spec fn rendered_doc(d: DocModel) -> Seq<char> {
    "<?xml version=\"1.0\" encoding=\"utf-8\"?>"@ + "<feed xmlns=\"http://www.w3.org/2005/Atom\">"@
        + "<id>"@ + escaped(d.id) + "</id>"@ + "<title>"@ + escaped(d.title) + "</title>"@
        + "<updated>"@ + rfc3339_of(d.updated) + "</updated>"@ + "<author><name>"@ + escaped(
        d.author,
    ) + "</name></author>"@ + "<link href=\""@ + escaped(d.link) + "\" rel=\"alternate\"/>"@
        + "<icon>"@ + escaped(d.icon) + "</icon>"@ + rendered_entries(d.entries) + "</feed>"@
}

/// The numeric value of a decimal digit character; ten for any other
/// character.
pub open spec fn digit_val(c: char) -> int {
    if c == '0' {
        0
    } else if c == '1' {
        1
    } else if c == '2' {
        2
    } else if c == '3' {
        3
    } else if c == '4' {
        4
    } else if c == '5' {
        5
    } else if c == '6' {
        6
    } else if c == '7' {
        7
    } else {
        if c == '8' {
            8
        } else {
            if c == '9' {
                9
            } else {
                10
            }
        }
    }
}

/// The value of two decimal digit characters.
pub open spec fn parse_two(s: Seq<char>) -> int {
    digit_val(s[0]) * 10 + digit_val(s[1])
}

/// The value of four decimal digit characters.
pub open spec fn parse_four(s: Seq<char>) -> int {
    digit_val(s[0]) * 1000 + digit_val(s[1]) * 100 + digit_val(s[2]) * 10 + digit_val(s[3])
}

/// The timestamp read back from its RFC 3339 form, by field position.
pub open spec fn ts_of_rfc3339(s: Seq<char>) -> Timestamp {
    Timestamp {
        year: parse_four(s.subrange(0, 4)) as u16,
        month: parse_two(s.subrange(5, 7)) as u8,
        day: parse_two(s.subrange(8, 10)) as u8,
        hour: parse_two(s.subrange(11, 13)) as u8,
        minute: parse_two(s.subrange(14, 16)) as u8,
        second: parse_two(s.subrange(17, 19)) as u8,
    }
}

/// Reading a digit character back gives the digit.
proof fn lemma_digit_val_dig(d: int)
    requires
        0 <= d < 10,
    ensures
        digit_val(dig(d)) == d,
{
}

/// Rendering a timestamp and reading it back returns the timestamp
/// unchanged: the serialized form of every `updated` value loses nothing.
pub proof fn lemma_rfc3339_roundtrip(t: Timestamp)
    requires
        t.wf(),
    ensures
        ts_of_rfc3339(rfc3339_of(t)) == t,
{
    let y = t.year as int;
    let mo = t.month as int;
    let d = t.day as int;
    let h = t.hour as int;
    let mi = t.minute as int;
    let sec = t.second as int;
    let r = rfc3339_of(t);
    assert(r =~= seq![
        dig(y / 1000),
        dig((y / 100) % 10),
        dig((y / 10) % 10),
        dig(y % 10),
        '-',
        dig(mo / 10),
        dig(mo % 10),
        '-',
        dig(d / 10),
        dig(d % 10),
        'T',
        dig(h / 10),
        dig(h % 10),
        ':',
        dig(mi / 10),
        dig(mi % 10),
        ':',
        dig(sec / 10),
        dig(sec % 10),
        'Z',
    ]);
    assert forall|v: int| 0 <= v < 10000 implies #[trigger] (digit_val(dig(v / 1000)) * 1000
        + digit_val(dig((v / 100) % 10)) * 100 + digit_val(dig((v / 10) % 10)) * 10 + digit_val(
        dig(v % 10),
    )) == v by {
        lemma_digit_val_dig(v / 1000);
        lemma_digit_val_dig((v / 100) % 10);
        lemma_digit_val_dig((v / 10) % 10);
        lemma_digit_val_dig(v % 10);
        vstd::arithmetic::div_mod::lemma_fundamental_div_mod(v, 10);
        vstd::arithmetic::div_mod::lemma_fundamental_div_mod(v / 10, 10);
        vstd::arithmetic::div_mod::lemma_fundamental_div_mod(v / 100, 10);
        assert(v / 10 / 10 == v / 100) by (nonlinear_arith);
        assert(v / 100 / 10 == v / 1000) by (nonlinear_arith);
        assert(v / 1000 < 10 && v / 1000 >= 0) by (nonlinear_arith)
            requires
                0 <= v < 10000,
        ;
    }
    assert forall|v: int| 0 <= v < 100 implies #[trigger] (digit_val(dig(v / 10)) * 10 + digit_val(
        dig(v % 10),
    )) == v by {
        lemma_digit_val_dig(v / 10);
        lemma_digit_val_dig(v % 10);
        vstd::arithmetic::div_mod::lemma_fundamental_div_mod(v, 10);
    }
    assert(parse_four(r.subrange(0, 4)) == y);
    assert(parse_two(r.subrange(5, 7)) == mo);
    assert(parse_two(r.subrange(8, 10)) == d);
    assert(parse_two(r.subrange(11, 13)) == h);
    assert(parse_two(r.subrange(14, 16)) == mi);
    assert(parse_two(r.subrange(17, 19)) == sec);
}

/// Every timestamp in the document lies in rendering range.
pub open spec fn doc_wf(d: DocModel) -> bool {
    &&& d.updated.wf()
    &&& forall|i: int| 0 <= i < d.entries.len() ==> (#[trigger] d.entries[i]).updated.wf()
}

/// The decimal digit character of a value below ten.
fn digit_char(d: u16) -> (c: char)
    requires
        d < 10,
    ensures
        c == dig(d as int),
{
    match d {
        0 => '0',
        1 => '1',
        2 => '2',
        3 => '3',
        4 => '4',
        5 => '5',
        6 => '6',
        7 => '7',
        8 => '8',
        _ => '9',
    }
}

/// Appends every character of `s` to `out`.
fn append_str(out: &mut Vec<char>, s: &str)
    ensures
        final(out)@ == old(out)@ + s@,
{
    let ghost out0 = out@;
    let n = s.unicode_len();
    let mut i: usize = 0;
    while i < n
        invariant
            n == s@.len(),
            i <= n,
            out@ == out0 + s@.take(i as int),
        decreases n - i,
    {
        let c = s.get_char(i);
        out.push(c);
        proof {
            assert(s@.take(i + 1) =~= s@.take(i as int).push(s@[i as int]));
            assert(out0 + s@.take(i + 1) =~= (out0 + s@.take(i as int)).push(s@[i as int]));
        }
        i += 1;
    }
    proof {
        assert(s@.take(n as int) =~= s@);
    }
}

/// Escaping distributes over appending one character at the end.
proof fn lemma_escaped_push(t: Seq<char>, c: char)
    ensures
        escaped(t.push(c)) == escaped(t) + escape_char(c),
    decreases t.len(),
{
    if t.len() == 0 {
        assert(t.push(c)[0] == c);
        assert(t.push(c).drop_first() =~= t);
        assert(escaped(t.push(c)) =~= escape_char(c) + escaped(t));
        assert(escaped(t.push(c)) =~= escape_char(c));
        assert(escaped(t) + escape_char(c) =~= escape_char(c));
    } else {
        lemma_escaped_push(t.drop_first(), c);
        assert(t.push(c).drop_first() =~= t.drop_first().push(c));
        assert(t.push(c)[0] == t[0]);
        assert(escaped(t.push(c)) =~= escaped(t) + escape_char(c));
    }
}

/// Appends `s` to `out` in XML-escaped form.
fn append_escaped(out: &mut Vec<char>, s: &str)
    ensures
        final(out)@ == old(out)@ + escaped(s@),
{
    let ghost out0 = out@;
    let n = s.unicode_len();
    let mut i: usize = 0;
    while i < n
        invariant
            n == s@.len(),
            i <= n,
            out@ == out0 + escaped(s@.take(i as int)),
        decreases n - i,
    {
        let c = s.get_char(i);
        if c == '&' {
            append_str(out, "&amp;");
            proof {
                reveal_strlit("&amp;");
                assert("&amp;"@ =~= escape_char(c));
            }
        } else if c == '<' {
            append_str(out, "&lt;");
            proof {
                reveal_strlit("&lt;");
                assert("&lt;"@ =~= escape_char(c));
            }
        } else if c == '>' {
            append_str(out, "&gt;");
            proof {
                reveal_strlit("&gt;");
                assert("&gt;"@ =~= escape_char(c));
            }
        } else if c == '"' {
            append_str(out, "&quot;");
            proof {
                reveal_strlit("&quot;");
                assert("&quot;"@ =~= escape_char(c));
            }
        } else if c == '\'' {
            append_str(out, "&apos;");
            proof {
                reveal_strlit("&apos;");
                assert("&apos;"@ =~= escape_char(c));
            }
        } else {
            out.push(c);
            proof {
                assert(seq![c] =~= escape_char(c));
            }
        }
        proof {
            lemma_escaped_push(s@.take(i as int), s@[i as int]);
            assert(s@.take(i + 1) =~= s@.take(i as int).push(s@[i as int]));
            assert(out@ =~= out0 + escaped(s@.take(i + 1)));
        }
        i += 1;
    }
    proof {
        assert(s@.take(n as int) =~= s@);
    }
}

/// Appends a value below one hundred as two decimal digits.
fn append_two_digits(out: &mut Vec<char>, n: u8)
    requires
        n < 100,
    ensures
        final(out)@ == old(out)@ + two_digits(n as int),
{
    let q: u8 = n / 10;
    let r: u8 = n % 10;
    out.push(digit_char(q as u16));
    out.push(digit_char(r as u16));
    proof {
        assert(out@ =~= old(out)@ + two_digits(n as int));
    }
}

/// Appends a value below ten thousand as four decimal digits.
fn append_four_digits(out: &mut Vec<char>, n: u16)
    requires
        n < 10000,
    ensures
        final(out)@ == old(out)@ + four_digits(n as int),
{
    let d0: u16 = n / 1000;
    let d1: u16 = (n / 100) % 10;
    let d2: u16 = (n / 10) % 10;
    let d3: u16 = n % 10;
    out.push(digit_char(d0));
    out.push(digit_char(d1));
    out.push(digit_char(d2));
    out.push(digit_char(d3));
    proof {
        assert(out@ =~= old(out)@ + four_digits(n as int));
    }
}

/// Appends a timestamp in RFC 3339 form, UTC.
fn append_rfc3339(out: &mut Vec<char>, t: &Timestamp)
    requires
        t.wf(),
    ensures
        final(out)@ == old(out)@ + rfc3339_of(*t),
{
    append_four_digits(out, t.year);
    out.push('-');
    append_two_digits(out, t.month);
    out.push('-');
    append_two_digits(out, t.day);
    out.push('T');
    append_two_digits(out, t.hour);
    out.push(':');
    append_two_digits(out, t.minute);
    out.push(':');
    append_two_digits(out, t.second);
    out.push('Z');
    proof {
        assert(out@ =~= old(out)@ + rfc3339_of(*t));
    }
}

/// Appends one entry in its wire form.
#[verifier::rlimit(80)]
fn append_entry(out: &mut Vec<char>, e: &FeedEntry)
    requires
        e.updated.wf(),
    ensures
        final(out)@ == old(out)@ + rendered_entry(e@),
{
    append_str(out, "<entry><id>");
    append_escaped(out, e.id.as_str());
    append_str(out, "</id><title>");
    append_escaped(out, e.title.as_str());
    append_str(out, "</title><updated>");
    append_rfc3339(out, &e.updated);
    append_str(out, "</updated><link href=\"");
    append_escaped(out, e.link.as_str());
    append_str(out, "\" rel=\"alternate\"/>");
    match &e.summary {
        Some(s) => {
            append_str(out, "<summary type=\"html\">");
            append_escaped(out, s.as_str());
            append_str(out, "</summary>");
        },
        None => {},
    }
    append_str(out, "</entry>");
    proof {
        assert(out@ =~= old(out)@ + rendered_entry(e@));
    }
}

/// Concatenated rendering distributes over appending one entry at the end.
#[verifier::rlimit(60)]
proof fn lemma_rendered_entries_push(es: Seq<EntryModel>, e: EntryModel)
    ensures
        rendered_entries(es.push(e)) == rendered_entries(es) + rendered_entry(e),
    decreases es.len(),
{
    if es.len() == 0 {
        assert(es.push(e)[0] == e);
        assert(es.push(e).drop_first() =~= es);
        assert(rendered_entries(es.push(e)) == rendered_entry(e) + rendered_entries(es));
        assert(rendered_entry(e) + rendered_entries(es) =~= rendered_entries(es)
            + rendered_entry(e));
    } else {
        let tail = es.drop_first();
        lemma_rendered_entries_push(tail, e);
        assert(es.push(e).drop_first() =~= tail.push(e));
        assert(es.push(e)[0] == es[0]);
        assert(rendered_entries(es.push(e)) == rendered_entry(es[0]) + (rendered_entries(tail)
            + rendered_entry(e)));
        assert(rendered_entry(es[0]) + (rendered_entries(tail) + rendered_entry(e)) =~= (
        rendered_entry(es[0]) + rendered_entries(tail)) + rendered_entry(e));
    }
}

/// Relies on String's `FromIterator<char>` implementation: collecting
/// characters builds the string of exactly those characters, in order.
#[verifier::external_body]
fn string_from_chars(v: Vec<char>) -> (s: String)
    ensures
        s@ == v@,
{
    v.into_iter().collect()
}

/// Serializes an assembled document to its wire bytes: the UTF-8 encoding
/// of its XML rendering. The assembler always hands over a well-formed
/// document, so serialization has no failure mode.
#[verifier::rlimit(80)]
pub fn render_document(doc: &FeedDocument) -> (r: Vec<u8>)
    requires
        doc_wf(doc@),
    ensures
        r@ == encode_utf8(rendered_doc(doc@)),
{
    let mut out: Vec<char> = Vec::new();
    append_str(&mut out, "<?xml version=\"1.0\" encoding=\"utf-8\"?>");
    append_str(&mut out, "<feed xmlns=\"http://www.w3.org/2005/Atom\">");
    append_str(&mut out, "<id>");
    append_escaped(&mut out, doc.id.as_str());
    append_str(&mut out, "</id>");
    append_str(&mut out, "<title>");
    append_escaped(&mut out, doc.title.as_str());
    append_str(&mut out, "</title>");
    append_str(&mut out, "<updated>");
    append_rfc3339(&mut out, &doc.updated);
    append_str(&mut out, "</updated>");
    append_str(&mut out, "<author><name>");
    append_escaped(&mut out, doc.author.as_str());
    append_str(&mut out, "</name></author>");
    append_str(&mut out, "<link href=\"");
    append_escaped(&mut out, doc.link.as_str());
    append_str(&mut out, "\" rel=\"alternate\"/>");
    append_str(&mut out, "<icon>");
    append_escaped(&mut out, doc.icon.as_str());
    append_str(&mut out, "</icon>");

    let ghost head = out@;
    let ghost es = doc.entries.deep_view();
    let mut i: usize = 0;
    while i < doc.entries.len()
        invariant
            i <= doc.entries.len(),
            es == doc.entries.deep_view(),
            es.len() == doc.entries@.len(),
            doc_wf(doc@),
            out@ == head + rendered_entries(es.take(i as int)),
        decreases doc.entries.len() - i,
    {
        proof {
            assert(doc@.entries[i as int] == es[i as int]);
        }
        append_entry(&mut out, &doc.entries[i]);
        proof {
            lemma_rendered_entries_push(es.take(i as int), es[i as int]);
            assert(es.take(i + 1) =~= es.take(i as int).push(es[i as int]));
            assert(out@ =~= head + rendered_entries(es.take(i + 1)));
        }
        i += 1;
    }
    proof {
        assert(es.take(es.len() as int) =~= es);
    }
    append_str(&mut out, "</feed>");
    proof {
        assert(out@ =~= rendered_doc(doc@));
    }
    let s = string_from_chars(out);
    s.as_str().as_bytes_vec()
}

/// The whole verified pipeline after the two fetches: assembles the feed
/// from identity, display name and posts, and serializes it to wire bytes.
pub fn render_feed(feed: KemonoFeed<'_>, name: String, posts: Vec<KemonoPost>) -> (r: Vec<u8>)
    requires
        forall|i: int| 0 <= i < posts@.len() ==> (#[trigger] posts@[i])@.published.wf(),
    ensures
        r@ == encode_utf8(rendered_doc(doc_of(feed@, name@, posts.deep_view()))),
{
    let ghost pm = posts.deep_view();
    let doc = crate::model::kemono_feed(feed, name, posts);
    proof {
        assert(forall|i: int|
            0 <= i < pm.len() ==> (#[trigger] doc@.entries[i]).updated == pm[i].published);
        assert(doc_wf(doc@));
    }
    render_document(&doc)
}

} // verus!
