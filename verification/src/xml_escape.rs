use vstd::prelude::*;

verus! {

/// The five predefined XML entities, as character sequences.
pub open spec fn amp_entity() -> Seq<char> {
    seq!['&', 'a', 'm', 'p', ';']
}

pub open spec fn lt_entity() -> Seq<char> {
    seq!['&', 'l', 't', ';']
}

pub open spec fn gt_entity() -> Seq<char> {
    seq!['&', 'g', 't', ';']
}

pub open spec fn quot_entity() -> Seq<char> {
    seq!['&', 'q', 'u', 'o', 't', ';']
}

pub open spec fn apos_entity() -> Seq<char> {
    seq!['&', 'a', 'p', 'o', 's', ';']
}

/// How one character is written inside XML text or attribute content: the
/// five predefined entities stand for their characters, everything else
/// stands for itself.
pub open spec fn escape_char(c: char) -> Seq<char> {
    if c == '&' {
        amp_entity()
    } else if c == '<' {
        lt_entity()
    } else if c == '>' {
        gt_entity()
    } else if c == '"' {
        quot_entity()
    } else if c == '\'' {
        apos_entity()
    } else {
        seq![c]
    }
}

/// A text escaped for XML: each character replaced by `escape_char`.
pub open spec fn escaped(s: Seq<char>) -> Seq<char>
    decreases s.len(),
{
    if s.len() == 0 {
        Seq::empty()
    } else {
        escape_char(s[0]) + escaped(s.drop_first())
    }
}

/// Whether `p` is a prefix of `s`.
pub open spec fn is_prefix(s: Seq<char>, p: Seq<char>) -> bool {
    p.len() <= s.len() && s.take(p.len() as int) == p
}

/// XML text read back: each predefined entity turned into its character,
/// any other character kept as it stands.
pub open spec fn unescaped(s: Seq<char>) -> Seq<char>
    decreases s.len(),
{
    if s.len() == 0 {
        Seq::empty()
    } else if is_prefix(s, amp_entity()) {
        seq!['&'] + unescaped(s.skip(5))
    } else if is_prefix(s, lt_entity()) {
        seq!['<'] + unescaped(s.skip(4))
    } else if is_prefix(s, gt_entity()) {
        seq!['>'] + unescaped(s.skip(4))
    } else if is_prefix(s, quot_entity()) {
        seq!['"'] + unescaped(s.skip(6))
    } else if is_prefix(s, apos_entity()) {
        seq!['\''] + unescaped(s.skip(6))
    } else {
        seq![s[0]] + unescaped(s.drop_first())
    }
}

/// `p` cannot be a prefix of `s` when the two differ at some position
/// inside both.
proof fn lemma_not_prefix_diff(s: Seq<char>, p: Seq<char>, i: int)
    requires
        0 <= i < p.len(),
        i < s.len(),
        s[i] != p[i],
    ensures
        !is_prefix(s, p),
{
    if is_prefix(s, p) {
        assert(s.take(p.len() as int)[i] == s[i]);
    }
}

/// Escaping a text and reading it back returns the text unchanged: the
/// serialized form of every field loses nothing.
pub proof fn lemma_unescape_escape(s: Seq<char>)
    ensures
        unescaped(escaped(s)) == s,
    decreases s.len(),
{
    if s.len() == 0 {
        assert(unescaped(escaped(s)) =~= s);
    } else {
        let c = s[0];
        let rest = s.drop_first();
        lemma_unescape_escape(rest);
        let e = escaped(s);
        assert(e == escape_char(c) + escaped(rest));
        if c == '&' || c == '<' || c == '>' || c == '"' || c == '\'' {
            let ent = escape_char(c);
            assert(e.take(ent.len() as int) =~= ent);
            assert(e.skip(ent.len() as int) =~= escaped(rest));
            // entities other than the right one fail at position 1 or 2
            assert(e[1] == ent[1]);
            if c == '<' {
                lemma_not_prefix_diff(e, amp_entity(), 1);
            } else if c == '>' {
                lemma_not_prefix_diff(e, amp_entity(), 1);
                lemma_not_prefix_diff(e, lt_entity(), 1);
            } else if c == '"' {
                lemma_not_prefix_diff(e, amp_entity(), 1);
                lemma_not_prefix_diff(e, lt_entity(), 1);
                lemma_not_prefix_diff(e, gt_entity(), 1);
            } else if c == '\'' {
                assert(e[2] == ent[2]);
                lemma_not_prefix_diff(e, amp_entity(), 2);
                lemma_not_prefix_diff(e, lt_entity(), 1);
                lemma_not_prefix_diff(e, gt_entity(), 1);
                lemma_not_prefix_diff(e, quot_entity(), 1);
            }
            assert(unescaped(e) =~= seq![c] + unescaped(escaped(rest)));
            assert(unescaped(e) =~= s);
        } else {
            assert(e[0] == c);
            lemma_not_prefix_diff(e, amp_entity(), 0);
            lemma_not_prefix_diff(e, lt_entity(), 0);
            lemma_not_prefix_diff(e, gt_entity(), 0);
            lemma_not_prefix_diff(e, quot_entity(), 0);
            lemma_not_prefix_diff(e, apos_entity(), 0);
            assert(e.drop_first() =~= escaped(rest));
            assert(unescaped(e) =~= seq![c] + unescaped(escaped(rest)));
            assert(unescaped(e) =~= s);
        }
    }
}

} // verus!
