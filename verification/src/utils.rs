//! Utility functions.

use vstd::prelude::*;

verus! {

/// `String::push` appends exactly the given character to the end of the string.
pub assume_specification[ String::push ](s: &mut String, ch: char)
    ensures
        final(s)@ == old(s)@.push(ch),
;

/// No `>` occurs strictly between positions `open` and `end`.
pub open spec fn unclosed(s: Seq<char>, open: int, end: int) -> bool {
    forall|k: int| open < k < end ==> s[k] != '>'
}

/// A tag opened at position `open` is still open just before position `i`.
pub open spec fn opened_at(s: Seq<char>, open: int, i: int) -> bool {
    0 <= open < i <= s.len() && s[open] == '<' && unclosed(s, open, i)
}

/// Position `i` lies inside a tag: some earlier `<` has not yet met its `>`.
pub open spec fn inside_tag(s: Seq<char>, i: int) -> bool {
    exists|open: int| #[trigger] opened_at(s, open, i)
}

/// The character at position `i` survives stripping: it is not a `<`, and it
/// does not lie inside a tag. The `>` that ends a tag lies inside it.
pub open spec fn kept(s: Seq<char>, i: int) -> bool {
    0 <= i < s.len() && s[i] != '<' && !inside_tag(s, i)
}

/// The kept characters among the first `n` of `s`, in order.
pub open spec fn stripped_prefix(s: Seq<char>, n: int) -> Seq<char>
    decreases n,
{
    if n <= 0 {
        Seq::empty()
    } else if kept(s, n - 1) {
        stripped_prefix(s, n - 1).push(s[n - 1])
    } else {
        stripped_prefix(s, n - 1)
    }
}

/// The text with its markup removed: the kept characters of `s`, in order.
pub open spec fn stripped(s: Seq<char>) -> Seq<char> {
    stripped_prefix(s, s.len() as int)
}

/// Reading one more character moves the tag state as a scanner would.
pub proof fn lemma_inside_tag_step(s: Seq<char>, i: int)
    requires
        0 <= i < s.len(),
    ensures
        inside_tag(s, i + 1) == (s[i] == '<' || (s[i] != '>' && inside_tag(s, i))),
{
    if s[i] == '<' {
        assert(opened_at(s, i, i + 1));
    } else if s[i] != '>' && inside_tag(s, i) {
        let open = choose|open: int| #[trigger] opened_at(s, open, i);
        assert(opened_at(s, open, i + 1));
    }
    if inside_tag(s, i + 1) && s[i] != '<' {
        let open = choose|open: int| #[trigger] opened_at(s, open, i + 1);
        assert(open < i);
        assert(opened_at(s, open, i));
    }
}

/// Nothing that survives stripping is a `<`, whatever prefix is taken.
proof fn lemma_stripped_prefix_has_no_open(s: Seq<char>, n: int)
    ensures
        forall|i: int| 0 <= i < stripped_prefix(s, n).len() ==> stripped_prefix(s, n)[i] != '<',
    decreases n,
{
    if n > 0 {
        lemma_stripped_prefix_has_no_open(s, n - 1);
        let before = stripped_prefix(s, n - 1);
        let now = stripped_prefix(s, n);
        assert forall|i: int| 0 <= i < now.len() implies now[i] != '<' by {
            if kept(s, n - 1) && i == before.len() {
                assert(now[i] == s[n - 1]);
            } else {
                assert(now[i] == before[i]);
            }
        }
    }
}

/// A prefix that holds no `<` is kept whole.
proof fn lemma_plain_prefix_unchanged(s: Seq<char>, n: int)
    requires
        0 <= n <= s.len(),
        forall|i: int| 0 <= i < n ==> s[i] != '<',
    ensures
        stripped_prefix(s, n) == s.take(n),
    decreases n,
{
    if n > 0 {
        lemma_plain_prefix_unchanged(s, n - 1);
        let last = n - 1;
        assert(!inside_tag(s, last)) by {
            assert forall|open: int| !#[trigger] opened_at(s, open, last) by {}
        }
        assert(s.take(n - 1).push(s[n - 1]) == s.take(n));
    } else {
        assert(s.take(0) == Seq::<char>::empty());
    }
}

/// Stripped text holds no `<`.
pub proof fn lemma_stripped_has_no_open(s: Seq<char>)
    ensures
        forall|i: int| 0 <= i < stripped(s).len() ==> stripped(s)[i] != '<',
{
    lemma_stripped_prefix_has_no_open(s, s.len() as int);
}

/// Text that holds no `<` passes through unchanged, a bare `>` included.
pub proof fn lemma_plain_text_unchanged(s: Seq<char>)
    requires
        forall|i: int| 0 <= i < s.len() ==> s[i] != '<',
    ensures
        stripped(s) == s,
{
    lemma_plain_prefix_unchanged(s, s.len() as int);
    assert(s.take(s.len() as int) == s);
}

/// Stripping is idempotent: stripping stripped text changes nothing.
pub proof fn lemma_stripped_idempotent(s: Seq<char>)
    ensures
        stripped(stripped(s)) == stripped(s),
{
    lemma_stripped_has_no_open(s);
    lemma_plain_text_unchanged(stripped(s));
}

/// Strips HTML tags from a string.
pub fn strip_html(s: &str) -> (result: String)
    ensures
        result@ == stripped(s@),
{
    let mut in_tag = false;
    let mut result = String::new();

    for c in it: s.chars()
        invariant
            it.seq() == s@,
            in_tag == inside_tag(s@, it.index() as int),
            result@ == stripped_prefix(s@, it.index() as int),
    {
        proof {
            lemma_inside_tag_step(s@, it.index() as int);
        }
        if c == '<' {
            in_tag = true;
        } else if c == '>' && in_tag {
            in_tag = false;
        } else if !in_tag {
            result.push(c);
        }
    }
    result
}

} // verus!
