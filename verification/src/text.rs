//! Plain text transformations: trimming trailing whitespace and
//! HTML-escaping the reserved characters `&`, `<`, `>` and `"`.

use vstd::prelude::*;
use vstd::string::StrSliceExecFns;

verus! {

/// The characters with the Unicode `White_Space` property, the ones that
/// `str::trim_end` removes.
pub open spec fn is_ws(c: char) -> bool {
    ||| c == ' '
    ||| c == '\t'
    ||| c == '\n'
    ||| c == '\u{b}'
    ||| c == '\u{c}'
    ||| c == '\r'
    ||| c == '\u{85}'
    ||| c == '\u{a0}'
    ||| c == '\u{1680}'
    ||| ('\u{2000}' <= c && c <= '\u{200a}')
    ||| c == '\u{2028}'
    ||| c == '\u{2029}'
    ||| c == '\u{202f}'
    ||| c == '\u{205f}'
    ||| c == '\u{3000}'
}

/// Decides `is_ws` executably.
pub fn is_ws_char(c: char) -> (r: bool)
    ensures
        r == is_ws(c),
{
    c == ' ' || c == '\t' || c == '\n' || c == '\u{b}' || c == '\u{c}' || c == '\r'
        || c == '\u{85}' || c == '\u{a0}' || c == '\u{1680}'
        || ('\u{2000}' <= c && c <= '\u{200a}') || c == '\u{2028}' || c == '\u{2029}'
        || c == '\u{202f}' || c == '\u{205f}' || c == '\u{3000}'
}

/// `s` with every trailing whitespace character removed.
pub open spec fn trimmed_end(s: Seq<char>) -> Seq<char>
    decreases s.len(),
{
    if s.len() == 0 {
        s
    } else if is_ws(s.last()) {
        trimmed_end(s.drop_last())
    } else {
        s
    }
}

/// Dropping whitespace from the end leaves the trimmed value unchanged.
proof fn lemma_trim_drop_last(s: Seq<char>)
    requires
        s.len() > 0,
        is_ws(s.last()),
    ensures
        trimmed_end(s) == trimmed_end(s.drop_last()),
{
}

/// A sequence that does not end in whitespace is its own trimmed value.
proof fn lemma_trim_noop(s: Seq<char>)
    requires
        s.len() == 0 || !is_ws(s.last()),
    ensures
        trimmed_end(s) == s,
{
}

/// Removes trailing whitespace, leaving leading whitespace in place.
pub fn trim_end<'a>(s: &'a str) -> (r: &'a str)
    ensures
        r@ == trimmed_end(s@),
{
    let mut end: usize = s.unicode_len();
    proof {
        assert(s@.subrange(0, end as int) =~= s@);
    }
    while end > 0 && is_ws_char(s.get_char(end - 1))
        invariant
            end <= s@.len(),
            trimmed_end(s@.subrange(0, end as int)) == trimmed_end(s@),
        decreases end,
    {
        proof {
            let cur = s@.subrange(0, end as int);
            assert(cur.last() == s@[end - 1]);
            assert(cur.drop_last() =~= s@.subrange(0, end - 1));
            lemma_trim_drop_last(cur);
        }
        end = end - 1;
    }
    proof {
        lemma_trim_noop(s@.subrange(0, end as int));
    }
    s.substring_char(0, end)
}

/// What one character becomes under HTML text escaping.
pub open spec fn escape_char(c: char) -> Seq<char> {
    if c == '&' {
        seq!['&', 'a', 'm', 'p', ';']
    } else if c == '<' {
        seq!['&', 'l', 't', ';']
    } else if c == '>' {
        seq!['&', 'g', 't', ';']
    } else if c == '"' {
        seq!['&', 'q', 'u', 'o', 't', ';']
    } else {
        seq![c]
    }
}

/// HTML escaping: `&`, `<`, `>` and `"` become entities, every other
/// character is kept.
pub open spec fn escaped(s: Seq<char>) -> Seq<char>
    decreases s.len(),
{
    if s.len() == 0 {
        Seq::empty()
    } else {
        escape_char(s[0]) + escaped(s.skip(1))
    }
}

/// `p` is an initial segment of `s`.
pub open spec fn starts_with(s: Seq<char>, p: Seq<char>) -> bool {
    p.len() <= s.len() && s.subrange(0, p.len() as int) == p
}

/// The entity that stands for `&`.
pub open spec fn amp_entity() -> Seq<char> {
    seq!['&', 'a', 'm', 'p', ';']
}

/// The entity that stands for `<`.
pub open spec fn lt_entity() -> Seq<char> {
    seq!['&', 'l', 't', ';']
}

/// The entity that stands for `>`.
pub open spec fn gt_entity() -> Seq<char> {
    seq!['&', 'g', 't', ';']
}

/// The entity that stands for `"`.
pub open spec fn quot_entity() -> Seq<char> {
    seq!['&', 'q', 'u', 'o', 't', ';']
}

/// The receiving side's decoding of HTML text, in one left-to-right
/// pass: each of the four named entities becomes its character, every
/// other character stands for itself.
pub open spec fn unescaped(s: Seq<char>) -> Seq<char>
    decreases s.len(),
{
    if s.len() == 0 {
        Seq::empty()
    } else if starts_with(s, amp_entity()) {
        seq!['&'] + unescaped(s.skip(5))
    } else if starts_with(s, lt_entity()) {
        seq!['<'] + unescaped(s.skip(4))
    } else if starts_with(s, gt_entity()) {
        seq!['>'] + unescaped(s.skip(4))
    } else if starts_with(s, quot_entity()) {
        seq!['"'] + unescaped(s.skip(6))
    } else {
        seq![s[0]] + unescaped(s.skip(1))
    }
}

/// A character other than `&` at the head decodes as itself.
proof fn lemma_unescape_head_literal(s: Seq<char>)
    requires
        s.len() > 0,
        s[0] != '&',
    ensures
        unescaped(s) == seq![s[0]] + unescaped(s.skip(1)),
{
    assert(!starts_with(s, amp_entity())) by {
        if starts_with(s, amp_entity()) {
            assert(s.subrange(0, 5)[0] == s[0]);
        }
    }
    assert(!starts_with(s, lt_entity())) by {
        if starts_with(s, lt_entity()) {
            assert(s.subrange(0, 4)[0] == s[0]);
        }
    }
    assert(!starts_with(s, gt_entity())) by {
        if starts_with(s, gt_entity()) {
            assert(s.subrange(0, 4)[0] == s[0]);
        }
    }
    assert(!starts_with(s, quot_entity())) by {
        if starts_with(s, quot_entity()) {
            assert(s.subrange(0, 6)[0] == s[0]);
        }
    }
}

/// Decoding distributes over an escaped prefix: what escaping produced
/// decodes back, whatever follows it.
pub proof fn lemma_unescape_escape_append(s: Seq<char>, rest: Seq<char>)
    ensures
        unescaped(escaped(s) + rest) == s + unescaped(rest),
    decreases s.len(),
{
    if s.len() == 0 {
        assert(escaped(s) + rest =~= rest);
        assert(s + unescaped(rest) =~= unescaped(rest));
    } else {
        let c = s[0];
        let x = escaped(s) + rest;
        let tail = escaped(s.skip(1)) + rest;
        assert(x =~= escape_char(c) + tail);
        lemma_unescape_escape_append(s.skip(1), rest);
        if c == '&' {
            assert(x.subrange(0, 5) =~= amp_entity());
            assert(starts_with(x, amp_entity()));
            assert(x.skip(5) =~= tail);
            assert(unescaped(x) =~= s + unescaped(rest));
        } else if c == '<' {
            assert(!starts_with(x, amp_entity())) by {
                if starts_with(x, amp_entity()) {
                    assert(x.subrange(0, 5)[1] == x[1]);
                }
            }
            assert(x.subrange(0, 4) =~= lt_entity());
            assert(starts_with(x, lt_entity()));
            assert(x.skip(4) =~= tail);
            assert(unescaped(x) =~= s + unescaped(rest));
        } else if c == '>' {
            assert(!starts_with(x, amp_entity())) by {
                if starts_with(x, amp_entity()) {
                    assert(x.subrange(0, 5)[1] == x[1]);
                }
            }
            assert(!starts_with(x, lt_entity())) by {
                if starts_with(x, lt_entity()) {
                    assert(x.subrange(0, 4)[1] == x[1]);
                }
            }
            assert(x.subrange(0, 4) =~= gt_entity());
            assert(starts_with(x, gt_entity()));
            assert(x.skip(4) =~= tail);
            assert(unescaped(x) =~= s + unescaped(rest));
        } else if c == '"' {
            assert(!starts_with(x, amp_entity())) by {
                if starts_with(x, amp_entity()) {
                    assert(x.subrange(0, 5)[1] == x[1]);
                }
            }
            assert(!starts_with(x, lt_entity())) by {
                if starts_with(x, lt_entity()) {
                    assert(x.subrange(0, 4)[1] == x[1]);
                }
            }
            assert(!starts_with(x, gt_entity())) by {
                if starts_with(x, gt_entity()) {
                    assert(x.subrange(0, 4)[1] == x[1]);
                }
            }
            assert(x.subrange(0, 6) =~= quot_entity());
            assert(starts_with(x, quot_entity()));
            assert(x.skip(6) =~= tail);
            assert(unescaped(x) =~= s + unescaped(rest));
        } else {
            assert(x[0] == c);
            lemma_unescape_head_literal(x);
            assert(x.skip(1) =~= tail);
            assert(unescaped(x) =~= s + unescaped(rest));
        }
    }
}

/// Escaping round-trip: decoding what escaping produced yields the
/// original text exactly.
pub proof fn lemma_unescape_escape(s: Seq<char>)
    ensures
        unescaped(escaped(s)) == s,
{
    lemma_unescape_escape_append(s, Seq::empty());
    assert(escaped(s) + Seq::<char>::empty() =~= escaped(s));
    assert(unescaped(Seq::<char>::empty()) =~= Seq::<char>::empty());
    assert(s + Seq::<char>::empty() =~= s);
}

/// Decoding leaves a prefix without `&` untouched.
pub proof fn lemma_unescape_literal_prefix(t: Seq<char>, rest: Seq<char>)
    requires
        forall|i: int| 0 <= i < t.len() ==> t[i] != '&',
    ensures
        unescaped(t + rest) == t + unescaped(rest),
    decreases t.len(),
{
    if t.len() == 0 {
        assert(t + rest =~= rest);
        assert(t + unescaped(rest) =~= unescaped(rest));
    } else {
        let x = t + rest;
        assert(x[0] == t[0]);
        lemma_unescape_head_literal(x);
        assert(x.skip(1) =~= t.skip(1) + rest);
        lemma_unescape_literal_prefix(t.skip(1), rest);
        assert(unescaped(x) =~= t + unescaped(rest));
    }
}

/// An initial segment is decided by comparing characters.
proof fn lemma_starts_with_chars(s: Seq<char>, p: Seq<char>)
    ensures
        starts_with(s, p) <==> (p.len() <= s.len() && forall|k: int|
            0 <= k < p.len() ==> s[k] == p[k]),
{
    if p.len() <= s.len() {
        if forall|k: int| 0 <= k < p.len() ==> s[k] == p[k] {
            assert(s.subrange(0, p.len() as int) =~= p);
        }
        if starts_with(s, p) {
            assert forall|k: int| 0 <= k < p.len() implies s[k] == p[k] by {
                assert(s.subrange(0, p.len() as int)[k] == s[k]);
            }
        }
    }
}

/// Relies on `String::push`: it appends exactly the one character.
#[verifier::external_body]
fn push_char(out: &mut String, c: char)
    ensures
        final(out)@ == old(out)@.push(c),
{
    out.push(c);
}

/// Decodes HTML text the way the receiving side does: each of the four
/// named entities becomes its character, everything else is kept.
pub fn unescape(s: &str) -> (r: String)
    ensures
        r@ == unescaped(s@),
{
    let n = s.unicode_len();
    let mut out = String::new();
    let mut i: usize = 0;
    proof {
        assert(s@.skip(0) =~= s@);
        assert(out@ + unescaped(s@) =~= unescaped(s@));
    }
    while i < n
        invariant
            i <= n,
            n == s@.len(),
            unescaped(s@) == out@ + unescaped(s@.skip(i as int)),
        decreases n - i,
    {
        let ghost rest = s@.skip(i as int);
        proof {
            lemma_starts_with_chars(rest, amp_entity());
            lemma_starts_with_chars(rest, lt_entity());
            lemma_starts_with_chars(rest, gt_entity());
            lemma_starts_with_chars(rest, quot_entity());
        }
        let c = s.get_char(i);
        proof {
            assert(rest[0] == s@[i as int]);
        }
        let is_amp = c == '&' && n - i >= 5 && s.get_char(i + 1) == 'a' && s.get_char(i + 2)
            == 'm' && s.get_char(i + 3) == 'p' && s.get_char(i + 4) == ';';
        let is_lt = c == '&' && n - i >= 4 && s.get_char(i + 1) == 'l' && s.get_char(i + 2) == 't'
            && s.get_char(i + 3) == ';';
        let is_gt = c == '&' && n - i >= 4 && s.get_char(i + 1) == 'g' && s.get_char(i + 2) == 't'
            && s.get_char(i + 3) == ';';
        let is_quot = c == '&' && n - i >= 6 && s.get_char(i + 1) == 'q' && s.get_char(i + 2)
            == 'u' && s.get_char(i + 3) == 'o' && s.get_char(i + 4) == 't' && s.get_char(i + 5)
            == ';';
        proof {
            assert forall|k: int| 0 <= k < rest.len() implies rest[k] == s@[i + k] by {}
            assert(is_amp == starts_with(rest, amp_entity()));
            assert(is_lt == starts_with(rest, lt_entity()));
            assert(is_gt == starts_with(rest, gt_entity()));
            assert(is_quot == starts_with(rest, quot_entity()));
        }
        if is_amp {
            push_char(&mut out, '&');
            proof {
                assert(rest.skip(5) =~= s@.skip(i + 5));
                assert(out@ + unescaped(s@.skip(i + 5)) =~= unescaped(s@));
            }
            i = i + 5;
        } else if is_lt {
            push_char(&mut out, '<');
            proof {
                assert(rest.skip(4) =~= s@.skip(i + 4));
                assert(out@ + unescaped(s@.skip(i + 4)) =~= unescaped(s@));
            }
            i = i + 4;
        } else if is_gt {
            push_char(&mut out, '>');
            proof {
                assert(rest.skip(4) =~= s@.skip(i + 4));
                assert(out@ + unescaped(s@.skip(i + 4)) =~= unescaped(s@));
            }
            i = i + 4;
        } else if is_quot {
            push_char(&mut out, '"');
            proof {
                assert(rest.skip(6) =~= s@.skip(i + 6));
                assert(out@ + unescaped(s@.skip(i + 6)) =~= unescaped(s@));
            }
            i = i + 6;
        } else {
            push_char(&mut out, c);
            proof {
                assert(rest.skip(1) =~= s@.skip(i + 1));
                assert(out@ + unescaped(s@.skip(i + 1)) =~= unescaped(s@));
            }
            i = i + 1;
        }
    }
    proof {
        assert(s@.skip(n as int) =~= Seq::<char>::empty());
        assert(out@ =~= unescaped(s@));
    }
    out
}

/// Escaped text holds no `<` and no `>`.
pub proof fn lemma_escaped_no_angle(s: Seq<char>)
    ensures
        forall|i: int|
            0 <= i < escaped(s).len() ==> escaped(s)[i] != '<' && escaped(s)[i] != '>',
    decreases s.len(),
{
    if s.len() > 0 {
        lemma_escaped_no_angle(s.skip(1));
        assert(escaped(s) =~= escape_char(s[0]) + escaped(s.skip(1)));
    }
}

/// Relies on `html_escape::encode_double_quoted_attribute_to_string`: it
/// appends the input to the output, replacing `&` with `&amp;`, `<` with
/// `&lt;`, `>` with `&gt;` and `"` with `&quot;`, and leaving every other
/// character unchanged.
#[verifier::external_body]
pub(crate) fn push_escaped(out: &mut String, s: &str)
    ensures
        final(out)@ == old(out)@ + escaped(s@),
{
    html_escape::encode_double_quoted_attribute_to_string(s, out);
}

} // verus!
