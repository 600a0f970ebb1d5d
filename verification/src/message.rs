//! Building the outgoing message text: an optional right-trimmed title
//! line followed by the escaped, right-trimmed body inside a
//! preformatted block.

use vstd::prelude::*;
use vstd::string::StringExecFns;
use crate::text::{escaped, trim_end, trimmed_end, push_escaped};
use crate::text::{unescaped, lemma_unescape_escape_append, lemma_unescape_literal_prefix,
    lemma_escaped_no_angle};

verus! {

/// The opening tag of the preformatted block.
pub open spec fn pre_open() -> Seq<char> {
    seq!['<', 'p', 'r', 'e', '>']
}

/// The closing tag of the preformatted block.
pub open spec fn pre_close() -> Seq<char> {
    seq!['<', '/', 'p', 'r', 'e', '>']
}

/// The title segment: the trimmed title on a line of its own when a title
/// is present, nothing otherwise.
pub open spec fn title_part(title: Option<Seq<char>>) -> Seq<char> {
    match title {
        Some(t) => trimmed_end(t).push('\n'),
        None => Seq::empty(),
    }
}

/// The whole outgoing message: title segment, then the escaped trimmed
/// body wrapped in the preformatted block.
pub open spec fn message_view(title: Option<Seq<char>>, body: Seq<char>) -> Seq<char> {
    title_part(title) + pre_open() + escaped(trimmed_end(body)) + pre_close()
}

/// The view of an optional borrowed string.
pub open spec fn opt_view(s: Option<&str>) -> Option<Seq<char>> {
    match s {
        Some(t) => Some(t@),
        None => None,
    }
}

/// Builds the message text sent to the chat endpoint.
pub fn format_message(title: Option<&str>, body: &str) -> (r: String)
    ensures
        r@ == message_view(opt_view(title), body@),
{
    let mut msg: String = match title {
        Some(t) => {
            let tt = trim_end(t);
            let mut m = String::from_str(tt);
            m.append("\n");
            proof {
                reveal_strlit("\n");
                assert(m@ =~= title_part(Some(t@)));
            }
            m
        },
        None => String::new(),
    };
    msg.append("<pre>");
    proof {
        reveal_strlit("<pre>");
        assert("<pre>"@ =~= pre_open());
    }
    let bt = trim_end(body);
    push_escaped(&mut msg, bt);
    msg.append("</pre>");
    proof {
        reveal_strlit("</pre>");
        assert("</pre>"@ =~= pre_close());
        assert(msg@ =~= message_view(opt_view(title), body@));
    }
    msg
}

/// `needle` occurs in `hay` at position `i`.
pub open spec fn occurs_at(hay: Seq<char>, needle: Seq<char>, i: int) -> bool {
    0 <= i && i + needle.len() <= hay.len() && hay.subrange(i, i + needle.len() as int) == needle
}

/// The message holds exactly one opening and one closing preformatted
/// tag, around the escaped trimmed body, provided neither tag occurs in
/// the title segment itself. (A title such as `x<pre>` defeats it, since
/// the title is taken over unescaped.)
#[verifier::rlimit(100)]
pub proof fn lemma_single_pre_block(title: Option<Seq<char>>, body: Seq<char>)
    requires
        forall|j: int| !occurs_at(title_part(title), pre_open(), j),
        forall|j: int| !occurs_at(title_part(title), pre_close(), j),
    ensures
        occurs_at(message_view(title, body), pre_open(), title_part(title).len() as int),
        occurs_at(
            message_view(title, body),
            pre_close(),
            title_part(title).len() + 5 + escaped(trimmed_end(body)).len() as int,
        ),
        forall|j: int|
            occurs_at(message_view(title, body), pre_open(), j) ==> j == title_part(title).len(),
        forall|j: int|
            occurs_at(message_view(title, body), pre_close(), j) ==> j == title_part(title).len()
                + 5 + escaped(trimmed_end(body)).len() as int,
{
    let tp = title_part(title);
    let e = escaped(trimmed_end(body));
    let msg = message_view(title, body);
    let tlen = tp.len() as int;
    let elen = e.len() as int;
    lemma_escaped_no_angle(trimmed_end(body));
    assert(msg.len() == tlen + 5 + elen + 6);
    assert(msg.subrange(tlen, tlen + 5) =~= pre_open());
    assert(msg.subrange(tlen + 5 + elen, tlen + 5 + elen + 6) =~= pre_close());
    assert forall|j: int| occurs_at(msg, pre_open(), j) implies j == tlen by {
        assert(msg.subrange(j, j + 5)[0] == msg[j]);
        assert(msg[j] == '<');
        if j + 5 <= tlen {
            assert(msg.subrange(j, j + 5) =~= tp.subrange(j, j + 5));
            assert(occurs_at(tp, pre_open(), j));
            assert(false);
        } else if j < tlen {
            assert(msg.subrange(j, j + 5)[tlen - j] == msg[tlen]);
            assert(msg[tlen] == pre_open()[0]);
            assert(false);
        } else if j < tlen + 5 {
            assert(msg[j] == pre_open()[j - tlen]);
            assert(j == tlen);
        } else if j < tlen + 5 + elen {
            assert(msg[j] == e[j - tlen - 5]);
            assert(false);
        } else {
            assert(msg[j] == pre_close()[j - (tlen + 5 + elen)]);
            assert(j == tlen + 5 + elen);
            assert(msg.subrange(j, j + 5)[1] == msg[j + 1]);
            assert(msg[j + 1] == pre_close()[1]);
            assert(false);
        }
    }
    assert forall|j: int| occurs_at(msg, pre_close(), j) implies j == tlen + 5 + elen by {
        assert(msg.subrange(j, j + 6)[0] == msg[j]);
        assert(msg.subrange(j, j + 6)[1] == msg[j + 1]);
        assert(msg[j] == '<');
        assert(msg[j + 1] == '/');
        if j + 6 <= tlen {
            assert(msg.subrange(j, j + 6) =~= tp.subrange(j, j + 6));
            assert(occurs_at(tp, pre_close(), j));
            assert(false);
        } else if j < tlen {
            assert(msg.subrange(j, j + 6)[tlen - j] == msg[tlen]);
            assert(msg[tlen] == pre_open()[0]);
            assert(false);
        } else if j < tlen + 5 {
            assert(msg[j] == pre_open()[j - tlen]);
            assert(j == tlen);
            assert(msg[j + 1] == pre_open()[1]);
            assert(false);
        } else if j < tlen + 5 + elen {
            assert(msg[j] == e[j - tlen - 5]);
            assert(false);
        } else {
            assert(msg[j] == pre_close()[j - (tlen + 5 + elen)]);
            assert(j == tlen + 5 + elen);
        }
    }
}

/// Decoding the produced message yields the trimmed body between the
/// two tags: the escaping is undone exactly, and the tags themselves
/// pass through the decoder unchanged.
pub proof fn lemma_message_round_trip(body: Seq<char>)
    ensures
        unescaped(message_view(None, body)) == pre_open() + trimmed_end(body) + pre_close(),
{
    let b = trimmed_end(body);
    let msg = message_view(None, body);
    assert(msg =~= pre_open() + (escaped(b) + pre_close()));
    lemma_unescape_literal_prefix(pre_open(), escaped(b) + pre_close());
    lemma_unescape_escape_append(b, pre_close());
    lemma_unescape_literal_prefix(pre_close(), Seq::empty());
    assert(pre_close() + Seq::<char>::empty() =~= pre_close());
    assert(pre_close() + unescaped(Seq::<char>::empty()) =~= pre_close());
    assert(unescaped(msg) =~= pre_open() + trimmed_end(body) + pre_close());
}

} // verus!
