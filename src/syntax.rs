//! The parse tree of a recipe as plain values: a preorder list of nodes, each
//! with its kind, its span in characters and its depth.
use vstd::prelude::*;

verus! {

/// Kind codes of the syntax nodes this library reads (rnix's `SyntaxKind`
/// discriminants).
pub const NODE_APPLY: u16 = 59;
pub const NODE_ATTR_SET: u16 = 61;
pub const NODE_ATTRPATH: u16 = 62;
pub const NODE_ATTRPATH_VALUE: u16 = 63;
pub const NODE_IDENT: u16 = 69;
pub const NODE_LET_IN: u16 = 77;
pub const NODE_STRING: u16 = 90;

/// One step of a preorder walk over the nodes of a parse tree. `Enter` carries
/// the node's kind code and its byte range in the parsed text.
#[derive(Clone, Copy, Debug, PartialEq, Eq, Structural)]
pub enum SyntaxEvent {
    Enter { kind: u16, start: usize, end: usize },
    Leave,
}

/// A node of the parse tree: kind code, character span `start..end` in the
/// text, and depth (the root has depth 0).
#[derive(Clone, Copy, Debug, PartialEq, Eq, Structural)]
pub struct SyntaxNode {
    pub kind: u16,
    pub start: usize,
    pub end: usize,
    pub depth: usize,
}

/// What rnix's parser yields for a text, walked in preorder.
pub uninterp spec fn nix_syntax(text: Seq<char>) -> Seq<SyntaxEvent>;

/// Relies on `rnix::Root::parse` and rowan's `SyntaxNode::preorder`: the
/// enter and leave events of the parse tree of `text`. The parser accepts any
/// text (errors become nodes of the tree), so the walk is a function of the
/// text alone.
#[verifier::external_body]
fn parse_events(text: &str) -> (r: Vec<SyntaxEvent>)
    ensures
        r@ == nix_syntax(text@),
{
    rnix::Root::parse(text).syntax().preorder().map(|e| match e {
        rnix::WalkEvent::Enter(n) => SyntaxEvent::Enter {
            kind: n.kind() as u16,
            start: usize::from(n.text_range().start()),
            end: usize::from(n.text_range().end()),
        },
        rnix::WalkEvent::Leave(_) => SyntaxEvent::Leave,
    }).collect()
}

/// Number of bytes of the UTF-8 encoding of `c`.
pub open spec fn utf8_width(c: char) -> nat {
    if (c as u32) < 0x80 {
        1
    } else if (c as u32) < 0x800 {
        2
    } else if (c as u32) < 0x10000 {
        3
    } else {
        4
    }
}

/// Number of bytes of the UTF-8 encoding of `s`.
pub open spec fn byte_len(s: Seq<char>) -> nat
    decreases s.len(),
{
    if s.len() == 0 {
        0
    } else {
        byte_len(s.drop_last()) + utf8_width(s.last())
    }
}

/// The first character index `k >= from` at which `b` bytes of `text` end.
pub open spec fn char_index_from(text: Seq<char>, b: int, from: int) -> Option<nat>
    decreases text.len() + 1 - from,
{
    if from < 0 || from > text.len() {
        None
    } else if byte_len(text.take(from)) == b {
        Some(from as nat)
    } else {
        char_index_from(text, b, from + 1)
    }
}

/// The character index at which the first `b` bytes of `text` end, if `b`
/// falls on a character boundary.
pub open spec fn char_index(text: Seq<char>, b: int) -> Option<nat> {
    char_index_from(text, b, 0)
}

/// Nodes and current depth after walking `ev`; `None` when a byte range does
/// not fall on character boundaries, is reversed, or a leave has no enter.
pub open spec fn walk(text: Seq<char>, ev: Seq<SyntaxEvent>) -> Option<(Seq<SyntaxNode>, nat)>
    decreases ev.len(),
{
    if ev.len() == 0 {
        Some((Seq::empty(), 0))
    } else {
        match walk(text, ev.drop_last()) {
            None => None,
            Some((ns, d)) => match ev.last() {
                SyntaxEvent::Enter { kind, start, end } => match (
                    char_index(text, start as int),
                    char_index(text, end as int),
                ) {
                    (Some(s), Some(e)) => if s <= e && e <= usize::MAX && d < usize::MAX {
                        Some(
                            (
                                ns.push(
                                    SyntaxNode {
                                        kind,
                                        start: s as usize,
                                        end: e as usize,
                                        depth: d as usize,
                                    },
                                ),
                                d + 1,
                            ),
                        )
                    } else {
                        None
                    },
                    _ => None,
                },
                SyntaxEvent::Leave => if d == 0 {
                    None
                } else {
                    Some((ns, (d - 1) as nat))
                },
            },
        }
    }
}

/// The parse tree of `text` as a preorder node list (empty if the parser's
/// walk could not be read).
pub open spec fn tree_of(text: Seq<char>) -> Seq<SyntaxNode> {
    match walk(text, nix_syntax(text)) {
        Some((ns, _)) => ns,
        None => Seq::empty(),
    }
}

/// Every node's span lies within the text.
pub open spec fn spans_within(nodes: Seq<SyntaxNode>, len: nat) -> bool {
    forall|i: int|
        0 <= i < nodes.len() ==> #[trigger] nodes[i].start <= nodes[i].end && nodes[i].end <= len
}

proof fn lemma_byte_len_step(text: Seq<char>, k: int)
    requires
        0 <= k < text.len(),
    ensures
        byte_len(text.take(k + 1)) == byte_len(text.take(k)) + utf8_width(text[k]),
{
    assert(text.take(k + 1).drop_last() =~= text.take(k));
}

proof fn lemma_byte_len_mono(text: Seq<char>, i: int, j: int)
    requires
        0 <= i <= j <= text.len(),
    ensures
        byte_len(text.take(i)) + (j - i) <= byte_len(text.take(j)),
    decreases j - i,
{
    if i < j {
        lemma_byte_len_mono(text, i, j - 1);
        lemma_byte_len_step(text, j - 1);
    }
}

proof fn lemma_char_index_past(text: Seq<char>, b: int, from: int)
    requires
        0 <= from <= text.len(),
        byte_len(text.take(from)) > b,
    ensures
        char_index_from(text, b, from) is None,
    decreases text.len() + 1 - from,
{
    if from < text.len() {
        lemma_byte_len_mono(text, from, from + 1);
        lemma_char_index_past(text, b, from + 1);
    } else {
        assert(char_index_from(text, b, from + 1) is None);
    }
}

fn utf8_width_of(c: char) -> (w: u128)
    ensures
        w == utf8_width(c),
{
    let u = c as u32;
    if u < 0x80 {
        1
    } else if u < 0x800 {
        2
    } else if u < 0x10000 {
        3
    } else {
        4
    }
}

/// Character index at which the first `b` bytes of `text` end.
fn find_char_index(text: &Vec<char>, b: usize) -> (r: Option<usize>)
    ensures
        r matches Some(k) ==> char_index(text@, b as int) == Some(k as nat),
        r is None ==> char_index(text@, b as int) is None,
{
    let mut k: usize = 0;
    let mut pos: u128 = 0;
    while k < text.len()
        invariant
            k <= text.len(),
            pos == byte_len(text@.take(k as int)),
            pos <= b,
            char_index(text@, b as int) == char_index_from(text@, b as int, k as int),
        decreases text.len() - k,
    {
        if pos == b as u128 {
            return Some(k);
        }
        proof {
            lemma_byte_len_step(text@, k as int);
        }
        pos = pos + utf8_width_of(text[k]);
        k = k + 1;
        if pos > b as u128 {
            proof {
                lemma_char_index_past(text@, b as int, k as int);
            }
            return None;
        }
    }
    if pos == b as u128 {
        Some(k)
    } else {
        proof {
            assert(char_index_from(text@, b as int, k as int + 1) is None);
        }
        None
    }
}

proof fn lemma_walk_stays_none(text: Seq<char>, ev: Seq<SyntaxEvent>, j: int, k: int)
    requires
        0 <= j <= k <= ev.len(),
        walk(text, ev.take(j)) is None,
    ensures
        walk(text, ev.take(k)) is None,
    decreases k - j,
{
    if j < k {
        lemma_walk_stays_none(text, ev, j, k - 1);
        assert(ev.take(k).drop_last() =~= ev.take(k - 1));
    }
}

/// The parse tree of `text` as a preorder node list.
pub fn parse_tree(text: &str, chars: &Vec<char>) -> (r: Vec<SyntaxNode>)
    requires
        chars@ == text@,
    ensures
        r@ == tree_of(text@),
        spans_within(r@, text@.len()),
{
    let events = parse_events(text);
    let mut nodes: Vec<SyntaxNode> = Vec::new();
    let mut depth: usize = 0;
    let mut i: usize = 0;
    while i < events.len()
        invariant
            i <= events.len(),
            events@ == nix_syntax(text@),
            chars@ == text@,
            walk(text@, events@.take(i as int)) == Some((nodes@, depth as nat)),
            spans_within(nodes@, text@.len()),
        decreases events.len() - i,
    {
        proof {
            assert(events@.take(i as int + 1).drop_last() =~= events@.take(i as int));
        }
        match events[i] {
            SyntaxEvent::Enter { kind, start, end } => {
                let s = find_char_index(chars, start);
                let e = find_char_index(chars, end);
                match (s, e) {
                    (Some(s), Some(e)) => {
                        if s <= e && depth < usize::MAX {
                            proof {
                                lemma_char_index_bound(text@, start as int);
                                lemma_char_index_bound(text@, end as int);
                            }
                            nodes.push(SyntaxNode { kind, start: s, end: e, depth });
                            depth = depth + 1;
                        } else {
                            proof {
                                lemma_walk_stays_none(text@, events@, i + 1, events@.len() as int);
                                assert(events@.take(events@.len() as int) =~= events@);
                            }
                            return Vec::new();
                        }
                    },
                    _ => {
                        proof {
                            lemma_walk_stays_none(text@, events@, i + 1, events@.len() as int);
                            assert(events@.take(events@.len() as int) =~= events@);
                        }
                        return Vec::new();
                    },
                }
            },
            SyntaxEvent::Leave => {
                if depth == 0 {
                    proof {
                        lemma_walk_stays_none(text@, events@, i + 1, events@.len() as int);
                        assert(events@.take(events@.len() as int) =~= events@);
                    }
                    return Vec::new();
                }
                depth = depth - 1;
            },
        }
        i = i + 1;
    }
    proof {
        assert(events@.take(events@.len() as int) =~= events@);
    }
    nodes
}

proof fn lemma_walk_spans(text: Seq<char>, ev: Seq<SyntaxEvent>)
    ensures
        walk(text, ev) matches Some((ns, _)) ==> spans_within(ns, text.len()),
    decreases ev.len(),
{
    if ev.len() > 0 {
        lemma_walk_spans(text, ev.drop_last());
        if let SyntaxEvent::Enter { kind, start, end } = ev.last() {
            lemma_char_index_bound(text, start as int);
            lemma_char_index_bound(text, end as int);
            if let Some((ns, d)) = walk(text, ev.drop_last()) {
                if let (Some(s), Some(e)) = (char_index(text, start as int), char_index(text, end as int)) {
                    if s <= e && e <= usize::MAX && d < usize::MAX {
                        let n2 = ns.push(SyntaxNode { kind, start: s as usize, end: e as usize, depth: d as usize });
                        assert forall|i: int| 0 <= i < n2.len() implies #[trigger] n2[i].start <= n2[i].end && n2[i].end <= text.len() by {
                            if i < ns.len() {
                                assert(n2[i] == ns[i]);
                            }
                        }
                    }
                }
            }
        }
    }
}

/// Every node of the parse tree of `text` spans characters of `text`.
pub proof fn lemma_tree_spans(text: Seq<char>)
    ensures
        spans_within(tree_of(text), text.len()),
{
    lemma_walk_spans(text, nix_syntax(text));
}

proof fn lemma_char_index_bound(text: Seq<char>, b: int)
    ensures
        char_index(text, b) matches Some(k) ==> k <= text.len(),
{
    lemma_char_index_from_bound(text, b, 0);
}

proof fn lemma_char_index_from_bound(text: Seq<char>, b: int, from: int)
    ensures
        char_index_from(text, b, from) matches Some(k) ==> from <= k <= text.len(),
    decreases text.len() + 1 - from,
{
    if 0 <= from <= text.len() {
        lemma_char_index_from_bound(text, b, from + 1);
    }
}

} // verus!
