//! The structural editor: a recipe's text together with its parse tree, read
//! by scoped attribute lookup and changed by surgical, format-preserving
//! replacement of string values.
use vstd::prelude::*;

use crate::syntax::{
    parse_tree, spans_within, tree_of, SyntaxNode, NODE_APPLY, NODE_ATTRPATH, NODE_ATTRPATH_VALUE,
    NODE_ATTR_SET, NODE_IDENT, NODE_LET_IN, NODE_STRING,
};
use crate::oracle::oracle_hash;
use crate::oracle::extract_hash;
use crate::text::{
    chars_of, contains_exec, contains_seq, replace_all, replace_all_exec, slice_chars, span_eq,
    string_of, strip_quotes, strip_quotes_span, trim_quotes, trim_quotes_span,
};

verus! {

/// The text of node `i`.
pub open spec fn node_text(ns: Seq<SyntaxNode>, t: Seq<char>, i: int) -> Seq<char> {
    t.subrange(ns[i].start as int, ns[i].end as int)
}

/// Node `j` lies in the subtree of `p`, below `p` itself.
pub open spec fn in_subtree(ns: Seq<SyntaxNode>, p: int, j: int) -> bool {
    0 <= p < j < ns.len() && ns[j].depth > ns[p].depth
}

/// Node `j` is a direct child of `p`, given that it lies in `p`'s subtree.
pub open spec fn is_child(ns: Seq<SyntaxNode>, p: int, j: int) -> bool {
    ns[j].depth == ns[p].depth + 1
}

/// The first child of `p`: in preorder it is the node right after `p`.
pub open spec fn first_child(ns: Seq<SyntaxNode>, p: int) -> Option<int> {
    if 0 <= p && p + 1 < ns.len() && ns[p + 1].depth == ns[p].depth + 1 {
        Some(p + 1)
    } else {
        None
    }
}

/// The first child of `p` exists and its text is `word`.
pub open spec fn first_child_text_is(
    ns: Seq<SyntaxNode>,
    t: Seq<char>,
    p: int,
    word: Seq<char>,
) -> bool {
    first_child(ns, p) matches Some(c) && node_text(ns, t, c) == word
}

/// Value of a string node: its text without double quotes.
pub open spec fn string_value(ns: Seq<SyntaxNode>, t: Seq<char>, i: int) -> Seq<char> {
    strip_quotes(node_text(ns, t, i))
}

/// Value of an attribute entry `e` (scanning its children from `j`) named
/// `name`: the entry must have an attribute path whose first element reads
/// `name`, and its value is its last string (unquoted) or identifier child.
pub open spec fn entry_scan(
    ns: Seq<SyntaxNode>,
    t: Seq<char>,
    e: int,
    j: int,
    name: Seq<char>,
    key: bool,
    val: Option<Seq<char>>,
) -> Option<Seq<char>>
    decreases ns.len() - j,
{
    if !in_subtree(ns, e, j) {
        if key {
            val
        } else {
            None
        }
    } else if is_child(ns, e, j) {
        let key2 = key || (ns[j].kind == NODE_ATTRPATH && first_child_text_is(ns, t, j, name));
        let val2 = if ns[j].kind == NODE_STRING {
            Some(string_value(ns, t, j))
        } else if ns[j].kind == NODE_IDENT {
            Some(node_text(ns, t, j))
        } else {
            val
        };
        entry_scan(ns, t, e, j + 1, name, key2, val2)
    } else {
        entry_scan(ns, t, e, j + 1, name, key, val)
    }
}

/// The value of the first entry of attribute set `p` (children from `j` on)
/// that is named `name` and has a value.
pub open spec fn set_scan(ns: Seq<SyntaxNode>, t: Seq<char>, p: int, j: int, name: Seq<char>) -> Option<
    Seq<char>,
>
    decreases ns.len() - j,
{
    if !in_subtree(ns, p, j) {
        None
    } else if is_child(ns, p, j) && ns[j].kind == NODE_ATTRPATH_VALUE && entry_scan(
        ns,
        t,
        j,
        j + 1,
        name,
        false,
        None,
    ) is Some {
        entry_scan(ns, t, j, j + 1, name, false, None)
    } else {
        set_scan(ns, t, p, j + 1, name)
    }
}

/// Attribute lookup: attribute sets in preorder from node `i`, each searched
/// through its own entries.
pub open spec fn attr_lookup(ns: Seq<SyntaxNode>, t: Seq<char>, i: int, name: Seq<char>) -> Option<
    Seq<char>,
>
    decreases ns.len() - i,
{
    if i < 0 || i >= ns.len() {
        None
    } else if ns[i].kind == NODE_ATTR_SET && set_scan(ns, t, i, i + 1, name) is Some {
        set_scan(ns, t, i, i + 1, name)
    } else {
        attr_lookup(ns, t, i + 1, name)
    }
}

/// The value of the first string child of `b` (children from `j` on).
pub open spec fn first_string(ns: Seq<SyntaxNode>, t: Seq<char>, b: int, j: int) -> Option<Seq<char>>
    decreases ns.len() - j,
{
    if !in_subtree(ns, b, j) {
        None
    } else if is_child(ns, b, j) && ns[j].kind == NODE_STRING {
        Some(string_value(ns, t, j))
    } else {
        first_string(ns, t, b, j + 1)
    }
}

/// In the bindings of `let` node `p` (children from `j` on), the first one
/// named `name` that is bound to a string.
pub open spec fn let_scan(ns: Seq<SyntaxNode>, t: Seq<char>, p: int, j: int, name: Seq<char>) -> Option<
    Seq<char>,
>
    decreases ns.len() - j,
{
    if !in_subtree(ns, p, j) {
        None
    } else if is_child(ns, p, j) && ns[j].kind == NODE_ATTRPATH_VALUE && first_child_text_is(
        ns,
        t,
        j,
        name,
    ) && first_string(ns, t, j, j + 1) is Some {
        first_string(ns, t, j, j + 1)
    } else {
        let_scan(ns, t, p, j + 1, name)
    }
}

/// Local-binding lookup from node `i` in preorder: the first `let` binding of
/// `name` to a string gives its value. Inherited names are not followed, so
/// an `inherit` never yields a value and never ends the search.
pub open spec fn binding_lookup(ns: Seq<SyntaxNode>, t: Seq<char>, i: int, name: Seq<char>) -> Option<
    Seq<char>,
>
    decreases ns.len() - i,
{
    if i < 0 || i >= ns.len() {
        None
    } else if ns[i].kind == NODE_LET_IN && let_scan(ns, t, i, i + 1, name) is Some {
        let_scan(ns, t, i, i + 1, name)
    } else {
        binding_lookup(ns, t, i + 1, name)
    }
}

/// The value of attribute `name` in recipe text `t`: first as an attribute of
/// an attribute set, then as a local binding.
pub open spec fn get_attr(t: Seq<char>, name: Seq<char>) -> Option<Seq<char>> {
    let ns = tree_of(t);
    match attr_lookup(ns, t, 0, name) {
        Some(v) => Some(v),
        None => binding_lookup(ns, t, 0, name),
    }
}

/// Some application in the tree of `t` applies a function whose text
/// contains `function_name`.
pub open spec fn has_call(t: Seq<char>, function_name: Seq<char>) -> bool {
    let ns = tree_of(t);
    exists|i: int|
        0 <= i < ns.len() && #[trigger] ns[i].kind == NODE_APPLY && (first_child(ns, i) matches Some(
            c,
        ) && contains_seq(node_text(ns, t, c), function_name))
}


/// In entry `e` (children from `j` on), the first string child whose value is
/// `old`, once an attribute path whose first element reads `name` was seen.
pub open spec fn find_string(
    ns: Seq<SyntaxNode>,
    t: Seq<char>,
    e: int,
    j: int,
    name: Seq<char>,
    old: Seq<char>,
    found: bool,
) -> Option<int>
    decreases ns.len() - j,
{
    if !in_subtree(ns, e, j) {
        None
    } else if is_child(ns, e, j) {
        if ns[j].kind == NODE_STRING && found && string_value(ns, t, j) == old {
            Some(j)
        } else {
            let found2 = found || (ns[j].kind == NODE_ATTRPATH && first_child_text_is(ns, t, j, name));
            find_string(ns, t, e, j + 1, name, old, found2)
        }
    } else {
        find_string(ns, t, e, j + 1, name, old, found)
    }
}

/// The string node that `set(name, old, _)` rewrites: in the first entry, in
/// preorder from node `i`, that names `name` and holds the string `old`.
pub open spec fn set_target(ns: Seq<SyntaxNode>, t: Seq<char>, i: int, name: Seq<char>, old: Seq<char>) -> Option<int>
    decreases ns.len() - i,
{
    if i < 0 || i >= ns.len() {
        None
    } else if ns[i].kind == NODE_ATTRPATH_VALUE && find_string(ns, t, i, i + 1, name, old, false) is Some {
        find_string(ns, t, i, i + 1, name, old, false)
    } else {
        set_target(ns, t, i + 1, name, old)
    }
}

/// A string's source text holds an interpolation.
pub open spec fn interpolated(s: Seq<char>) -> bool {
    contains_seq(s, "${"@) && contains_seq(s, "}"@)
}

/// The character span `start..end` of the string that `set` would rewrite.
pub open spec fn set_span(t: Seq<char>, name: Seq<char>, old: Seq<char>) -> Option<(int, int)> {
    let ns = tree_of(t);
    match set_target(ns, t, 0, name, old) {
        Some(s) => Some((ns[s].start as int, ns[s].end as int)),
        None => None,
    }
}

/// `new` in double quotes.
pub open spec fn quoted(new: Seq<char>) -> Seq<char> {
    seq!['"'] + new + seq!['"']
}

/// The text after `set(name, old, new)`, or `None` when no attribute named
/// `name` holds the string `old`. An interpolated string is left as it is.
pub open spec fn set_text(t: Seq<char>, name: Seq<char>, old: Seq<char>, new: Seq<char>) -> Option<Seq<char>> {
    match set_span(t, name, old) {
        None => None,
        Some((s, e)) => if interpolated(t.subrange(s, e)) {
            Some(t)
        } else {
            Some(t.take(s) + quoted(new) + t.skip(e))
        },
    }
}

/// The text after an attempted `set`, and whether it succeeded.
pub open spec fn set_or_keep(t: Seq<char>, name: Seq<char>, old: Seq<char>, new: Seq<char>) -> (Seq<char>, bool) {
    match set_text(t, name, old, new) {
        Some(t2) => (t2, true),
        None => (t, false),
    }
}

/// The text after `update_git` and whether every step succeeded: the revision
/// is replaced (and, in the version, every occurrence of the old revision),
/// then the hash, each step only when it has something to replace.
pub open spec fn update_git_text(
    t: Seq<char>,
    old_rev: Option<Seq<char>>,
    new_rev: Seq<char>,
    new_hash: Seq<char>,
    old_hash: Option<Seq<char>>,
) -> (Seq<char>, bool) {
    let (t1, ok1) = if old_rev is Some && new_rev.len() > 0 {
        let o = old_rev.unwrap();
        let (ta, oka) = set_or_keep(t, "rev"@, o, new_rev);
        if !oka {
            (ta, false)
        } else {
            let v = get_attr(ta, "version"@);
            if v is Some && o.len() > 0 && contains_seq(v.unwrap(), o) {
                set_or_keep(ta, "version"@, v.unwrap(), replace_all(v.unwrap(), o, new_rev))
            } else {
                (ta, true)
            }
        }
    } else {
        (t, true)
    };
    if !ok1 {
        (t1, false)
    } else {
        let oh = match old_hash {
            Some(h) => h,
            None => match get_attr(t1, "hash"@) {
                Some(h) => h,
                None => Seq::empty(),
            },
        };
        if oh.len() > 0 && new_hash.len() > 0 {
            set_or_keep(t1, "hash"@, oh, new_hash)
        } else {
            (t1, true)
        }
    }
}

/// The assignment of the empty string to `attr`, as it is written in a recipe.
pub open spec fn empty_assignment(attr: Seq<char>) -> Seq<char> {
    attr + " = "@ + seq!['"', '"']
}

/// The text after the build oracle's output was applied, and whether that
/// succeeded: a failed build whose diagnostics name a hash puts that hash in
/// `<label>Hash`; an absent attribute is filled where it is written as the
/// empty string.
pub open spec fn vendor_text(t: Seq<char>, label: Seq<char>, build_ok: bool, diagnostics: Seq<char>) -> (Seq<char>, bool) {
    if build_ok {
        (t, true)
    } else {
        match oracle_hash(diagnostics) {
            None => (t, true),
            Some(h) => {
                let attr = label + "Hash"@;
                match get_attr(t, attr) {
                    Some(old) => set_or_keep(t, attr, old, h),
                    None => (replace_all(t, empty_assignment(attr), attr + " = "@ + quoted(h)), true),
                }
            },
        }
    }
}

pub open spec fn opt_str(o: Option<&str>) -> Option<Seq<char>> {
    match o {
        Some(s) => Some(s@),
        None => None,
    }
}

/// No attribute holds the value that an edit was to replace.
#[derive(Clone, Copy, Debug, PartialEq, Eq, Structural)]
pub enum EditError {
    NotFound,
}


/// An attribute list: name and value pairs, names unique.
pub type AttrList = Seq<(Seq<char>, Seq<char>)>;

/// Index of the pair named `k` in `acc`, searching from `i`.
pub open spec fn key_index(acc: AttrList, k: Seq<char>, i: int) -> Option<int>
    decreases acc.len() - i,
{
    if i < 0 || i >= acc.len() {
        None
    } else if acc[i].0 == k {
        Some(i)
    } else {
        key_index(acc, k, i + 1)
    }
}

/// `acc` with `k` bound to `v`: in place if `k` is there, else appended.
pub open spec fn upsert(acc: AttrList, k: Seq<char>, v: Seq<char>) -> AttrList {
    match key_index(acc, k, 0) {
        Some(i) => acc.update(i, (k, v)),
        None => acc.push((k, v)),
    }
}

/// The string attributes of the platform attribute set `pv` (children from
/// `j` on), each entry's name bound to its first string value.
pub open spec fn platform_attrs(ns: Seq<SyntaxNode>, t: Seq<char>, pv: int, j: int, acc: AttrList) -> AttrList
    decreases ns.len() - j,
{
    if !in_subtree(ns, pv, j) {
        acc
    } else if is_child(ns, pv, j) && ns[j].kind == NODE_ATTRPATH_VALUE && first_child(ns, j) is Some
        && first_string(ns, t, j, j + 1) is Some {
        let an = first_child(ns, j).unwrap();
        platform_attrs(ns, t, pv, j + 1, upsert(acc, node_text(ns, t, an), first_string(ns, t, j, j + 1).unwrap()))
    } else {
        platform_attrs(ns, t, pv, j + 1, acc)
    }
}

/// The attributes of platform entry `e` (children from `j` on), gathered from
/// each attribute set it holds.
pub open spec fn entry_attrs(ns: Seq<SyntaxNode>, t: Seq<char>, e: int, j: int, acc: AttrList) -> AttrList
    decreases ns.len() - j,
{
    if !in_subtree(ns, e, j) {
        acc
    } else if is_child(ns, e, j) && ns[j].kind == NODE_ATTR_SET {
        entry_attrs(ns, t, e, j + 1, platform_attrs(ns, t, j, j + 1, acc))
    } else {
        entry_attrs(ns, t, e, j + 1, acc)
    }
}

/// A platform block: the platform's name and its string attributes.
pub type BlockV = (Seq<char>, AttrList);

/// The blocks of container set `v` (children from `j` on), appended to
/// `acc`: one per entry with at least one string attribute.
pub open spec fn blocks_in(ns: Seq<SyntaxNode>, t: Seq<char>, v: int, j: int, acc: Seq<BlockV>) -> Seq<BlockV>
    decreases ns.len() - j,
{
    if !in_subtree(ns, v, j) {
        acc
    } else if is_child(ns, v, j) && ns[j].kind == NODE_ATTRPATH_VALUE && first_child(ns, j) is Some {
        let attrs = entry_attrs(ns, t, j, j + 1, Seq::empty());
        let name = trim_quotes(node_text(ns, t, first_child(ns, j).unwrap()));
        blocks_in(ns, t, v, j + 1, if attrs.len() > 0 { acc.push((name, attrs)) } else { acc })
    } else {
        blocks_in(ns, t, v, j + 1, acc)
    }
}

/// The first attribute-set child of `i` (children searched from `j` on).
pub open spec fn first_set_child(ns: Seq<SyntaxNode>, i: int, j: int) -> Option<int>
    decreases ns.len() - j,
{
    if !in_subtree(ns, i, j) {
        None
    } else if is_child(ns, i, j) && ns[j].kind == NODE_ATTR_SET {
        Some(j)
    } else {
        first_set_child(ns, i, j + 1)
    }
}

/// The blocks of container entry `i`, appended to `acc`: those of its first
/// attribute-set child.
pub open spec fn container_blocks(ns: Seq<SyntaxNode>, t: Seq<char>, i: int, acc: Seq<BlockV>) -> Seq<BlockV> {
    match first_set_child(ns, i, i + 1) {
        Some(c) => blocks_in(ns, t, c, c + 1, acc),
        None => acc,
    }
}

/// Entry `i` is a platform container: `platformData = { ... }` or
/// `dists = { ... }`.
pub open spec fn is_container(ns: Seq<SyntaxNode>, t: Seq<char>, i: int) -> bool {
    ns[i].kind == NODE_ATTRPATH_VALUE && (first_child_text_is(ns, t, i, "platformData"@)
        || first_child_text_is(ns, t, i, "dists"@))
}

/// Platform blocks of all containers from node `i` on, in preorder.
pub open spec fn platforms_from(ns: Seq<SyntaxNode>, t: Seq<char>, i: int, acc: Seq<BlockV>) -> Seq<BlockV>
    decreases ns.len() - i,
{
    if i < 0 || i >= ns.len() {
        acc
    } else if is_container(ns, t, i) {
        platforms_from(ns, t, i + 1, container_blocks(ns, t, i, acc))
    } else {
        platforms_from(ns, t, i + 1, acc)
    }
}

/// The platform blocks of recipe text `t`.
pub open spec fn platform_blocks(t: Seq<char>) -> Seq<BlockV> {
    platforms_from(tree_of(t), t, 0, Seq::empty())
}

pub open spec fn pairs_view(v: Seq<(String, String)>) -> AttrList {
    Seq::new(v.len(), |i: int| (v[i].0@, v[i].1@))
}

pub open spec fn blocks_view(v: Seq<PlatformBlock>) -> Seq<BlockV> {
    Seq::new(v.len(), |i: int| v[i]@)
}

/// A platform-specific source variant of a recipe: its name and its string
/// attributes (typically a file name or platform tag, and a hash), each name
/// at most once.
pub struct PlatformBlock {
    pub platform_name: String,
    pub attributes: Vec<(String, String)>,
}

impl View for PlatformBlock {
    type V = BlockV;

    open spec fn view(&self) -> BlockV {
        (self.platform_name@, pairs_view(self.attributes@))
    }
}

impl PlatformBlock {
    /// The value of attribute `key`.
    pub fn get(&self, key: &str) -> (r: Option<String>)
        ensures
            r matches Some(v) ==> key_index(self@.1, key@, 0) matches Some(i) && self@.1[i].1 == v@,
            r is None ==> key_index(self@.1, key@, 0) is None,
    {
        let k = key.to_string();
        let mut i: usize = 0;
        while i < self.attributes.len()
            invariant
                k@ == key@,
                key_index(self@.1, key@, 0) == key_index(self@.1, key@, i as int),
            decreases self.attributes@.len() - i,
        {
            if self.attributes[i].0 == k {
                let v = self.attributes[i].1.clone();
                proof {
                    assert(self@.1[i as int] == (self.attributes@[i as int].0@, self.attributes@[i as int].1@));
                }
                return Some(v);
            }
            proof {
                assert(self@.1[i as int] == (self.attributes@[i as int].0@, self.attributes@[i as int].1@));
            }
            i = i + 1;
        }
        None
    }
}

fn upsert_exec(acc: &mut Vec<(String, String)>, k: String, v: String)
    ensures
        pairs_view(final(acc)@) == upsert(pairs_view(old(acc)@), k@, v@),
{
    let ghost a0 = pairs_view(acc@);
    assert(a0 == pairs_view(old(acc)@));
    let mut i: usize = 0;
    while i < acc.len()
        invariant
            a0 == pairs_view(acc@),
            a0 == pairs_view(old(acc)@),
            key_index(a0, k@, 0) == key_index(a0, k@, i as int),
        decreases acc@.len() - i,
    {
        proof {
            assert(a0[i as int].0 == acc@[i as int].0@);
        }
        if acc[i].0 == k {
            acc.set(i, (k, v));
            proof {
                assert(pairs_view(acc@) =~= a0.update(i as int, (k@, v@)));
                assert(key_index(a0, k@, i as int) == Some(i as int));
                assert(upsert(a0, k@, v@) == a0.update(i as int, (k@, v@)));
            }
            return;
        }
        i = i + 1;
    }
    proof {
        assert(key_index(a0, k@, i as int) is None);
    }
    acc.push((k, v));
    proof {
        assert(pairs_view(acc@) =~= a0.push((k@, v@)));
        assert(upsert(a0, k@, v@) == a0.push((k@, v@)));
    }
}


/// No two pairs of `a` share a name.
pub open spec fn keys_unique(a: AttrList) -> bool {
    forall|i: int, j: int| 0 <= i < j < a.len() ==> a[i].0 != a[j].0
}

proof fn lemma_key_index(acc: AttrList, k: Seq<char>, i: int)
    requires
        0 <= i,
    ensures
        match key_index(acc, k, i) {
            Some(x) => i <= x < acc.len() && acc[x].0 == k,
            None => forall|j: int| i <= j < acc.len() ==> acc[j].0 != k,
        },
    decreases acc.len() - i,
{
    if i < acc.len() && acc[i].0 != k {
        lemma_key_index(acc, k, i + 1);
    }
}

proof fn lemma_upsert_unique(acc: AttrList, k: Seq<char>, v: Seq<char>)
    requires
        keys_unique(acc),
    ensures
        keys_unique(upsert(acc, k, v)),
{
    lemma_key_index(acc, k, 0);
    let r = upsert(acc, k, v);
    assert forall|i: int, j: int| 0 <= i < j < r.len() implies r[i].0 != r[j].0 by {
        match key_index(acc, k, 0) {
            Some(x) => {
                if i != x && j != x {
                    assert(r[i] == acc[i] && r[j] == acc[j]);
                }
            },
            None => {
                if j < acc.len() {
                    assert(r[i] == acc[i] && r[j] == acc[j]);
                }
            },
        }
    }
}

proof fn lemma_platform_attrs_unique(ns: Seq<SyntaxNode>, t: Seq<char>, pv: int, j: int, acc: AttrList)
    requires
        keys_unique(acc),
    ensures
        keys_unique(platform_attrs(ns, t, pv, j, acc)),
    decreases ns.len() - j,
{
    if in_subtree(ns, pv, j) {
        if is_child(ns, pv, j) && ns[j].kind == NODE_ATTRPATH_VALUE && first_child(ns, j) is Some
            && first_string(ns, t, j, j + 1) is Some {
            let an = first_child(ns, j).unwrap();
            let acc2 = upsert(acc, node_text(ns, t, an), first_string(ns, t, j, j + 1).unwrap());
            lemma_upsert_unique(acc, node_text(ns, t, an), first_string(ns, t, j, j + 1).unwrap());
            lemma_platform_attrs_unique(ns, t, pv, j + 1, acc2);
        } else {
            lemma_platform_attrs_unique(ns, t, pv, j + 1, acc);
        }
    }
}

proof fn lemma_entry_attrs_unique(ns: Seq<SyntaxNode>, t: Seq<char>, e: int, j: int, acc: AttrList)
    requires
        keys_unique(acc),
    ensures
        keys_unique(entry_attrs(ns, t, e, j, acc)),
    decreases ns.len() - j,
{
    if in_subtree(ns, e, j) {
        if is_child(ns, e, j) && ns[j].kind == NODE_ATTR_SET {
            lemma_platform_attrs_unique(ns, t, j, j + 1, acc);
            lemma_entry_attrs_unique(ns, t, e, j + 1, platform_attrs(ns, t, j, j + 1, acc));
        } else {
            lemma_entry_attrs_unique(ns, t, e, j + 1, acc);
        }
    }
}

/// Every block of `b` has unique attribute names.
pub open spec fn blocks_unique(b: Seq<BlockV>) -> bool {
    forall|i: int| 0 <= i < b.len() ==> keys_unique(#[trigger] b[i].1)
}

proof fn lemma_blocks_in_unique(ns: Seq<SyntaxNode>, t: Seq<char>, v: int, j: int, acc: Seq<BlockV>)
    requires
        blocks_unique(acc),
    ensures
        blocks_unique(blocks_in(ns, t, v, j, acc)),
    decreases ns.len() - j,
{
    if in_subtree(ns, v, j) {
        if is_child(ns, v, j) && ns[j].kind == NODE_ATTRPATH_VALUE && first_child(ns, j) is Some {
            let attrs = entry_attrs(ns, t, j, j + 1, Seq::empty());
            let name = trim_quotes(node_text(ns, t, first_child(ns, j).unwrap()));
            lemma_entry_attrs_unique(ns, t, j, j + 1, Seq::empty());
            let acc2 = if attrs.len() > 0 { acc.push((name, attrs)) } else { acc };
            assert(blocks_unique(acc2));
            lemma_blocks_in_unique(ns, t, v, j + 1, acc2);
        } else {
            lemma_blocks_in_unique(ns, t, v, j + 1, acc);
        }
    }
}

proof fn lemma_platforms_unique(ns: Seq<SyntaxNode>, t: Seq<char>, i: int, acc: Seq<BlockV>)
    requires
        blocks_unique(acc),
    ensures
        blocks_unique(platforms_from(ns, t, i, acc)),
    decreases ns.len() - i,
{
    if 0 <= i < ns.len() {
        if is_container(ns, t, i) {
            if let Some(c) = first_set_child(ns, i, i + 1) {
                lemma_blocks_in_unique(ns, t, c, c + 1, acc);
            }
            lemma_platforms_unique(ns, t, i + 1, container_blocks(ns, t, i, acc));
        } else {
            lemma_platforms_unique(ns, t, i + 1, acc);
        }
    }
}

pub open spec fn opt_view(o: Option<Vec<char>>) -> Option<Seq<char>> {
    match o {
        Some(v) => Some(v@),
        None => None,
    }
}

/// A recipe's text and its parse tree, kept consistent: the tree is always
/// the parse of the current text.
pub struct Ast {
    text: Vec<char>,
    nodes: Vec<SyntaxNode>,
}

impl View for Ast {
    type V = Seq<char>;

    closed spec fn view(&self) -> Seq<char> {
        self.text@
    }
}

impl Ast {
    #[verifier::type_invariant]
    closed spec fn inv(&self) -> bool {
        &&& self.nodes@ == tree_of(self.text@)
        &&& spans_within(self.nodes@, self.text@.len())
    }

    /// Parses `content` into a new editor.
    pub fn from_text(content: &str) -> (r: Ast)
        ensures
            r@ == content@,
    {
        let text = chars_of(content);
        let nodes = parse_tree(content, &text);
        Ast { text, nodes }
    }

    fn from_chars(text: Vec<char>) -> (r: Ast)
        ensures
            r@ == text@,
    {
        let s = string_of(text.as_slice());
        let nodes = parse_tree(&s, &text);
        Ast { text, nodes }
    }

    /// The current text.
    pub fn content(&self) -> (r: String)
        ensures
            r@ == self@,
    {
        string_of(self.text.as_slice())
    }

    fn first_child_text_is_exec(&self, p: usize, word: &[char]) -> (r: bool)
        requires
            p < self.nodes@.len(),
        ensures
            r == first_child_text_is(self.nodes@, self.text@, p as int, word@),
    {
        proof {
            use_type_invariant(self);
        }
        let n = self.nodes.len();
        if p + 1 < n && self.nodes[p + 1].depth > self.nodes[p].depth
            && self.nodes[p + 1].depth - 1 == self.nodes[p].depth {
            let c = self.nodes[p + 1];
            proof {
                assert(spans_within(self.nodes@, self.text@.len()));
                assert(self.nodes@[p + 1].start <= self.nodes@[p + 1].end);
            }
            span_eq(self.text.as_slice(), c.start, c.end, word)
        } else {
            false
        }
    }

    fn node_chars(&self, i: usize) -> (r: Vec<char>)
        requires
            i < self.nodes@.len(),
        ensures
            r@ == node_text(self.nodes@, self.text@, i as int),
    {
        proof {
            use_type_invariant(self);
            assert(self.nodes@[i as int].start <= self.nodes@[i as int].end);
        }
        slice_chars(self.text.as_slice(), self.nodes[i].start, self.nodes[i].end)
    }

    fn node_value(&self, i: usize) -> (r: Vec<char>)
        requires
            i < self.nodes@.len(),
        ensures
            r@ == string_value(self.nodes@, self.text@, i as int),
    {
        proof {
            use_type_invariant(self);
            assert(self.nodes@[i as int].start <= self.nodes@[i as int].end);
        }
        strip_quotes_span(self.text.as_slice(), self.nodes[i].start, self.nodes[i].end)
    }

    fn node_is(&self, i: usize, word: &[char]) -> (r: bool)
        requires
            i < self.nodes@.len(),
        ensures
            r == (node_text(self.nodes@, self.text@, i as int) == word@),
    {
        proof {
            use_type_invariant(self);
            assert(self.nodes@[i as int].start <= self.nodes@[i as int].end);
        }
        span_eq(self.text.as_slice(), self.nodes[i].start, self.nodes[i].end, word)
    }

    fn entry_value(&self, e: usize, name: &[char]) -> (r: Option<Vec<char>>)
        requires
            e < self.nodes@.len(),
        ensures
            opt_view(r) == entry_scan(self.nodes@, self.text@, e as int, e + 1, name@, false, None),
    {
        let ghost ns = self.nodes@;
        let ghost t = self.text@;
        let mut key = false;
        let mut val: Option<Vec<char>> = None;
        let n = self.nodes.len();
        let mut j = e + 1;
        while j < self.nodes.len() && self.nodes[j].depth > self.nodes[e].depth
            invariant
                e < j,
                ns == self.nodes@,
                t == self.text@,
                entry_scan(ns, t, e as int, e + 1, name@, false, None) == entry_scan(
                    ns,
                    t,
                    e as int,
                    j as int,
                    name@,
                    key,
                    opt_view(val),
                ),
            decreases self.nodes@.len() - j,
        {
            if self.nodes[j].depth - 1 == self.nodes[e].depth {
                let k = self.nodes[j].kind;
                if k == NODE_ATTRPATH && self.first_child_text_is_exec(j, name) {
                    key = true;
                }
                if k == NODE_STRING {
                    val = Some(self.node_value(j));
                } else if k == NODE_IDENT {
                    val = Some(self.node_chars(j));
                }
            }
            j = j + 1;
        }
        if key {
            val
        } else {
            None
        }
    }

    fn set_value(&self, p: usize, name: &[char]) -> (r: Option<Vec<char>>)
        requires
            p < self.nodes@.len(),
        ensures
            opt_view(r) == set_scan(self.nodes@, self.text@, p as int, p + 1, name@),
    {
        let ghost ns = self.nodes@;
        let ghost t = self.text@;
        let n = self.nodes.len();
        let mut j = p + 1;
        while j < self.nodes.len() && self.nodes[j].depth > self.nodes[p].depth
            invariant
                p < j,
                ns == self.nodes@,
                t == self.text@,
                set_scan(ns, t, p as int, p + 1, name@) == set_scan(ns, t, p as int, j as int, name@),
            decreases self.nodes@.len() - j,
        {
            if self.nodes[j].depth - 1 == self.nodes[p].depth && self.nodes[j].kind
                == NODE_ATTRPATH_VALUE {
                let v = self.entry_value(j, name);
                if v.is_some() {
                    return v;
                }
            }
            j = j + 1;
        }
        None
    }

    fn get_internal(&self, name: &[char]) -> (r: Option<Vec<char>>)
        ensures
            opt_view(r) == attr_lookup(self.nodes@, self.text@, 0, name@),
    {
        let mut i: usize = 0;
        while i < self.nodes.len()
            invariant
                attr_lookup(self.nodes@, self.text@, 0, name@) == attr_lookup(
                    self.nodes@,
                    self.text@,
                    i as int,
                    name@,
                ),
            decreases self.nodes@.len() - i,
        {
            if self.nodes[i].kind == NODE_ATTR_SET {
                let v = self.set_value(i, name);
                if v.is_some() {
                    return v;
                }
            }
            i = i + 1;
        }
        None
    }

    fn first_string_exec(&self, b: usize) -> (r: Option<Vec<char>>)
        requires
            b < self.nodes@.len(),
        ensures
            opt_view(r) == first_string(self.nodes@, self.text@, b as int, b + 1),
    {
        let ghost ns = self.nodes@;
        let ghost t = self.text@;
        let n = self.nodes.len();
        let mut j = b + 1;
        while j < self.nodes.len() && self.nodes[j].depth > self.nodes[b].depth
            invariant
                b < j,
                ns == self.nodes@,
                t == self.text@,
                first_string(ns, t, b as int, b + 1) == first_string(ns, t, b as int, j as int),
            decreases self.nodes@.len() - j,
        {
            if self.nodes[j].depth - 1 == self.nodes[b].depth && self.nodes[j].kind == NODE_STRING {
                return Some(self.node_value(j));
            }
            j = j + 1;
        }
        None
    }

    fn let_value(&self, p: usize, name: &[char]) -> (r: Option<Vec<char>>)
        requires
            p < self.nodes@.len(),
        ensures
            opt_view(r) == let_scan(self.nodes@, self.text@, p as int, p + 1, name@),
    {
        let ghost ns = self.nodes@;
        let ghost t = self.text@;
        let n = self.nodes.len();
        let mut j = p + 1;
        while j < self.nodes.len() && self.nodes[j].depth > self.nodes[p].depth
            invariant
                p < j,
                ns == self.nodes@,
                t == self.text@,
                let_scan(ns, t, p as int, p + 1, name@) == let_scan(ns, t, p as int, j as int, name@),
            decreases self.nodes@.len() - j,
        {
            if self.nodes[j].depth - 1 == self.nodes[p].depth && self.nodes[j].kind
                == NODE_ATTRPATH_VALUE && self.first_child_text_is_exec(j, name) {
                let v = self.first_string_exec(j);
                if v.is_some() {
                    return v;
                }
            }
            j = j + 1;
        }
        None
    }

    fn get_from_let_or_inherit(&self, name: &[char]) -> (r: Option<Vec<char>>)
        ensures
            opt_view(r) == binding_lookup(self.nodes@, self.text@, 0, name@),
    {
        let mut i: usize = 0;
        while i < self.nodes.len()
            invariant
                binding_lookup(self.nodes@, self.text@, 0, name@) == binding_lookup(
                    self.nodes@,
                    self.text@,
                    i as int,
                    name@,
                ),
            decreases self.nodes@.len() - i,
        {
            if self.nodes[i].kind == NODE_LET_IN {
                let v = self.let_value(i, name);
                if v.is_some() {
                    return v;
                }
            }
            i = i + 1;
        }
        None
    }

    fn get_chars(&self, name: &[char]) -> (r: Option<Vec<char>>)
        ensures
            opt_view(r) == get_attr(self@, name@),
    {
        proof {
            use_type_invariant(self);
        }
        let v = self.get_internal(name);
        if v.is_some() {
            return v;
        }
        self.get_from_let_or_inherit(name)
    }


    fn find_string_exec(&self, e: usize, name: &[char], prev: &[char]) -> (r: Option<usize>)
        requires
            e < self.nodes@.len(),
        ensures
            r matches Some(k) ==> find_string(self.nodes@, self.text@, e as int, e + 1, name@, prev@, false) == Some(k as int),
            r is None ==> find_string(self.nodes@, self.text@, e as int, e + 1, name@, prev@, false) is None,
    {
        let ghost ns = self.nodes@;
        let ghost t = self.text@;
        let n = self.nodes.len();
        let mut found = false;
        let mut j = e + 1;
        while j < self.nodes.len() && self.nodes[j].depth > self.nodes[e].depth
            invariant
                e < j,
                ns == self.nodes@,
                t == self.text@,
                find_string(ns, t, e as int, e + 1, name@, prev@, false) == find_string(ns, t, e as int, j as int, name@, prev@, found),
            decreases self.nodes@.len() - j,
        {
            if self.nodes[j].depth - 1 == self.nodes[e].depth {
                let k = self.nodes[j].kind;
                if k == NODE_STRING && found {
                    let v = self.node_value(j);
                    if v.as_slice().len() == prev.len() && crate::text::occurs_at_exec(v.as_slice(), prev, 0) {
                        proof {
                            assert(v@.subrange(0, prev@.len() as int) =~= v@);
                        }
                        return Some(j);
                    }
                    proof {
                        if v@ == prev@ {
                            assert(v@.subrange(0, prev@.len() as int) =~= v@);
                        }
                    }
                }
                if k == NODE_ATTRPATH && self.first_child_text_is_exec(j, name) {
                    found = true;
                }
            }
            j = j + 1;
        }
        None
    }

    fn set_target_exec(&self, name: &[char], prev: &[char]) -> (r: Option<usize>)
        ensures
            r matches Some(k) ==> set_target(self.nodes@, self.text@, 0, name@, prev@) == Some(k as int) && k < self.nodes@.len(),
            r is None ==> set_target(self.nodes@, self.text@, 0, name@, prev@) is None,
    {
        let mut i: usize = 0;
        while i < self.nodes.len()
            invariant
                set_target(self.nodes@, self.text@, 0, name@, prev@) == set_target(self.nodes@, self.text@, i as int, name@, prev@),
            decreases self.nodes@.len() - i,
        {
            if self.nodes[i].kind == NODE_ATTRPATH_VALUE {
                let f = self.find_string_exec(i, name, prev);
                match f {
                    Some(k) => {
                        proof {
                            lemma_find_string_bound(self.nodes@, self.text@, i as int, i + 1, name@, prev@, false);
                        }
                        return Some(k);
                    },
                    None => {},
                }
            }
            i = i + 1;
        }
        None
    }

    fn set_chars(&mut self, name: &[char], prev: &[char], new: &[char]) -> (r: Result<(), EditError>)
        ensures
            set_or_keep(old(self)@, name@, prev@, new@) == (final(self)@, r is Ok),
    {
        proof {
            use_type_invariant(&*self);
        }
        match self.set_target_exec(name, prev) {
            None => Err(EditError::NotFound),
            Some(k) => {
                proof {
                    assert(spans_within(self.nodes@, self.text@.len()));
                    assert(self.nodes@[k as int].start <= self.nodes@[k as int].end);
                }
                let start = self.nodes[k].start;
                let end = self.nodes[k].end;
                let span = slice_chars(self.text.as_slice(), start, end);
                let dollar = chars_of("${");
                let brace = chars_of("}");
                if contains_exec(span.as_slice(), dollar.as_slice()) && contains_exec(span.as_slice(), brace.as_slice()) {
                    return Ok(());
                }
                let mut out = slice_chars(self.text.as_slice(), 0, start);
                out.push('"');
                let mut i: usize = 0;
                let ghost head = out@;
                while i < new.len()
                    invariant
                        i <= new.len(),
                        out@ == head + new@.take(i as int),
                    decreases new.len() - i,
                {
                    out.push(new[i]);
                    proof {
                        assert(new@.take(i + 1) =~= new@.take(i as int).push(new@[i as int]));
                    }
                    i = i + 1;
                }
                out.push('"');
                let tail = slice_chars(self.text.as_slice(), end, self.text.len());
                let ghost mid = out@;
                let mut i: usize = 0;
                while i < tail.len()
                    invariant
                        i <= tail.len(),
                        out@ == mid + tail@.take(i as int),
                    decreases tail.len() - i,
                {
                    out.push(tail[i]);
                    proof {
                        assert(tail@.take(i + 1) =~= tail@.take(i as int).push(tail@[i as int]));
                    }
                    i = i + 1;
                }
                proof {
                    assert(new@.take(new@.len() as int) =~= new@);
                    assert(tail@.take(tail@.len() as int) =~= tail@);
                    assert(self.text@.subrange(0, start as int) =~= self.text@.take(start as int));
                    assert(self.text@.subrange(end as int, self.text@.len() as int) =~= self.text@.skip(end as int));
                    assert(out@ =~= self.text@.take(start as int) + quoted(new@) + self.text@.skip(end as int));
                }
                *self = Ast::from_chars(out);
                Ok(())
            },
        }
    }

    /// Replaces the string value `old_value` of attribute `attr_name` by
    /// `new_value` (quoted), leaving every other character of the text as it
    /// was, and parses the result. A string that holds an interpolation is
    /// never rewritten: the call then succeeds and changes nothing.
    pub fn set(&mut self, attr_name: &str, old_value: &str, new_value: &str) -> (r: Result<(), EditError>)
        ensures
            set_or_keep(old(self)@, attr_name@, old_value@, new_value@) == (final(self)@, r is Ok),
    {
        let name = chars_of(attr_name);
        let old = chars_of(old_value);
        let new = chars_of(new_value);
        self.set_chars(name.as_slice(), old.as_slice(), new.as_slice())
    }

    /// Replaces the revision and the hash: the `rev` attribute's `old_rev` by
    /// `new_rev` (when both are given), every occurrence of the old revision in
    /// `version`, and the hash (`old_hash`, or else the current `hash`) by
    /// `new_hash` when both are non-empty. Stops at the first failed step.
    pub fn update_git(&mut self, old_rev: Option<&str>, new_rev: &str, new_hash: &str, old_hash: Option<&str>) -> (r: Result<(), EditError>)
        ensures
            update_git_text(old(self)@, opt_str(old_rev), new_rev@, new_hash@, opt_str(old_hash)) == (final(self)@, r is Ok),
    {
        let new_rev_c = chars_of(new_rev);
        let new_hash_c = chars_of(new_hash);
        if old_rev.is_some() && new_rev_c.len() > 0 {
            let o = chars_of(old_rev.unwrap());
            let rev = chars_of("rev");
            let r = self.set_chars(rev.as_slice(), o.as_slice(), new_rev_c.as_slice());
            if r.is_err() {
                return r;
            }
            let version = chars_of("version");
            let v = self.get_chars(version.as_slice());
            match v {
                Some(v) => {
                    if o.len() > 0 && contains_exec(v.as_slice(), o.as_slice()) {
                        let nv = replace_all_exec(v.as_slice(), o.as_slice(), new_rev_c.as_slice());
                        let r = self.set_chars(version.as_slice(), v.as_slice(), nv.as_slice());
                        if r.is_err() {
                            return r;
                        }
                    }
                },
                None => {},
            }
        }
        let oh: Vec<char> = match old_hash {
            Some(h) => chars_of(h),
            None => {
                let hash = chars_of("hash");
                match self.get_chars(hash.as_slice()) {
                    Some(h) => h,
                    None => Vec::new(),
                }
            },
        };
        if oh.len() > 0 && new_hash_c.len() > 0 {
            let hash = chars_of("hash");
            return self.set_chars(hash.as_slice(), oh.as_slice(), new_hash_c.as_slice());
        }
        Ok(())
    }

    /// Applies the outcome of a build run on the current text (the build
    /// oracle): when the build failed and its diagnostics name a hash after
    /// `got:`, that hash replaces the value of `<hash_type>Hash`; where that
    /// attribute cannot be found, every `<hash_type>Hash = ""` in the text is
    /// filled with it. A successful build changes nothing.
    pub fn update_vendor(&mut self, hash_type: &str, build_succeeded: bool, diagnostics: &str) -> (r: Result<(), EditError>)
        ensures
            vendor_text(old(self)@, hash_type@, build_succeeded, diagnostics@) == (final(self)@, r is Ok),
    {
        if build_succeeded {
            return Ok(());
        }
        let h = match extract_hash(diagnostics) {
            None => return Ok(()),
            Some(h) => h,
        };
        let hc = chars_of(&h);
        let mut attr = chars_of(hash_type);
        let suffix = chars_of("Hash");
        attr.extend_from_slice(suffix.as_slice());
        assert(attr@ == hash_type@ + "Hash"@);
        assert(hc@ == h@);
        match self.get_chars(attr.as_slice()) {
            Some(old) => self.set_chars(attr.as_slice(), old.as_slice(), hc.as_slice()),
            None => {
                let eq = chars_of(" = ");
                let mut pat = attr.clone();
                pat.extend_from_slice(eq.as_slice());
                let mut rep = pat.clone();
                pat.push('"');
                pat.push('"');
                rep.push('"');
                rep.extend_from_slice(hc.as_slice());
                rep.push('"');
                proof {
                    assert(pat@ =~= empty_assignment(attr@));
                    assert(rep@ =~= attr@ + " = "@ + quoted(hc@));
                }
                proof {
                    use_type_invariant(&*self);
                }
                let t = replace_all_exec(self.text.as_slice(), pat.as_slice(), rep.as_slice());
                *self = Ast::from_chars(t);
                Ok(())
            },
        }
    }


    fn platform_attrs_exec(&self, pv: usize, acc: &mut Vec<(String, String)>)
        requires
            pv < self.nodes@.len(),
        ensures
            pairs_view(final(acc)@) == platform_attrs(self.nodes@, self.text@, pv as int, pv + 1, pairs_view(old(acc)@)),
    {
        let ghost ns = self.nodes@;
        let ghost t = self.text@;
        let ghost a0 = pairs_view(acc@);
        let n = self.nodes.len();
        let mut j = pv + 1;
        while j < self.nodes.len() && self.nodes[j].depth > self.nodes[pv].depth
            invariant
                pv < j,
                ns == self.nodes@,
                t == self.text@,
                n == self.nodes@.len(),
                platform_attrs(ns, t, pv as int, pv + 1, a0) == platform_attrs(ns, t, pv as int, j as int, pairs_view(acc@)),
            decreases self.nodes@.len() - j,
        {
            if self.nodes[j].depth - 1 == self.nodes[pv].depth && self.nodes[j].kind == NODE_ATTRPATH_VALUE
                && j + 1 < n && self.nodes[j + 1].depth > self.nodes[j].depth
                && self.nodes[j + 1].depth - 1 == self.nodes[j].depth {
                match self.first_string_exec(j) {
                    Some(v) => {
                        let an = self.node_chars(j + 1);
                        upsert_exec(acc, string_of(an.as_slice()), string_of(v.as_slice()));
                    },
                    None => {},
                }
            }
            j = j + 1;
        }
    }

    fn entry_attrs_exec(&self, e: usize) -> (r: Vec<(String, String)>)
        requires
            e < self.nodes@.len(),
        ensures
            pairs_view(r@) == entry_attrs(self.nodes@, self.text@, e as int, e + 1, Seq::empty()),
    {
        let ghost ns = self.nodes@;
        let ghost t = self.text@;
        let mut acc: Vec<(String, String)> = Vec::new();
        proof {
            assert(pairs_view(acc@) =~= Seq::empty());
        }
        let n = self.nodes.len();
        let mut j = e + 1;
        while j < self.nodes.len() && self.nodes[j].depth > self.nodes[e].depth
            invariant
                e < j,
                ns == self.nodes@,
                t == self.text@,
                n == self.nodes@.len(),
                entry_attrs(ns, t, e as int, e + 1, Seq::empty()) == entry_attrs(ns, t, e as int, j as int, pairs_view(acc@)),
            decreases self.nodes@.len() - j,
        {
            if self.nodes[j].depth - 1 == self.nodes[e].depth && self.nodes[j].kind == NODE_ATTR_SET {
                self.platform_attrs_exec(j, &mut acc);
            }
            j = j + 1;
        }
        acc
    }

    fn blocks_in_exec(&self, v: usize, out: &mut Vec<PlatformBlock>)
        requires
            v < self.nodes@.len(),
        ensures
            blocks_view(final(out)@) == blocks_in(self.nodes@, self.text@, v as int, v + 1, blocks_view(old(out)@)),
    {
        let ghost ns = self.nodes@;
        let ghost t = self.text@;
        let ghost b0 = blocks_view(out@);
        let n = self.nodes.len();
        let mut j = v + 1;
        while j < self.nodes.len() && self.nodes[j].depth > self.nodes[v].depth
            invariant
                v < j,
                ns == self.nodes@,
                t == self.text@,
                n == self.nodes@.len(),
                blocks_in(ns, t, v as int, v + 1, b0) == blocks_in(ns, t, v as int, j as int, blocks_view(out@)),
            decreases self.nodes@.len() - j,
        {
            if self.nodes[j].depth - 1 == self.nodes[v].depth && self.nodes[j].kind == NODE_ATTRPATH_VALUE
                && j + 1 < n && self.nodes[j + 1].depth > self.nodes[j].depth
                && self.nodes[j + 1].depth - 1 == self.nodes[j].depth {
                let attrs = self.entry_attrs_exec(j);
                if attrs.len() > 0 {
                    proof {
                        use_type_invariant(self);
                        assert(self.nodes@[j + 1].start <= self.nodes@[j + 1].end);
                    }
                    let name = trim_quotes_span(self.text.as_slice(), self.nodes[j + 1].start, self.nodes[j + 1].end);
                    let ghost before = blocks_view(out@);
                    out.push(PlatformBlock { platform_name: string_of(name.as_slice()), attributes: attrs });
                    proof {
                        assert(blocks_view(out@) =~= before.push(out@.last()@));
                    }
                }
            }
            j = j + 1;
        }
    }

    fn first_set_child_exec(&self, i: usize) -> (r: Option<usize>)
        requires
            i < self.nodes@.len(),
        ensures
            r matches Some(c) ==> first_set_child(self.nodes@, i as int, i + 1) == Some(c as int) && c < self.nodes@.len(),
            r is None ==> first_set_child(self.nodes@, i as int, i + 1) is None,
    {
        let n = self.nodes.len();
        let mut j = i + 1;
        while j < self.nodes.len() && self.nodes[j].depth > self.nodes[i].depth
            invariant
                i < j,
                n == self.nodes@.len(),
                first_set_child(self.nodes@, i as int, i + 1) == first_set_child(self.nodes@, i as int, j as int),
            decreases self.nodes@.len() - j,
        {
            if self.nodes[j].depth - 1 == self.nodes[i].depth && self.nodes[j].kind == NODE_ATTR_SET {
                return Some(j);
            }
            j = j + 1;
        }
        None
    }

    /// The platform blocks: for each `platformData` or `dists` container (in
    /// preorder), one block per entry of its attribute set that has at least
    /// one string attribute. Only one level is descended on each side.
    pub fn platforms(&self) -> (r: Vec<PlatformBlock>)
        ensures
            blocks_view(r@) == platform_blocks(self@),
            forall|i: int| 0 <= i < r@.len() ==> keys_unique(#[trigger] r@[i]@.1),
    {
        proof {
            use_type_invariant(self);
        }
        let pd = chars_of("platformData");
        let ds = chars_of("dists");
        let mut out: Vec<PlatformBlock> = Vec::new();
        proof {
            assert(blocks_view(out@) =~= Seq::empty());
        }
        let ghost ns = self.nodes@;
        let ghost t = self.text@;
        let n = self.nodes.len();
        let mut i: usize = 0;
        while i < self.nodes.len()
            invariant
                ns == self.nodes@,
                t == self.text@,
                n == self.nodes@.len(),
                ns == tree_of(t),
                pd@ == "platformData"@,
                ds@ == "dists"@,
                platforms_from(ns, t, 0, Seq::empty()) == platforms_from(ns, t, i as int, blocks_view(out@)),
            decreases self.nodes@.len() - i,
        {
            if self.nodes[i].kind == NODE_ATTRPATH_VALUE && (self.first_child_text_is_exec(i, pd.as_slice())
                || self.first_child_text_is_exec(i, ds.as_slice())) {
                match self.first_set_child_exec(i) {
                    Some(c) => self.blocks_in_exec(c, &mut out),
                    None => {},
                }
            }
            i = i + 1;
        }
        proof {
            lemma_platforms_unique(ns, t, 0, Seq::empty());
            assert forall|i: int| 0 <= i < out@.len() implies keys_unique(#[trigger] out@[i]@.1) by {
                assert(blocks_view(out@)[i] == out@[i]@);
            }
        }
        out
    }

    /// The value of attribute `field_name`: an attribute holding a string
    /// (unquoted) or an identifier (its text, not resolved further), else a
    /// `let` binding to a string. Inherited names are not followed.
    pub fn get(&self, field_name: &str) -> (r: Option<String>)
        ensures
            r matches Some(v) ==> get_attr(self@, field_name@) == Some(v@),
            r is None ==> get_attr(self@, field_name@) is None,
    {
        let name = chars_of(field_name);
        match self.get_chars(name.as_slice()) {
            Some(v) => Some(string_of(v.as_slice())),
            None => None,
        }
    }

    /// Whether the recipe applies a function whose text contains
    /// `function_name`.
    pub fn contains_function_call(&self, function_name: &str) -> (r: bool)
        ensures
            r == has_call(self@, function_name@),
    {
        proof {
            use_type_invariant(self);
        }
        let name = chars_of(function_name);
        let ghost ns = self.nodes@;
        let ghost t = self.text@;
        let mut i: usize = 0;
        while i < self.nodes.len()
            invariant
                ns == tree_of(t),
                ns == self.nodes@,
                t == self.text@,
                name@ == function_name@,
                forall|k: int|
                    0 <= k < i ==> !(#[trigger] ns[k].kind == NODE_APPLY && (first_child(
                        ns,
                        k,
                    ) matches Some(c) && contains_seq(node_text(ns, t, c), name@))),
            decreases self.nodes@.len() - i,
        {
            if self.nodes[i].kind == NODE_APPLY && i + 1 < self.nodes.len() && self.nodes[i
                + 1].depth > self.nodes[i].depth && self.nodes[i + 1].depth - 1
                == self.nodes[i].depth {
                let f = self.node_chars(i + 1);
                if contains_exec(f.as_slice(), name.as_slice()) {
                    return true;
                }
            }
            i = i + 1;
        }
        false
    }
}

proof fn lemma_set_target_bound(ns: Seq<SyntaxNode>, t: Seq<char>, i: int, name: Seq<char>, old_value: Seq<char>)
    ensures
        set_target(ns, t, i, name, old_value) matches Some(k) ==> 0 <= k < ns.len(),
    decreases ns.len() - i,
{
    if 0 <= i < ns.len() {
        lemma_find_string_bound(ns, t, i, i + 1, name, old_value, false);
        lemma_set_target_bound(ns, t, i + 1, name, old_value);
    }
}

/// The span that `set` rewrites lies within the text.
pub proof fn lemma_set_span_bounds(t: Seq<char>, name: Seq<char>, old_value: Seq<char>)
    ensures
        set_span(t, name, old_value) matches Some((s, e)) ==> 0 <= s <= e <= t.len(),
{
    crate::syntax::lemma_tree_spans(t);
    lemma_set_target_bound(tree_of(t), t, 0, name, old_value);
}

proof fn lemma_find_string_bound(
    ns: Seq<SyntaxNode>,
    t: Seq<char>,
    e: int,
    j: int,
    name: Seq<char>,
    old: Seq<char>,
    found: bool,
)
    ensures
        find_string(ns, t, e, j, name, old, found) matches Some(k) ==> j <= k < ns.len(),
    decreases ns.len() - j,
{
    if in_subtree(ns, e, j) {
        let found2 = found || (ns[j].kind == NODE_ATTRPATH && first_child_text_is(ns, t, j, name));
        lemma_find_string_bound(ns, t, e, j + 1, name, old, found);
        lemma_find_string_bound(ns, t, e, j + 1, name, old, found2);
    }
}

} // verus!
