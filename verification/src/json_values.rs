//! JSON values: a generator of trees, and what terminal escaping and JSON
//! escaping owe each other.

use vstd::prelude::*;
use vstd::slice::slice_subrange;
use crate::digits::{hex_lower, hex_of};
use crate::seqs::{copy_bytes, same_bytes, texts};
use crate::state_support::json_ref::{
    char_from_u32, fields_count, fields_depth, items_count, items_depth, lemma_unescape_inverts, max_nat, node_count,
    node_depth, read_strings, scanned, terminal_escaped, unescape_bytes, unescaped, write_string, Node,
};
use crate::tcp_support::{byte_at, dropped, taken, u32_at, Cursor};
use crate::text::{ascii_text, bytes_of, lossy_string, same_text, string_from_chars, text_of};

verus! {

/// The most nodes of a generated tree.
pub const MAX_NODES: usize = 64;

/// The deepest nesting of a generated tree.
pub const MAX_DEPTH: usize = 6;

/// Characters of three bytes.
pub const THREE_BYTE: [char; 12] = [
    '\u{2028}', '\u{2029}', '\u{FFFD}', '\u{FEFF}', '\u{FFFF}', '\u{D7FF}', '\u{E000}', '\u{3042}', '\u{20AC}',
    '\u{FFFE}', '\u{0800}', '\u{1E9E}',
];

/// Characters of four bytes.
pub const NON_BMP: [char; 6] = ['\u{10000}', '\u{1F600}', '\u{10FFFF}', '\u{1F4A9}', '\u{E0001}', '\u{F0000}'];

/// The character that a byte selects: ASCII as it is, else by the class in
/// the top three bits.
pub open spec fn class_char_of(b: u8) -> char {
    if b < 0x80 {
        b as char
    } else if b < 0xa0 {
        (0x80 + (b % 32) * 37) as char
    } else if b < 0xc0 {
        THREE_BYTE@[(b % 32 % 12) as int]
    } else if b < 0xe0 {
        NON_BMP@[(b % 32 % 6) as int]
    } else {
        (0x7f + (b % 32) * 4) as char
    }
}

/// The character that a byte selects.
pub fn class_char(b: u8) -> (r: char)
    ensures
        r == class_char_of(b),
{
    let low: u8 = b % 32;
    if b < 0x80 {
        b as char
    } else if b < 0xa0 {
        match char_from_u32(0x80 + low as u32 * 37) {
            Some(c) => c,
            None => ' ',
        }
    } else if b < 0xc0 {
        let t = THREE_BYTE;
        t[(low % 12) as usize]
    } else if b < 0xe0 {
        let t = NON_BMP;
        t[(low % 6) as usize]
    } else {
        (0x7f + low * 4) as char
    }
}

/// The text that the next `n` bytes select.
pub open spec fn class_text(s: Seq<u8>, n: int) -> Seq<char> {
    Seq::new(n as nat, |i: int| class_char_of(byte_at(s, i)))
}

/// Reads a text of `len` characters, one byte each.
pub fn class_string(cur: &mut Cursor<'_>, len: usize) -> (r: String)
    ensures
        r@ == class_text(old(cur)@, len as int),
        final(cur)@ == dropped(old(cur)@, len as int),
{
    let mut out: Vec<char> = Vec::new();
    let mut i: usize = 0;
    let ghost s = cur@;
    proof {
        assert(s =~= dropped(s, 0));
    }
    while i < len
        invariant
            i <= len,
            s == old(cur)@,
            cur@ == dropped(s, i as int),
            out@ =~= class_text(s, i as int),
        decreases len - i,
    {
        proof {
            assert(byte_at(dropped(s, i as int), 0) == byte_at(s, i as int));
            assert(dropped(dropped(s, i as int), 1) =~= dropped(s, i + 1));
        }
        out.push(class_char(cur.u8()));
        i = i + 1;
    }
    string_from_chars(out)
}

/// A tree as it is seen in contracts.
pub ghost enum Tree {
    /// `null`
    Null,
    /// `true`/`false`
    Bool(bool),
    /// Unsigned integer.
    UInt(u64),
    /// Signed integer.
    Int(i64),
    /// String.
    Str(Seq<char>),
    /// Array.
    Array(Seq<Tree>),
    /// Object.
    Object(Seq<(Seq<char>, Tree)>),
}

/// The trees of the first `n` items.
pub open spec fn items_tree(v: Seq<Node>, n: nat) -> Seq<Tree>
    decreases v, n,
{
    if n == 0 || n > v.len() {
        Seq::empty()
    } else {
        items_tree(v, (n - 1) as nat).push(tree(v[n - 1]))
    }
}

/// The trees of the first `n` fields.
pub open spec fn fields_tree(v: Seq<(String, Node)>, n: nat) -> Seq<(Seq<char>, Tree)>
    decreases v, n,
{
    if n == 0 || n > v.len() {
        Seq::empty()
    } else {
        fields_tree(v, (n - 1) as nat).push((v[n - 1].0@, tree(v[n - 1].1)))
    }
}

/// The tree of a node.
pub open spec fn tree(n: Node) -> Tree
    decreases n, 0nat,
{
    match n {
        Node::Null => Tree::Null,
        Node::Bool(b) => Tree::Bool(b),
        Node::UInt(u) => Tree::UInt(u),
        Node::Int(i) => Tree::Int(i),
        Node::Str(s) => Tree::Str(s@),
        Node::Array(v) => Tree::Array(items_tree(v@, v@.len())),
        Node::Object(v) => Tree::Object(fields_tree(v@, v@.len())),
    }
}

/// Raw bytes that stand in a generated tree as a string.
#[derive(Debug, PartialEq, Eq)]
pub struct RawText {
    /// In hexadecimal; decoded with replacement characters otherwise.
    pub hex: bool,
    /// The bytes.
    pub bytes: Vec<u8>,
}

/// The raw bytes of a list.
pub open spec fn raws_of(v: Seq<RawText>) -> Seq<(bool, Seq<u8>)> {
    Seq::new(v.len(), |i: int| (v[i].hex, v[i].bytes@))
}

/// The state of the generator: the input left, the nodes left, and the raw
/// bytes used so far.
pub ghost struct Gen {
    /// The input left.
    pub rest: Seq<u8>,
    /// The nodes left.
    pub budget: int,
    /// The raw bytes used so far.
    pub raws: Seq<(bool, Seq<u8>)>,
}

/// The state after `n` bytes were read.
pub open spec fn after(g: Gen, n: int) -> Gen {
    Gen { rest: dropped(g.rest, n), ..g }
}

/// The big-endian number in the next eight bytes.
pub open spec fn u64_at(s: Seq<u8>) -> u64 {
    (u32_at(s) * 0x1_0000_0000 + u32_at(dropped(s, 4))) as u64
}

/// An unsigned integer by its selector, or from the next eight bytes.
pub open spec fn unsigned_gen(sel: u8, s: Seq<u8>) -> (u64, int) {
    if sel == 0 {
        (0, 0)
    } else if sel == 1 {
        (1, 0)
    } else if sel == 2 {
        (u64::MAX, 0)
    } else if sel == 3 {
        (0x8000_0000_0000_0000, 0)
    } else if sel == 4 {
        (0x20_0000_0000_0000, 0)
    } else if sel == 5 {
        (0x20_0000_0000_0001, 0)
    } else if sel == 6 {
        (1_000_000_000_000_000_000, 0)
    } else {
        (u64_at(s), 8)
    }
}

/// A signed integer by its selector, or from the next eight bytes.
pub open spec fn signed_gen(sel: u8, s: Seq<u8>) -> (i64, int) {
    if sel == 0 {
        (0, 0)
    } else if sel == 1 {
        (-1 as i64, 0)
    } else if sel == 2 {
        (i64::MIN, 0)
    } else if sel == 3 {
        (i64::MAX, 0)
    } else if sel == 4 {
        (-0x20_0000_0000_0001 as i64, 0)
    } else if sel == 5 {
        (0x20_0000_0000_0000, 0)
    } else if sel == 6 {
        (-1_000_000_000_000_000_000 as i64, 0)
    } else {
        (u64_at(s) as i64, 8)
    }
}

/// A value without parts.
pub open spec fn scalar_gen(kind: u8, sel: u8, g: Gen) -> (Tree, Gen) {
    let len = byte_at(g.rest, 0) as int;
    let bytes = taken(dropped(g.rest, 1), len);
    let past = Gen { rest: dropped(dropped(g.rest, 1), len), ..g };
    if kind == 0 {
        (Tree::Null, g)
    } else if kind == 1 {
        (Tree::Bool(sel % 2 == 1), g)
    } else if kind == 2 {
        (Tree::UInt(unsigned_gen(sel, g.rest).0), after(g, unsigned_gen(sel, g.rest).1))
    } else if kind == 3 {
        (Tree::Int(signed_gen(sel, g.rest).0), after(g, signed_gen(sel, g.rest).1))
    } else if kind == 4 {
        (Tree::Str(text_of(bytes)), (Gen { raws: g.raws.push((false, bytes)), ..past }))
    } else if kind == 5 {
        (Tree::Str(ascii_text(hex_of(bytes))), (Gen { raws: g.raws.push((true, bytes)), ..past }))
    } else if kind == 6 {
        (
            Tree::Str(class_text(dropped(g.rest, 1), len % 65)),
            (Gen { rest: dropped(dropped(g.rest, 1), len % 65), ..g }),
        )
    } else {
        (Tree::Str(text_of(bytes)), past)
    }
}

/// Up to `n` children, as long as nodes are left.
pub open spec fn items_gen(g: Gen, depth: int, n: nat) -> (Seq<Tree>, Gen)
    decreases MAX_DEPTH - depth, n,
{
    if n == 0 {
        (Seq::empty(), g)
    } else {
        let (v, g1) = items_gen(g, depth, (n - 1) as nat);
        if g1.budget == 0 {
            (v, g1)
        } else {
            let (x, g2) = node_gen(g1, depth);
            (v.push(x), g2)
        }
    }
}

/// Up to `n` fields, as long as nodes are left.
pub open spec fn fields_gen(g: Gen, depth: int, n: nat) -> (Seq<(Seq<char>, Tree)>, Gen)
    decreases MAX_DEPTH - depth, n,
{
    if n == 0 {
        (Seq::empty(), g)
    } else {
        let (v, g1) = fields_gen(g, depth, (n - 1) as nat);
        if g1.budget == 0 {
            (v, g1)
        } else {
            let klen = byte_at(g1.rest, 0) as int % 9;
            let key = class_text(dropped(g1.rest, 1), klen);
            let (x, g2) = node_gen(Gen { rest: dropped(dropped(g1.rest, 1), klen), ..g1 }, depth);
            (v.push((key, x)), g2)
        }
    }
}

/// A tree: a tag byte picks the kind, at the deepest level only a value
/// without parts; with no node left it is `null`.
pub open spec fn node_gen(g: Gen, depth: int) -> (Tree, Gen)
    decreases MAX_DEPTH - depth, 0nat,
{
    if g.budget == 0 {
        (Tree::Null, g)
    } else {
        let tag = byte_at(g.rest, 0);
        let kind: u8 = if depth >= MAX_DEPTH {
            tag % 12 % 8
        } else {
            tag % 12
        };
        let g1 = Gen { rest: dropped(g.rest, 1), budget: g.budget - 1, raws: g.raws };
        let n = (byte_at(g1.rest, 0) % 9) as nat;
        if kind < 8 {
            scalar_gen(kind, tag / 16, g1)
        } else if kind < 10 {
            let (v, g2) = items_gen(after(g1, 1), depth + 1, n);
            (Tree::Array(v), g2)
        } else {
            let (v, g2) = fields_gen(after(g1, 1), depth + 1, n);
            (Tree::Object(v), g2)
        }
    }
}

fn gen_u64(cur: &mut Cursor<'_>) -> (r: u64)
    ensures
        r == u64_at(old(cur)@),
        final(cur)@ == dropped(old(cur)@, 8),
{
    let ghost s = cur@;
    let hi: u64 = cur.u32() as u64;
    let lo: u64 = cur.u32() as u64;
    proof {
        assert(dropped(dropped(s, 4), 4) =~= dropped(s, 8));
    }
    hi * 0x1_0000_0000 + lo
}

fn gen_unsigned(cur: &mut Cursor<'_>, sel: u8) -> (r: u64)
    ensures
        r == unsigned_gen(sel, old(cur)@).0,
        final(cur)@ == dropped(old(cur)@, unsigned_gen(sel, old(cur)@).1),
{
    proof {
        assert(dropped(cur@, 0) =~= cur@);
    }
    match sel {
        0 => 0,
        1 => 1,
        2 => u64::MAX,
        3 => 0x8000_0000_0000_0000,
        4 => 0x20_0000_0000_0000,
        5 => 0x20_0000_0000_0001,
        6 => 1_000_000_000_000_000_000,
        _ => gen_u64(cur),
    }
}

fn gen_signed(cur: &mut Cursor<'_>, sel: u8) -> (r: i64)
    ensures
        r == signed_gen(sel, old(cur)@).0,
        final(cur)@ == dropped(old(cur)@, signed_gen(sel, old(cur)@).1),
{
    proof {
        assert(dropped(cur@, 0) =~= cur@);
    }
    match sel {
        0 => 0,
        1 => -1,
        2 => i64::MIN,
        3 => i64::MAX,
        4 => -0x20_0000_0000_0001,
        5 => 0x20_0000_0000_0000,
        6 => -1_000_000_000_000_000_000,
        _ => gen_u64(cur) as i64,
    }
}

/// The state that a cursor, a budget and a list of raw bytes stand for.
pub open spec fn gen_of(rest: Seq<u8>, budget: usize, raws: Seq<RawText>) -> Gen {
    Gen { rest, budget: budget as int, raws: raws_of(raws) }
}

fn gen_scalar(cur: &mut Cursor<'_>, kind: u8, sel: u8, raws: &mut Vec<RawText>) -> (r: Node)
    ensures
        ({
            let out = scalar_gen(kind, sel, gen_of(old(cur)@, 0, old(raws)@));
            &&& tree(r) == out.0
            &&& final(cur)@ == out.1.rest
            &&& raws_of(final(raws)@) == out.1.raws
        }),
{
    match kind {
        0 => Node::Null,
        1 => Node::Bool(sel % 2 == 1),
        2 => Node::UInt(gen_unsigned(cur, sel)),
        3 => Node::Int(gen_signed(cur, sel)),
        4 => {
            let len: usize = cur.u8() as usize;
            let bytes = cur.take(len);
            raws.push(RawText { hex: false, bytes: copy_bytes(bytes) });
            proof {
                assert(raws_of(raws@) =~= raws_of(old(raws)@).push((false, bytes@)));
            }
            Node::Str(lossy_string(bytes))
        },
        5 => {
            let len: usize = cur.u8() as usize;
            let bytes = cur.take(len);
            raws.push(RawText { hex: true, bytes: copy_bytes(bytes) });
            proof {
                assert(raws_of(raws@) =~= raws_of(old(raws)@).push((true, bytes@)));
            }
            Node::Str(hex_lower(bytes))
        },
        6 => {
            let len: usize = cur.u8() as usize % 65;
            Node::Str(class_string(cur, len))
        },
        _ => {
            let len: usize = cur.u8() as usize;
            let bytes = cur.take(len);
            Node::Str(lossy_string(bytes))
        },
    }
}

/// Generates a tree, with the raw bytes that stand in it as strings.
pub fn gen_node(cur: &mut Cursor<'_>, depth: usize, budget: &mut usize, raws: &mut Vec<RawText>) -> (r: Node)
    ensures
        ({
            let out = node_gen(gen_of(old(cur)@, *old(budget), old(raws)@), depth as int);
            &&& tree(r) == out.0
            &&& gen_of(final(cur)@, *final(budget), final(raws)@) == out.1
        }),
    decreases MAX_DEPTH - depth, 0nat,
{
    if *budget == 0 {
        return Node::Null;
    }
    *budget = *budget - 1;
    let tag: u8 = cur.u8();
    let kind: u8 = if depth >= MAX_DEPTH {
        tag % 12 % 8
    } else {
        tag % 12
    };
    if kind < 8 {
        gen_scalar(cur, kind, tag / 16, raws)
    } else {
        let n: usize = (cur.u8() % 9) as usize;
        if kind < 10 {
            Node::Array(gen_items(cur, depth + 1, budget, raws, n))
        } else {
            Node::Object(gen_fields(cur, depth + 1, budget, raws, n))
        }
    }
}

fn gen_items(cur: &mut Cursor<'_>, depth: usize, budget: &mut usize, raws: &mut Vec<RawText>, n: usize) -> (r: Vec<Node>)
    requires
        n <= 8,
    ensures
        ({
            let out = items_gen(gen_of(old(cur)@, *old(budget), old(raws)@), depth as int, n as nat);
            &&& items_tree(r@, r@.len()) == out.0
            &&& gen_of(final(cur)@, *final(budget), final(raws)@) == out.1
        }),
    decreases MAX_DEPTH - depth, 1 + n,
{
    let mut out: Vec<Node> = Vec::new();
    let mut i: usize = 0;
    let ghost g = gen_of(cur@, *budget, raws@);
    while i < n
        invariant
            i <= n,
            g == gen_of(old(cur)@, *old(budget), old(raws)@),
            items_tree(out@, out@.len()) == items_gen(g, depth as int, i as nat).0,
            gen_of(cur@, *budget, raws@) == items_gen(g, depth as int, i as nat).1,
        decreases n - i,
    {
        if *budget > 0 {
            let x = gen_node(cur, depth, budget, raws);
            let ghost before = out@;
            out.push(x);
            proof {
                lemma_items_prefix(before, out@, before.len());
            }
        }
        i = i + 1;
    }
    out
}

fn gen_fields(cur: &mut Cursor<'_>, depth: usize, budget: &mut usize, raws: &mut Vec<RawText>, n: usize) -> (r: Vec<(String, Node)>)
    requires
        n <= 8,
    ensures
        ({
            let out = fields_gen(gen_of(old(cur)@, *old(budget), old(raws)@), depth as int, n as nat);
            &&& fields_tree(r@, r@.len()) == out.0
            &&& gen_of(final(cur)@, *final(budget), final(raws)@) == out.1
        }),
    decreases MAX_DEPTH - depth, 1 + n,
{
    let mut out: Vec<(String, Node)> = Vec::new();
    let mut i: usize = 0;
    let ghost g = gen_of(cur@, *budget, raws@);
    while i < n
        invariant
            i <= n,
            g == gen_of(old(cur)@, *old(budget), old(raws)@),
            fields_tree(out@, out@.len()) == fields_gen(g, depth as int, i as nat).0,
            gen_of(cur@, *budget, raws@) == fields_gen(g, depth as int, i as nat).1,
        decreases n - i,
    {
        if *budget > 0 {
            let klen: usize = (cur.u8() % 9) as usize;
            let key = class_string(cur, klen);
            let x = gen_node(cur, depth, budget, raws);
            let ghost before = out@;
            out.push((key, x));
            proof {
                lemma_fields_prefix(before, out@, before.len());
            }
        }
        i = i + 1;
    }
    out
}

proof fn lemma_items_prefix(a: Seq<Node>, b: Seq<Node>, n: nat)
    requires
        a.is_prefix_of(b),
        n <= a.len(),
    ensures
        items_tree(a, n) == items_tree(b, n),
    decreases n,
{
    if n > 0 {
        lemma_items_prefix(a, b, (n - 1) as nat);
    }
}

proof fn lemma_fields_prefix(a: Seq<(String, Node)>, b: Seq<(String, Node)>, n: nat)
    requires
        a.is_prefix_of(b),
        n <= a.len(),
    ensures
        fields_tree(a, n) == fields_tree(b, n),
    decreases n,
{
    if n > 0 {
        lemma_fields_prefix(a, b, (n - 1) as nat);
    }
}

/// The number of nodes of the first `n` trees.
pub open spec fn trees_count(v: Seq<Tree>, n: nat) -> nat
    decreases v, n,
{
    if n == 0 || n > v.len() {
        0
    } else {
        trees_count(v, (n - 1) as nat) + tree_count(v[n - 1])
    }
}

/// The number of nodes of the first `n` fields.
pub open spec fn pairs_count(v: Seq<(Seq<char>, Tree)>, n: nat) -> nat
    decreases v, n,
{
    if n == 0 || n > v.len() {
        0
    } else {
        pairs_count(v, (n - 1) as nat) + tree_count(v[n - 1].1)
    }
}

/// The number of nodes of a tree.
pub open spec fn tree_count(t: Tree) -> nat
    decreases t, 0nat,
{
    match t {
        Tree::Array(v) => 1 + trees_count(v, v.len()),
        Tree::Object(v) => 1 + pairs_count(v, v.len()),
        _ => 1,
    }
}

/// The nesting of the first `n` trees.
pub open spec fn trees_depth(v: Seq<Tree>, n: nat) -> nat
    decreases v, n,
{
    if n == 0 || n > v.len() {
        0
    } else {
        max_nat(trees_depth(v, (n - 1) as nat), tree_depth(v[n - 1]))
    }
}

/// The nesting of the first `n` fields.
pub open spec fn pairs_depth(v: Seq<(Seq<char>, Tree)>, n: nat) -> nat
    decreases v, n,
{
    if n == 0 || n > v.len() {
        0
    } else {
        max_nat(pairs_depth(v, (n - 1) as nat), tree_depth(v[n - 1].1))
    }
}

/// The nesting of a tree.
pub open spec fn tree_depth(t: Tree) -> nat
    decreases t, 0nat,
{
    match t {
        Tree::Array(v) => 1 + trees_depth(v, v.len()),
        Tree::Object(v) => 1 + pairs_depth(v, v.len()),
        _ => 1,
    }
}

proof fn lemma_trees_prefix(a: Seq<Tree>, b: Seq<Tree>, n: nat)
    requires
        a.is_prefix_of(b),
        n <= a.len(),
    ensures
        trees_count(a, n) == trees_count(b, n),
        trees_depth(a, n) == trees_depth(b, n),
    decreases n,
{
    if n > 0 {
        lemma_trees_prefix(a, b, (n - 1) as nat);
    }
}

proof fn lemma_pairs_prefix(a: Seq<(Seq<char>, Tree)>, b: Seq<(Seq<char>, Tree)>, n: nat)
    requires
        a.is_prefix_of(b),
        n <= a.len(),
    ensures
        pairs_count(a, n) == pairs_count(b, n),
        pairs_depth(a, n) == pairs_depth(b, n),
    decreases n,
{
    if n > 0 {
        lemma_pairs_prefix(a, b, (n - 1) as nat);
    }
}

proof fn lemma_items_bounds(g: Gen, depth: int, n: nat)
    requires
        g.budget >= 0,
        depth <= MAX_DEPTH,
    ensures
        ({
            let (v, g2) = items_gen(g, depth, n);
            &&& g2.budget >= 0
            &&& trees_count(v, v.len()) + g2.budget == g.budget
            &&& trees_depth(v, v.len()) <= MAX_DEPTH + 1 - depth
        }),
    decreases MAX_DEPTH - depth, n,
{
    if n > 0 {
        lemma_items_bounds(g, depth, (n - 1) as nat);
        let (v, g1) = items_gen(g, depth, (n - 1) as nat);
        if g1.budget != 0 {
            lemma_node_bounds(g1, depth);
            let (x, g2) = node_gen(g1, depth);
            lemma_trees_prefix(v, v.push(x), v.len());
        }
    }
}

proof fn lemma_fields_bounds(g: Gen, depth: int, n: nat)
    requires
        g.budget >= 0,
        depth <= MAX_DEPTH,
    ensures
        ({
            let (v, g2) = fields_gen(g, depth, n);
            &&& g2.budget >= 0
            &&& pairs_count(v, v.len()) + g2.budget == g.budget
            &&& pairs_depth(v, v.len()) <= MAX_DEPTH + 1 - depth
        }),
    decreases MAX_DEPTH - depth, n,
{
    if n > 0 {
        lemma_fields_bounds(g, depth, (n - 1) as nat);
        let (v, g1) = fields_gen(g, depth, (n - 1) as nat);
        if g1.budget != 0 {
            let klen = byte_at(g1.rest, 0) as int % 9;
            let key = class_text(dropped(g1.rest, 1), klen);
            let at = Gen { rest: dropped(dropped(g1.rest, 1), klen), ..g1 };
            lemma_node_bounds(at, depth);
            let (x, g2) = node_gen(at, depth);
            lemma_pairs_prefix(v, v.push((key, x)), v.len());
        }
    }
}

proof fn lemma_node_bounds(g: Gen, depth: int)
    requires
        g.budget > 0,
        depth <= MAX_DEPTH,
    ensures
        ({
            let (t, g2) = node_gen(g, depth);
            &&& g2.budget >= 0
            &&& tree_count(t) + g2.budget == g.budget
            &&& tree_depth(t) <= MAX_DEPTH + 1 - depth
        }),
    decreases MAX_DEPTH - depth, 0nat,
{
    if depth < MAX_DEPTH {
        let g1 = Gen { rest: dropped(g.rest, 1), budget: g.budget - 1, raws: g.raws };
        let n = (byte_at(g1.rest, 0) % 9) as nat;
        lemma_items_bounds(after(g1, 1), depth + 1, n);
        lemma_fields_bounds(after(g1, 1), depth + 1, n);
    }
}

proof fn lemma_items_measure(v: Seq<Node>, n: nat)
    requires
        n <= v.len(),
    ensures
        items_tree(v, n).len() == n,
        trees_count(items_tree(v, n), n) == items_count(v, n),
        trees_depth(items_tree(v, n), n) == items_depth(v, n),
    decreases v, n,
{
    if n > 0 {
        lemma_items_measure(v, (n - 1) as nat);
        assert(decreases_to!(v => v[n - 1]));
        lemma_measure(v[n - 1]);
        lemma_trees_prefix(items_tree(v, (n - 1) as nat), items_tree(v, n), (n - 1) as nat);
    }
}

proof fn lemma_fields_measure(v: Seq<(String, Node)>, n: nat)
    requires
        n <= v.len(),
    ensures
        fields_tree(v, n).len() == n,
        pairs_count(fields_tree(v, n), n) == fields_count(v, n),
        pairs_depth(fields_tree(v, n), n) == fields_depth(v, n),
    decreases v, n,
{
    if n > 0 {
        lemma_fields_measure(v, (n - 1) as nat);
        assert(decreases_to!(v => v[n - 1]));
        assert(decreases_to!(v[n - 1] => v[n - 1].1));
        lemma_measure(v[n - 1].1);
        lemma_pairs_prefix(fields_tree(v, (n - 1) as nat), fields_tree(v, n), (n - 1) as nat);
    }
}

proof fn lemma_measure(n: Node)
    ensures
        tree_count(tree(n)) == node_count(n),
        tree_depth(tree(n)) == node_depth(n),
    decreases n, 0nat,
{
    match n {
        Node::Array(v) => lemma_items_measure(v@, v@.len()),
        Node::Object(v) => lemma_fields_measure(v@, v@.len()),
        _ => {},
    }
}

/// A generated tree keeps to its limits: from a budget of nodes it takes
/// exactly as many as it has, and from the top it nests no deeper than the
/// deepest level.
pub proof fn lemma_generated_tree_bounded(s: Seq<u8>, node: Node)
    requires
        tree(node) == node_gen(Gen { rest: s, budget: MAX_NODES as int, raws: Seq::empty() }, 1).0,
    ensures
        1 <= node_count(node) <= MAX_NODES,
        1 <= node_depth(node) <= MAX_DEPTH,
{
    lemma_measure(node);
    lemma_node_bounds(Gen { rest: s, budget: MAX_NODES as int, raws: Seq::empty() }, 1);
}

/// Bytes of printable ASCII without a backslash.
pub open spec fn plain_bytes(b: Seq<u8>) -> bool {
    forall|i: int| 0 <= i < b.len() ==> 0x20 <= #[trigger] b[i] <= 0x7e && b[i] != 92
}

/// What the terminal escaping `e` and the quoted form `q` owe their `bytes`:
/// both are undone, plain text stays as it is, no escape is longer than four
/// bytes.
pub open spec fn escaping_holds(bytes: Seq<u8>, e: Seq<u8>, q: Seq<u8>) -> bool {
    &&& unescaped(e, 0, false) == Some(bytes)
    &&& plain_bytes(bytes) ==> e == bytes
    &&& bytes.len() <= e.len() <= 4 * bytes.len()
    &&& q.len() >= 2
    &&& q[0] == 34
    &&& q.last() == 34
    &&& unescaped(q.subrange(1, q.len() - 1), 0, true) == Some(bytes)
}

fn is_plain(b: &[u8]) -> (r: bool)
    ensures
        r == plain_bytes(b@),
{
    let mut i: usize = 0;
    while i < b.len()
        invariant
            i <= b@.len(),
            forall|k: int| 0 <= k < i ==> 0x20 <= #[trigger] b@[k] <= 0x7e && b@[k] != 92,
        decreases b@.len() - i,
    {
        if b[i] < 0x20 || b[i] > 0x7e || b[i] == 92 {
            return false;
        }
        i = i + 1;
    }
    true
}

fn undone(e: &[u8], bytes: &[u8], quotes_escaped: bool) -> (r: bool)
    ensures
        r == (unescaped(e@, 0, quotes_escaped) == Some(bytes@)),
{
    match unescape_bytes(e, quotes_escaped) {
        Some(v) => same_bytes(v.as_slice(), bytes),
        None => false,
    }
}

/// Whether the terminal escaping of `bytes`, their quoted form, and the JSON
/// text of the quoted form are right: the escapings are undone, and the JSON
/// text holds the quoted form as its one string.
pub fn check_text(bytes: &[u8], escaped: &str, quoted: &str, json: &str) -> (r: bool)
    ensures
        r == (escaping_holds(bytes@, bytes_of(escaped), bytes_of(quoted)) && scanned(json@, 0) == Some(seq![quoted@])
            && json@ == crate::state_support::json_ref::quoted(quoted@)),
{
    let e = escaped.as_bytes();
    let q = quoted.as_bytes();
    if !undone(e, bytes, false) || (is_plain(bytes) && !same_bytes(e, bytes)) {
        return false;
    }
    if e.len() < bytes.len() || e.len() / 4 > bytes.len() || (e.len() / 4 == bytes.len() && e.len() % 4 != 0) {
        return false;
    }
    if q.len() < 2 || q[0] != 34 || q[q.len() - 1] != 34 {
        return false;
    }
    if !undone(slice_subrange(q, 1, q.len() - 1), bytes, true) {
        return false;
    }
    let found = match read_strings(json) {
        Some(v) => v,
        None => {
            return false;
        },
    };
    if found.len() != 1 || !same_text(found[0].as_str(), quoted) {
        proof {
            if texts(found@) == seq![quoted@] {
                assert(texts(found@).len() == 1);
                assert(texts(found@)[0] == found@[0]@);
            }
        }
        return false;
    }
    proof {
        assert(texts(found@) =~= seq![quoted@]);
    }
    let mut out: Vec<char> = Vec::new();
    write_string(quoted, &mut out);
    let expected = string_from_chars(out);
    same_text(expected.as_str(), json)
}

proof fn lemma_escaped_len(b: Seq<u8>, i: int, quotes_escaped: bool)
    requires
        0 <= i <= b.len(),
    ensures
        b.len() - i <= terminal_escaped(b, i, quotes_escaped).len() <= 4 * (b.len() - i),
        plain_bytes(b) && !quotes_escaped ==> terminal_escaped(b, i, quotes_escaped) == b.skip(i),
    decreases b.len() - i,
{
    if i < b.len() {
        lemma_escaped_len(b, i + 1, quotes_escaped);
        assert(b.skip(i) =~= seq![b[i]] + b.skip(i + 1));
    } else {
        assert(b.skip(i) =~= Seq::empty());
    }
}

/// The terminal escaping and the quoted form of every byte string are undone,
/// leave plain text as it is, and keep to four bytes for one.
pub proof fn lemma_escaping_holds(b: Seq<u8>)
    ensures
        escaping_holds(b, terminal_escaped(b, 0, false), seq![34u8] + terminal_escaped(b, 0, true) + seq![34u8]),
{
    lemma_unescape_inverts(b, false);
    lemma_unescape_inverts(b, true);
    lemma_escaped_len(b, 0, false);
    assert(b.skip(0) =~= b);
    let t = terminal_escaped(b, 0, true);
    let q = seq![34u8] + t + seq![34u8];
    assert(q.subrange(1, q.len() - 1) =~= t);
}

} // verus!
