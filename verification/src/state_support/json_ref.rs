//! JSON (RFC 8259): a tree, its compact text, the strings in a text, and the
//! inverse of terminal escaping.

use vstd::prelude::*;
use crate::digits::{
    decimal, decode_hex, hex_decoded, hex_digit, hex_digit_of, hex_value, hex_value_of, is_digit, lemma_decimal,
    push_decimal,
};
use crate::text::{ascii_text, bytes_of, chars_of, push_ascii, push_text, string_from_chars};
use crate::seqs::texts;

verus! {

/// A JSON value; objects keep their order and may repeat a key.
#[derive(Debug, PartialEq, Eq)]
pub enum Node {
    /// `null`
    Null,
    /// `true`/`false`
    Bool(bool),
    /// Unsigned integer.
    UInt(u64),
    /// Signed integer.
    Int(i64),
    /// String.
    Str(String),
    /// Array.
    Array(Vec<Node>),
    /// Object with insertion order (duplicates allowed).
    Object(Vec<(String, Node)>),
}

/// The number of nodes in the first `n` items.
pub open spec fn items_count(v: Seq<Node>, n: nat) -> nat
    decreases v, n,
{
    if n == 0 || n > v.len() {
        0
    } else {
        items_count(v, (n - 1) as nat) + node_count(v[n - 1])
    }
}

/// The number of nodes in the first `n` fields.
pub open spec fn fields_count(v: Seq<(String, Node)>, n: nat) -> nat
    decreases v, n,
{
    if n == 0 || n > v.len() {
        0
    } else {
        fields_count(v, (n - 1) as nat) + node_count(v[n - 1].1)
    }
}

/// The number of nodes in a tree.
pub open spec fn node_count(n: Node) -> nat
    decreases n, 0nat,
{
    match n {
        Node::Array(v) => 1 + items_count(v@, v@.len()),
        Node::Object(v) => 1 + fields_count(v@, v@.len()),
        _ => 1,
    }
}

/// The larger of two depths.
pub open spec fn max_nat(a: nat, b: nat) -> nat {
    if a >= b {
        a
    } else {
        b
    }
}

/// The largest depth among the first `n` items.
pub open spec fn items_depth(v: Seq<Node>, n: nat) -> nat
    decreases v, n,
{
    if n == 0 || n > v.len() {
        0
    } else {
        max_nat(items_depth(v, (n - 1) as nat), node_depth(v[n - 1]))
    }
}

/// The largest depth among the first `n` fields.
pub open spec fn fields_depth(v: Seq<(String, Node)>, n: nat) -> nat
    decreases v, n,
{
    if n == 0 || n > v.len() {
        0
    } else {
        max_nat(fields_depth(v, (n - 1) as nat), node_depth(v[n - 1].1))
    }
}

/// The nesting depth of a tree; a scalar has depth 1.
pub open spec fn node_depth(n: Node) -> nat
    decreases n, 0nat,
{
    match n {
        Node::Array(v) => 1 + items_depth(v@, v@.len()),
        Node::Object(v) => 1 + fields_depth(v@, v@.len()),
        _ => 1,
    }
}

/// The text of one character inside a string.
pub open spec fn escape_char(c: char) -> Seq<char> {
    if c == '"' {
        seq!['\\', '"']
    } else if c == '\\' {
        seq!['\\', '\\']
    } else if c == '\n' {
        seq!['\\', 'n']
    } else if c == '\r' {
        seq!['\\', 'r']
    } else if c == '\t' {
        seq!['\\', 't']
    } else if c == '\u{8}' {
        seq!['\\', 'b']
    } else if c == '\u{c}' {
        seq!['\\', 'f']
    } else if c as int <= 31 {
        seq!['\\', 'u', '0', '0', hex_digit_of(c as int / 16) as char, hex_digit_of(c as int % 16) as char]
    } else {
        seq![c]
    }
}

/// The text of characters inside a string, from the `i`-th on.
pub open spec fn escaped(s: Seq<char>, i: int) -> Seq<char>
    decreases s.len() - i,
{
    if i >= s.len() {
        Seq::empty()
    } else {
        escape_char(s[i]) + escaped(s, i + 1)
    }
}

/// The string literal of a text.
pub open spec fn quoted(s: Seq<char>) -> Seq<char> {
    seq!['"'] + escaped(s, 0) + seq!['"']
}

/// The decimal text of an integer.
pub open spec fn int_text(n: int) -> Seq<char> {
    if n < 0 {
        seq!['-'] + ascii_text(decimal(-n))
    } else {
        ascii_text(decimal(n))
    }
}

/// The texts of the first `n` items, with commas between.
pub open spec fn items_text(v: Seq<Node>, n: nat) -> Seq<char>
    decreases v, n,
{
    if n == 0 || n > v.len() {
        Seq::empty()
    } else if n == 1 {
        json_text(v[0])
    } else {
        items_text(v, (n - 1) as nat) + seq![','] + json_text(v[n - 1])
    }
}

/// The texts of the first `n` fields, with commas between.
pub open spec fn fields_text(v: Seq<(String, Node)>, n: nat) -> Seq<char>
    decreases v, n,
{
    if n == 0 || n > v.len() {
        Seq::empty()
    } else {
        (if n == 1 {
            Seq::empty()
        } else {
            fields_text(v, (n - 1) as nat) + seq![',']
        }) + quoted(v[n - 1].0@) + seq![':'] + json_text(v[n - 1].1)
    }
}

/// The compact text of a tree: no whitespace, the quote, the backslash and the
/// controls escaped, everything else as it is, integers in decimal.
pub open spec fn json_text(n: Node) -> Seq<char>
    decreases n, 0nat,
{
    match n {
        Node::Null => "null"@,
        Node::Bool(b) => if b {
            "true"@
        } else {
            "false"@
        },
        Node::UInt(u) => int_text(u as int),
        Node::Int(i) => int_text(i as int),
        Node::Str(s) => quoted(s@),
        Node::Array(v) => seq!['['] + items_text(v@, v@.len()) + seq![']'],
        Node::Object(v) => seq!['{'] + fields_text(v@, v@.len()) + seq!['}'],
    }
}

/// The strings of the first `n` items, in order.
pub open spec fn items_strings(v: Seq<Node>, n: nat) -> Seq<Seq<char>>
    decreases v, n,
{
    if n == 0 || n > v.len() {
        Seq::empty()
    } else {
        items_strings(v, (n - 1) as nat) + strings_of(v[n - 1])
    }
}

/// The strings of the first `n` fields: each key before its value.
pub open spec fn fields_strings(v: Seq<(String, Node)>, n: nat) -> Seq<Seq<char>>
    decreases v, n,
{
    if n == 0 || n > v.len() {
        Seq::empty()
    } else {
        fields_strings(v, (n - 1) as nat).push(v[n - 1].0@) + strings_of(v[n - 1].1)
    }
}

/// Every string in a tree in the order of its text.
pub open spec fn strings_of(n: Node) -> Seq<Seq<char>>
    decreases n, 0nat,
{
    match n {
        Node::Str(s) => seq![s@],
        Node::Array(v) => items_strings(v@, v@.len()),
        Node::Object(v) => fields_strings(v@, v@.len()),
        _ => Seq::empty(),
    }
}

fn push_escaped(out: &mut Vec<char>, c: char)
    ensures
        final(out)@ == old(out)@ + escape_char(c),
{
    if c == '"' {
        out.push('\\');
        out.push('"');
    } else if c == '\\' {
        out.push('\\');
        out.push('\\');
    } else if c == '\n' {
        out.push('\\');
        out.push('n');
    } else if c == '\r' {
        out.push('\\');
        out.push('r');
    } else if c == '\t' {
        out.push('\\');
        out.push('t');
    } else if c == '\u{8}' {
        out.push('\\');
        out.push('b');
    } else if c == '\u{c}' {
        out.push('\\');
        out.push('f');
    } else if c as u32 <= 31 {
        let b: u8 = c as u8;
        out.push('\\');
        out.push('u');
        out.push('0');
        out.push('0');
        out.push(hex_digit(b / 16) as char);
        out.push(hex_digit(b % 16) as char);
    } else {
        out.push(c);
    }
    proof {
        assert(out@ =~= old(out)@ + escape_char(c));
    }
}

/// Appends the string literal of a text.
pub fn write_string(s: &str, out: &mut Vec<char>)
    ensures
        final(out)@ == old(out)@ + quoted(s@),
{
    let chars = chars_of(s);
    let ghost start = out@;
    out.push('"');
    let mut i: usize = 0;
    proof {
        assert(out@ + escaped(s@, 0) =~= start + (seq!['"'] + escaped(s@, 0)));
    }
    while i < chars.len()
        invariant
            i <= chars@.len(),
            chars@ == s@,
            out@ + escaped(s@, i as int) == start + (seq!['"'] + escaped(s@, 0)),
        decreases chars@.len() - i,
    {
        let ghost before = out@;
        push_escaped(out, chars[i]);
        proof {
            assert(before + escaped(s@, i as int) =~= out@ + escaped(s@, i + 1));
        }
        i = i + 1;
    }
    proof {
        assert(out@ + Seq::<char>::empty() =~= out@);
    }
    out.push('"');
    proof {
        assert(out@ =~= start + quoted(s@));
    }
}

fn write_unsigned(n: u64, out: &mut Vec<char>)
    ensures
        final(out)@ == old(out)@ + int_text(n as int),
{
    let mut d: Vec<u8> = Vec::new();
    push_decimal(&mut d, n);
    proof {
        assert(d@ =~= decimal(n as int));
        lemma_decimal(n as int);
        assert forall|i: int| 0 <= i < d@.len() implies #[trigger] d@[i] < 128 by {
            assert(is_digit(d@[i]));
        }
    }
    push_ascii(out, d.as_slice());
}

fn write_signed(n: i64, out: &mut Vec<char>)
    ensures
        final(out)@ == old(out)@ + int_text(n as int),
{
    if n < 0 {
        let ghost start = out@;
        out.push('-');
        let magnitude: u64 = (-(n + 1)) as u64 + 1;
        let ghost before = out@;
        write_unsigned(magnitude, out);
        proof {
            assert(magnitude == -n);
            assert(out@ =~= start + int_text(n as int));
        }
    } else {
        write_unsigned(n as u64, out);
    }
}

fn write_node(node: &Node, out: &mut Vec<char>)
    ensures
        final(out)@ == old(out)@ + json_text(*node),
    decreases node,
{
    let ghost start = out@;
    match node {
        Node::Null => {
            push_text(out, "null");
        },
        Node::Bool(b) => {
            if *b {
                push_text(out, "true");
            } else {
                push_text(out, "false");
            }
        },
        Node::UInt(n) => {
            write_unsigned(*n, out);
        },
        Node::Int(n) => {
            write_signed(*n, out);
        },
        Node::Str(s) => {
            write_string(s.as_str(), out);
        },
        Node::Array(items) => {
            out.push('[');
            let mut i: usize = 0;
            proof {
                assert(out@ =~= start + seq!['['] + items_text(items@, 0));
            }
            while i < items.len()
                invariant
                    i <= items@.len(),
                    node == Node::Array(*items),
                    out@ == start + seq!['['] + items_text(items@, i as nat),
                decreases items@.len() - i,
            {
                let ghost before = out@;
                if i > 0 {
                    out.push(',');
                }
                proof {
                    assert(decreases_to!(*node => node->Array_0));
                    assert(decreases_to!(*items => items@));
                    assert(decreases_to!(items@ => items@[i as int]));
                }
                write_node(&items[i], out);
                i = i + 1;
                proof {
                    assert(out@ =~= start + seq!['['] + items_text(items@, i as nat));
                }
            }
            out.push(']');
            proof {
                assert(out@ =~= start + json_text(*node));
            }
        },
        Node::Object(fields) => {
            out.push('{');
            let mut i: usize = 0;
            proof {
                assert(out@ =~= start + seq!['{'] + fields_text(fields@, 0));
            }
            while i < fields.len()
                invariant
                    i <= fields@.len(),
                    node == Node::Object(*fields),
                    out@ == start + seq!['{'] + fields_text(fields@, i as nat),
                decreases fields@.len() - i,
            {
                if i > 0 {
                    out.push(',');
                }
                let f = &fields[i];
                write_string(f.0.as_str(), out);
                out.push(':');
                proof {
                    assert(decreases_to!(*node => node->Object_0));
                    assert(decreases_to!(*fields => fields@));
                    assert(decreases_to!(fields@ => fields@[i as int]));
                    assert(decreases_to!(fields@[i as int] => fields@[i as int].1));
                }
                write_node(&f.1, out);
                i = i + 1;
                proof {
                    assert(out@ =~= start + seq!['{'] + fields_text(fields@, i as nat));
                }
            }
            out.push('}');
            proof {
                assert(out@ =~= start + json_text(*node));
            }
        },
    }
}

/// The compact text of a tree (RFC 8259).
pub fn serialize(node: &Node) -> (r: String)
    ensures
        r@ == json_text(*node),
{
    let mut out: Vec<char> = Vec::new();
    write_node(node, &mut out);
    proof {
        assert(out@ =~= json_text(*node));
    }
    string_from_chars(out)
}

/// Appends every string in the tree in serialization order: object keys
/// immediately before their values, array items in order.
pub fn collect_strings(node: &Node, out: &mut Vec<String>)
    ensures
        texts(final(out)@) == texts(old(out)@) + strings_of(*node),
    decreases node,
{
    let ghost start = texts(out@);
    match node {
        Node::Str(s) => {
            out.push(s.clone());
            proof {
                assert(texts(out@) =~= start + seq![s@]);
            }
        },
        Node::Array(items) => {
            let mut i: usize = 0;
            proof {
                assert(start + items_strings(items@, 0) =~= start);
            }
            while i < items.len()
                invariant
                    i <= items@.len(),
                    node == Node::Array(*items),
                    texts(out@) == start + items_strings(items@, i as nat),
                decreases items@.len() - i,
            {
                proof {
                    assert(decreases_to!(*node => node->Array_0));
                    assert(decreases_to!(*items => items@));
                    assert(decreases_to!(items@ => items@[i as int]));
                }
                collect_strings(&items[i], out);
                i = i + 1;
                proof {
                    assert(texts(out@) =~= start + items_strings(items@, i as nat));
                }
            }
        },
        Node::Object(fields) => {
            let mut i: usize = 0;
            proof {
                assert(start + fields_strings(fields@, 0) =~= start);
            }
            while i < fields.len()
                invariant
                    i <= fields@.len(),
                    node == Node::Object(*fields),
                    texts(out@) == start + fields_strings(fields@, i as nat),
                decreases fields@.len() - i,
            {
                let ghost before = texts(out@);
                let f = &fields[i];
                out.push(f.0.clone());
                proof {
                    assert(texts(out@) =~= before.push(f.0@));
                }
                proof {
                    assert(decreases_to!(*node => node->Object_0));
                    assert(decreases_to!(*fields => fields@));
                    assert(decreases_to!(fields@ => fields@[i as int]));
                    assert(decreases_to!(fields@[i as int] => fields@[i as int].1));
                }
                collect_strings(&f.1, out);
                i = i + 1;
                proof {
                    assert(texts(out@) =~= start + fields_strings(fields@, i as nat));
                }
            }
        },
        _ => {
            proof {
                assert(start + strings_of(*node) =~= start);
            }
        },
    }
}

impl Node {
    /// Number of nodes in the tree (this one included).
    pub fn count(&self) -> (r: usize)
        requires
            node_count(*self) <= usize::MAX,
        ensures
            r == node_count(*self),
        decreases self,
    {
        match self {
            Node::Array(items) => {
                let mut total: usize = 1;
                let mut i: usize = 0;
                while i < items.len()
                    invariant
                        i <= items@.len(),
                        *self == Node::Array(*items),
                        total == 1 + items_count(items@, i as nat),
                        node_count(*self) <= usize::MAX,
                    decreases items@.len() - i,
                {
                    proof {
                        lemma_items_count_grows(items@, (i + 1) as nat, items@.len());
                        assert(decreases_to!(*self => self->Array_0));
                        assert(decreases_to!(*items => items@));
                        assert(decreases_to!(items@ => items@[i as int]));
                    }
                    total = total + items[i].count();
                    i = i + 1;
                }
                total
            },
            Node::Object(fields) => {
                let mut total: usize = 1;
                let mut i: usize = 0;
                while i < fields.len()
                    invariant
                        i <= fields@.len(),
                        *self == Node::Object(*fields),
                        total == 1 + fields_count(fields@, i as nat),
                        node_count(*self) <= usize::MAX,
                    decreases fields@.len() - i,
                {
                    proof {
                        lemma_fields_count_grows(fields@, (i + 1) as nat, fields@.len());
                        assert(decreases_to!(*self => self->Object_0));
                        assert(decreases_to!(*fields => fields@));
                        assert(decreases_to!(fields@ => fields@[i as int]));
                        assert(decreases_to!(fields@[i as int] => fields@[i as int].1));
                    }
                    let f = &fields[i];
                    total = total + f.1.count();
                    i = i + 1;
                }
                total
            },
            _ => 1,
        }
    }

    /// Maximum nesting depth (a scalar has depth 1).
    pub fn depth(&self) -> (r: usize)
        requires
            node_depth(*self) <= usize::MAX,
        ensures
            r == node_depth(*self),
        decreases self,
    {
        match self {
            Node::Array(items) => {
                let mut deepest: usize = 0;
                let mut i: usize = 0;
                while i < items.len()
                    invariant
                        i <= items@.len(),
                        *self == Node::Array(*items),
                        deepest == items_depth(items@, i as nat),
                        node_depth(*self) <= usize::MAX,
                    decreases items@.len() - i,
                {
                    proof {
                        lemma_items_depth_grows(items@, (i + 1) as nat, items@.len());
                        assert(decreases_to!(*self => self->Array_0));
                        assert(decreases_to!(*items => items@));
                        assert(decreases_to!(items@ => items@[i as int]));
                    }
                    let d: usize = items[i].depth();
                    if d > deepest {
                        deepest = d;
                    }
                    i = i + 1;
                }
                1 + deepest
            },
            Node::Object(fields) => {
                let mut deepest: usize = 0;
                let mut i: usize = 0;
                while i < fields.len()
                    invariant
                        i <= fields@.len(),
                        *self == Node::Object(*fields),
                        deepest == fields_depth(fields@, i as nat),
                        node_depth(*self) <= usize::MAX,
                    decreases fields@.len() - i,
                {
                    proof {
                        lemma_fields_depth_grows(fields@, (i + 1) as nat, fields@.len());
                        assert(decreases_to!(*self => self->Object_0));
                        assert(decreases_to!(*fields => fields@));
                        assert(decreases_to!(fields@ => fields@[i as int]));
                        assert(decreases_to!(fields@[i as int] => fields@[i as int].1));
                    }
                    let f = &fields[i];
                    let d: usize = f.1.depth();
                    if d > deepest {
                        deepest = d;
                    }
                    i = i + 1;
                }
                1 + deepest
            },
            _ => 1,
        }
    }
}

proof fn lemma_items_count_grows(v: Seq<Node>, a: nat, b: nat)
    requires
        a <= b <= v.len(),
    ensures
        items_count(v, a) <= items_count(v, b),
    decreases b - a,
{
    if a < b {
        lemma_items_count_grows(v, a, (b - 1) as nat);
    }
}

proof fn lemma_fields_count_grows(v: Seq<(String, Node)>, a: nat, b: nat)
    requires
        a <= b <= v.len(),
    ensures
        fields_count(v, a) <= fields_count(v, b),
    decreases b - a,
{
    if a < b {
        lemma_fields_count_grows(v, a, (b - 1) as nat);
    }
}

proof fn lemma_items_depth_grows(v: Seq<Node>, a: nat, b: nat)
    requires
        a <= b <= v.len(),
    ensures
        items_depth(v, a) <= items_depth(v, b),
    decreases b - a,
{
    if a < b {
        lemma_items_depth_grows(v, a, (b - 1) as nat);
    }
}

proof fn lemma_fields_depth_grows(v: Seq<(String, Node)>, a: nat, b: nat)
    requires
        a <= b <= v.len(),
    ensures
        fields_depth(v, a) <= fields_depth(v, b),
    decreases b - a,
{
    if a < b {
        lemma_fields_depth_grows(v, a, (b - 1) as nat);
    }
}

/// The value of a hexadecimal digit among characters.
pub open spec fn hex_char(c: char) -> Option<int> {
    if c as int <= 127 {
        match hex_value_of(c as u8) {
            Some(v) => Some(v as int),
            None => None,
        }
    } else {
        None
    }
}

/// The value of four hexadecimal digits at `i`.
pub open spec fn hex4_at(t: Seq<char>, i: int) -> Option<int> {
    if i + 4 > t.len() {
        None
    } else {
        match (hex_char(t[i]), hex_char(t[i + 1]), hex_char(t[i + 2]), hex_char(t[i + 3])) {
            (Some(a), Some(b), Some(c), Some(d)) => Some(4096 * a + 256 * b + 16 * c + d),
            _ => None,
        }
    }
}

/// The character that an escape letter stands for.
pub open spec fn short_escape(e: char) -> Option<char> {
    if e == '"' || e == '\\' || e == '/' {
        Some(e)
    } else if e == 'b' {
        Some('\u{8}')
    } else if e == 'f' {
        Some('\u{c}')
    } else if e == 'n' {
        Some('\n')
    } else if e == 'r' {
        Some('\r')
    } else if e == 't' {
        Some('\t')
    } else {
        None
    }
}

/// The character of a `\u` escape whose digits begin at `i`, and the position
/// behind it; a high surrogate needs a low one behind it.
pub open spec fn unicode_escape(t: Seq<char>, i: int) -> Option<(char, int)> {
    match hex4_at(t, i) {
        None => None,
        Some(cp) => if 0xD800 <= cp < 0xDC00 {
            if i + 6 <= t.len() && t[i + 4] == '\\' && t[i + 5] == 'u' {
                match hex4_at(t, i + 6) {
                    Some(lo) => if 0xDC00 <= lo < 0xE000 {
                        Some(((0x10000 + (cp - 0xD800) * 1024 + (lo - 0xDC00)) as char, i + 10))
                    } else {
                        None
                    },
                    None => None,
                }
            } else {
                None
            }
        } else if 0xDC00 <= cp < 0xE000 {
            None
        } else {
            Some((cp as char, i + 4))
        },
    }
}

/// One character of a string at `i`, and the position behind it.
pub open spec fn unit_at(t: Seq<char>, i: int) -> Option<(char, int)> {
    if i >= t.len() || t[i] as int <= 31 {
        None
    } else if t[i] != '\\' {
        Some((t[i], i + 1))
    } else if i + 1 >= t.len() {
        None
    } else if t[i + 1] == 'u' {
        unicode_escape(t, i + 2)
    } else {
        match short_escape(t[i + 1]) {
            Some(c) => Some((c, i + 2)),
            None => None,
        }
    }
}

/// The content of a string from `i` on, and the position behind its quote.
pub open spec fn string_at(t: Seq<char>, i: int) -> Option<(Seq<char>, int)>
    decreases t.len() - i,
{
    if i >= t.len() {
        None
    } else if t[i] == '"' {
        Some((Seq::empty(), i + 1))
    } else {
        match unit_at(t, i) {
            None => None,
            Some((c, next)) => if next <= i {
                None
            } else {
                match string_at(t, next) {
                    None => None,
                    Some((rest, end)) => Some((seq![c] + rest, end)),
                }
            },
        }
    }
}

/// The content of every string literal of a text from `i` on; nothing where
/// the text holds a raw control, an unknown escape, a truncated escape, a lone
/// surrogate or an unterminated string.
pub open spec fn scanned(t: Seq<char>, i: int) -> Option<Seq<Seq<char>>>
    decreases t.len() - i,
{
    if i < 0 || i >= t.len() {
        Some(Seq::empty())
    } else if t[i] as int <= 31 {
        None
    } else if t[i] != '"' {
        scanned(t, i + 1)
    } else {
        match string_at(t, i + 1) {
            None => None,
            Some((s, end)) => {
                proof {
                    lemma_string_end(t, i + 1);
                }
                match scanned(t, end) {
                    None => None,
                    Some(rest) => Some(seq![s] + rest),
                }
            },
        }
    }
}

/// A string ends behind where it starts, inside the text.
pub proof fn lemma_string_end(t: Seq<char>, i: int)
    requires
        0 <= i,
    ensures
        string_at(t, i) matches Some(r) ==> i < r.1 <= t.len(),
    decreases t.len() - i,
{
    if i < t.len() && t[i] != '"' {
        if let Some((c, next)) = unit_at(t, i) {
            if next > i {
                lemma_string_end(t, next);
            }
        }
    }
}

/// `char::from_u32` gives the character of a scalar value, and nothing for a
/// surrogate or a value beyond the last character.
#[verifier::external_body]
pub(crate) fn char_from_u32(v: u32) -> (r: Option<char>)
    ensures
        match r {
            Some(c) => c as int == v,
            None => 0xD800 <= v <= 0xDFFF || v > 0x10FFFF,
        },
        (0xD800 <= v <= 0xDFFF || v > 0x10FFFF) ==> r is None,
{
    char::from_u32(v)
}

fn is_control(c: char) -> (r: bool)
    ensures
        r == (c as int <= 31),
{
    c as u32 <= 31
}

fn hex_of_char(c: char) -> (r: Option<u32>)
    ensures
        match hex_char(c) {
            Some(v) => r matches Some(w) && w == v && w < 16,
            None => r is None,
        },
{
    if c as u32 <= 127 {
        match hex_value(c as u8) {
            Some(v) => Some(v as u32),
            None => None,
        }
    } else {
        None
    }
}

fn hex4(t: &Vec<char>, i: usize) -> (r: Option<u32>)
    requires
        i <= t@.len(),
    ensures
        match hex4_at(t@, i as int) {
            Some(v) => r matches Some(w) && w == v && w <= 0xFFFF,
            None => r is None,
        },
{
    let n: usize = t.len();
    if n - i < 4 {
        return None;
    }
    match (hex_of_char(t[i]), hex_of_char(t[i + 1]), hex_of_char(t[i + 2]), hex_of_char(t[i + 3])) {
        (Some(a), Some(b), Some(c), Some(d)) => Some(4096 * a + 256 * b + 16 * c + d),
        _ => None,
    }
}

fn read_unicode(t: &Vec<char>, i: usize) -> (r: Option<(char, usize)>)
    requires
        i <= t@.len(),
    ensures
        match unicode_escape(t@, i as int) {
            Some((c, next)) => r matches Some(v) && v.0 == c && v.1 == next && v.1 <= t@.len(),
            None => r is None,
        },
{
    let n: usize = t.len();
    let cp: u32 = match hex4(t, i) {
        Some(v) => v,
        None => {
            return None;
        },
    };
    if 0xD800 <= cp && cp < 0xDC00 {
        if n - i < 6 || t[i + 4] != '\\' || t[i + 5] != 'u' {
            return None;
        }
        let lo: u32 = match hex4(t, i + 6) {
            Some(v) => v,
            None => {
                return None;
            },
        };
        if lo < 0xDC00 || lo >= 0xE000 {
            return None;
        }
        let scalar: u32 = 0x10000 + (cp - 0xD800) * 1024 + (lo - 0xDC00);
        match char_from_u32(scalar) {
            Some(c) => Some((c, i + 10)),
            None => None,
        }
    } else if 0xDC00 <= cp && cp < 0xE000 {
        None
    } else {
        match char_from_u32(cp) {
            Some(c) => Some((c, i + 4)),
            None => None,
        }
    }
}

fn read_unit(t: &Vec<char>, i: usize) -> (r: Option<(char, usize)>)
    requires
        i < t@.len(),
    ensures
        match unit_at(t@, i as int) {
            Some((c, next)) => r matches Some(v) && v.0 == c && v.1 == next && i < v.1 <= t@.len(),
            None => r is None,
        },
{
    let n: usize = t.len();
    let c: char = t[i];
    if is_control(c) {
        None
    } else if c != '\\' {
        Some((c, i + 1))
    } else if n - i < 2 {
        None
    } else {
        let e: char = t[i + 1];
        if e == 'u' {
            read_unicode(t, i + 2)
        } else if e == '"' || e == '\\' || e == '/' {
            Some((e, i + 2))
        } else if e == 'b' {
            Some(('\u{8}', i + 2))
        } else if e == 'f' {
            Some(('\u{c}', i + 2))
        } else if e == 'n' {
            Some(('\n', i + 2))
        } else if e == 'r' {
            Some(('\r', i + 2))
        } else if e == 't' {
            Some(('\t', i + 2))
        } else {
            None
        }
    }
}

fn read_string(t: &Vec<char>, start: usize) -> (r: Option<(Vec<char>, usize)>)
    requires
        start <= t@.len(),
    ensures
        match string_at(t@, start as int) {
            Some((s, end)) => r matches Some(v) && v.0@ == s && v.1 == end && start < v.1 <= t@.len(),
            None => r is None,
        },
{
    let n: usize = t.len();
    let ghost goal = string_at(t@, start as int);
    let mut out: Vec<char> = Vec::new();
    let mut i: usize = start;
    proof {
        if let Some((s, end)) = goal {
            assert(out@ + s =~= s);
        }
    }
    while i < t.len()
        invariant
            start <= i <= t@.len(),
            t@.len() == n,
            goal == string_at(t@, start as int),
            match string_at(t@, i as int) {
                Some((s, end)) => goal == Some((out@ + s, end)),
                None => goal is None,
            },
        decreases t@.len() - i,
    {
        if t[i] == '"' {
            proof {
                assert(out@ + Seq::<char>::empty() =~= out@);
            }
            return Some((out, i + 1));
        }
        match read_unit(t, i) {
            None => {
                return None;
            },
            Some((c, next)) => {
                let ghost before = out@;
                out.push(c);
                proof {
                    if let Some((s, end)) = string_at(t@, next as int) {
                        assert(out@ + s =~= before + (seq![c] + s));
                    }
                }
                i = next;
            },
        }
    }
    None
}

/// The unescaped content of every string literal of a JSON text, in order. The
/// text is well formed: no control character stands in it, and every literal is
/// closed and escaped as JSON asks.
pub fn scan_strings(json: &str) -> (r: Vec<String>)
    requires
        scanned(json@, 0) is Some,
    ensures
        Some(texts(r@)) == scanned(json@, 0),
{
    read_strings(json).unwrap()
}

/// The unescaped content of every string literal of a text, in order; nothing
/// where the text is malformed.
pub fn read_strings(json: &str) -> (r: Option<Vec<String>>)
    ensures
        match scanned(json@, 0) {
            Some(s) => r matches Some(v) && texts(v@) == s,
            None => r is None,
        },
{
    let t = chars_of(json);
    let ghost goal = scanned(json@, 0);
    let mut out: Vec<String> = Vec::new();
    let mut i: usize = 0;
    proof {
        if let Some(s) = goal {
            assert(texts(out@) + s =~= s);
        }
    }
    while i < t.len()
        invariant
            i <= t@.len(),
            t@ == json@,
            goal == scanned(json@, 0),
            match scanned(t@, i as int) {
                Some(s) => goal == Some(texts(out@) + s),
                None => goal is None,
            },
        decreases t@.len() - i,
    {
        if is_control(t[i]) {
            return None;
        }
        if t[i] != '"' {
            i = i + 1;
        } else {
            match read_string(&t, i + 1) {
                None => {
                    return None;
                },
                Some((s, end)) => {
                    let ghost before = texts(out@);
                    let ghost content = s@;
                    out.push(string_from_chars(s));
                    proof {
                        assert(texts(out@) =~= before.push(content));
                        if let Some(rest) = scanned(t@, end as int) {
                            assert(texts(out@) + rest =~= before + (seq![content] + rest));
                        }
                    }
                    i = end;
                },
            }
        }
    }
    proof {
        assert(texts(out@) + Seq::<Seq<char>>::empty() =~= texts(out@));
    }
    Some(out)
}

/// The bytes that terminal escaping stands for, from `i` on; nothing where the
/// text is not printable ASCII or an escape is malformed.
pub open spec fn unescaped(b: Seq<u8>, i: int, quotes_escaped: bool) -> Option<Seq<u8>>
    decreases b.len() - i,
{
    if i >= b.len() {
        Some(Seq::empty())
    } else if !(0x20 <= b[i] <= 0x7e) || (b[i] == 34 && quotes_escaped) {
        None
    } else {
        match escape_at(b, i, quotes_escaped) {
            None => None,
            Some((v, next)) => if next <= i {
                None
            } else {
                match unescaped(b, next, quotes_escaped) {
                    None => None,
                    Some(rest) => Some(seq![v] + rest),
                }
            },
        }
    }
}

/// One byte of escaped text at `i`, and the position behind it.
pub open spec fn escape_at(b: Seq<u8>, i: int, quotes_escaped: bool) -> Option<(u8, int)> {
    if b[i] != 92 {
        Some((b[i], i + 1))
    } else if i + 1 >= b.len() {
        None
    } else if b[i + 1] == 92 {
        Some((92, i + 2))
    } else if b[i + 1] == 34 && quotes_escaped {
        Some((34, i + 2))
    } else if b[i + 1] == 120 && i + 3 < b.len() {
        match (hex_value_of(b[i + 2]), hex_value_of(b[i + 3])) {
            (Some(hi), Some(lo)) => Some(((16 * hi + lo) as u8, i + 4)),
            _ => None,
        }
    } else {
        None
    }
}

/// Inverse of terminal escaping, of a whole text or of the inside of a quoted
/// one. The text is printable ASCII and its escapes are regular.
pub fn unescape_terminal(s: &str, quotes_escaped: bool) -> (r: Vec<u8>)
    requires
        unescaped(bytes_of(s), 0, quotes_escaped) is Some,
    ensures
        Some(r@) == unescaped(bytes_of(s), 0, quotes_escaped),
{
    unescape_bytes(s.as_bytes(), quotes_escaped).unwrap()
}

/// Inverse of terminal escaping on the bytes of a text; nothing where they are
/// not printable ASCII or an escape is malformed.
pub fn unescape_bytes(b: &[u8], quotes_escaped: bool) -> (r: Option<Vec<u8>>)
    ensures
        match unescaped(b@, 0, quotes_escaped) {
            Some(v) => r matches Some(w) && w@ == v,
            None => r is None,
        },
{
    let ghost goal = unescaped(b@, 0, quotes_escaped);
    let mut out: Vec<u8> = Vec::new();
    let mut i: usize = 0;
    proof {
        if let Some(v) = goal {
            assert(out@ + v =~= v);
        }
    }
    while i < b.len()
        invariant
            i <= b@.len(),
            goal == unescaped(b@, 0, quotes_escaped),
            match unescaped(b@, i as int, quotes_escaped) {
                Some(v) => goal == Some(out@ + v),
                None => goal is None,
            },
        decreases b@.len() - i,
    {
        let c: u8 = b[i];
        if c < 0x20 || c > 0x7e || (c == 34 && quotes_escaped) {
            return None;
        }
        let ghost before = out@;
        let mut v: u8 = c;
        let mut next: usize = i + 1;
        if c == 92 {
            if b.len() - i < 2 {
                return None;
            }
            let e: u8 = b[i + 1];
            if e == 92 || (e == 34 && quotes_escaped) {
                v = e;
                next = i + 2;
            } else if e == 120 && b.len() - i > 3 {
                match (hex_value(b[i + 2]), hex_value(b[i + 3])) {
                    (Some(hi), Some(lo)) => {
                        v = 16 * hi + lo;
                        next = i + 4;
                    },
                    _ => {
                        return None;
                    },
                }
            } else {
                return None;
            }
        }
        proof {
            assert(escape_at(b@, i as int, quotes_escaped) == Some((v, next as int)));
        }
        out.push(v);
        proof {
            if let Some(w) = unescaped(b@, next as int, quotes_escaped) {
                assert(out@ + w =~= before + (seq![v] + w));
            }
        }
        i = next;
    }
    proof {
        assert(out@ + Seq::<u8>::empty() =~= out@);
    }
    Some(out)
}

/// Decodes lowercase hexadecimal of even length.
pub fn decode_hex_lower(s: &str) -> (r: Vec<u8>)
    requires
        hex_decoded(bytes_of(s)) is Some,
    ensures
        Some(r@) == hex_decoded(bytes_of(s)),
{
    decode_hex(s.as_bytes()).unwrap()
}

/// The terminal escaping of one byte: printable ASCII as it is, but for the
/// backslash and, inside quotes, the quote; anything else in hexadecimal.
pub open spec fn terminal_escape(b: u8, quotes_escaped: bool) -> Seq<u8> {
    if b == 92 {
        seq![92u8, 92]
    } else if b == 34 && quotes_escaped {
        seq![92u8, 34]
    } else if 0x20 <= b <= 0x7e {
        seq![b]
    } else {
        seq![92u8, 120, hex_digit_of((b / 16) as int), hex_digit_of((b % 16) as int)]
    }
}

/// The terminal escaping of bytes from the `i`-th on.
pub open spec fn terminal_escaped(b: Seq<u8>, i: int, quotes_escaped: bool) -> Seq<u8>
    decreases b.len() - i,
{
    if i >= b.len() {
        Seq::empty()
    } else {
        terminal_escape(b[i], quotes_escaped) + terminal_escaped(b, i + 1, quotes_escaped)
    }
}

proof fn lemma_unescape_from(pre: Seq<u8>, b: Seq<u8>, i: int, quotes_escaped: bool)
    requires
        0 <= i <= b.len(),
    ensures
        unescaped(pre + terminal_escaped(b, i, quotes_escaped), pre.len() as int, quotes_escaped) == Some(b.skip(i)),
    decreases b.len() - i,
{
    let t = pre + terminal_escaped(b, i, quotes_escaped);
    let p = pre.len() as int;
    if i == b.len() {
        assert(t =~= pre);
        assert(b.skip(i) =~= Seq::empty());
    } else {
        let e = terminal_escape(b[i], quotes_escaped);
        let rest = terminal_escaped(b, i + 1, quotes_escaped);
        assert(t =~= (pre + e) + rest);
        lemma_unescape_from(pre + e, b, i + 1, quotes_escaped);
        assert(t[p] == e[0]);
        if e.len() > 1 {
            assert(t[p + 1] == e[1]);
        }
        if e.len() > 2 {
            assert(t[p + 2] == e[2]);
            assert(t[p + 3] == e[3]);
            assert(b[i] / 16 < 16 && b[i] % 16 < 16);
            assert(16 * (b[i] / 16) + b[i] % 16 == b[i]);
        }
        assert(escape_at(t, p, quotes_escaped) == Some((b[i], p + e.len())));
        assert(b.skip(i) =~= seq![b[i]] + b.skip(i + 1));
    }
}

/// Terminal escaping is undone: the bytes come back.
pub proof fn lemma_unescape_inverts(b: Seq<u8>, quotes_escaped: bool)
    ensures
        unescaped(terminal_escaped(b, 0, quotes_escaped), 0, quotes_escaped) == Some(b),
{
    lemma_unescape_from(Seq::empty(), b, 0, quotes_escaped);
    assert(Seq::<u8>::empty() + terminal_escaped(b, 0, quotes_escaped) =~= terminal_escaped(b, 0, quotes_escaped));
    assert(b.skip(0) =~= b);
}

} // verus!
