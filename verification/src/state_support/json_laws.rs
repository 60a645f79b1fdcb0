//! What holds of JSON texts: a tokenizer reads back the strings of a tree.

use vstd::prelude::*;
use crate::digits::{all_digits, decimal, is_digit, lemma_decimal};
use crate::state_support::json_ref::{
    escape_char, escaped, hex_char, fields_strings, fields_text, hex4_at, int_text, items_strings, items_text, json_text, quoted,
    scanned, short_escape, string_at, strings_of, unicode_escape, unit_at, Node,
};
use crate::text::ascii_text;

verus! {

/// What follows a text `t` of a longer one, as the tokenizer sees it: the
/// strings `s`, then those of the rest.
pub open spec fn followed(s: Seq<Seq<char>>, rest: Option<Seq<Seq<char>>>) -> Option<Seq<Seq<char>>> {
    match rest {
        Some(r) => Some(s + r),
        None => None,
    }
}

/// One escaped character is read back.
proof fn lemma_unit(pre: Seq<char>, c: char, post: Seq<char>)
    ensures
        ({
            let t = pre + escape_char(c) + post;
            &&& t[pre.len() as int] != '"'
            &&& unit_at(t, pre.len() as int) == Some((c, pre.len() as int + escape_char(c).len()))
        }),
{
    let e = escape_char(c);
    let t = pre + e + post;
    let p = pre.len() as int;
    assert(forall|k: int| 0 <= k < e.len() ==> t[p + k] == e[k]);
    assert(t[p] == e[0]);
    if e.len() >= 2 {
        assert(t[p + 1] == e[1]);
    }
    if e.len() == 6 {
        assert(t[p + 2] == e[2]);
        assert(t[p + 3] == e[3]);
        assert(t[p + 4] == e[4]);
        assert(t[p + 5] == e[5]);
        assert(hex4_at(t, p + 2) == Some(c as int));
        assert(unicode_escape(t, p + 2) == Some((c, p + 6)));
    }
}

/// The content of a string literal is read back.
#[verifier::rlimit(60)]
proof fn lemma_string(pre: Seq<char>, s: Seq<char>, i: int, post: Seq<char>)
    requires
        0 <= i <= s.len(),
    ensures
        string_at(pre + escaped(s, i) + seq!['"'] + post, pre.len() as int) == Some(
            (s.skip(i), pre.len() as int + escaped(s, i).len() + 1),
        ),
    decreases s.len() - i,
{
    let t = pre + escaped(s, i) + seq!['"'] + post;
    let p = pre.len() as int;
    if i == s.len() {
        assert(t[p] == '"');
        assert(s.skip(i) =~= Seq::empty());
    } else {
        let e = escape_char(s[i]);
        let rest = escaped(s, i + 1) + seq!['"'] + post;
        assert(t =~= pre + e + rest);
        lemma_unit(pre, s[i], rest);
        assert(t =~= (pre + e) + escaped(s, i + 1) + seq!['"'] + post);
        lemma_string(pre + e, s, i + 1, post);
        assert(s.skip(i) =~= seq![s[i]] + s.skip(i + 1));
    }
}

/// A string literal is read back.
proof fn lemma_quoted(pre: Seq<char>, s: Seq<char>, post: Seq<char>)
    ensures
        scanned(pre + quoted(s) + post, pre.len() as int) == followed(
            seq![s],
            scanned(pre + quoted(s) + post, pre.len() + quoted(s).len() as int),
        ),
{
    let t = pre + quoted(s) + post;
    let p = pre.len() as int;
    assert(t[p] == '"');
    assert(t =~= pre.push('"') + escaped(s, 0) + seq!['"'] + post);
    lemma_string(pre.push('"'), s, 0, post);
    assert(s.skip(0) =~= s);
}

/// Text without quotes and controls holds no string.
proof fn lemma_plain(t: Seq<char>, i: int, j: int)
    requires
        0 <= i <= j <= t.len(),
        forall|k: int| i <= k < j ==> #[trigger] t[k] != '"' && t[k] as int > 31,
    ensures
        scanned(t, i) == scanned(t, j),
        scanned(t, i) == followed(Seq::empty(), scanned(t, j)),
    decreases j - i,
{
    if i < j {
        lemma_plain(t, i + 1, j);
    }
    if let Some(r) = scanned(t, j) {
        assert(Seq::empty() + r =~= r);
    }
}

proof fn lemma_number(n: int, k: int)
    requires
        0 <= k < int_text(n).len(),
    ensures
        int_text(n)[k] != '"' && int_text(n)[k] as int > 31,
{
    let m = if n < 0 {
        -n
    } else {
        n
    };
    lemma_decimal(m);
    let d = decimal(m);
    assert(all_digits(d));
    if n < 0 {
        if k > 0 {
            assert(int_text(n)[k] == ascii_text(d)[k - 1]);
            assert(is_digit(d[k - 1]));
        }
    } else {
        assert(is_digit(d[k]));
    }
}

proof fn lemma_followed(a: Seq<Seq<char>>, b: Seq<Seq<char>>, rest: Option<Seq<Seq<char>>>)
    ensures
        followed(a, followed(b, rest)) == followed(a + b, rest),
{
    if let Some(r) = rest {
        assert(a + (b + r) =~= (a + b) + r);
    }
}

/// One separator between parts.
proof fn lemma_step(t: Seq<char>, i: int, c: char)
    requires
        0 <= i < t.len(),
        t[i] == c,
        c != '"',
        c as int > 31,
    ensures
        scanned(t, i) == scanned(t, i + 1),
{
}

proof fn lemma_items(pre: Seq<char>, v: Seq<Node>, n: nat, post: Seq<char>)
    requires
        n <= v.len(),
    ensures
        scanned(pre + items_text(v, n) + post, pre.len() as int) == followed(
            items_strings(v, n),
            scanned(pre + items_text(v, n) + post, pre.len() + items_text(v, n).len() as int),
        ),
    decreases v, n,
{
    let t = pre + items_text(v, n) + post;
    let p = pre.len() as int;
    if n == 0 {
        lemma_plain(t, p, p);
    } else {
        let x = json_text(v[n - 1]);
        assert(decreases_to!(v => v[n - 1]));
        if n == 1 {
            assert(items_text(v, n) =~= x);
            lemma_text(pre, v[n - 1], post);
            assert(items_strings(v, 0) =~= Seq::empty());
            assert(items_strings(v, n) =~= strings_of(v[n - 1]));
        } else {
            let head = items_text(v, (n - 1) as nat);
            assert(t =~= pre + head + (seq![','] + x + post));
            lemma_items(pre, v, (n - 1) as nat, seq![','] + x + post);
            let q = p + head.len();
            lemma_step(t, q, ',');
            assert(t =~= (pre + head + seq![',']) + x + post);
            lemma_text(pre + head + seq![','], v[n - 1], post);
            lemma_followed(items_strings(v, (n - 1) as nat), strings_of(v[n - 1]), scanned(t, q + 1 + x.len()));
        }
    }
}

/// The text of one field.
spec fn field_text(f: (String, Node)) -> Seq<char> {
    quoted(f.0@) + seq![':'] + json_text(f.1)
}

proof fn lemma_field(pre: Seq<char>, f: (String, Node), post: Seq<char>)
    ensures
        scanned(pre + field_text(f) + post, pre.len() as int) == followed(
            seq![f.0@] + strings_of(f.1),
            scanned(pre + field_text(f) + post, pre.len() + field_text(f).len() as int),
        ),
    decreases f, 0nat,
{
    let k = f.0@;
    let x = json_text(f.1);
    let t = pre + field_text(f) + post;
    let q = pre.len() + quoted(k).len() as int;
    assert(t =~= pre + quoted(k) + (seq![':'] + x + post));
    lemma_quoted(pre, k, seq![':'] + x + post);
    assert(t[q] == ':');
    lemma_step(t, q, ':');
    assert(t =~= (pre + quoted(k) + seq![':']) + x + post);
    assert(decreases_to!(f => f.1));
    lemma_text(pre + quoted(k) + seq![':'], f.1, post);
    lemma_followed(seq![k], strings_of(f.1), scanned(t, q + 1 + x.len()));
}

proof fn lemma_fields(pre: Seq<char>, v: Seq<(String, Node)>, n: nat, post: Seq<char>)
    requires
        n <= v.len(),
    ensures
        scanned(pre + fields_text(v, n) + post, pre.len() as int) == followed(
            fields_strings(v, n),
            scanned(pre + fields_text(v, n) + post, pre.len() + fields_text(v, n).len() as int),
        ),
    decreases v, n,
{
    let t = pre + fields_text(v, n) + post;
    let p = pre.len() as int;
    if n == 0 {
        lemma_plain(t, p, p);
    } else {
        let f = v[n - 1];
        let x = field_text(f);
        let here = seq![f.0@] + strings_of(f.1);
        let before = fields_strings(v, (n - 1) as nat);
        assert(fields_strings(v, n) =~= before + here);
        assert(decreases_to!(v => v[n - 1]));
        if n == 1 {
            assert(fields_text(v, n) =~= x);
            lemma_field(pre, f, post);
            assert(before =~= Seq::empty());
            assert(fields_strings(v, n) =~= here);
        } else {
            let head = fields_text(v, (n - 1) as nat);
            assert(fields_text(v, n) =~= head + seq![','] + x);
            assert(t =~= pre + head + (seq![','] + x + post));
            lemma_fields(pre, v, (n - 1) as nat, seq![','] + x + post);
            let q = p + head.len();
            assert(t[q] == ',');
            lemma_step(t, q, ',');
            assert(t =~= (pre + head + seq![',']) + x + post);
            lemma_field(pre + head + seq![','], f, post);
            lemma_followed(before, here, scanned(t, q + 1 + x.len()));
        }
    }
}

/// The tokenizer finds in the text of a tree exactly its strings, whatever
/// stands around it.
proof fn lemma_text(pre: Seq<char>, node: Node, post: Seq<char>)
    ensures
        scanned(pre + json_text(node) + post, pre.len() as int) == followed(
            strings_of(node),
            scanned(pre + json_text(node) + post, pre.len() + json_text(node).len() as int),
        ),
    decreases node, 0nat,
{
    let x = json_text(node);
    let t = pre + x + post;
    let p = pre.len() as int;
    match node {
        Node::Str(s) => {
            lemma_quoted(pre, s@, post);
        },
        Node::Array(v) => {
            let b = items_text(v@, v@.len());
            assert(t =~= pre.push('[') + b + (seq![']'] + post));
            assert(t[p] == '[');
            lemma_step(t, p, '[');
            lemma_items(pre.push('['), v@, v@.len(), seq![']'] + post);
            assert(t[p + 1 + b.len()] == ']');
            lemma_step(t, p + 1 + b.len(), ']');
        },
        Node::Object(v) => {
            let b = fields_text(v@, v@.len());
            assert(t =~= pre.push('{') + b + (seq!['}'] + post));
            assert(t[p] == '{');
            lemma_step(t, p, '{');
            lemma_fields(pre.push('{'), v@, v@.len(), seq!['}'] + post);
            assert(t[p + 1 + b.len()] == '}');
            lemma_step(t, p + 1 + b.len(), '}');
        },
        _ => {
            reveal_strlit("null");
            reveal_strlit("true");
            reveal_strlit("false");
            assert forall|k: int| p <= k < p + x.len() implies #[trigger] t[k] != '"' && t[k] as int > 31 by {
                assert(t[k] == x[k - p]);
                match node {
                    Node::UInt(u) => lemma_number(u as int, k - p),
                    Node::Int(i) => lemma_number(i as int, k - p),
                    _ => {},
                }
            }
            lemma_plain(t, p, p + x.len());
        },
    }
}

/// Every key and string value of a tree stands in its text once, in tree
/// order and with its content: the tokenizer reads exactly these.
pub proof fn lemma_scan_reads_back(node: Node)
    ensures
        scanned(json_text(node), 0) == Some(strings_of(node)),
{
    let t = json_text(node);
    let none = Seq::<char>::empty();
    assert(none + t + none =~= t);
    lemma_text(none, node, none);
    assert(strings_of(node) + Seq::<Seq<char>>::empty() =~= strings_of(node));
}

proof fn lemma_hex_char(c: char)
    ensures
        hex_char(c) is Some ==> c as int > 31,
{
}

/// The characters of one unit are no controls.
proof fn lemma_unit_clean(t: Seq<char>, i: int, k: int)
    requires
        0 <= i <= k,
        unit_at(t, i) matches Some(r) && k < r.1,
    ensures
        t[k] as int > 31,
{
    lemma_hex_char(t[k]);
    if k > i && t[i + 1] == 'u' {
        assert(hex4_at(t, i + 2) is Some);
        assert(k == i + 1 || hex_char(t[k]) is Some || t[k] == '\\' || t[k] == 'u') by {
            if k >= i + 8 {
                assert(hex4_at(t, i + 8) is Some);
                assert(k == i + 8 || k == i + 9 || k == i + 10 || k == i + 11);
            } else {
                assert(k == i + 1 || k == i + 2 || k == i + 3 || k == i + 4 || k == i + 5 || k == i + 6 || k == i + 7);
            }
        }
    } else if k > i {
        assert(short_escape(t[i + 1]) is Some);
        assert(k == i + 1);
    }
}

proof fn lemma_string_clean(t: Seq<char>, i: int, k: int)
    requires
        0 <= i <= k,
        string_at(t, i) matches Some(r) && k < r.1,
    ensures
        t[k] as int > 31,
    decreases t.len() - i,
{
    if t[i] != '"' {
        let (c, next) = unit_at(t, i)->0;
        if k >= next {
            lemma_string_clean(t, next, k);
        } else {
            lemma_unit_clean(t, i, k);
        }
    }
}

/// A text that the tokenizer accepts holds no raw control character.
pub proof fn lemma_scanned_clean(t: Seq<char>, i: int, k: int)
    requires
        0 <= i <= k < t.len(),
        scanned(t, i) is Some,
    ensures
        t[k] as int > 31,
    decreases t.len() - i,
{
    if t[i] != '"' {
        if k > i {
            lemma_scanned_clean(t, i + 1, k);
        }
    } else if k > i {
        crate::state_support::json_ref::lemma_string_end(t, i + 1);
        let (s, end) = string_at(t, i + 1)->0;
        if k < end {
            lemma_string_clean(t, i + 1, k);
        } else {
            lemma_scanned_clean(t, end, k);
        }
    }
}

} // verus!
