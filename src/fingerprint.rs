use vstd::prelude::*;
use crate::type_node::{Shape, TypeKind, TypeNode, shape_of, shapes_of};

verus! {

/// One symbol of a fingerprint. A node is written as its header, the
/// characters of its text, its children, and an end marker.
#[derive(PartialEq, Eq, Structural, Clone, Copy, Debug)]
pub enum Token {
    Node(TypeKind, u8),
    Text(u32),
    End,
}

pub open spec fn char_tokens(t: Seq<char>) -> Seq<Token>
    decreases t.len(),
{
    if t.len() == 0 {
        Seq::empty()
    } else {
        char_tokens(t.subrange(0, t.len() - 1)).push(Token::Text(t[t.len() - 1] as u32))
    }
}

proof fn lemma_char_tokens(t: Seq<char>)
    ensures
        char_tokens(t).len() == t.len(),
        forall|i: int| 0 <= i < t.len() ==> #[trigger] char_tokens(t)[i] == Token::Text(t[i] as u32),
    decreases t.len(),
{
    if t.len() > 0 {
        lemma_char_tokens(t.subrange(0, t.len() - 1));
    }
}

/// The canonical encoding of a shape, in source order throughout.
pub open spec fn encode(s: Shape) -> Seq<Token>
    decreases s,
{
    seq![Token::Node(s.kind, s.flags)] + char_tokens(s.text) + encode_all(s.children) + seq![
        Token::End,
    ]
}

pub open spec fn encode_all(s: Seq<Shape>) -> Seq<Token>
    decreases s,
{
    if s.len() == 0 {
        Seq::empty()
    } else {
        encode(s[0]) + encode_all(s.subrange(1, s.len() as int))
    }
}

proof fn lemma_encode_all_push(s: Seq<Shape>, x: Shape)
    ensures
        encode_all(s.push(x)) == encode_all(s) + encode(x),
    decreases s.len(),
{
    if s.len() == 0 {
        assert(s =~= Seq::<Shape>::empty());
        assert(s.push(x)[0] == x);
        assert(s.push(x).subrange(1, 1) =~= Seq::<Shape>::empty());
        assert(encode_all(Seq::<Shape>::empty()) == Seq::<Token>::empty());
        assert(encode_all(s.push(x)) == encode(x) + encode_all(s.push(x).subrange(1, 1)));
        assert(encode_all(s.push(x)) =~= encode_all(s) + encode(x));
    } else {
        let t = s.subrange(1, s.len() as int);
        lemma_encode_all_push(t, x);
        assert(s.push(x).subrange(1, s.len() as int + 1) =~= t.push(x));
        assert(encode_all(s.push(x)) =~= encode_all(s) + encode(x));
    }
}

proof fn lemma_char_code_injective(a: char, b: char)
    requires
        a as u32 == b as u32,
    ensures
        a == b,
{
}

/// Texts are read up to the first token that is not a character.
proof fn lemma_chars_prefix_free(x: Seq<char>, y: Seq<char>, s: Seq<Token>, t: Seq<Token>)
    requires
        char_tokens(x) + s == char_tokens(y) + t,
        s.len() > 0 && !(s[0] is Text),
        t.len() > 0 && !(t[0] is Text),
    ensures
        x == y,
        s == t,
{
    let l = char_tokens(x) + s;
    let r = char_tokens(y) + t;
    lemma_char_tokens(x);
    lemma_char_tokens(y);
    if x.len() < y.len() {
        assert(l[x.len() as int] == s[0]);
        assert(r[x.len() as int] == Token::Text(y[x.len() as int] as u32));
    } else if y.len() < x.len() {
        assert(r[y.len() as int] == t[0]);
        assert(l[y.len() as int] == Token::Text(x[y.len() as int] as u32));
    } else {
        assert forall|i: int| 0 <= i < x.len() implies x[i] == y[i] by {
            assert(l[i] == Token::Text(x[i] as u32));
            assert(r[i] == Token::Text(y[i] as u32));
            lemma_char_code_injective(x[i], y[i]);
        }
        assert(x =~= y);
        assert(s =~= l.subrange(x.len() as int, l.len() as int));
        assert(t =~= r.subrange(y.len() as int, r.len() as int));
    }
}

proof fn lemma_encode_first(s: Shape)
    ensures
        encode(s).len() > 0,
        encode(s)[0] == Token::Node(s.kind, s.flags),
{
}

proof fn lemma_encode_all_end_first(s: Seq<Shape>, t: Seq<Token>)
    ensures
        (encode_all(s) + seq![Token::End] + t).len() > 0,
        !((encode_all(s) + seq![Token::End] + t)[0] is Text),
{
    if s.len() > 0 {
        lemma_encode_first(s[0]);
    }
}

/// No encoding is a proper prefix of another: what follows is read off unchanged.
proof fn lemma_encode_prefix_free(a: Shape, b: Shape, s: Seq<Token>, t: Seq<Token>)
    requires
        encode(a) + s == encode(b) + t,
    ensures
        a == b,
        s == t,
    decreases a,
{
    let l = encode(a) + s;
    let r = encode(b) + t;
    assert(l[0] == Token::Node(a.kind, a.flags));
    assert(r[0] == Token::Node(b.kind, b.flags));
    let ra = encode_all(a.children) + seq![Token::End] + s;
    let rb = encode_all(b.children) + seq![Token::End] + t;
    assert(l =~= seq![Token::Node(a.kind, a.flags)] + (char_tokens(a.text) + ra));
    assert(r =~= seq![Token::Node(b.kind, b.flags)] + (char_tokens(b.text) + rb));
    assert(char_tokens(a.text) + ra =~= l.subrange(1, l.len() as int));
    assert(char_tokens(b.text) + rb =~= r.subrange(1, r.len() as int));
    lemma_encode_all_end_first(a.children, s);
    lemma_encode_all_end_first(b.children, t);
    lemma_chars_prefix_free(a.text, b.text, ra, rb);
    lemma_encode_all_prefix_free(a.children, b.children, s, t);
}

proof fn lemma_encode_all_prefix_free(a: Seq<Shape>, b: Seq<Shape>, s: Seq<Token>, t: Seq<Token>)
    requires
        encode_all(a) + seq![Token::End] + s == encode_all(b) + seq![Token::End] + t,
    ensures
        a == b,
        s == t,
    decreases a,
{
    let l = encode_all(a) + seq![Token::End] + s;
    let r = encode_all(b) + seq![Token::End] + t;
    if a.len() == 0 && b.len() == 0 {
        assert(s =~= l.subrange(1, l.len() as int));
        assert(t =~= r.subrange(1, r.len() as int));
        assert(a =~= b);
    } else if a.len() == 0 {
        lemma_encode_first(b[0]);
        assert(l[0] == Token::End);
        assert(r[0] == encode(b[0])[0]);
    } else if b.len() == 0 {
        lemma_encode_first(a[0]);
        assert(r[0] == Token::End);
        assert(l[0] == encode(a[0])[0]);
    } else {
        let ta = a.subrange(1, a.len() as int);
        let tb = b.subrange(1, b.len() as int);
        let sa = encode_all(ta) + seq![Token::End] + s;
        let sb = encode_all(tb) + seq![Token::End] + t;
        assert(l =~= encode(a[0]) + sa);
        assert(r =~= encode(b[0]) + sb);
        lemma_encode_prefix_free(a[0], b[0], sa, sb);
        lemma_encode_all_prefix_free(ta, tb, s, t);
        assert(a =~= seq![a[0]] + ta);
        assert(b =~= seq![b[0]] + tb);
    }
}

/// Discrimination: shapes that differ anywhere (a kind, a name, a member,
/// an arm, the order of elements) have different fingerprints.
pub proof fn lemma_fingerprint_injective(a: Shape, b: Shape)
    requires
        encode(a) == encode(b),
    ensures
        a == b,
{
    let e = Seq::<Token>::empty();
    assert(encode(a) + e =~= encode(a));
    assert(encode(b) + e =~= encode(b));
    lemma_encode_prefix_free(a, b, e, e);
}

/// Determinism: the fingerprint of a type expression depends on its shape
/// alone, so two expressions written alike (wherever they stand) get equal
/// fingerprints, and one expression gets the same fingerprint each time.
pub proof fn lemma_fingerprint_deterministic(a: TypeNode, b: TypeNode)
    requires
        a@ == b@,
    ensures
        encode(a@) == encode(b@),
{
}

/// Two type expressions have equal fingerprints exactly when they have the same shape.
pub proof fn lemma_fingerprint_equal_iff_same_shape(a: Shape, b: Shape)
    ensures
        encode(a) == encode(b) <==> a == b,
{
    if encode(a) == encode(b) {
        lemma_fingerprint_injective(a, b);
    }
}

fn push_node_tokens(n: &TypeNode, out: &mut Vec<Token>)
    ensures
        final(out)@ == old(out)@ + encode(n@),
    decreases n,
{
    let ghost start = out@;
    out.push(Token::Node(n.kind, n.flags));
    let len = n.text.as_str().unicode_len();
    let mut i: usize = 0;
    assert(char_tokens(n.text@.subrange(0, 0)) =~= Seq::<Token>::empty());
    assert(out@ =~= start + seq![Token::Node(n.kind, n.flags)] + Seq::<Token>::empty());
    while i < len
        invariant
            len == n.text@.len(),
            start == old(out)@,
            i <= len,
            out@ == start + seq![Token::Node(n.kind, n.flags)] + char_tokens(
                n.text@.subrange(0, i as int),
            ),
        decreases len - i,
    {
        let c = n.text.as_str().get_char(i);
        out.push(Token::Text(c as u32));
        proof {
            assert(n.text@.subrange(0, i + 1).subrange(0, i as int) =~= n.text@.subrange(
                0,
                i as int,
            ));
        }
        i = i + 1;
    }
    assert(n.text@.subrange(0, len as int) =~= n.text@);
    let ghost head = out@;
    let mut k: usize = 0;
    while k < n.children.len()
        invariant
            k <= n.children@.len(),
            out@ == head + encode_all(shapes_of(n.children@.subrange(0, k as int))),
        decreases n.children@.len() - k,
    {
        let ghost before = out@;
        push_node_tokens(&n.children[k], out);
        proof {
            let pre = n.children@.subrange(0, k as int);
            let cur = n.children@.subrange(0, k + 1);
            assert(cur.subrange(0, k as int) =~= pre);
            assert(shapes_of(cur) == shapes_of(pre).push(shape_of(n.children@[k as int])));
            lemma_encode_all_push(shapes_of(pre), shape_of(n.children@[k as int]));
            assert(out@ =~= head + encode_all(shapes_of(cur)));
        }
        k = k + 1;
    }
    assert(n.children@.subrange(0, n.children@.len() as int) =~= n.children@);
    out.push(Token::End);
    assert(out@ =~= start + encode(n@));
}

/// The fingerprint of a type expression: its shape in canonical form.
pub fn fingerprint(t: &TypeNode) -> (r: Vec<Token>)
    ensures
        r@ == encode(t@),
{
    let mut out: Vec<Token> = Vec::new();
    push_node_tokens(t, &mut out);
    assert(out@ =~= encode(t@));
    out
}

/// Whether two fingerprints are equal.
pub fn same_fingerprint(a: &Vec<Token>, b: &Vec<Token>) -> (r: bool)
    ensures
        r == (a@ == b@),
{
    if a.len() != b.len() {
        return false;
    }
    let mut i: usize = 0;
    while i < a.len()
        invariant
            a@.len() == b@.len(),
            i <= a@.len(),
            forall|j: int| 0 <= j < i ==> a@[j] == b@[j],
        decreases a@.len() - i,
    {
        if a[i] != b[i] {
            return false;
        }
        i = i + 1;
    }
    assert(a@ =~= b@);
    true
}

} // verus!
