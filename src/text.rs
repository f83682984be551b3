//! Splitting text at an ASCII separator.

use vstd::prelude::*;
use vstd::string::StringSliceAdditionalSpecFns;
use vstd::utf8::*;

verus! {

/// `parts` put back together, with `sep` between neighbours.
pub open spec fn join_with(parts: Seq<Seq<char>>, sep: char) -> Seq<char>
    decreases parts.len(),
{
    if parts.len() == 0 {
        Seq::empty()
    } else if parts.len() == 1 {
        parts[0]
    } else {
        join_with(parts.drop_last(), sep) + seq![sep] + parts.last()
    }
}

/// `parts` are the pieces of `s` between the occurrences of `sep`: joined
/// with `sep` they give `s`, and none holds `sep`.
pub open spec fn is_split_of(parts: Seq<Seq<char>>, s: Seq<char>, sep: char) -> bool {
    &&& parts.len() >= 1
    &&& join_with(parts, sep) == s
    &&& forall|k: int| 0 <= k < parts.len() ==> !(#[trigger] parts[k]).contains(sep)
}

/// The text of each string.
pub open spec fn texts(v: Seq<String>) -> Seq<Seq<char>> {
    v.map_values(|x: String| x@)
}

/// How many times `c` occurs in `s`.
pub open spec fn occurrences(s: Seq<char>, c: char) -> nat
    decreases s.len(),
{
    if s.len() == 0 {
        0
    } else {
        occurrences(s.drop_last(), c) + if s.last() == c { 1nat } else { 0nat }
    }
}

proof fn lemma_occurrences_concat(a: Seq<char>, b: Seq<char>, c: char)
    ensures
        occurrences(a + b, c) == occurrences(a, c) + occurrences(b, c),
    decreases b.len(),
{
    if b.len() == 0 {
        assert(a + b =~= a);
    } else {
        assert((a + b).drop_last() =~= a + b.drop_last());
        lemma_occurrences_concat(a, b.drop_last(), c);
    }
}

proof fn lemma_occurrences_absent(a: Seq<char>, c: char)
    requires
        !a.contains(c),
    ensures
        occurrences(a, c) == 0,
    decreases a.len(),
{
    if a.len() > 0 {
        assert(a.drop_last().len() < a.len());
        assert forall|i: int| 0 <= i < a.drop_last().len() implies a.drop_last()[i] != c by {
            assert(a[i] != c);
        }
        lemma_occurrences_absent(a.drop_last(), c);
        assert(a[a.len() - 1] != c);
    }
}

/// The separator occurs once fewer than there are pieces.
pub proof fn lemma_split_count(parts: Seq<Seq<char>>, sep: char)
    requires
        parts.len() >= 1,
        forall|k: int| 0 <= k < parts.len() ==> !(#[trigger] parts[k]).contains(sep),
    ensures
        occurrences(join_with(parts, sep), sep) + 1 == parts.len(),
    decreases parts.len(),
{
    if parts.len() == 1 {
        lemma_occurrences_absent(parts[0], sep);
    } else {
        let init = parts.drop_last();
        assert forall|k: int| 0 <= k < init.len() implies !(#[trigger] init[k]).contains(sep) by {
            assert(init[k] == parts[k]);
        }
        lemma_split_count(init, sep);
        let j = join_with(init, sep);
        lemma_occurrences_concat(j + seq![sep], parts.last(), sep);
        lemma_occurrences_concat(j, seq![sep], sep);
        assert(seq![sep].drop_last() =~= Seq::<char>::empty());
        assert(seq![sep].last() == sep);
        assert(occurrences(Seq::<char>::empty(), sep) == 0);
        assert(occurrences(seq![sep], sep) == 1);
        assert(parts[parts.len() - 1] == parts.last());
        lemma_occurrences_absent(parts.last(), sep);
    }
}

/// A text has one split at a separator: two lists of pieces that both
/// split `s` at `sep` are the same.
pub proof fn law_split_is_unique(a: Seq<Seq<char>>, b: Seq<Seq<char>>, s: Seq<char>, sep: char)
    requires
        is_split_of(a, s, sep),
        is_split_of(b, s, sep),
    ensures
        a == b,
    decreases a.len(),
{
    lemma_split_count(a, sep);
    lemma_split_count(b, sep);
    if a.len() == 1 {
        assert(a =~= b);
    } else {
        let (ia, ib) = (a.drop_last(), b.drop_last());
        let (la, lb) = (a.last(), b.last());
        let (ja, jb) = (join_with(ia, sep), join_with(ib, sep));
        assert(s == ja + seq![sep] + la);
        assert(s == jb + seq![sep] + lb);
        assert(a[a.len() - 1] == la && b[b.len() - 1] == lb);
        if la.len() < lb.len() {
            let k = s.len() - la.len() - 1;
            assert(s[k] == sep);
            assert(lb[k - (s.len() - lb.len())] == s[k]);
        } else if lb.len() < la.len() {
            let k = s.len() - lb.len() - 1;
            assert(s[k] == sep);
            assert(la[k - (s.len() - la.len())] == s[k]);
        }
        assert(la =~= lb) by {
            assert forall|i: int| 0 <= i < la.len() implies la[i] == lb[i] by {
                assert(la[i] == s[s.len() - la.len() + i]);
                assert(lb[i] == s[s.len() - lb.len() + i]);
            }
        }
        assert(ja =~= jb) by {
            assert forall|i: int| 0 <= i < ja.len() implies ja[i] == jb[i] by {
                assert(ja[i] == s[i]);
                assert(jb[i] == s[i]);
            }
        }
        assert forall|k: int| 0 <= k < ia.len() implies !(#[trigger] ia[k]).contains(sep) by {
            assert(ia[k] == a[k]);
        }
        assert forall|k: int| 0 <= k < ib.len() implies !(#[trigger] ib[k]).contains(sep) by {
            assert(ib[k] == b[k]);
        }
        law_split_is_unique(ia, ib, ja, sep);
        assert(a =~= ia.push(la));
        assert(b =~= ib.push(lb));
    }
}

proof fn lemma_encode_concat(a: Seq<char>, b: Seq<char>)
    ensures
        encode_utf8(a + b) == encode_utf8(a) + encode_utf8(b),
    decreases a.len(),
{
    if a.len() == 0 {
        assert(a + b =~= b);
    } else {
        assert((a + b).drop_first() =~= a.drop_first() + b);
        lemma_encode_concat(a.drop_first(), b);
        assert(encode_utf8(a + b) =~= encode_utf8(a) + encode_utf8(b));
    }
}

proof fn lemma_encode_injective(a: Seq<char>, b: Seq<char>)
    requires
        encode_utf8(a) == encode_utf8(b),
    ensures
        a == b,
{
    encode_utf8_decode_utf8(a);
    encode_utf8_decode_utf8(b);
}

proof fn lemma_encode_ascii_char(c: char)
    requires
        (c as u32) < 0x80,
    ensures
        encode_utf8(seq![c]) == seq![c as u32 as u8],
{
    let v = c as u32;
    assert((v & 0x7f) == v) by (bit_vector)
        requires
            v < 0x80,
    ;
    assert(seq![c].drop_first() =~= Seq::<char>::empty());
    assert(encode_utf8(Seq::<char>::empty()) == Seq::<u8>::empty());
    assert(seq![c][0] == c);
    assert(encode_scalar(v) == seq![(v & 0x7f) as u8]);
    assert(encode_utf8(seq![c]) =~= seq![c as u32 as u8]);
}

proof fn lemma_ascii_byte_is_boundary(b: Seq<u8>, i: int)
    requires
        valid_utf8(b),
        0 <= i < b.len(),
        b[i] < 0x80,
    ensures
        is_char_boundary(b, i),
    decreases b.len(),
{
    if i > 0 {
        let l = length_of_first_scalar(b);
        assert(valid_first_scalar(b));
        assert(i >= l);
        let p = pop_first_scalar(b);
        assert(p[i - l] == b[i]);
        lemma_ascii_byte_is_boundary(p, i - l);
    }
}

proof fn lemma_boundary_after_ascii(b: Seq<u8>)
    requires
        valid_utf8(b),
        b.len() > 0,
        b[0] < 0x80,
    ensures
        is_char_boundary(b, 1),
{
    assert(valid_first_scalar(b));
    assert(length_of_first_scalar(b) == 1);
    assert(is_char_boundary(pop_first_scalar(b), 0));
}

proof fn lemma_no_byte_no_char(p: Seq<char>, c: char)
    requires
        (c as u32) < 0x80,
        !encode_utf8(p).contains(c as u32 as u8),
    ensures
        !p.contains(c),
{
    if p.contains(c) {
        let j = choose|j: int| 0 <= j < p.len() && p[j] == c;
        let pre = p.subrange(0, j);
        let post = p.subrange(j + 1, p.len() as int);
        assert(p =~= pre + seq![c] + post);
        lemma_encode_concat(pre + seq![c], post);
        lemma_encode_concat(pre, seq![c]);
        lemma_encode_ascii_char(c);
        let e = encode_utf8(p);
        assert(e[encode_utf8(pre).len() as int] == c as u32 as u8);
    }
}

/// Split `s` at every occurrence of the ASCII character `sep`.
pub fn split_on(s: &str, sep: char) -> (r: Vec<String>)
    requires
        (sep as u32) < 0x80,
    ensures
        is_split_of(texts(r@), s@, sep),
{
    let sep_byte: u8 = sep as u8;
    let mut parts: Vec<String> = Vec::new();
    let mut rest: &str = s;
    loop
        invariant
            sep_byte == sep as u32 as u8,
            (sep as u32) < 0x80,
            join_with(texts(parts@).push(rest@), sep) == s@,
            forall|k: int| 0 <= k < parts@.len() ==> !(#[trigger] texts(parts@)[k]).contains(sep),
        decreases rest.spec_bytes().len(),
    {
        let bytes = rest.as_bytes();
        let mut i: usize = 0;
        while i < bytes.len() && bytes[i] != sep_byte
            invariant
                i <= bytes@.len(),
                forall|j: int| 0 <= j < i ==> bytes@[j] != sep_byte,
            decreases bytes@.len() - i,
        {
            i = i + 1;
        }
        proof {
            encode_utf8_valid_utf8(rest@);
        }
        if i == bytes.len() {
            let last = rest.to_owned();
            proof {
                assert(bytes@ =~= encode_utf8(rest@));
                assert(!encode_utf8(rest@).contains(sep_byte));
                lemma_no_byte_no_char(rest@, sep);
                assert(texts(parts@.push(last)) =~= texts(parts@).push(rest@));
            }
            parts.push(last);
            return parts;
        }
        proof {
            lemma_ascii_byte_is_boundary(rest.spec_bytes(), i as int);
        }
        let (piece, tail) = rest.split_at(i);
        proof {
            let b = rest.spec_bytes();
            assert(b =~= b.subrange(0, i as int) + b.subrange(i as int, b.len() as int));
            lemma_encode_concat(piece@, tail@);
            lemma_encode_injective(rest@, piece@ + tail@);
            encode_utf8_valid_utf8(tail@);
            assert(tail.spec_bytes()[0] == sep_byte);
            lemma_boundary_after_ascii(tail.spec_bytes());
        }
        let (first, after) = tail.split_at(1);
        proof {
            let t = tail.spec_bytes();
            assert(t =~= t.subrange(0, 1) + t.subrange(1, t.len() as int));
            lemma_encode_concat(first@, after@);
            lemma_encode_injective(tail@, first@ + after@);
            lemma_encode_ascii_char(sep);
            assert(first.spec_bytes() =~= seq![sep as u32 as u8]);
            lemma_encode_injective(first@, seq![sep]);
            assert(!encode_utf8(piece@).contains(sep_byte)) by {
                assert(encode_utf8(piece@) =~= bytes@.subrange(0, i as int));
            }
            lemma_no_byte_no_char(piece@, sep);
            assert(rest@ =~= piece@ + seq![sep] + after@);
        }
        let piece_owned = piece.to_owned();
        proof {
            let tp = texts(parts@);
            assert(texts(parts@.push(piece_owned)) =~= tp.push(piece@));
            assert(tp.push(piece@).push(after@).drop_last() =~= tp.push(piece@));
            assert(tp.push(rest@).drop_last() =~= tp);
            let np = tp.push(piece@);
            assert(np.push(after@).drop_last() =~= np);
            assert(join_with(np.push(after@), sep) == join_with(np, sep) + seq![sep] + after@);
            if tp.len() > 0 {
                assert(np.drop_last() =~= tp);
                assert(join_with(np, sep) == join_with(tp, sep) + seq![sep] + piece@);
                assert(join_with(tp.push(rest@), sep) == join_with(tp, sep) + seq![sep] + rest@);
                assert(join_with(np.push(after@), sep) =~= join_with(tp, sep) + seq![sep] + rest@);
            } else {
                assert(join_with(np, sep) == piece@);
                assert(join_with(tp.push(rest@), sep) == rest@);
                assert(join_with(np.push(after@), sep) =~= rest@);
            }
        }
        parts.push(piece_owned);
        rest = after;
    }
}

} // verus!
