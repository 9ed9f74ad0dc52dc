use vstd::prelude::*;

verus! {

/// True when `a` and `b` hold the same characters.
pub fn text_eq(a: &str, b: &str) -> (r: bool)
    ensures
        r == (a@ == b@),
{
    let x = a.to_owned();
    let y = b.to_owned();
    x == y
}

/// Lexicographic order on byte strings: the order of Rust's `str`, whose
/// comparison goes by the UTF-8 bytes.
pub open spec fn bytes_lt(a: Seq<u8>, b: Seq<u8>) -> bool
    decreases a.len(),
{
    if a.len() == 0 {
        b.len() > 0
    } else if b.len() == 0 {
        false
    } else if a[0] < b[0] {
        true
    } else if a[0] > b[0] {
        false
    } else {
        bytes_lt(a.drop_first(), b.drop_first())
    }
}

/// The order between two texts.
pub open spec fn text_lt(a: Seq<char>, b: Seq<char>) -> bool {
    bytes_lt(vstd::utf8::encode_utf8(a), vstd::utf8::encode_utf8(b))
}

/// The byte order is transitive.
pub proof fn lemma_bytes_lt_transitive(a: Seq<u8>, b: Seq<u8>, c: Seq<u8>)
    requires
        bytes_lt(a, b),
        bytes_lt(b, c),
    ensures
        bytes_lt(a, c),
    decreases a.len(),
{
    if a.len() > 0 && b.len() > 0 && c.len() > 0 && a[0] == b[0] && b[0] == c[0] {
        lemma_bytes_lt_transitive(a.drop_first(), b.drop_first(), c.drop_first());
    }
}

/// The byte order is irreflexive.
pub proof fn lemma_bytes_lt_irreflexive(a: Seq<u8>)
    ensures
        !bytes_lt(a, a),
    decreases a.len(),
{
    if a.len() > 0 {
        lemma_bytes_lt_irreflexive(a.drop_first());
    }
}

/// Two different byte strings are ordered one way or the other.
pub proof fn lemma_bytes_lt_total(a: Seq<u8>, b: Seq<u8>)
    requires
        a != b,
    ensures
        bytes_lt(a, b) || bytes_lt(b, a),
    decreases a.len(),
{
    if a.len() == 0 && b.len() == 0 {
        assert(a =~= b);
    }
    if a.len() > 0 && b.len() > 0 && a[0] == b[0] {
        if a.drop_first() == b.drop_first() {
            assert(a =~= seq![a[0]] + a.drop_first());
            assert(b =~= seq![b[0]] + b.drop_first());
        }
        lemma_bytes_lt_total(a.drop_first(), b.drop_first());
    }
}

/// Compares two texts in the order of Rust's `str`.
pub fn text_less(a: &str, b: &str) -> (r: bool)
    ensures
        r == text_lt(a@, b@),
{
    let x = a.as_bytes();
    let y = b.as_bytes();
    let mut i: usize = 0;
    assert(x@.skip(0) =~= x@ && y@.skip(0) =~= y@);
    while i < x.len() && i < y.len() && x[i] == y[i]
        invariant
            0 <= i <= x@.len(),
            i <= y@.len(),
            bytes_lt(x@, y@) == bytes_lt(x@.skip(i as int), y@.skip(i as int)),
        decreases x@.len() - i,
    {
        proof {
            let xs = x@.skip(i as int);
            let ys = y@.skip(i as int);
            assert(xs[0] == ys[0]);
            assert(xs.drop_first() =~= x@.skip(i + 1));
            assert(ys.drop_first() =~= y@.skip(i + 1));
        }
        i = i + 1;
    }
    proof {
        assert(x@.skip(i as int).len() == x@.len() - i);
        assert(y@.skip(i as int).len() == y@.len() - i);
        if i < x@.len() && i < y@.len() {
            assert(x@.skip(i as int)[0] == x@[i as int]);
            assert(y@.skip(i as int)[0] == y@[i as int]);
        }
    }
    if i < x.len() && i < y.len() {
        x[i] < y[i]
    } else {
        i == x.len() && i < y.len()
    }
}

/// ASCII case-insensitive equality, as `str::eq_ignore_ascii_case`.
pub open spec fn same_ignoring_ascii_case(a: Seq<u8>, b: Seq<u8>) -> bool {
    &&& a.len() == b.len()
    &&& forall|i: int| 0 <= i < a.len() ==> ascii_lower(#[trigger] a[i]) == ascii_lower(b[i])
}

/// The byte with ASCII upper-case letters folded to lower case.
pub open spec fn ascii_lower(c: u8) -> u8 {
    if 65 <= c <= 90 {
        (c + 32) as u8
    } else {
        c
    }
}

pub(crate) fn to_ascii_lower(c: u8) -> (r: u8)
    ensures
        r == ascii_lower(c),
{
    if 65 <= c && c <= 90 {
        c + 32
    } else {
        c
    }
}

/// Compares two texts ignoring ASCII case.
pub fn text_eq_ignore_ascii_case(a: &str, b: &str) -> (r: bool)
    ensures
        r == same_ignoring_ascii_case(vstd::utf8::encode_utf8(a@), vstd::utf8::encode_utf8(b@)),
{
    let x = a.as_bytes();
    let y = b.as_bytes();
    if x.len() != y.len() {
        return false;
    }
    let mut i: usize = 0;
    while i < x.len()
        invariant
            0 <= i <= x@.len(),
            x@.len() == y@.len(),
            x@ == vstd::utf8::encode_utf8(a@),
            y@ == vstd::utf8::encode_utf8(b@),
            forall|j: int| 0 <= j < i ==> ascii_lower(#[trigger] x@[j]) == ascii_lower(y@[j]),
        decreases x@.len() - i,
    {
        if to_ascii_lower(x[i]) != to_ascii_lower(y[i]) {
            assert(ascii_lower(x@[i as int]) != ascii_lower(y@[i as int]));
            return false;
        }
        i = i + 1;
    }
    true
}

/// `c` and `d` are the upper- and lower-case forms of one ASCII letter.
pub open spec fn case_pair(c: u8, d: u8) -> bool {
    (65 <= c <= 90 && d == c + 32) || (65 <= d <= 90 && c == d + 32)
}

/// ASCII case folding identifies exactly the two cases of each letter: two
/// bytes fold to the same byte when they are equal or are the upper- and
/// lower-case forms of one letter, and never otherwise. Folding leaves no
/// upper-case letter and changes nothing but upper-case letters.
pub proof fn lemma_ascii_folding_pairs_cases(c: u8, d: u8)
    ensures
        (ascii_lower(c) == ascii_lower(d)) <==> (c == d || case_pair(c, d)),
        !(65 <= ascii_lower(c) <= 90),
        !(65 <= c <= 90) ==> ascii_lower(c) == c,
{
    if 65 <= c <= 90 {
        assert(ascii_lower(c) == c + 32);
    }
    if 65 <= d <= 90 {
        assert(ascii_lower(d) == d + 32);
    }
}

/// Texts that differ only in the case of their ASCII letters are the same
/// ignoring case.
pub proof fn lemma_case_change_is_ignored(a: Seq<u8>, b: Seq<u8>)
    requires
        a.len() == b.len(),
        forall|i: int| 0 <= i < a.len() ==> a[i] == b[i] || case_pair(#[trigger] a[i], b[i]),
    ensures
        same_ignoring_ascii_case(a, b),
{
    assert forall|i: int| 0 <= i < a.len() implies ascii_lower(#[trigger] a[i]) == ascii_lower(b[i]) by {
        lemma_ascii_folding_pairs_cases(a[i], b[i]);
    }
}

/// `a` comes before `b` lexicographically: it is a proper prefix of `b`, or
/// at the first position where they differ its byte is the smaller.
pub open spec fn lex_lt(a: Seq<u8>, b: Seq<u8>) -> bool {
    ||| a.len() < b.len() && a == b.take(a.len() as int)
    ||| exists|i: int| 0 <= i < a.len() && i < b.len() && #[trigger] a.take(i) == b.take(i) && a[i] < b[i]
}

/// The byte order of texts is the lexicographic order of their bytes.
pub proof fn lemma_bytes_lt_is_lexicographic(a: Seq<u8>, b: Seq<u8>)
    ensures
        bytes_lt(a, b) <==> lex_lt(a, b),
    decreases a.len(),
{
    if a.len() == 0 {
        if b.len() > 0 {
            assert(a =~= b.take(0));
        }
    } else if b.len() == 0 {
    } else if a[0] < b[0] {
        assert(a.take(0) =~= b.take(0));
    } else if a[0] > b[0] {
        if a.len() < b.len() && a == b.take(a.len() as int) {
            assert(a[0] == b.take(a.len() as int)[0]);
        }
        if exists|i: int| 0 <= i < a.len() && i < b.len() && #[trigger] a.take(i) == b.take(i) && a[i] < b[i] {
            let i = choose|i: int| 0 <= i < a.len() && i < b.len() && #[trigger] a.take(i) == b.take(i) && a[i] < b[i];
            if i > 0 {
                assert(a.take(i)[0] == b.take(i)[0]);
            }
        }
    } else {
        let (x, y) = (a.drop_first(), b.drop_first());
        lemma_bytes_lt_is_lexicographic(x, y);
        // The prefix case carries over to the tails and back.
        if a.len() < b.len() && a == b.take(a.len() as int) {
            assert(x =~= y.take(x.len() as int)) by {
                assert forall|k: int| 0 <= k < x.len() implies x[k] == y.take(x.len() as int)[k] by {
                    assert(a[k + 1] == b.take(a.len() as int)[k + 1]);
                }
            }
        }
        if x.len() < y.len() && x == y.take(x.len() as int) {
            assert(a =~= b.take(a.len() as int)) by {
                assert forall|k: int| 0 <= k < a.len() implies a[k] == b.take(a.len() as int)[k] by {
                    if k > 0 {
                        assert(x[k - 1] == y.take(x.len() as int)[k - 1]);
                    }
                }
            }
        }
        // The first difference carries over, one position along.
        if exists|i: int| 0 <= i < a.len() && i < b.len() && #[trigger] a.take(i) == b.take(i) && a[i] < b[i] {
            let i = choose|i: int| 0 <= i < a.len() && i < b.len() && #[trigger] a.take(i) == b.take(i) && a[i] < b[i];
            assert(i > 0);
            assert(x.take(i - 1) =~= y.take(i - 1)) by {
                assert forall|k: int| 0 <= k < i - 1 implies #[trigger] x.take(i - 1)[k] == y.take(i - 1)[k] by {
                    assert(a.take(i)[k + 1] == b.take(i)[k + 1]);
                }
            }
            assert(x[i - 1] < y[i - 1]);
        }
        if exists|j: int| 0 <= j < x.len() && j < y.len() && #[trigger] x.take(j) == y.take(j) && x[j] < y[j] {
            let j = choose|j: int| 0 <= j < x.len() && j < y.len() && #[trigger] x.take(j) == y.take(j) && x[j] < y[j];
            assert(a.take(j + 1) =~= b.take(j + 1)) by {
                assert forall|k: int| 0 <= k < j + 1 implies #[trigger] a.take(j + 1)[k] == b.take(j + 1)[k] by {
                    if k > 0 {
                        assert(x.take(j)[k - 1] == y.take(j)[k - 1]);
                    }
                }
            }
            assert(a[j + 1] < b[j + 1]);
        }
    }
}

} // verus!
