//! Lexicographic order on character sequences.
//!
//! Keys of every sorted mapping in this crate (package names, topic names,
//! locale tags) are ordered lexicographically by Unicode scalar value. This
//! agrees with the byte order of the UTF-8 encoding, so serialized output
//! keyed this way is ordered the same wherever it is read.

use vstd::prelude::*;

verus! {

/// Strict lexicographic order on character sequences: `a` comes before `b`
/// iff `a` is a proper prefix of `b`, or the first differing character of
/// `a` has the smaller Unicode scalar value.
pub open spec fn lex_lt(a: Seq<char>, b: Seq<char>) -> bool
    decreases a.len(),
{
    if b.len() == 0 {
        false
    } else if a.len() == 0 {
        true
    } else if (a[0] as u32) < (b[0] as u32) {
        true
    } else if (a[0] as u32) > (b[0] as u32) {
        false
    } else {
        lex_lt(a.drop_first(), b.drop_first())
    }
}

/// `lex_lt` is irreflexive.
pub proof fn lemma_lex_lt_irrefl(a: Seq<char>)
    ensures
        !lex_lt(a, a),
    decreases a.len(),
{
    if a.len() > 0 {
        lemma_lex_lt_irrefl(a.drop_first());
    }
}

/// Sequences that compare neither way are equal: `lex_lt` is a total order.
pub proof fn lemma_lex_lt_connected(a: Seq<char>, b: Seq<char>)
    requires
        !lex_lt(a, b),
        !lex_lt(b, a),
    ensures
        a == b,
    decreases a.len(),
{
    if a.len() == 0 {
        assert(b.len() == 0);
        assert(a =~= b);
    } else {
        assert(b.len() > 0);
        assert((a[0] as u32) == (b[0] as u32));
        vstd::utf8::char_u32_cast(a[0], a[0] as u32);
        vstd::utf8::char_u32_cast(b[0], b[0] as u32);
        assert(a[0] == b[0]);
        lemma_lex_lt_connected(a.drop_first(), b.drop_first());
        assert forall|i: int| 0 <= i < a.len() implies a[i] == b[i] by {
            if i >= 1 {
                assert(a[i] == a.drop_first()[i - 1]);
                assert(b[i] == b.drop_first()[i - 1]);
            }
        }
        assert(a =~= b);
    }
}

/// `lex_lt` is transitive.
pub proof fn lemma_lex_lt_trans(a: Seq<char>, b: Seq<char>, c: Seq<char>)
    requires
        lex_lt(a, b),
        lex_lt(b, c),
    ensures
        lex_lt(a, c),
    decreases a.len(),
{
    if a.len() == 0 {
    } else {
        assert(b.len() > 0);
        assert(c.len() > 0);
        if (a[0] as u32) == (b[0] as u32) && (b[0] as u32) == (c[0] as u32) {
            lemma_lex_lt_trans(a.drop_first(), b.drop_first(), c.drop_first());
        }
    }
}

/// The canonical form of a character within a locale tag: the underscore
/// separator is read as the dash separator, all else is left alone.
pub open spec fn norm_char(c: char) -> char {
    if c == '_' {
        '-'
    } else {
        c
    }
}

/// The canonical form of a locale tag: every underscore becomes a dash, so
/// tags that differ only in their separator compare equal.
pub open spec fn normal_of(s: Seq<char>) -> Seq<char> {
    s.map_values(|c: char| norm_char(c))
}

/// The sort key of a stored tag: the tag itself, or its canonical form when
/// the mapping compares its keys canonically.
pub open spec fn key_of(s: Seq<char>, norm: bool) -> Seq<char> {
    if norm {
        normal_of(s)
    } else {
        s
    }
}

fn norm_char_x(c: char) -> (r: char)
    ensures
        r == norm_char(c),
{
    if c == '_' {
        '-'
    } else {
        c
    }
}

fn key_char(s: &str, i: usize, norm: bool) -> (r: char)
    requires
        i < s@.len(),
    ensures
        r == key_of(s@, norm)[i as int],
{
    let c = s.get_char(i);
    if norm {
        norm_char_x(c)
    } else {
        c
    }
}

/// Decides `lex_lt` on the sort keys of two strings.
pub fn chars_lt(a: &str, b: &str, norm: bool) -> (r: bool)
    ensures
        r == lex_lt(key_of(a@, norm), key_of(b@, norm)),
{
    let alen = a.unicode_len();
    let blen = b.unicode_len();
    let ghost ka = key_of(a@, norm);
    let ghost kb = key_of(b@, norm);
    proof {
        assert(ka.skip(0) =~= ka);
        assert(kb.skip(0) =~= kb);
    }
    let mut i: usize = 0;
    loop
        invariant
            i <= alen,
            i <= blen,
            alen == ka.len(),
            blen == kb.len(),
            ka == key_of(a@, norm),
            kb == key_of(b@, norm),
            lex_lt(ka, kb) == lex_lt(ka.skip(i as int), kb.skip(i as int)),
        decreases alen - i,
    {
        if i >= blen {
            return false;
        }
        if i >= alen {
            return true;
        }
        let ca = key_char(a, i, norm);
        let cb = key_char(b, i, norm);
        if (ca as u32) < (cb as u32) {
            return true;
        }
        if (ca as u32) > (cb as u32) {
            return false;
        }
        proof {
            assert(ka.skip(i as int).drop_first() =~= ka.skip(i + 1));
            assert(kb.skip(i as int).drop_first() =~= kb.skip(i + 1));
        }
        i = i + 1;
    }
}

/// Decides equality of the sort keys of two strings.
pub fn chars_eq(a: &str, b: &str, norm: bool) -> (r: bool)
    ensures
        r == (key_of(a@, norm) == key_of(b@, norm)),
{
    let alen = a.unicode_len();
    let blen = b.unicode_len();
    let ghost ka = key_of(a@, norm);
    let ghost kb = key_of(b@, norm);
    if alen != blen {
        proof {
            assert(ka.len() != kb.len());
        }
        return false;
    }
    let mut i: usize = 0;
    while i < alen
        invariant
            i <= alen,
            alen == ka.len(),
            alen == kb.len(),
            ka == key_of(a@, norm),
            kb == key_of(b@, norm),
            forall|j: int| 0 <= j < i ==> ka[j] == kb[j],
        decreases alen - i,
    {
        let ca = key_char(a, i, norm);
        let cb = key_char(b, i, norm);
        if (ca as u32) != (cb as u32) {
            return false;
        }
        i = i + 1;
    }
    proof {
        assert(ka =~= kb);
    }
    true
}

} // verus!
