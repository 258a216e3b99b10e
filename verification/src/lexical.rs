//! Lexicographic order on type names.
//!
//! Collections of uniquely typed values are emitted sorted ascending by type
//! name, so that two encodes of logically equal collections produce identical
//! output whatever the insertion order was. The order is the usual
//! lexicographic order on the names' characters, compared by code point.

use vstd::prelude::*;

verus! {

/// Lexicographic less-or-equal on character sequences, by code point.
pub open spec fn lex_leq(a: Seq<char>, b: Seq<char>) -> bool
    decreases a.len(),
{
    if a.len() == 0 {
        true
    } else if b.len() == 0 {
        false
    } else if a[0] != b[0] {
        (a[0] as int) < (b[0] as int)
    } else {
        lex_leq(a.drop_first(), b.drop_first())
    }
}

pub proof fn lemma_lex_leq_reflexive(a: Seq<char>)
    ensures
        lex_leq(a, a),
    decreases a.len(),
{
    if a.len() > 0 {
        lemma_lex_leq_reflexive(a.drop_first());
    }
}

pub proof fn lemma_lex_leq_total(a: Seq<char>, b: Seq<char>)
    ensures
        lex_leq(a, b) || lex_leq(b, a),
    decreases a.len(),
{
    if a.len() > 0 && b.len() > 0 {
        if a[0] == b[0] {
            lemma_lex_leq_total(a.drop_first(), b.drop_first());
        } else {
            assert(a[0] as int != b[0] as int);
        }
    }
}

pub proof fn lemma_lex_leq_antisymmetric(a: Seq<char>, b: Seq<char>)
    requires
        lex_leq(a, b),
        lex_leq(b, a),
    ensures
        a == b,
    decreases a.len(),
{
    if a.len() == 0 {
        assert(b.len() == 0);
        assert(a =~= b);
    } else {
        assert(a[0] == b[0]);
        lemma_lex_leq_antisymmetric(a.drop_first(), b.drop_first());
        assert(a =~= seq![a[0]] + a.drop_first());
        assert(b =~= seq![b[0]] + b.drop_first());
    }
}

pub proof fn lemma_lex_leq_transitive(a: Seq<char>, b: Seq<char>, c: Seq<char>)
    requires
        lex_leq(a, b),
        lex_leq(b, c),
    ensures
        lex_leq(a, c),
    decreases a.len(),
{
    if a.len() > 0 && b.len() > 0 && c.len() > 0 && a[0] == b[0] && b[0] == c[0] {
        lemma_lex_leq_transitive(a.drop_first(), b.drop_first(), c.drop_first());
    }
}

/// Compares two names in the lexicographic order used for sorted encoding.
pub fn str_lex_leq(a: &str, b: &str) -> (r: bool)
    ensures
        r == lex_leq(a@, b@),
    decreases a@.len(),
{
    let a_len = a.unicode_len();
    if a_len == 0 {
        true
    } else {
        let b_len = b.unicode_len();
        if b_len == 0 {
            false
        } else {
            let ca = a.get_char(0);
            let cb = b.get_char(0);
            if ca != cb {
                ca < cb
            } else {
                let a_rest = a.substring_char(1, a_len);
                let b_rest = b.substring_char(1, b_len);
                assert(a_rest@ =~= a@.drop_first());
                assert(b_rest@ =~= b@.drop_first());
                str_lex_leq(a_rest, b_rest)
            }
        }
    }
}

/// Equality of two names, as the view-level equality of their characters.
pub fn str_eq(a: &str, b: &str) -> (r: bool)
    ensures
        r == (a@ == b@),
    decreases a@.len(),
{
    let a_len = a.unicode_len();
    let b_len = b.unicode_len();
    if a_len != b_len {
        false
    } else if a_len == 0 {
        assert(a@ =~= b@);
        true
    } else {
        let ca = a.get_char(0);
        let cb = b.get_char(0);
        if ca != cb {
            false
        } else {
            let a_rest = a.substring_char(1, a_len);
            let b_rest = b.substring_char(1, b_len);
            assert(a_rest@ =~= a@.drop_first());
            assert(b_rest@ =~= b@.drop_first());
            let r = str_eq(a_rest, b_rest);
            proof {
                if r {
                    assert forall|i: int| 0 <= i < a@.len() implies a@[i] == b@[i] by {
                        if i > 0 {
                            assert(a@.drop_first()[i - 1] == b@.drop_first()[i - 1]);
                        }
                    }
                    assert(a@ =~= b@);
                } else {
                    if a@ == b@ {
                        assert(a@.drop_first() =~= b@.drop_first());
                    }
                }
            }
            r
        }
    }
}

} // verus!
