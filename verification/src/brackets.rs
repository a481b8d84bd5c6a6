use crate::token::Token;
use vstd::prelude::*;

verus! {

/// How one token moves the running bracket balance.
pub open spec fn token_delta(t: Token) -> int {
    match t {
        Token::BeginLoop => 1,
        Token::EndLoop => -1,
        _ => 0,
    }
}

/// Bracket balance of the prefix `p[0..k)`: loop-opens seen minus
/// loop-closes seen.
pub open spec fn bal(p: Seq<Token>, k: int) -> int
    recommends
        0 <= k <= p.len(),
    decreases k,
{
    if k <= 0 {
        0
    } else {
        bal(p, k - 1) + token_delta(p[k - 1])
    }
}

/// `p[i]` and `p[j]` are a matching open/close pair under strict LIFO
/// nesting: the balance first returns to its level at `i` just after `j`.
pub open spec fn pair_at(p: Seq<Token>, i: int, j: int) -> bool {
    &&& 0 <= i < j < p.len()
    &&& p[i] == Token::BeginLoop
    &&& p[j] == Token::EndLoop
    &&& bal(p, j + 1) == bal(p, i)
    &&& forall|k: int| i < k <= j ==> bal(p, k) > bal(p, i)
}

/// Some prefix closes more loops than it opens: an unmatched close with no
/// unmatched open before it.
pub open spec fn has_unmatched_close(p: Seq<Token>) -> bool {
    exists|k: int| 0 <= k <= p.len() && bal(p, k) < 0
}

/// Every loop-close has a pending open and every loop-open is closed.
pub open spec fn balanced(p: Seq<Token>) -> bool {
    &&& !has_unmatched_close(p)
    &&& bal(p, p.len() as int) == 0
}

/// `m` is a total bracket map for `p`: at every loop token it holds the
/// index of the matching partner, and the two entries point at each other.
pub open spec fn map_matches(p: Seq<Token>, m: Seq<usize>) -> bool {
    &&& m.len() == p.len()
    &&& forall|i: int|
        0 <= i < p.len() && p[i] == Token::BeginLoop ==> pair_at(p, i, #[trigger] m[i] as int)
            && m[m[i] as int] as int == i
    &&& forall|j: int|
        0 <= j < p.len() && p[j] == Token::EndLoop ==> pair_at(p, #[trigger] m[j] as int, j)
            && m[m[j] as int] as int == j
}

/// Strict nesting leaves no choice: a loop-open has at most one matching
/// close.
pub proof fn lemma_pair_unique(p: Seq<Token>, i: int, j1: int, j2: int)
    requires
        pair_at(p, i, j1),
        pair_at(p, i, j2),
    ensures
        j1 == j2,
{
    if j1 < j2 {
        assert(bal(p, j1 + 1) > bal(p, i));
    } else if j2 < j1 {
        assert(bal(p, j2 + 1) > bal(p, i));
    }
}

/// The bracket map is an involution on loop tokens: following it twice
/// returns to the starting index.
pub proof fn lemma_map_involution(p: Seq<Token>, m: Seq<usize>, i: int)
    requires
        map_matches(p, m),
        0 <= i < p.len(),
        p[i] == Token::BeginLoop || p[i] == Token::EndLoop,
    ensures
        m[m[i] as int] as int == i,
{
}

/// For a loop-open, the mapped close is the nearest one to its right at
/// which the balance returns to the open's level: no earlier index
/// qualifies.
pub proof fn lemma_match_is_nearest(p: Seq<Token>, m: Seq<usize>, i: int, j: int)
    requires
        map_matches(p, m),
        0 <= i < p.len(),
        p[i] == Token::BeginLoop,
        i < j < m[i] as int,
    ensures
        !(p[j] == Token::EndLoop && bal(p, j + 1) == bal(p, i)),
{
    assert(bal(p, j + 1) > bal(p, i));
}

} // verus!
