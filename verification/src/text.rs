//! Byte-level text helpers: the filters take enum-like string parameters
//! ("row", "vertical", a color name) that are compared after trimming
//! whitespace, stripping surrounding double quotes and lowering ASCII case.

use vstd::prelude::*;
use vstd::string::StringSliceAdditionalSpecFns;

verus! {

/// ASCII whitespace, as trimmed from the ends of a token.
pub open spec fn is_space_b(b: u8) -> bool {
    b == 32 || b == 9 || b == 10 || b == 13 || b == 11 || b == 12
}

pub open spec fn is_quote_b(b: u8) -> bool {
    b == 34
}

/// Lower-case an ASCII byte; other bytes pass through.
pub open spec fn lower_b(b: u8) -> u8 {
    if 65 <= b && b <= 90 {
        (b + 32) as u8
    } else {
        b
    }
}

pub open spec fn lower_bytes(s: Seq<u8>) -> Seq<u8> {
    s.map_values(|b: u8| lower_b(b))
}

/// Drop bytes satisfying `p` from both ends of `s`.
pub open spec fn trim_by(s: Seq<u8>, p: spec_fn(u8) -> bool) -> Seq<u8>
    decreases s.len(),
{
    if s.len() == 0 {
        s
    } else if p(s[0]) {
        trim_by(s.drop_first(), p)
    } else if p(s[s.len() - 1]) {
        trim_by(s.drop_last(), p)
    } else {
        s
    }
}

pub open spec fn space_pred() -> spec_fn(u8) -> bool {
    |b: u8| is_space_b(b)
}

pub open spec fn quote_pred() -> spec_fn(u8) -> bool {
    |b: u8| is_quote_b(b)
}

/// A token as the filters read it: whitespace trimmed, surrounding double
/// quotes stripped, ASCII upper case lowered.
pub open spec fn clean_bytes(s: Seq<u8>) -> Seq<u8> {
    lower_bytes(trim_by(trim_by(s, space_pred()), quote_pred()))
}

/// `trim_by` returns exactly the subrange that remains when `p` holds of
/// everything before `lo` and from `hi` on, and fails at both boundaries.
pub proof fn lemma_trim_by_range(s: Seq<u8>, p: spec_fn(u8) -> bool, lo: int, hi: int)
    requires
        0 <= lo <= hi <= s.len(),
        forall|i: int| 0 <= i < lo ==> p(#[trigger] s[i]),
        forall|i: int| hi <= i < s.len() ==> p(#[trigger] s[i]),
        lo < hi ==> !p(s[lo]) && !p(s[hi - 1]),
    ensures
        trim_by(s, p) == s.subrange(lo, hi),
    decreases s.len(),
{
    if s.len() == 0 {
        assert(s.subrange(0, 0) =~= s);
    } else if p(s[0]) {
        if lo == 0 && hi > 0 {
            assert(false);
        } else if lo == 0 && hi == 0 {
            let s1 = s.drop_first();
            lemma_trim_by_range(s1, p, 0, 0);
            assert(s.subrange(0, 0) =~= s1.subrange(0, 0));
        } else {
            let s1 = s.drop_first();
            assert(forall|i: int| 0 <= i < lo - 1 ==> p(#[trigger] s1[i]));
            assert(forall|i: int| hi - 1 <= i < s1.len() ==> p(#[trigger] s1[i]));
            lemma_trim_by_range(s1, p, lo - 1, hi - 1);
            assert(s1.subrange(lo - 1, hi - 1) =~= s.subrange(lo, hi));
        }
    } else if p(s[s.len() - 1]) {
        if hi == s.len() {
            assert(lo < hi ==> !p(s[hi - 1]));
            assert(lo == hi ==> p(s[0]));
            assert(false);
        } else {
            let s1 = s.drop_last();
            assert(forall|i: int| hi <= i < s1.len() ==> p(#[trigger] s1[i]));
            assert(forall|i: int| 0 <= i < lo ==> p(#[trigger] s1[i]));
            lemma_trim_by_range(s1, p, lo, hi);
            assert(s1.subrange(lo, hi) =~= s.subrange(lo, hi));
        }
    } else {
        assert(lo == 0) by {
            if lo > 0 {
                assert(p(s[0]));
            }
        }
        assert(hi == s.len()) by {
            if hi < s.len() {
                assert(p(s[s.len() - 1]));
            }
        }
        assert(s.subrange(0, s.len() as int) =~= s);
    }
}

/// Whether two byte slices hold the same bytes.
pub fn bytes_eq(a: &[u8], b: &[u8]) -> (r: bool)
    ensures
        r == (a@ == b@),
{
    if a.len() != b.len() {
        assert(a@.len() != b@.len());
        return false;
    }
    let n = a.len();
    let mut i: usize = 0;
    while i < n
        invariant
            i <= n,
            n == a@.len(),
            n == b@.len(),
            forall|j: int| 0 <= j < i ==> a@[j] == b@[j],
        decreases n - i,
    {
        if a[i] != b[i] {
            return false;
        }
        i = i + 1;
    }
    proof {
        assert(a@ =~= b@);
    }
    true
}

/// Copy a byte slice into a fresh vector.
pub fn bytes_to_vec(b: &[u8]) -> (r: Vec<u8>)
    ensures
        r@ == b@,
{
    let n = b.len();
    let mut r: Vec<u8> = Vec::new();
    let mut i: usize = 0;
    while i < n
        invariant
            i <= n,
            n == b@.len(),
            r@.len() == i,
            forall|j: int| 0 <= j < i ==> r@[j] == b@[j],
        decreases n - i,
    {
        r.push(b[i]);
        i = i + 1;
    }
    proof {
        assert(r@ =~= b@);
    }
    r
}

fn is_space_exec(b: u8) -> (r: bool)
    ensures
        r == is_space_b(b),
{
    b == 32 || b == 9 || b == 10 || b == 13 || b == 11 || b == 12
}

/// The cleaned form of a token, as a fresh byte vector.
pub fn clean_token(s: &str) -> (r: Vec<u8>)
    ensures
        r@ == clean_bytes(s.spec_bytes()),
{
    let b = s.as_bytes();
    clean_token_bytes(b)
}

/// The cleaned form of a token given as bytes.
pub fn clean_token_bytes(b: &[u8]) -> (r: Vec<u8>)
    ensures
        r@ == clean_bytes(b@),
{
    let n = b.len();
    let mut lo: usize = 0;
    while lo < n && is_space_exec(b[lo])
        invariant
            lo <= n,
            n == b@.len(),
            forall|i: int| 0 <= i < lo ==> is_space_b(#[trigger] b@[i]),
        decreases n - lo,
    {
        lo = lo + 1;
    }
    let mut hi: usize = n;
    while hi > lo && is_space_exec(b[hi - 1])
        invariant
            lo <= hi <= n,
            n == b@.len(),
            forall|i: int| 0 <= i < lo ==> is_space_b(#[trigger] b@[i]),
            forall|i: int| hi <= i < n ==> is_space_b(#[trigger] b@[i]),
        decreases hi,
    {
        hi = hi - 1;
    }
    proof {
        lemma_trim_by_range(b@, space_pred(), lo as int, hi as int);
    }
    let ghost t1 = b@.subrange(lo as int, hi as int);
    let mut lo2: usize = lo;
    while lo2 < hi && b[lo2] == 34
        invariant
            lo <= lo2 <= hi <= n,
            n == b@.len(),
            forall|i: int| lo <= i < lo2 ==> is_quote_b(#[trigger] b@[i]),
        decreases hi - lo2,
    {
        lo2 = lo2 + 1;
    }
    let mut hi2: usize = hi;
    while hi2 > lo2 && b[hi2 - 1] == 34
        invariant
            lo <= lo2 <= hi2 <= hi <= n,
            n == b@.len(),
            forall|i: int| lo <= i < lo2 ==> is_quote_b(#[trigger] b@[i]),
            forall|i: int| hi2 <= i < hi ==> is_quote_b(#[trigger] b@[i]),
        decreases hi2,
    {
        hi2 = hi2 - 1;
    }
    proof {
        assert(forall|i: int|
            0 <= i < lo2 - lo ==> is_quote_b(#[trigger] t1[i]));
        assert(forall|i: int|
            hi2 - lo <= i < t1.len() ==> is_quote_b(#[trigger] t1[i]));
        lemma_trim_by_range(t1, quote_pred(), lo2 - lo, hi2 - lo);
    }
    let ghost t2 = t1.subrange(lo2 - lo, hi2 - lo);
    let mut r: Vec<u8> = Vec::new();
    let mut i: usize = lo2;
    while i < hi2
        invariant
            lo2 <= i <= hi2 <= n,
            n == b@.len(),
            r@.len() == i - lo2,
            forall|j: int| 0 <= j < i - lo2 ==> r@[j] == lower_b(#[trigger] b@[lo2 + j]),
        decreases hi2 - i,
    {
        let c = b[i];
        if 65 <= c && c <= 90 {
            r.push(c + 32);
        } else {
            r.push(c);
        }
        i = i + 1;
    }
    proof {
        assert(t2.len() == hi2 - lo2);
        assert forall|j: int| 0 <= j < t2.len() implies lower_bytes(t2)[j] == r@[j] by {
            assert(t2[j] == t1[lo2 - lo + j]);
            assert(t1[lo2 - lo + j] == b@[lo2 + j]);
            assert(lower_bytes(t2)[j] == lower_b(t2[j]));
            assert(r@[j] == lower_b(b@[lo2 + j]));
        }
        assert(r@ =~= lower_bytes(t2));
        assert(trim_by(b@, space_pred()) == t1);
        assert(trim_by(t1, quote_pred()) == t2);
    }
    r
}

} // verus!
